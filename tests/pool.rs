use netsim::descriptor::{DescriptorGuard, DescriptorGuardManager};

#[test]
fn ephemeral_test() {
    let mut fd_manager = DescriptorGuardManager::new(1, 2);

    let fd_guard_1 = fd_manager.ephemeral().unwrap();
    let fd_guard_2 = fd_manager.ephemeral().unwrap();

    assert_ne!(fd_guard_1.id(), fd_guard_2.id());
}

#[test]
fn overlap_test() {
    let mut fd_manager = DescriptorGuardManager::new(1, 5);

    assert!(fd_manager.register(1).is_some());
    assert!(fd_manager.register(1).is_none());
}

#[test]
fn two_ids_scenario() {
    let mut pool = DescriptorGuardManager::new(1, 2);
    let a = pool.ephemeral().unwrap();
    let b = pool.ephemeral().unwrap();
    let mut ids = vec![a.id(), b.id()];
    ids.sort();
    assert_eq!(ids, vec![1, 2]);
    assert!(pool.ephemeral().is_none());
    let released = a.id();
    pool.release(a);
    let again = pool.ephemeral().unwrap();
    assert_eq!(again.id(), released);
    assert!(pool.ephemeral().is_none());
    drop(b);
}

#[test]
fn exhaustion_after_size_claims() {
    let mut pool = DescriptorGuardManager::new(10, 19);
    let mut guards = Vec::new();
    for _ in 0..10 {
        guards.push(pool.ephemeral().unwrap());
    }
    assert!(pool.ephemeral().is_none());
    let mut ids: Vec<u64> = guards.iter().map(|g| g.id()).collect();
    ids.sort();
    assert_eq!(ids, (10..=19).collect::<Vec<u64>>());
}

#[test]
fn round_trip_claim_release_claim() {
    let mut pool = DescriptorGuardManager::new(1, 5);
    let g = pool.register(3).unwrap();
    assert_eq!(g.id(), 3);
    assert!(pool.register(3).is_none());
    pool.release(g);
    let g = pool.register(3).unwrap();
    assert_eq!(g.id(), 3);
}

#[test]
fn register_out_of_range_fails() {
    let mut pool = DescriptorGuardManager::new(1, 5);
    assert!(pool.register(0).is_none());
    assert!(pool.register(6).is_none());
    assert!(pool.register(5).is_some());
}

#[test]
fn empty_range_is_exhausted() {
    let mut pool = DescriptorGuardManager::new(5, 4);
    assert!(pool.ephemeral().is_none());
    assert!(pool.register(5).is_none());
}

#[test]
fn single_id_at_top_of_u64() {
    let mut pool = DescriptorGuardManager::new(u64::MAX, u64::MAX);
    let g = pool.ephemeral().unwrap();
    assert_eq!(g.id(), u64::MAX);
    assert!(pool.ephemeral().is_none());
}

#[test]
fn guard_equality_is_by_id() {
    assert_eq!(DescriptorGuard::new(4), DescriptorGuard::new(4));
    assert_ne!(DescriptorGuard::new(4), DescriptorGuard::new(5));
    assert_eq!(DescriptorGuard::new(9).id(), 9);
}
