use netsim::addr::{IpAddr, SocketAddr};
use netsim::sim::{Config, HostStep, RunStep, Sim};

fn host(n: u8) -> SocketAddr {
    SocketAddr::new(IpAddr::v4(10, 0, 0, n), 1000)
}

fn config() -> Config {
    Config { tick: 1_000_000, duration: 3_000_000 }
}

#[test]
fn hosts_ticked_in_registration_order() {
    let mut sim = Sim::new(config());
    sim.register(host(3));
    sim.client(host(1));
    sim.register(host(2));
    let expected = vec![HostStep::Run(host(3)), HostStep::Advance(host(1)), HostStep::Run(host(2))];
    assert_eq!(sim.tick_plan(), expected);
    assert_eq!(sim.tick_plan(), expected);
}

#[test]
fn reregistering_keeps_place() {
    let mut sim = Sim::new(config());
    sim.register(host(1));
    sim.register(host(2));
    sim.client(host(1));
    assert_eq!(sim.tick_plan(), vec![HostStep::Advance(host(1)), HostStep::Run(host(2))]);
}

#[test]
fn ipv4_and_ipv6_hosts_are_distinct() {
    let mut sim = Sim::new(config());
    sim.register(SocketAddr::new(IpAddr::V4(1), 1));
    sim.register(SocketAddr::new(IpAddr::V6(1), 1));
    assert_eq!(sim.tick_plan().len(), 2);
}

#[test]
fn completed_driver_ends_run() {
    let sim = Sim::new(config());
    assert!(matches!(sim.run_step(0, true), RunStep::Completed));
}

#[test]
fn deadline_trips_first_time_past_duration() {
    let mut sim = Sim::new(config());
    sim.register(host(1));
    let mut elapsed = 0u64;
    let mut ticks = 0;
    loop {
        match sim.run_step(elapsed, false) {
            RunStep::Tick { hosts, elapsed: e } => {
                assert_eq!(hosts, vec![HostStep::Run(host(1))]);
                elapsed = e;
                ticks += 1;
            }
            RunStep::TickThenFail { hosts } => {
                assert_eq!(hosts.len(), 1);
                ticks += 1;
                break;
            }
            RunStep::Completed => panic!("the driver never completes"),
        }
    }
    assert_eq!(elapsed, 3_000_000);
    assert_eq!(ticks, 4);
}

#[test]
fn elapsed_overflow_fails() {
    let sim = Sim::new(Config { tick: 10, duration: u64::MAX });
    assert!(matches!(sim.run_step(u64::MAX - 5, false), RunStep::TickThenFail { .. }));
    assert!(matches!(sim.run_step(u64::MAX - 10, false), RunStep::Tick { elapsed: u64::MAX, .. }));
}
