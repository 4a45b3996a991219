use proto_lab::{NetworkSimulator, WirelessModemFake};

#[test]
fn worker_lifecycle() {
    let mut simulator = NetworkSimulator::new(1);
    assert_eq!(simulator.ms_per_tick(), 1);
    simulator.create_ether("1");
    {
        let ether = simulator.get_ether_mut("1").expect("ether 1");
        ether.register_driver(WirelessModemFake::new("A"));
        ether.register_driver(WirelessModemFake::new("B"));
    }
    simulator.get_modem_mut("1", "A").unwrap().put_to_rx_pin(b'q');

    simulator.start_running();
    assert!(simulator.is_running());
    let mut seen = None;
    for _ in 0..200 {
        simulator.worker_tick();
        seen = simulator.get_modem_mut("1", "B").unwrap().get_from_tx_pin();
        if seen.is_some() {
            break;
        }
    }
    assert_eq!(seen, Some(b'q'));
    simulator.stop_running();
    assert!(!simulator.is_running());

    simulator.create_ether("2");
    assert!(simulator.get_ether("2").is_some());
}

#[test]
fn synchronous_driving_of_two_ethers() {
    let mut simulator = NetworkSimulator::new(5);
    simulator.create_ether("left");
    simulator.create_ether("right");
    for (ether_name, modems) in [("left", ["l1", "l2"]), ("right", ["r1", "r2"])] {
        let ether = simulator.get_ether_mut(ether_name).unwrap();
        for m in modems {
            ether.register_driver(WirelessModemFake::new(m));
        }
    }
    simulator.get_modem_mut("left", "l1").unwrap().put_to_rx_pin(1);
    simulator.get_modem_mut("right", "r2").unwrap().put_to_rx_pin(2);
    simulator.start_tick();
    simulator.simulate();
    simulator.end_tick();
    assert_eq!(simulator.get_modem_mut("left", "l2").unwrap().get_from_tx_pin(), Some(1));
    assert_eq!(simulator.get_modem_mut("right", "r1").unwrap().get_from_tx_pin(), Some(2));
    assert_eq!(simulator.get_modem_mut("right", "l2").map(|m| m.get_name().to_string()), None);
    assert!(simulator.get_ether("middle").is_none());
    assert!(simulator.get_modem_mut("middle", "l1").is_none());
}
