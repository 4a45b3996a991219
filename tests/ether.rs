use proto_lab::{EtherSimulator, WirelessModemFake};

fn tick(ether: &mut EtherSimulator) {
    ether.start_tick();
    ether.simulate();
    ether.end_tick();
}

fn pop(ether: &mut EtherSimulator, name: &str) -> Option<u8> {
    ether.get_driver_mut(name).expect("registered").get_from_tx_pin()
}

#[test]
fn test_of_collisions() {
    let mut ether = EtherSimulator::new("ether");

    ether.register_driver(WirelessModemFake::new("modem_1"));
    ether.register_driver(WirelessModemFake::new("modem_2"));
    ether.register_driver(WirelessModemFake::new("modem_3"));

    let bytes_from_senging_modem_1 = vec![b'a', b'b', b'c', b'd', b'e'];
    let bytes_from_sending_modem_2 = vec![b'f', b'g', b'h', b'i', b'j'];

    for b in bytes_from_senging_modem_1.iter() {
        ether.get_driver_mut("modem_1").unwrap().put_to_rx_pin(*b);
    }
    for b in bytes_from_sending_modem_2.iter() {
        ether.get_driver_mut("modem_2").unwrap().put_to_rx_pin(*b);
    }

    let mut num_caught_from_modem_1: usize = 0;
    let mut num_caught_from_modem_2: usize = 0;
    let mut total_bytes_received: usize = 0;

    tick(&mut ether);
    while let Some(got_byte) = pop(&mut ether, "modem_3") {
        total_bytes_received += 1;
        if bytes_from_senging_modem_1.contains(&got_byte) {
            num_caught_from_modem_1 += 1;
        } else if bytes_from_sending_modem_2.contains(&got_byte) {
            num_caught_from_modem_2 += 1;
        } else {
            panic!("Unexpected scenario. Caught byte which has not been sent");
        }
        tick(&mut ether);
    }

    assert!(num_caught_from_modem_1 > 0);
    assert!(num_caught_from_modem_1 < 5);

    assert!(num_caught_from_modem_2 > 0);
    assert!(num_caught_from_modem_2 < 5);

    assert!(total_bytes_received == 5);
}

#[test]
fn collisions_alternate_from_the_first_name() {
    let mut ether = EtherSimulator::new("ether");
    ether.register_driver(WirelessModemFake::new("modem_1"));
    ether.register_driver(WirelessModemFake::new("modem_2"));
    ether.register_driver(WirelessModemFake::new("modem_3"));
    ether.get_driver_mut("modem_1").unwrap().write(b"abcde").unwrap();
    ether.get_driver_mut("modem_2").unwrap().write(b"fghij").unwrap();
    for _ in 0..5 {
        tick(&mut ether);
    }
    let mut buf = [0u8; 8];
    let n = ether.get_driver_mut("modem_3").unwrap().read(&mut buf).unwrap();
    assert_eq!(&buf[..n], b"agcie");
    assert_eq!(pop(&mut ether, "modem_1"), None);
    assert_eq!(pop(&mut ether, "modem_2"), None);
}

#[test]
fn order_of_names_not_of_registration_decides() {
    let mut ether = EtherSimulator::new("ether");
    ether.register_driver(WirelessModemFake::new("zeta"));
    ether.register_driver(WirelessModemFake::new("alpha"));
    ether.register_driver(WirelessModemFake::new("listener"));
    ether.get_driver_mut("zeta").unwrap().write(&[1, 2, 3, 4]).unwrap();
    ether.get_driver_mut("alpha").unwrap().write(&[5, 6, 7, 8]).unwrap();
    let mut heard = Vec::new();
    for _ in 0..4 {
        tick(&mut ether);
        heard.push(pop(&mut ether, "listener").unwrap());
    }
    assert_eq!(heard, vec![5, 2, 7, 4]);
}

#[test]
fn collision_counts_stay_within_half() {
    let n: usize = 9;
    let mut ether = EtherSimulator::new("ether");
    ether.register_driver(WirelessModemFake::new("a"));
    ether.register_driver(WirelessModemFake::new("b"));
    ether.register_driver(WirelessModemFake::new("c"));
    for _ in 0..n {
        ether.get_driver_mut("a").unwrap().put_to_rx_pin(1);
        ether.get_driver_mut("b").unwrap().put_to_rx_pin(2);
    }
    let mut from_a = 0usize;
    let mut from_b = 0usize;
    for _ in 0..n {
        tick(&mut ether);
        match pop(&mut ether, "c") {
            Some(1) => from_a += 1,
            Some(2) => from_b += 1,
            other => panic!("unexpected {:?}", other),
        }
    }
    assert_eq!(from_a, 5);
    assert_eq!(from_b, 4);
}

#[test]
fn single_broadcaster_propagation() {
    let mut ether = EtherSimulator::new("E");
    ether.register_driver(WirelessModemFake::new("M1"));
    ether.register_driver(WirelessModemFake::new("M2"));
    ether.register_driver(WirelessModemFake::new("M3"));
    for b in [b'x', b'y', b'z'] {
        ether.get_driver_mut("M1").unwrap().put_to_rx_pin(b);
    }
    for _ in 0..3 {
        tick(&mut ether);
        assert_eq!(pop(&mut ether, "M1"), None);
    }
    for name in ["M2", "M3"] {
        assert_eq!(pop(&mut ether, name), Some(b'x'));
        assert_eq!(pop(&mut ether, name), Some(b'y'));
        assert_eq!(pop(&mut ether, name), Some(b'z'));
        assert_eq!(pop(&mut ether, name), None);
    }
}

#[test]
fn one_sender_reaches_the_other_in_order() {
    let mut ether = EtherSimulator::new("ether");
    ether.register_driver(WirelessModemFake::new("A"));
    ether.register_driver(WirelessModemFake::new("B"));
    ether.get_driver_mut("A").unwrap().write(&[9, 8, 7, 9]).unwrap();
    for _ in 0..6 {
        tick(&mut ether);
    }
    let mut buf = [0u8; 6];
    assert_eq!(ether.get_driver_mut("B").unwrap().read(&mut buf), Ok(4));
    assert_eq!(&buf[..4], &[9, 8, 7, 9]);
    assert_eq!(pop(&mut ether, "A"), None);
}

#[test]
fn lone_modem_hears_nothing() {
    let mut ether = EtherSimulator::new("ether");
    ether.register_driver(WirelessModemFake::new("solo"));
    ether.get_driver_mut("solo").unwrap().write(&[1, 2, 3]).unwrap();
    for _ in 0..5 {
        tick(&mut ether);
        assert!(!ether.get_driver("solo").unwrap().readable());
    }
    ether.start_tick();
    assert_eq!(ether.get_driver("solo").unwrap().get_from_device_network_side(), None);
    ether.end_tick();
}

#[test]
fn same_named_devices_collapse_to_the_last() {
    let mut ether = EtherSimulator::new("ether");
    ether.register_driver(WirelessModemFake::new("twin"));
    ether.register_driver(WirelessModemFake::new("twin"));
    ether.register_driver(WirelessModemFake::new("ear"));
    ether.get_driver_mut("twin").unwrap().put_to_rx_pin(1);
    let mut second = WirelessModemFake::new("twin");
    second.put_to_rx_pin(2);
    ether.unregister_driver("twin");
    assert!(ether.get_driver("twin").is_none());
    let mut first = WirelessModemFake::new("twin");
    first.put_to_rx_pin(1);
    ether.register_driver(first);
    ether.register_driver(second);
    tick(&mut ether);
    assert_eq!(pop(&mut ether, "ear"), Some(2));
}

#[test]
fn registry_lookup_and_removal() {
    let mut ether = EtherSimulator::new("my_ether");
    assert_eq!(ether.get_name(), "my_ether");
    assert!(ether.get_driver("my_modem").is_none());
    assert!(!ether.has_driver("my_modem"));
    ether.register_driver(WirelessModemFake::new("my_modem"));
    ether.register_driver(WirelessModemFake::new("other"));
    assert_eq!(ether.get_driver("my_modem").unwrap().get_name(), "my_modem");
    assert!(ether.has_driver("other"));
    ether.unregister_driver("my_modem");
    assert!(ether.get_driver("my_modem").is_none());
    assert!(ether.get_driver("other").is_some());
    ether.unregister_driver("missing");
    assert!(ether.get_driver("other").is_some());
}

#[test]
fn copy_of_an_ether_keeps_its_state() {
    let mut ether = EtherSimulator::new("my_ether");
    ether.register_driver(WirelessModemFake::new("m"));
    ether.get_driver_mut("m").unwrap().put_to_rx_pin(4);
    let mut copy = ether.clone();
    assert_eq!(copy.get_name(), ether.get_name());
    copy.start_tick();
    assert_eq!(copy.get_driver("m").unwrap().get_from_device_network_side(), Some(4));
    copy.end_tick();
}

#[test]
fn empty_ether_ticks() {
    let mut ether = EtherSimulator::new("");
    tick(&mut ether);
    assert!(ether.get_driver("").is_none());
}
