use proto_lab::{AntennaState, WirelessModemFake};

#[test]
fn test_half_duplex_send_per_tick() {
    let mut modem_device = WirelessModemFake::new("");
    modem_device.start_tick();
    modem_device.put_to_device_network_side(b'a');
    modem_device.put_to_rx_pin(b'b');
    modem_device.end_tick();

    let byte_on_tx_pin = modem_device.get_from_tx_pin();

    modem_device.start_tick();
    assert_eq!(modem_device.get_from_device_network_side(), Some(b'b'));
    modem_device.end_tick();
    assert_eq!(byte_on_tx_pin, Some(b'a'));
}

#[test]
fn test_data_collision_per_tick() {
    let mut modem_device = WirelessModemFake::new("");
    modem_device.start_tick();
    modem_device.put_to_device_network_side(b'a');
    modem_device.put_to_device_network_side(b'b');
    modem_device.put_to_device_network_side(b'c');
    modem_device.end_tick();
    assert_eq!(modem_device.get_from_tx_pin(), Some(b'c'));
}

#[test]
fn latest_network_byte_wins_then_nothing() {
    let mut m = WirelessModemFake::new("m");
    m.start_tick();
    m.put_to_device_network_side(b'a');
    m.put_to_device_network_side(b'b');
    m.put_to_device_network_side(b'c');
    m.end_tick();
    assert_eq!(m.get_from_tx_pin(), Some(b'c'));
    assert_eq!(m.get_from_tx_pin(), None);
}

#[test]
fn byte_put_after_start_tick_waits_for_next_tick() {
    let mut m = WirelessModemFake::new("m");
    m.start_tick();
    assert_eq!(m.get_from_device_network_side(), None);
    m.put_to_rx_pin(b'b');
    assert_eq!(m.get_from_device_network_side(), None);
    m.end_tick();
    m.start_tick();
    assert_eq!(m.get_from_device_network_side(), Some(b'b'));
    m.end_tick();
}

#[test]
fn transmitting_modem_does_not_hear() {
    let mut m = WirelessModemFake::new("m");
    m.put_to_rx_pin(7);
    m.start_tick();
    m.put_to_device_network_side(9);
    assert_eq!(m.get_from_device_network_side(), Some(7));
    m.end_tick();
    assert!(!m.readable());
    assert_eq!(m.get_from_tx_pin(), None);
}

#[test]
fn ticks_are_idempotent_at_their_boundaries() {
    let mut m = WirelessModemFake::new("m");
    m.put_to_rx_pin(1);
    m.put_to_rx_pin(2);
    m.start_tick();
    m.start_tick();
    assert_eq!(m.get_from_device_network_side(), Some(1));
    m.end_tick();
    m.end_tick();
    m.start_tick();
    assert_eq!(m.get_from_device_network_side(), Some(2));
    m.end_tick();
}

#[test]
fn written_bytes_stay_queued_without_ticks() {
    let mut m = WirelessModemFake::new("m");
    assert_eq!(m.write(&[1, 2, 3, 4]), Ok(4));
    assert!(!m.readable());
    let mut buf = [0u8; 4];
    assert_eq!(m.read(&mut buf), Ok(0));
    for expected in [1u8, 2, 3, 4] {
        m.start_tick();
        assert_eq!(m.get_from_device_network_side(), Some(expected));
        m.end_tick();
    }
    m.start_tick();
    assert_eq!(m.get_from_device_network_side(), None);
    m.end_tick();
}

#[test]
fn read_fills_a_prefix() {
    let mut m = WirelessModemFake::new("m");
    for b in [5u8, 6] {
        m.start_tick();
        m.put_to_device_network_side(b);
        m.end_tick();
    }
    assert!(m.readable());
    assert_eq!(m.read_ready(), Ok(true));
    let mut buf = [0xffu8; 4];
    assert_eq!(m.read(&mut buf), Ok(2));
    assert_eq!(buf, [5, 6, 0xff, 0xff]);
    assert!(!m.readable());
    assert_eq!(m.read_ready(), Ok(false));
}

#[test]
fn read_stops_at_buffer_length() {
    let mut m = WirelessModemFake::new("m");
    for b in [1u8, 2, 3] {
        m.start_tick();
        m.put_to_device_network_side(b);
        m.end_tick();
    }
    let mut buf = [0u8; 2];
    assert_eq!(m.read(&mut buf), Ok(2));
    assert_eq!(buf, [1, 2]);
    assert_eq!(m.get_from_tx_pin(), Some(3));
}

#[test]
fn empty_write_and_flush() {
    let mut m = WirelessModemFake::new("m");
    assert_eq!(m.write(&[]), Ok(0));
    assert_eq!(m.flush(), Ok(()));
    assert!(m.writable());
}

#[test]
fn name_and_copy() {
    let mut m = WirelessModemFake::new("my_modem");
    assert_eq!(m.get_name(), "my_modem");
    m.put_to_rx_pin(3);
    let mut c = m.clone();
    assert_eq!(c.get_name(), "my_modem");
    c.start_tick();
    assert_eq!(c.get_from_device_network_side(), Some(3));
    c.end_tick();
}

#[test]
fn antenna_state_compares() {
    assert_eq!(AntennaState::Transmit(1), AntennaState::Transmit(1));
    assert_ne!(AntennaState::Transmit(1), AntennaState::Receive(1));
}
