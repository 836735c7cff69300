use tinymesh_cc_tool::data_types::{MkDeviceCell, MkDeviceConfig};
use tinymesh_cc_tool::tinymesh_calibration_mod::get_bytes_to_send_for_calib_change;
use tinymesh_cc_tool::tinymesh_config_mod::{
    extract_send_recv_seq, get_bytes_to_send_for_config_change, mode_response_matches,
    write_session_advance, WriteSession,
};
use tinymesh_cc_tool::tinymesh_device_info_mod::{rf_channel_bounds, temperature_celsius};
use tinymesh_cc_tool::tinymesh_serial_util::{
    process_sentinel_stream, rx_event_payload, sentinel_event_data, tx_event_payload,
};

fn cell(address: usize, current_value: u8) -> MkDeviceCell {
    let mut c = MkDeviceCell::default();
    c.address = address;
    c.current_value = current_value;
    c
}

fn config_with_cells(cells: Vec<MkDeviceCell>) -> MkDeviceConfig {
    MkDeviceConfig {
        model: "RF TM4070".to_string(),
        hw_version: "1.00".to_string(),
        firmware_version: "1.53".to_string(),
        cells,
        test_modes: vec![],
        quick_modes: vec![],
        editable_cells: vec![],
        locked_cells: vec![],
    }
}

#[test]
fn test_config_delta_encodes_changed_cells_with_terminator() {
    let previous = config_with_cells(vec![cell(0, 1), cell(1, 7), cell(2, 9)]);
    let edited = vec![cell(0, 1), cell(1, 8), cell(2, 200)];
    let bytes = get_bytes_to_send_for_config_change(&previous, &edited);
    assert_eq!(bytes, vec![1, 8, 2, 200, 0xff]);
}

#[test]
fn test_config_delta_empty_when_nothing_differs() {
    let previous = config_with_cells(vec![cell(0, 1), cell(1, 7)]);
    let edited = vec![cell(0, 1), cell(1, 7)];
    let bytes = get_bytes_to_send_for_config_change(&previous, &edited);
    assert!(bytes.is_empty());
}

#[test]
fn test_calib_delta_encodes_changed_cells() {
    let previous = tinymesh_cc_tool::data_types::MkDeviceCalib {
        model: "RF TM4070".to_string(),
        calibration_cells: vec![cell(0, 10), cell(1, 20)],
        c_editable_cells: vec![],
        c_locked_cells: vec![],
    };
    let edited = vec![cell(0, 10), cell(1, 21)];
    let bytes = get_bytes_to_send_for_calib_change(&previous, &edited);
    assert_eq!(bytes, vec![1, 21, 0xff]);
}

#[test]
fn test_sentinel_read_accumulates_until_sentinel() {
    let outcome = process_sentinel_stream(b"AB>");
    assert_eq!(outcome.data, vec![b'A', b'B']);
    assert!(outcome.complete);
    assert_eq!(outcome.consumed, 3);
    assert_eq!(sentinel_event_data(&outcome.data), vec![b'A', b'B', b'>']);
}

#[test]
fn test_sentinel_read_without_sentinel_stays_open() {
    let outcome = process_sentinel_stream(b"AB");
    assert_eq!(outcome.data, vec![b'A', b'B']);
    assert!(!outcome.complete);
    assert_eq!(outcome.consumed, 2);
}

#[test]
fn test_sentinel_read_stops_at_first_sentinel() {
    let outcome = process_sentinel_stream(b">CD>");
    assert!(outcome.data.is_empty());
    assert!(outcome.complete);
    assert_eq!(outcome.consumed, 1);
}

#[test]
fn test_event_payloads_carry_direction_tags() {
    let tx = tx_event_payload(vec![0x30]);
    assert_eq!(tx.data_type, "TX");
    assert_eq!(tx.data, vec![0x30]);
    let rx = rx_event_payload(vec![b'A', b'>']);
    assert_eq!(rx.data_type, "RX");
    assert_eq!(rx.data, vec![b'A', b'>']);
}

#[test]
fn test_extract_send_recv_seq_splits_script() {
    let (send, recv) = extract_send_recv_seq("aG #>").unwrap();
    assert_eq!(send, vec![b'G']);
    assert_eq!(recv, vec![b'>']);
    assert!(extract_send_recv_seq("aG").is_none());
    assert!(extract_send_recv_seq("aG #> extra").is_none());
}

#[test]
fn test_extract_send_recv_seq_strips_one_marker() {
    // Only a single leading marker comes off, so a payload beginning with
    // the marker character stays expressible.
    let (send, recv) = extract_send_recv_seq("aaG ##>").unwrap();
    assert_eq!(send, vec![b'a', b'G']);
    assert_eq!(recv, vec![b'#', b'>']);
}

#[test]
fn test_write_session_advances_on_empty_acks_only() {
    let s = WriteSession::AwaitingSessionAck;
    let s = write_session_advance(s, &[]);
    assert_eq!(s, WriteSession::AwaitingDeltaAck);
    let accepted = write_session_advance(s, &[]);
    assert_eq!(accepted, WriteSession::Accepted);
    let rejected = write_session_advance(s, &[b'?']);
    assert_eq!(rejected, WriteSession::Rejected);
    assert_eq!(
        write_session_advance(WriteSession::AwaitingSessionAck, &[b'E']),
        WriteSession::Rejected
    );
}

#[test]
fn test_rf_channel_bounds_come_from_the_named_cell() {
    let mut channel = cell(0, 1);
    channel.name = "RF Channel".to_string();
    channel.min_value = 1;
    channel.max_value = 10;
    let config = config_with_cells(vec![channel, cell(1, 0)]);
    assert_eq!(rf_channel_bounds(&config), (1, 10));
    let without = config_with_cells(vec![cell(0, 1)]);
    assert_eq!(rf_channel_bounds(&without), (0, 0));
}

#[test]
fn test_mode_response_matching() {
    // Sentinel-terminated expectation: the received frame omits the sentinel.
    assert!(mode_response_matches(&[b'O', b'K', b'>'], &[b'O', b'K']));
    assert!(!mode_response_matches(&[b'O', b'K', b'>'], &[b'O', b'K', b'>']));
    // Plain expectation: byte-for-byte.
    assert!(mode_response_matches(&[b'O', b'K'], &[b'O', b'K']));
    assert!(!mode_response_matches(&[b'O', b'K'], &[b'O']));
}

#[test]
fn test_delta_round_trip_applies_edits() {
    // Encoding the differences and applying the address/value pairs onto the
    // previous raw bytes yields the edited values everywhere.
    let raw: Vec<u8> = vec![1, 7, 9, 200];
    let previous = config_with_cells(vec![cell(0, 1), cell(1, 7), cell(2, 9), cell(3, 200)]);
    let edited = vec![cell(0, 5), cell(1, 7), cell(2, 10), cell(3, 200)];
    let bytes = get_bytes_to_send_for_config_change(&previous, &edited);
    assert_eq!(bytes, vec![0, 5, 2, 10, 0xff]);
    let mut applied = raw.clone();
    let mut i = 0;
    while i + 1 < bytes.len() {
        applied[bytes[i] as usize] = bytes[i + 1];
        i += 2;
    }
    assert_eq!(applied, vec![5, 7, 10, 200]);
}

#[test]
fn test_temperature_conversion() {
    assert_eq!(temperature_celsius(128), 0);
    assert_eq!(temperature_celsius(153), 25);
    assert_eq!(temperature_celsius(100), -28);
}
