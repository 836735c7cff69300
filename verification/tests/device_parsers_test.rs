use tinymesh_cc_tool::device_calibration_parser::parse_device_calib;
use tinymesh_cc_tool::device_config_parser::{get_device_information, parse_device_config};

fn sample_description() -> String {
    [
        "[DEVICE_MODEL]",
        "RF TM4070",
        "[M 0x00 NAME]",
        "RF Channel",
        "[M 0x00 DEF]",
        "1",
        "[M 0x00 MIN_MAX]",
        "1 10",
        "[C 0x01 NAME]",
        "Crystal trim",
    ]
    .join("\n")
}

/// A raw configuration buffer whose header at offset 60 reads
/// `RF TM4070,1.00,1.53` followed by a non-ASCII byte.
fn sample_config_buffer() -> Vec<u8> {
    let mut data = vec![0u8; 60];
    data[0] = 4;
    data.extend_from_slice(b"RF TM4070,1.00,1.53");
    data.push(0xff);
    data
}

#[test]
fn device_config_parser_test_test_device_information() {
    let data = sample_config_buffer();
    let rmd = sample_description();
    let device_config = parse_device_config(&data, &rmd).unwrap();
    assert_eq!(device_config.model, "RF TM4070");
    assert_eq!(device_config.hw_version, "1.00");
    assert_eq!(device_config.firmware_version, "1.53");
}

#[test]
fn device_calibration_parser_test_test_device_information() {
    let data = vec![7u8, 42u8, 9u8];
    let rmd = sample_description();
    let device_calib = parse_device_calib(&data, "RF TM4070".to_string(), &rmd).unwrap();
    assert_eq!(device_calib.model, "RF TM4070");
    assert_eq!(device_calib.calibration_cells.len(), 3);
    assert_eq!(device_calib.calibration_cells[1].name.as_str(), "Crystal trim");
    assert_eq!(device_calib.calibration_cells[1].current_value, 42);
}

#[test]
fn test_header_fields_cut_at_delimiters() {
    let data = sample_config_buffer();
    let (model, hw, fw) = get_device_information(&data).unwrap();
    assert_eq!(model, "RF TM4070");
    assert_eq!(hw, "1.00");
    assert_eq!(fw, "1.53");
}

#[test]
fn test_firmware_version_capped_at_four_bytes() {
    let mut data = vec![0u8; 60];
    data.extend_from_slice(b"M,1.0,123456");
    data.push(0x80);
    let (_, _, fw) = get_device_information(&data).unwrap();
    assert_eq!(fw, "1234");
}

#[test]
fn test_short_buffer_is_invalid() {
    let data = vec![0u8; 60];
    assert_eq!(get_device_information(&data).unwrap_err(), "Invalid data format");
}

#[test]
fn test_missing_model_delimiter_is_invalid() {
    let mut data = vec![0u8; 60];
    data.extend_from_slice(b"RF TM4070");
    assert_eq!(
        get_device_information(&data).unwrap_err(),
        "Invalid data format. Could not find model end"
    );
}

#[test]
fn test_missing_hw_delimiter_is_invalid() {
    let mut data = vec![0u8; 60];
    data.extend_from_slice(b"RF TM4070,1.00");
    assert_eq!(
        get_device_information(&data).unwrap_err(),
        "Invalid data format. Could not find hw end"
    );
}

#[test]
fn test_firmware_version_without_terminator_takes_four_bytes() {
    // Four or more ASCII bytes after the second comma succeed even when no
    // non-ASCII byte ever comes: the scan stops at four bytes first.
    let mut data = vec![0u8; 60];
    data.extend_from_slice(b"RF TM4070,1.00,1.53999");
    let (_, _, fw) = get_device_information(&data).unwrap();
    assert_eq!(fw, "1.53");
}

#[test]
fn test_missing_fw_end_is_invalid() {
    // The buffer ends within fewer than four all-ASCII firmware bytes.
    let mut data = vec![0u8; 60];
    data.extend_from_slice(b"RF TM4070,1.00,1.5");
    assert_eq!(
        get_device_information(&data).unwrap_err(),
        "Invalid data format. Could not find fw end"
    );
}

#[test]
fn test_buffer_longer_than_cell_table_is_rejected() {
    let mut data = vec![0u8; 60];
    data.extend_from_slice(b"RF TM4070,1.00,1.53");
    data.push(0xff);
    data.resize(300, 0);
    let err = parse_device_config(&data, &sample_description()).unwrap_err();
    assert_eq!(err, "device data is larger than the schema cell table");
    let err = parse_device_calib(&data, "RF TM4070".to_string(), &sample_description())
        .unwrap_err();
    assert_eq!(err, "device data is larger than the schema cell table");
}

#[test]
fn test_overlay_keeps_schema_and_takes_current_values() {
    let data = sample_config_buffer();
    let rmd = sample_description();
    let device_config = parse_device_config(&data, &rmd).unwrap();
    assert_eq!(device_config.cells.len(), data.len());
    assert_eq!(device_config.cells[0].name.as_str(), "RF Channel");
    assert_eq!(device_config.cells[0].default_value, 1);
    assert_eq!(device_config.cells[0].current_value, 4);
    assert_eq!(device_config.cells[61].current_value, b'F');
    for (i, cell) in device_config.cells.iter().enumerate() {
        assert_eq!(cell.address, i);
        assert_eq!(cell.current_value, data[i]);
    }
}
