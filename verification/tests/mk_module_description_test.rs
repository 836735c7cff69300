use tinymesh_cc_tool::mk_module_description::MkModuleDescription;

fn sample_description() -> String {
    [
        "// RF TM4070 module description",
        "[DEVICE_MODEL]",
        "RF TM4070",
        "[TESTMODE NUMBER]",
        "2",
        "[TESTMODE 1 NAME]",
        "Carrier on",
        "[TESTMODE 1 SEQUENCE_ON]",
        "aG #>",
        "[TESTMODE 1 SEQUENCE_OFF]",
        "aX #>",
        "[QUICKMODE NUMBER]",
        "1",
        "[QUICKMODE 1 NAME]",
        "Fast poll",
        "[M EDITABLE_CELLS]",
        "0x00 0x01 4",
        "[M LOCKED_CELLS]",
        "0x03 bad 7",
        "[C EDITABLE_CELLS]",
        "1 2",
        "[C LOCKED_CELLS]",
        "0x10",
        "[M 0x00 NAME]",
        "RF Channel",
        "[M 0x00 DEF]",
        "1",
        "[M 0x00 MIN_MAX]",
        "1 10",
        "[M 0x00 ALLOW]",
        "1 2 3 4 5 6 7 8 9 10",
        "[M 0x2C HINT]",
        "Output power",
        "[C 0x01 DEF]",
        "128",
        "[EXTRA SECTION]",
        "left alone",
    ]
    .join("\n")
}

#[test]
fn test_device_model_extracted_and_consumed() {
    let md = MkModuleDescription::new(&sample_description()).unwrap();
    assert_eq!(md.device_model.as_str(), "RF TM4070");
    assert!(md.unknown_data.get("DEVICE_MODEL").is_none());
    assert!(md.unknown_data.get("EXTRA SECTION").is_some());
}

#[test]
fn test_cell_table_has_256_entries_with_own_addresses() {
    let md = MkModuleDescription::new(&sample_description()).unwrap();
    assert_eq!(md.cells.len(), 256);
    assert_eq!(md.calibration_cells.len(), 256);
    for (i, cell) in md.cells.iter().enumerate() {
        assert_eq!(cell.address, i);
    }
    for (i, cell) in md.calibration_cells.iter().enumerate() {
        assert_eq!(cell.address, i);
    }
}

#[test]
fn test_cell_attributes_applied() {
    let md = MkModuleDescription::new(&sample_description()).unwrap();
    let cell = &md.cells[0];
    assert_eq!(cell.name.as_str(), "RF Channel");
    assert_eq!(cell.default_value, 1);
    assert_eq!(cell.current_value, 1);
    assert_eq!(cell.min_value, 1);
    assert_eq!(cell.max_value, 10);
    assert_eq!(cell.allowed_values, vec![1, 2, 3, 4, 5, 6, 7, 8, 9, 10]);
    assert_eq!(md.cells[0x2c].description.as_str(), "Output power");
    assert_eq!(md.calibration_cells[1].default_value, 128);
    assert_eq!(md.calibration_cells[1].current_value, 128);
}

#[test]
fn test_address_lists_parsed_with_bad_tokens_dropped() {
    let md = MkModuleDescription::new(&sample_description()).unwrap();
    assert_eq!(md.editable_cells, vec![0, 1, 4]);
    assert_eq!(md.locked_cells, vec![3, 7]);
    assert_eq!(md.c_editable_cells, vec![1, 2]);
    assert_eq!(md.c_locked_cells, vec![16]);
}

#[test]
fn test_mode_sequences_extracted_in_order() {
    let md = MkModuleDescription::new(&sample_description()).unwrap();
    assert_eq!(md.number_of_testmodes, 2);
    assert_eq!(md.testmodes.len(), 2);
    assert_eq!(md.testmodes[0].testmode_id, 1);
    assert_eq!(md.testmodes[0].name.as_str(), "Carrier on");
    assert_eq!(md.testmodes[0].sequence_on.as_str(), "aG #>");
    assert_eq!(md.testmodes[0].sequence_off.as_str(), "aX #>");
    assert_eq!(md.testmodes[1].testmode_id, 2);
    assert_eq!(md.testmodes[1].name.as_str(), "");
    assert_eq!(md.number_of_quickmodes, 1);
    assert_eq!(md.quickmodes[0].name.as_str(), "Fast poll");
    assert!(md.unknown_data.get("TESTMODE 1 NAME").is_none());
}

#[test]
fn test_high_address_grows_table() {
    let text = "[M 0x105 NAME]\nbeyond\n";
    let md = MkModuleDescription::new(text).unwrap();
    assert_eq!(md.cells.len(), 0x106);
    assert_eq!(md.cells[0x105].name.as_str(), "beyond");
    for (i, cell) in md.cells.iter().enumerate() {
        assert_eq!(cell.address, i);
    }
    assert_eq!(md.calibration_cells.len(), 256);
}

#[test]
fn test_bad_default_value_fails() {
    let text = "[M 0x00 DEF]\nabc\n";
    let r = MkModuleDescription::new(text);
    assert_eq!(r.unwrap_err().as_str(), "invalid cell attribute value");
}

#[test]
fn test_bad_testmode_number_degrades_to_zero() {
    // Only malformed numeric cell attributes are fatal; a count that is no
    // number degrades to zero, its section still consumed.
    let text = "[TESTMODE NUMBER]\nmany\n";
    let md = MkModuleDescription::new(text).unwrap();
    assert_eq!(md.number_of_testmodes, 0);
    assert!(md.testmodes.is_empty());
    assert!(md.unknown_data.get("TESTMODE NUMBER").is_none());
}

#[test]
fn test_min_max_without_space_fails() {
    let text = "[M 0x00 MIN_MAX]\n7\n";
    let r = MkModuleDescription::new(text);
    assert_eq!(r.unwrap_err().as_str(), "invalid cell attribute value");
}

#[test]
fn test_bad_quickmode_number_degrades_to_zero() {
    let text = "[QUICKMODE NUMBER]\n2x\n";
    let md = MkModuleDescription::new(text).unwrap();
    assert_eq!(md.number_of_quickmodes, 0);
    assert!(md.quickmodes.is_empty());
    assert!(md.unknown_data.get("QUICKMODE NUMBER").is_none());
}

#[test]
fn test_unknown_cell_field_is_ignored() {
    let text = "[M 0x00 COLOR]\nred\n[M 0x00 NAME]\nx\n";
    let md = MkModuleDescription::new(text).unwrap();
    assert_eq!(md.cells[0].name.as_str(), "x");
    assert!(md.unknown_data.get("M 0x00 COLOR").is_none());
    assert_eq!(md.unknown_data.len(), 0);
}

#[test]
fn test_residual_keys_with_tag_token_are_all_removed() {
    // Removal goes by the key's first whitespace token: a section named
    // exactly "M", and one with a tab after the tag, both leave the
    // residual map; "MX" is a different token and stays.
    let text = "[M]\nalone\n[M\t0x00 NAME]\ntabbed\n[MX]\nkept\n";
    let md = MkModuleDescription::new(text).unwrap();
    assert_eq!(md.cells[0].name.as_str(), "tabbed");
    assert!(md.unknown_data.get("M").is_none());
    assert!(md.unknown_data.get("M\t0x00 NAME").is_none());
    assert_eq!(md.unknown_data.get("MX").unwrap().as_str(), "kept");
    assert_eq!(md.unknown_data.len(), 1);
}

#[test]
fn test_allow_list_splits_on_unicode_whitespace() {
    // Token splitting follows char::is_whitespace, vertical tab included.
    let text = "[M 0x00 ALLOW]\n1\u{b}2\n";
    let md = MkModuleDescription::new(text).unwrap();
    assert_eq!(md.cells[0].allowed_values, vec![1, 2]);
}
