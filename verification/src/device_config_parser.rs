//! Decodes a raw configuration buffer read from the device: header fields
//! (model, hardware version, firmware version) from a fixed offset, and the
//! cell table overlaid onto the module schema.

use vstd::prelude::*;
use vstd::string::StringExecFns;

use crate::data_types::{CellV, ConfigV, MkDeviceCell, MkDeviceConfig};
use crate::mk_module_description::{spec_build, MkModuleDescription};
use crate::module_description_parser::spec_parse_module_description;

verus! {

/// Offset of the textual header inside a raw configuration buffer.
pub const HEADER_OFFSET: usize = 60;

/// The characters that `String::from_utf8_lossy` decodes from the given
/// bytes. A function of the bytes alone.
pub uninterp spec fn utf8_lossy_of(b: Seq<u8>) -> Seq<char>;

/// Relies on `String::from_utf8_lossy`: the result depends on the bytes
/// alone, and ASCII bytes decode to their own characters.
#[verifier::external_body]
fn utf8_lossy(b: &[u8]) -> (s: String)
    ensures
        s@ == utf8_lossy_of(b@),
        (forall|i: int| 0 <= i < b@.len() ==> b@[i] < 128) ==> s@ == Seq::new(b@.len(),
            |i: int| b@[i] as char),
{
    String::from_utf8_lossy(b).to_string()
}

/// The first position at or after `from` holding the byte `b`.
pub open spec fn find_byte_from(data: Seq<u8>, from: int, b: u8) -> Option<int>
    decreases data.len() - from,
{
    if from < 0 || from >= data.len() {
        None
    } else if data[from] == b {
        Some(from)
    } else {
        find_byte_from(data, from + 1, b)
    }
}

/// The first position at or after `from` holding a non-ASCII byte.
pub open spec fn find_non_ascii_from(data: Seq<u8>, from: int) -> Option<int>
    decreases data.len() - from,
{
    if from < 0 || from >= data.len() {
        None
    } else if data[from] >= 128 {
        Some(from)
    } else {
        find_non_ascii_from(data, from + 1)
    }
}

/// Why header extraction failed.
pub ghost enum HeaderError {
    /// The buffer ends before the header offset.
    OffsetOutOfRange,
    /// No comma ends the model field.
    NoModelEnd,
    /// No comma ends the hardware-version field.
    NoHwEnd,
    /// The buffer ends within fewer than four all-ASCII bytes, so nothing
    /// ends the firmware-version field.
    NoFwEnd,
}

/// The header fields of a raw configuration buffer, as byte sequences:
/// the model up to the first comma at or after the header offset, the
/// hardware version up to the next comma, and the firmware version scanned
/// up to a non-ASCII byte or four bytes, whichever comes first.
pub open spec fn spec_device_information(data: Seq<u8>) -> Result<
    (Seq<u8>, Seq<u8>, Seq<u8>),
    HeaderError,
> {
    if data.len() <= HEADER_OFFSET {
        Err(HeaderError::OffsetOutOfRange)
    } else {
        match find_byte_from(data, HEADER_OFFSET as int, 44) {
            None => Err(HeaderError::NoModelEnd),
            Some(m) => {
                match find_byte_from(data, m + 1, 44) {
                    None => Err(HeaderError::NoHwEnd),
                    Some(h) => {
                        match find_non_ascii_from(data, h + 1) {
                            Some(f) => {
                                let fw_len = if f - (h + 1) < 4 {
                                    f - (h + 1)
                                } else {
                                    4
                                };
                                Ok((data.subrange(HEADER_OFFSET as int, m), data.subrange(m + 1,
                                    h), data.subrange(h + 1, h + 1 + fw_len)))
                            },
                            None => if data.len() - (h + 1) >= 4 {
                                Ok((data.subrange(HEADER_OFFSET as int, m), data.subrange(m + 1,
                                    h), data.subrange(h + 1, h + 5)))
                            } else {
                                Err(HeaderError::NoFwEnd)
                            },
                        }
                    },
                }
            },
        }
    }
}

/// Finds the first byte equal to `b` at or after `from`.
fn find_byte(data: &[u8], from: usize, b: u8) -> (r: Option<usize>)
    ensures
        match find_byte_from(data@, from as int, b) {
            Some(p) => r matches Some(q) && q == p && from <= q < data@.len(),
            None => r is None,
        },
{
    let mut i: usize = from;
    while i < data.len()
        invariant
            from <= i,
            find_byte_from(data@, from as int, b) == find_byte_from(data@, i as int, b),
        decreases data@.len() - i,
    {
        if data[i] == b {
            return Some(i);
        }
        i = i + 1;
    }
    None
}

/// Finds the first non-ASCII byte at or after `from`.
fn find_non_ascii(data: &[u8], from: usize) -> (r: Option<usize>)
    ensures
        match find_non_ascii_from(data@, from as int) {
            Some(p) => r matches Some(q) && q == p && from <= q < data@.len(),
            None => r is None,
        },
{
    let mut i: usize = from;
    while i < data.len()
        invariant
            from <= i,
            find_non_ascii_from(data@, from as int) == find_non_ascii_from(data@, i as int),
        decreases data@.len() - i,
    {
        if data[i] >= 128 {
            return Some(i);
        }
        i = i + 1;
    }
    None
}

/// Extracts the model, hardware version and firmware version from a raw
/// configuration buffer, decoding each field's bytes as text. The firmware
/// field ends at a non-ASCII byte or after four bytes, whichever comes
/// first. Fails with a descriptive message when the buffer ends before the
/// header offset, a comma delimiter never comes, or the buffer ends within
/// fewer than four all-ASCII firmware bytes.
pub fn get_device_information(data: &[u8]) -> (r: Result<(String, String, String), String>)
    ensures
        match spec_device_information(data@) {
            Ok(fields) => r matches Ok(t) && {
                &&& t.0@ == utf8_lossy_of(fields.0)
                &&& t.1@ == utf8_lossy_of(fields.1)
                &&& t.2@ == utf8_lossy_of(fields.2)
                &&& (forall|i: int| 0 <= i < fields.0.len() ==> fields.0[i] < 128) ==> t.0@
                    == Seq::new(fields.0.len(), |i: int| fields.0[i] as char)
                &&& (forall|i: int| 0 <= i < fields.1.len() ==> fields.1[i] < 128) ==> t.1@
                    == Seq::new(fields.1.len(), |i: int| fields.1[i] as char)
                &&& (forall|i: int| 0 <= i < fields.2.len() ==> fields.2[i] < 128) ==> t.2@
                    == Seq::new(fields.2.len(), |i: int| fields.2[i] as char)
            },
            Err(k) => r matches Err(e) && (match k {
                HeaderError::OffsetOutOfRange => e@ == "Invalid data format"@,
                HeaderError::NoModelEnd => e@ == "Invalid data format. Could not find model end"@,
                HeaderError::NoHwEnd => e@ == "Invalid data format. Could not find hw end"@,
                HeaderError::NoFwEnd => e@ == "Invalid data format. Could not find fw end"@,
            }),
        },
{
    if data.len() <= HEADER_OFFSET {
        return Err(String::from_str("Invalid data format"));
    }
    let model_end = match find_byte(data, HEADER_OFFSET, 44) {
        Some(p) => p,
        None => {
            return Err(String::from_str("Invalid data format. Could not find model end"));
        },
    };
    let model_bytes = &data[HEADER_OFFSET..model_end];
    let model = utf8_lossy(model_bytes);
    let hw_end = match find_byte(data, model_end + 1, 44) {
        Some(p) => p,
        None => {
            return Err(String::from_str("Invalid data format. Could not find hw end"));
        },
    };
    let hw_bytes = &data[model_end + 1..hw_end];
    let hw_version = utf8_lossy(hw_bytes);
    let fw_len: usize = match find_non_ascii(data, hw_end + 1) {
        Some(p) => {
            if p - (hw_end + 1) < 4 {
                p - (hw_end + 1)
            } else {
                4
            }
        },
        None => {
            if data.len() - (hw_end + 1) >= 4 {
                4
            } else {
                return Err(String::from_str("Invalid data format. Could not find fw end"));
            }
        },
    };
    let fw_bytes = &data[hw_end + 1..hw_end + 1 + fw_len];
    let firmware_version = utf8_lossy(fw_bytes);
    proof {
        let fields = spec_device_information(data@)->Ok_0;
        assert(model_bytes@ =~= fields.0);
        assert(hw_bytes@ =~= fields.1);
        assert(fw_bytes@ =~= fields.2);
    }
    Ok((model, hw_version, firmware_version))
}

// === overlaying raw bytes onto the schema ==================================

/// The cell table with every position's current value replaced by the raw
/// byte read at that position, and its address forced to the position.
pub open spec fn spec_overlay(cells: Seq<CellV>, data: Seq<u8>) -> Seq<CellV> {
    Seq::new(data.len(), |i: int| CellV { address: i, current_value: data[i], ..cells[i] })
}

/// Projects the raw bytes onto the schema's cell table: one cell per input
/// byte, cloned from the schema cell at the byte's position, with the
/// byte as its current value. Every byte is represented; locked addresses
/// are metadata only and never filtered here.
pub fn read_unlocked_cells(data: &[u8], module_description: &MkModuleDescription) -> (r: Vec<
    MkDeviceCell,
>)
    requires
        data@.len() <= module_description.cells@.len(),
    ensures
        r.deep_view() == spec_overlay(module_description@.cells, data@),
{
    let mut r: Vec<MkDeviceCell> = Vec::new();
    let mut i: usize = 0;
    while i < data.len()
        invariant
            i <= data@.len(),
            data@.len() <= module_description.cells@.len(),
            r.deep_view() =~= spec_overlay(module_description@.cells, data@).take(i as int),
        decreases data@.len() - i,
    {
        let mut cell = module_description.cells[i].clone();
        cell.address = i;
        cell.current_value = data[i];
        let ghost prev = r.deep_view();
        r.push(cell);
        proof {
            assert(r.deep_view() =~= prev.push(cell@));
            assert(r.deep_view() =~= spec_overlay(module_description@.cells, data@).take(
                i as int + 1));
        }
        i = i + 1;
    }
    proof {
        let whole = spec_overlay(module_description@.cells, data@);
        assert(whole.take(whole.len() as int) =~= whole);
    }
    r
}

// === the configuration decoder =============================================

/// Why configuration decoding failed.
pub ghost enum ConfigParseError {
    /// The header could not be extracted.
    Header(HeaderError),
    /// The schema could not be built: a numeric cell-attribute value is
    /// malformed.
    Build,
    /// The raw buffer holds more bytes than the schema's cell table.
    DataBeyondSchema,
}

/// What decoding a raw configuration buffer against the description text
/// yields: the header fields decoded as text, the schema cells overlaid
/// with the raw bytes, and the schema's sequence tables and address sets.
pub open spec fn spec_parse_device_config(data: Seq<u8>, rmd: Seq<char>) -> Result<
    ConfigV,
    ConfigParseError,
> {
    match spec_device_information(data) {
        Err(h) => Err(ConfigParseError::Header(h)),
        Ok(fields) => match spec_build(spec_parse_module_description(rmd)) {
            Err(b) => Err(ConfigParseError::Build),
            Ok(md) => if data.len() > md.cells.len() {
                Err(ConfigParseError::DataBeyondSchema)
            } else {
                Ok(ConfigV {
                    model: utf8_lossy_of(fields.0),
                    hw_version: utf8_lossy_of(fields.1),
                    firmware_version: utf8_lossy_of(fields.2),
                    cells: spec_overlay(md.cells, data),
                    test_modes: md.testmodes,
                    quick_modes: md.quickmodes,
                    editable_cells: md.editable_cells,
                    locked_cells: md.locked_cells,
                })
            },
        },
    }
}

/// The message reported for a failed configuration decode.
pub open spec fn config_error_message(k: ConfigParseError) -> Seq<char> {
    match k {
        ConfigParseError::Header(HeaderError::OffsetOutOfRange) => "Invalid data format"@,
        ConfigParseError::Header(HeaderError::NoModelEnd) =>
            "Invalid data format. Could not find model end"@,
        ConfigParseError::Header(HeaderError::NoHwEnd) =>
            "Invalid data format. Could not find hw end"@,
        ConfigParseError::Header(HeaderError::NoFwEnd) =>
            "Invalid data format. Could not find fw end"@,
        ConfigParseError::Build => "invalid cell attribute value"@,
        ConfigParseError::DataBeyondSchema =>
            "device data is larger than the schema cell table"@,
    }
}

/// Decodes a raw configuration buffer against the module description text:
/// extracts the model, hardware version and firmware version from the
/// header, builds the schema, and overlays the raw bytes onto the
/// configuration cell table.
pub fn parse_device_config(data: &[u8], rmd_content: &str) -> (r: Result<MkDeviceConfig, String>)
    ensures
        match spec_parse_device_config(data@, rmd_content@) {
            Ok(v) => r matches Ok(c) && c@ == v && ({
                let fields = spec_device_information(data@)->Ok_0;
                &&& (forall|i: int| 0 <= i < fields.0.len() ==> fields.0[i] < 128) ==> c.model@
                    == Seq::new(fields.0.len(), |i: int| fields.0[i] as char)
                &&& (forall|i: int| 0 <= i < fields.1.len() ==> fields.1[i] < 128)
                    ==> c.hw_version@ == Seq::new(fields.1.len(), |i: int| fields.1[i] as char)
                &&& (forall|i: int| 0 <= i < fields.2.len() ==> fields.2[i] < 128)
                    ==> c.firmware_version@ == Seq::new(fields.2.len(),
                    |i: int| fields.2[i] as char)
            }),
            Err(k) => r matches Err(m) && m@ == config_error_message(k),
        },
{
    let (model, hw_version, firmware_version) = match get_device_information(data) {
        Ok(t) => t,
        Err(m) => {
            return Err(m);
        },
    };
    let module_description = match MkModuleDescription::new(rmd_content) {
        Ok(md) => md,
        Err(m) => {
            return Err(m);
        },
    };
    if data.len() > module_description.cells.len() {
        return Err(String::from_str("device data is larger than the schema cell table"));
    }
    let cells = read_unlocked_cells(data, &module_description);
    let test_modes = module_description.testmodes;
    let quick_modes = module_description.quickmodes;
    let editable_cells = module_description.editable_cells;
    let locked_cells = module_description.locked_cells;
    let result = MkDeviceConfig {
        model,
        hw_version,
        firmware_version,
        cells,
        test_modes,
        quick_modes,
        editable_cells,
        locked_cells,
    };
    Ok(result)
}

} // verus!
