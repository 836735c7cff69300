//! Decodes a raw calibration buffer read from the device: the model is
//! already known from a prior configuration decode, so only the
//! calibration cell table is overlaid onto the schema.

use vstd::prelude::*;
use vstd::string::StringExecFns;

use crate::data_types::{CalibV, MkDeviceCalib, MkDeviceCell};
use crate::device_config_parser::spec_overlay;
use crate::mk_module_description::{spec_build, MkModuleDescription};
use crate::module_description_parser::spec_parse_module_description;

verus! {

/// Why calibration decoding failed.
pub ghost enum CalibParseError {
    /// The schema could not be built: a numeric cell-attribute value is
    /// malformed.
    Build,
    /// The raw buffer holds more bytes than the schema's cell table.
    DataBeyondSchema,
}

/// What decoding a raw calibration buffer against the description text
/// yields: the known model, the schema's calibration cells overlaid with
/// the raw bytes, and the calibration address sets.
pub open spec fn spec_parse_device_calib(data: Seq<u8>, model: Seq<char>, rmd: Seq<char>) -> Result<
    CalibV,
    CalibParseError,
> {
    match spec_build(spec_parse_module_description(rmd)) {
        Err(b) => Err(CalibParseError::Build),
        Ok(md) => if data.len() > md.calibration_cells.len() {
            Err(CalibParseError::DataBeyondSchema)
        } else {
            Ok(CalibV {
                model,
                calibration_cells: spec_overlay(md.calibration_cells, data),
                c_editable_cells: md.c_editable_cells,
                c_locked_cells: md.c_locked_cells,
            })
        },
    }
}

/// The message reported for a failed calibration decode.
pub open spec fn calib_error_message(k: CalibParseError) -> Seq<char> {
    match k {
        CalibParseError::Build => "invalid cell attribute value"@,
        CalibParseError::DataBeyondSchema => "device data is larger than the schema cell table"@,
    }
}

/// Projects the raw bytes onto the schema's calibration cell table: one
/// cell per input byte, with the byte as its current value. Every byte is
/// represented; locked addresses are metadata only and never filtered
/// here.
fn read_unlocked_cells(data: &[u8], module_description: &MkModuleDescription) -> (r: Vec<
    MkDeviceCell,
>)
    requires
        data@.len() <= module_description.calibration_cells@.len(),
    ensures
        r.deep_view() == spec_overlay(module_description@.calibration_cells, data@),
{
    let mut r: Vec<MkDeviceCell> = Vec::new();
    let mut i: usize = 0;
    while i < data.len()
        invariant
            i <= data@.len(),
            data@.len() <= module_description.calibration_cells@.len(),
            r.deep_view() =~= spec_overlay(module_description@.calibration_cells, data@).take(
                i as int),
        decreases data@.len() - i,
    {
        let mut cell = module_description.calibration_cells[i].clone();
        cell.address = i;
        cell.current_value = data[i];
        let ghost prev = r.deep_view();
        r.push(cell);
        proof {
            assert(r.deep_view() =~= prev.push(cell@));
            assert(r.deep_view() =~= spec_overlay(module_description@.calibration_cells,
                data@).take(i as int + 1));
        }
        i = i + 1;
    }
    proof {
        let whole = spec_overlay(module_description@.calibration_cells, data@);
        assert(whole.take(whole.len() as int) =~= whole);
    }
    r
}

/// Decodes a raw calibration buffer against the module description text,
/// carrying over the model from a prior configuration decode.
pub fn parse_device_calib(data: &[u8], model: String, rmd_content: &str) -> (r: Result<
    MkDeviceCalib,
    String,
>)
    ensures
        match spec_parse_device_calib(data@, model@, rmd_content@) {
            Ok(v) => r matches Ok(c) && c@ == v,
            Err(k) => r matches Err(m) && m@ == calib_error_message(k),
        },
{
    let module_description = match MkModuleDescription::new(rmd_content) {
        Ok(md) => md,
        Err(m) => {
            return Err(m);
        },
    };
    if data.len() > module_description.calibration_cells.len() {
        return Err(String::from_str("device data is larger than the schema cell table"));
    }
    let calibration_cells = read_unlocked_cells(data, &module_description);
    let c_editable_cells = module_description.c_editable_cells;
    let c_locked_cells = module_description.c_locked_cells;
    let result = MkDeviceCalib { model, calibration_cells, c_editable_cells, c_locked_cells };
    Ok(result)
}

} // verus!
