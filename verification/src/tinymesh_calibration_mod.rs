//! Calibration-side protocol logic: the diff-based partial-update encoder
//! for the calibration cell table, sharing the configuration encoder's
//! delta format.

use vstd::prelude::*;

use crate::data_types::{MkDeviceCalib, MkDeviceCell};
use crate::tinymesh_config_mod::{delta_bytes, spec_delta_bytes};

verus! {

/// Encodes the byte sequence that applies the edits in `cells` onto the
/// calibration the device currently holds: for every position whose current
/// value differs from the stored snapshot, the cell's address byte and new
/// value, terminated by `0xff`; empty when nothing differs, which a caller
/// must treat as "nothing to send".
pub fn get_bytes_to_send_for_calib_change(device_calib: &MkDeviceCalib,
    cells: &[MkDeviceCell]) -> (r: Vec<u8>)
    requires
        cells@.len() <= device_calib.calibration_cells@.len(),
    ensures
        r@ == spec_delta_bytes(device_calib@.calibration_cells, cells.deep_view()),
{
    delta_bytes(&device_calib.calibration_cells, cells)
}

} // verus!
