//! Device-info helpers: conversions of raw readings into display values,
//! and the lookup of the RF-channel sweep bounds in a decoded
//! configuration. The raw readings arrive as single bytes over the serial
//! exchange; the queries themselves live outside the library.

use vstd::prelude::*;

use crate::data_types::{CellV, MkDeviceConfig};

verus! {

/// The temperature in degrees Celsius for a raw temperature reading:
/// the raw value minus 128.
pub fn temperature_celsius(raw: u8) -> (r: i32)
    ensures
        r == raw as int - 128,
{
    (raw as i32) - 128
}

/// The first cell of the table with the given name.
pub open spec fn spec_find_cell(cells: Seq<CellV>, name: Seq<char>) -> Option<CellV>
    decreases cells.len(),
{
    if cells.len() == 0 {
        None
    } else if cells[0].name == name {
        Some(cells[0])
    } else {
        spec_find_cell(cells.drop_first(), name)
    }
}

/// The channel range an RSSI sweep walks: the bounds of the cell named
/// `RF Channel`, or `(0, 0)` when the configuration has no such cell.
pub fn rf_channel_bounds(config: &MkDeviceConfig) -> (r: (u8, u8))
    ensures
        match spec_find_cell(config@.cells, "RF Channel"@) {
            Some(c) => r == (c.min_value, c.max_value),
            None => r == (0u8, 0u8),
        },
{
    let mut i: usize = 0;
    assert(config@.cells.skip(0) =~= config@.cells);
    while i < config.cells.len()
        invariant
            i <= config.cells@.len(),
            spec_find_cell(config@.cells, "RF Channel"@) == spec_find_cell(config@.cells.skip(
                i as int), "RF Channel"@),
        decreases config.cells@.len() - i,
    {
        let ghost rest = config@.cells.skip(i as int);
        proof {
            assert(rest.len() > 0);
            assert(rest[0] == config@.cells[i as int]);
            assert(rest.drop_first() =~= config@.cells.skip(i as int + 1));
        }
        let target = String::from_str("RF Channel");
        if config.cells[i].name.eq(&target) {
            return (config.cells[i].min_value, config.cells[i].max_value);
        }
        i = i + 1;
    }
    proof {
        assert(config@.cells.skip(config.cells@.len() as int) =~= Seq::<CellV>::empty());
    }
    (0, 0)
}

} // verus!
