//! Data types shared by the schema parser, the snapshot decoders and the
//! update encoders, together with their mathematical views.

use vstd::prelude::*;

verus! {

/// Abstract value of a test-mode or quick-mode sequence.
pub ghost struct ModeV {
    pub testmode_id: int,
    pub name: Seq<char>,
    pub description: Seq<char>,
    pub sequence_on: Seq<char>,
    pub sequence_off: Seq<char>,
}

/// Abstract value of a configuration cell.
pub ghost struct CellV {
    pub address: int,
    pub name: Seq<char>,
    pub description: Seq<char>,
    pub min_value: u8,
    pub max_value: u8,
    pub allowed_values: Seq<u8>,
    pub default_value: u8,
    pub current_value: u8,
}

impl CellV {
    /// All fields at their zero values except the address.
    pub open spec fn is_blank_at(self, address: int) -> bool {
        self == (CellV {
            address,
            name: Seq::empty(),
            description: Seq::empty(),
            min_value: 0,
            max_value: 0,
            allowed_values: Seq::empty(),
            default_value: 0,
            current_value: 0,
        })
    }
}

/// One test-mode sequence of the module schema: a named pair of send/expect
/// command scripts, identified by a 1-based id in declaration order.
/// Test modes and quick modes carry the same data; they are kept apart only
/// because callers present them separately.
#[derive(Debug)]
pub struct MkDeviceTestMode {
    pub testmode_id: usize,
    pub name: String,
    pub description: String,
    pub sequence_on: String,
    pub sequence_off: String,
}

impl View for MkDeviceTestMode {
    type V = ModeV;

    open spec fn view(&self) -> ModeV {
        ModeV {
            testmode_id: self.testmode_id as int,
            name: self.name@,
            description: self.description@,
            sequence_on: self.sequence_on@,
            sequence_off: self.sequence_off@,
        }
    }
}

impl DeepView for MkDeviceTestMode {
    type V = ModeV;

    open spec fn deep_view(&self) -> ModeV {
        self.view()
    }
}

impl Clone for MkDeviceTestMode {
    fn clone(&self) -> (r: Self)
        ensures
            r@ == self@,
    {
        MkDeviceTestMode {
            testmode_id: self.testmode_id,
            name: self.name.clone(),
            description: self.description.clone(),
            sequence_on: self.sequence_on.clone(),
            sequence_off: self.sequence_off.clone(),
        }
    }
}

/// One quick-mode sequence of the module schema; same shape as a test mode.
#[derive(Debug)]
pub struct MkDeviceQuickMode {
    pub testmode_id: usize,
    pub name: String,
    pub description: String,
    pub sequence_on: String,
    pub sequence_off: String,
}

impl View for MkDeviceQuickMode {
    type V = ModeV;

    open spec fn view(&self) -> ModeV {
        ModeV {
            testmode_id: self.testmode_id as int,
            name: self.name@,
            description: self.description@,
            sequence_on: self.sequence_on@,
            sequence_off: self.sequence_off@,
        }
    }
}

impl DeepView for MkDeviceQuickMode {
    type V = ModeV;

    open spec fn deep_view(&self) -> ModeV {
        self.view()
    }
}

impl Clone for MkDeviceQuickMode {
    fn clone(&self) -> (r: Self)
        ensures
            r@ == self@,
    {
        MkDeviceQuickMode {
            testmode_id: self.testmode_id,
            name: self.name.clone(),
            description: self.description.clone(),
            sequence_on: self.sequence_on.clone(),
            sequence_off: self.sequence_off.clone(),
        }
    }
}

/// One addressable configuration byte of the device: its address (unique
/// within a table), display texts, inclusive bounds, an optional explicit
/// enumeration of allowed values, and the default and current values.
#[derive(Debug)]
pub struct MkDeviceCell {
    pub address: usize,
    pub name: String,
    pub description: String,
    pub min_value: u8,
    pub max_value: u8,
    pub allowed_values: Vec<u8>,
    pub default_value: u8,
    pub current_value: u8,
}

impl View for MkDeviceCell {
    type V = CellV;

    open spec fn view(&self) -> CellV {
        CellV {
            address: self.address as int,
            name: self.name@,
            description: self.description@,
            min_value: self.min_value,
            max_value: self.max_value,
            allowed_values: self.allowed_values@,
            default_value: self.default_value,
            current_value: self.current_value,
        }
    }
}

impl DeepView for MkDeviceCell {
    type V = CellV;

    open spec fn deep_view(&self) -> CellV {
        self.view()
    }
}

impl MkDeviceCell {
    /// A cell whose fields are all zero/empty except the given address.
    pub fn blank(address: usize) -> (r: MkDeviceCell)
        ensures
            r@.is_blank_at(address as int),
    {
        MkDeviceCell {
            address,
            name: String::new(),
            description: String::new(),
            min_value: 0,
            max_value: 0,
            allowed_values: Vec::new(),
            default_value: 0,
            current_value: 0,
        }
    }
}

impl Default for MkDeviceCell {
    fn default() -> (r: MkDeviceCell)
        ensures
            r@.is_blank_at(0),
    {
        MkDeviceCell::blank(0)
    }
}

impl Clone for MkDeviceCell {
    fn clone(&self) -> (r: Self)
        ensures
            r@ == self@,
    {
        let allowed_values = self.allowed_values.clone();
        proof {
            assert(allowed_values@ =~= self.allowed_values@);
        }
        MkDeviceCell {
            address: self.address,
            name: self.name.clone(),
            description: self.description.clone(),
            min_value: self.min_value,
            max_value: self.max_value,
            allowed_values,
            default_value: self.default_value,
            current_value: self.current_value,
        }
    }
}

/// One observable byte exchange with the device, as reported to the
/// presentation layer: a direction tag (`"TX"` or `"RX"`) and the raw bytes.
#[derive(Debug)]
pub struct EventPayload {
    pub data_type: String,
    pub data: Vec<u8>,
}

impl Clone for EventPayload {
    fn clone(&self) -> (r: Self)
        ensures
            r.data_type@ == self.data_type@,
            r.data@ == self.data@,
    {
        let data = self.data.clone();
        proof {
            assert(data@ =~= self.data@);
        }
        EventPayload { data_type: self.data_type.clone(), data }
    }
}

/// Abstract value of a configuration snapshot.
pub ghost struct ConfigV {
    pub model: Seq<char>,
    pub hw_version: Seq<char>,
    pub firmware_version: Seq<char>,
    pub cells: Seq<CellV>,
    pub test_modes: Seq<ModeV>,
    pub quick_modes: Seq<ModeV>,
    pub editable_cells: Seq<usize>,
    pub locked_cells: Seq<usize>,
}

/// A decoded configuration snapshot: header fields read from the raw buffer,
/// the overlaid cell table, and the schema's sequence lists and address sets.
#[derive(Debug)]
pub struct MkDeviceConfig {
    pub model: String,
    pub hw_version: String,
    pub firmware_version: String,
    pub cells: Vec<MkDeviceCell>,
    pub test_modes: Vec<MkDeviceTestMode>,
    pub quick_modes: Vec<MkDeviceQuickMode>,
    pub editable_cells: Vec<usize>,
    pub locked_cells: Vec<usize>,
}

impl View for MkDeviceConfig {
    type V = ConfigV;

    open spec fn view(&self) -> ConfigV {
        ConfigV {
            model: self.model@,
            hw_version: self.hw_version@,
            firmware_version: self.firmware_version@,
            cells: self.cells.deep_view(),
            test_modes: self.test_modes.deep_view(),
            quick_modes: self.quick_modes.deep_view(),
            editable_cells: self.editable_cells@,
            locked_cells: self.locked_cells@,
        }
    }
}

/// Abstract value of a calibration snapshot.
pub ghost struct CalibV {
    pub model: Seq<char>,
    pub calibration_cells: Seq<CellV>,
    pub c_editable_cells: Seq<usize>,
    pub c_locked_cells: Seq<usize>,
}

/// A decoded calibration snapshot: the model carried over from a prior
/// configuration decode, the overlaid calibration cell table, and the
/// schema's calibration address sets.
#[derive(Debug)]
pub struct MkDeviceCalib {
    pub model: String,
    pub calibration_cells: Vec<MkDeviceCell>,
    pub c_editable_cells: Vec<usize>,
    pub c_locked_cells: Vec<usize>,
}

impl View for MkDeviceCalib {
    type V = CalibV;

    open spec fn view(&self) -> CalibV {
        CalibV {
            model: self.model@,
            calibration_cells: self.calibration_cells.deep_view(),
            c_editable_cells: self.c_editable_cells@,
            c_locked_cells: self.c_locked_cells@,
        }
    }
}

/// Clones a cell table, preserving its abstract value.
pub fn clone_cells(cells: &Vec<MkDeviceCell>) -> (r: Vec<MkDeviceCell>)
    ensures
        r.deep_view() == cells.deep_view(),
{
    let mut r: Vec<MkDeviceCell> = Vec::new();
    let mut i: usize = 0;
    while i < cells.len()
        invariant
            i <= cells.len(),
            r.deep_view() =~= cells.deep_view().take(i as int),
        decreases cells.len() - i,
    {
        let c = cells[i].clone();
        let ghost prev = r.deep_view();
        proof {
            assert(c@ == cells@[i as int]@);
        }
        r.push(c);
        proof {
            assert(r.deep_view() =~= prev.push(cells@[i as int]@));
            assert(r.deep_view() =~= cells.deep_view().take(i as int + 1));
        }
        i = i + 1;
    }
    proof {
        assert(cells.deep_view().take(cells.len() as int) =~= cells.deep_view());
        assert(r.deep_view() =~= cells.deep_view());
    }
    r
}

impl Clone for MkDeviceConfig {
    fn clone(&self) -> (r: Self)
        ensures
            r@ == self@,
    {
        let cells = clone_cells(&self.cells);
        let mut test_modes: Vec<MkDeviceTestMode> = Vec::new();
        let mut i: usize = 0;
        while i < self.test_modes.len()
            invariant
                i <= self.test_modes.len(),
                test_modes.deep_view() =~= self.test_modes.deep_view().take(i as int),
            decreases self.test_modes.len() - i,
        {
            let m = self.test_modes[i].clone();
            let ghost prev = test_modes.deep_view();
            test_modes.push(m);
            proof {
                assert(test_modes.deep_view() =~= prev.push(self.test_modes@[i as int]@));
                assert(test_modes.deep_view() =~= self.test_modes.deep_view().take(i as int + 1));
            }
            i = i + 1;
        }
        let mut quick_modes: Vec<MkDeviceQuickMode> = Vec::new();
        let mut j: usize = 0;
        while j < self.quick_modes.len()
            invariant
                j <= self.quick_modes.len(),
                quick_modes.deep_view() =~= self.quick_modes.deep_view().take(j as int),
            decreases self.quick_modes.len() - j,
        {
            let m = self.quick_modes[j].clone();
            let ghost prev = quick_modes.deep_view();
            quick_modes.push(m);
            proof {
                assert(quick_modes.deep_view() =~= prev.push(self.quick_modes@[j as int]@));
                assert(quick_modes.deep_view() =~= self.quick_modes.deep_view().take(j as int + 1));
            }
            j = j + 1;
        }
        let editable_cells = self.editable_cells.clone();
        let locked_cells = self.locked_cells.clone();
        proof {
            assert(test_modes.deep_view() =~= self.test_modes.deep_view());
            assert(quick_modes.deep_view() =~= self.quick_modes.deep_view());
            assert(editable_cells@ =~= self.editable_cells@);
            assert(locked_cells@ =~= self.locked_cells@);
        }
        MkDeviceConfig {
            model: self.model.clone(),
            hw_version: self.hw_version.clone(),
            firmware_version: self.firmware_version.clone(),
            cells,
            test_modes,
            quick_modes,
            editable_cells,
            locked_cells,
        }
    }
}

impl Clone for MkDeviceCalib {
    fn clone(&self) -> (r: Self)
        ensures
            r@ == self@,
    {
        let calibration_cells = clone_cells(&self.calibration_cells);
        let c_editable_cells = self.c_editable_cells.clone();
        let c_locked_cells = self.c_locked_cells.clone();
        proof {
            assert(c_editable_cells@ =~= self.c_editable_cells@);
            assert(c_locked_cells@ =~= self.c_locked_cells@);
        }
        MkDeviceCalib {
            model: self.model.clone(),
            calibration_cells,
            c_editable_cells,
            c_locked_cells,
        }
    }
}

} // verus!
