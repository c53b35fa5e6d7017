//! The data model shared by the whole library: display identities, output
//! configurations, layouts and the display descriptions reported by the system.

use vstd::prelude::*;

verus! {

/// Identity of a display: the adapter it hangs off, its target on that adapter,
/// and (when the display reports EDID data) a hash that survives adapter changes.
#[derive(Clone, Copy, Debug, PartialEq, Eq, Structural)]
pub struct DisplayId {
    pub adapter_luid: u64,
    pub target_id: u32,
    pub edid_hash: Option<u64>,
}

/// The (adapter, target) pair that the operating system uses to address a display.
#[derive(Clone, Copy, Debug, PartialEq, Eq, Structural)]
pub struct DisplayKey {
    pub adapter_luid: u64,
    pub target_id: u32,
}

#[derive(Clone, Copy, Debug, PartialEq, Eq, Structural)]
pub struct Position {
    pub x: i32,
    pub y: i32,
}

#[derive(Clone, Copy, Debug, PartialEq, Eq, Structural)]
pub struct Resolution {
    pub width: u32,
    pub height: u32,
}

/// The desired configuration of one output in a layout.
#[derive(Clone, Copy, Debug, PartialEq, Eq, Structural)]
pub struct OutputConfig {
    pub display_id: DisplayId,
    pub enabled: bool,
    pub position: Position,
    pub resolution: Resolution,
    pub refresh_rate_mhz: u32,
    pub primary: bool,
}

/// A whole-desktop layout: one entry per output.
#[derive(Clone, Debug)]
pub struct Layout {
    pub outputs: Vec<OutputConfig>,
}

/// A display as reported by the system.
#[derive(Clone, Debug)]
pub struct DisplayInfo {
    pub id: DisplayId,
    pub friendly_name: String,
    pub is_active: bool,
    pub is_primary: bool,
    pub resolution: Resolution,
    pub refresh_rate_mhz: u32,
}

/// The mathematical content of a `DisplayInfo`.
pub struct DisplayInfoView {
    pub id: DisplayId,
    pub friendly_name: Seq<char>,
    pub is_active: bool,
    pub is_primary: bool,
    pub resolution: Resolution,
    pub refresh_rate_mhz: u32,
}

impl View for DisplayInfo {
    type V = DisplayInfoView;

    open spec fn view(&self) -> DisplayInfoView {
        DisplayInfoView {
            id: self.id,
            friendly_name: self.friendly_name@,
            is_active: self.is_active,
            is_primary: self.is_primary,
            resolution: self.resolution,
            refresh_rate_mhz: self.refresh_rate_mhz,
        }
    }
}

/// The views of a sequence of displays.
pub open spec fn display_views(s: Seq<DisplayInfo>) -> Seq<DisplayInfoView> {
    s.map_values(|d: DisplayInfo| d@)
}

impl View for Layout {
    type V = Seq<OutputConfig>;

    open spec fn view(&self) -> Seq<OutputConfig> {
        self.outputs@
    }
}

impl DisplayId {
    pub open spec fn key(self) -> DisplayKey {
        DisplayKey { adapter_luid: self.adapter_luid, target_id: self.target_id }
    }
}

impl OutputConfig {
    pub open spec fn key(self) -> DisplayKey {
        self.display_id.key()
    }
}

/// The key under which the operating system knows the display of an output.
pub fn output_key(output: &OutputConfig) -> (k: DisplayKey)
    ensures
        k == output.key(),
{
    DisplayKey { adapter_luid: output.display_id.adapter_luid, target_id: output.display_id.target_id }
}

} // verus!
