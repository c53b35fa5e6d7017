//! The display topology as the display-configuration API reports it (paths
//! from sources to targets, and their modes) and the model that Kaiser builds
//! from it: the displays, the current layout, and per-display facts such as GDI
//! names, rotations and clone relations.

use vstd::prelude::*;
use crate::display::{DisplayId, DisplayInfo, DisplayInfoView, DisplayKey, Layout, OutputConfig, Position, Resolution, display_views};
use crate::identity::{EdidFields, Luid, luid_to_u64, luid_value, make_display_id};
use crate::text::{chars_to_string, decimal_chars, display_key_chars};

verus! {

/// The flag bit of a path that is in use.
pub const PATH_ACTIVE_FLAG: u32 = 1;
/// Mode kinds of the display-configuration API.
pub const MODE_INFO_TYPE_SOURCE: i32 = 1;
pub const MODE_INFO_TYPE_TARGET: i32 = 2;
/// The mode index of a path that names no mode.
pub const INVALID_MODE_INDEX: u32 = 0xFFFF_FFFF;
/// Rotation codes of the display-configuration API.
pub const ROTATION_ROTATE90: i32 = 2;
pub const ROTATION_ROTATE180: i32 = 3;
pub const ROTATION_ROTATE270: i32 = 4;
/// The refresh rate assumed for a target without a target mode: 60 Hz.
pub const DEFAULT_REFRESH_MHZ: u32 = 60_000;

/// A path from a source (a GDI desktop) to a target (a monitor), with the
/// fields that Kaiser reads or changes. `handle` refers back to the system's
/// own record of the path and is carried through unchanged.
#[derive(Clone, Copy, Debug, PartialEq, Eq, Structural)]
pub struct PathInfo {
    pub handle: u64,
    pub flags: u32,
    pub source_adapter: Luid,
    pub source_id: u32,
    pub source_mode_idx: u32,
    pub target_adapter: Luid,
    pub target_id: u32,
    pub target_mode_idx: u32,
    pub rotation: i32,
    pub refresh_numerator: u32,
    pub refresh_denominator: u32,
}

/// A mode entry. For a source mode the position and size are meaningful, for
/// a target mode the vertical sync frequency.
#[derive(Clone, Copy, Debug, PartialEq, Eq, Structural)]
pub struct ModeInfo {
    pub info_type: i32,
    pub id: u32,
    pub adapter: Luid,
    pub position: Position,
    pub width: u32,
    pub height: u32,
    pub vsync_numerator: u32,
    pub vsync_denominator: u32,
}

/// The raw paths and modes of a query.
#[derive(Clone, Debug)]
pub struct RawTopologySnapshot {
    pub paths: Vec<PathInfo>,
    pub modes: Vec<ModeInfo>,
}

/// What the system reports of a path's target monitor.
pub struct TargetName {
    pub friendly_name: String,
    pub edid_manufacture_id: u16,
    pub edid_product_code_id: u16,
    pub connector_instance: u32,
}

/// The names that the system reported for one path; `None` where the query failed.
pub struct PathNames {
    pub target: Option<TargetName>,
    pub gdi_name: Option<String>,
}

pub open spec fn is_active_path(p: PathInfo) -> bool {
    p.flags & PATH_ACTIVE_FLAG != 0
}

pub open spec fn target_key(p: PathInfo) -> DisplayKey {
    DisplayKey {
        adapter_luid: luid_value(p.target_adapter.high_part, p.target_adapter.low_part),
        target_id: p.target_id,
    }
}

pub fn path_is_active(p: &PathInfo) -> (r: bool)
    ensures
        r == is_active_path(*p),
{
    p.flags & PATH_ACTIVE_FLAG != 0
}

/// The (adapter, target) key of a path's monitor.
pub fn path_target_key(p: &PathInfo) -> (k: DisplayKey)
    ensures
        k == target_key(*p),
{
    DisplayKey {
        adapter_luid: luid_to_u64(p.target_adapter.high_part, p.target_adapter.low_part),
        target_id: p.target_id,
    }
}

/// The mode with the given adapter, id and kind; the last one when several
/// match (a later entry replaces an earlier one, as in a map keyed this way).
pub open spec fn mode_lookup(modes: Seq<ModeInfo>, adapter: Luid, id: u32, info_type: i32) -> Option<ModeInfo>
    decreases modes.len(),
{
    if modes.len() == 0 {
        None
    } else {
        let m = modes.last();
        if m.adapter == adapter && m.id == id && m.info_type == info_type {
            Some(m)
        } else {
            mode_lookup(modes.drop_last(), adapter, id, info_type)
        }
    }
}

pub fn find_mode(modes: &Vec<ModeInfo>, adapter: Luid, id: u32, info_type: i32) -> (r: Option<ModeInfo>)
    ensures
        r == mode_lookup(modes@, adapter, id, info_type),
{
    let mut r: Option<ModeInfo> = None;
    let mut i: usize = 0;
    while i < modes.len()
        invariant
            0 <= i <= modes@.len(),
            r == mode_lookup(modes@.take(i as int), adapter, id, info_type),
        decreases modes@.len() - i,
    {
        assert(modes@.take(i + 1).drop_last() =~= modes@.take(i as int));
        let m = modes[i];
        if m.adapter == adapter && m.id == id && m.info_type == info_type {
            r = Some(m);
        }
        i = i + 1;
    }
    assert(modes@.take(modes@.len() as int) =~= modes@);
    r
}

/// Degrees of a rotation code: 90, 180, 270, or 0 for anything else.
pub open spec fn spec_rotation_degrees(rotation: i32) -> u32 {
    if rotation == ROTATION_ROTATE90 {
        90
    } else if rotation == ROTATION_ROTATE180 {
        180
    } else if rotation == ROTATION_ROTATE270 {
        270
    } else {
        0
    }
}

pub fn rotation_to_degrees(rotation: i32) -> (r: u32)
    ensures
        r == spec_rotation_degrees(rotation),
{
    match rotation {
        2 => 90,
        3 => 180,
        4 => 270,
        _ => 0,
    }
}

/// The resolution a user sees: width and height swap at 90 and 270 degrees.
pub open spec fn spec_effective_resolution(r: Resolution, rotation: i32) -> Resolution {
    if rotation == ROTATION_ROTATE90 || rotation == ROTATION_ROTATE270 {
        Resolution { width: r.height, height: r.width }
    } else {
        r
    }
}

pub fn effective_resolution_for_rotation(source_resolution: Resolution, rotation: i32) -> (r: Resolution)
    ensures
        r == spec_effective_resolution(source_resolution, rotation),
{
    if rotation == ROTATION_ROTATE90 || rotation == ROTATION_ROTATE270 {
        return Resolution { width: source_resolution.height, height: source_resolution.width };
    }
    source_resolution
}

/// The refresh rate in millihertz of a vertical sync frequency given as a
/// fraction (a zero denominator counts as one), truncated to 32 bits.
pub open spec fn spec_refresh_mhz(numerator: u32, denominator: u32) -> u32 {
    ((numerator as int * 1000) / (if denominator == 0 { 1 } else { denominator as int })) as u32
}

pub fn target_mode_refresh_mhz(mode: &ModeInfo) -> (r: u32)
    ensures
        r == spec_refresh_mhz(mode.vsync_numerator, mode.vsync_denominator),
{
    let denominator: u64 = if mode.vsync_denominator == 0 { 1 } else { mode.vsync_denominator as u64 };
    let q: u64 = (mode.vsync_numerator as u64 * 1000) / denominator;
    q as u32
}

/// The position and size of a source mode.
pub fn source_mode_position_and_resolution(mode: &ModeInfo) -> (r: (Position, Resolution))
    ensures
        r == (mode.position, Resolution { width: mode.width, height: mode.height }),
{
    (mode.position, Resolution { width: mode.width, height: mode.height })
}


/// A GDI source slot: two active paths that share one are a clone pair.
#[derive(Clone, Copy, Debug, PartialEq, Eq, Structural)]
pub struct SourceSlot {
    pub adapter: Luid,
    pub source_id: u32,
}

pub open spec fn source_slot(p: PathInfo) -> SourceSlot {
    SourceSlot { adapter: p.source_adapter, source_id: p.source_id }
}

/// The target recorded for a slot (the last record when there are several).
pub open spec fn slot_lookup(slots: Seq<(SourceSlot, DisplayKey)>, slot: SourceSlot) -> Option<DisplayKey>
    decreases slots.len(),
{
    if slots.len() == 0 {
        None
    } else if slots.last().0 == slot {
        Some(slots.last().1)
    } else {
        slot_lookup(slots.drop_last(), slot)
    }
}

/// Clone detection over the active paths in order: the first target seen on a
/// source slot owns it; each later target on the same slot is a clone of it.
pub open spec fn clone_state(paths: Seq<PathInfo>) -> (Seq<(SourceSlot, DisplayKey)>, Seq<(DisplayKey, DisplayKey)>)
    decreases paths.len(),
{
    if paths.len() == 0 {
        (Seq::empty(), Seq::empty())
    } else {
        let prev = clone_state(paths.drop_last());
        let p = paths.last();
        if !is_active_path(p) {
            prev
        } else {
            match slot_lookup(prev.0, source_slot(p)) {
                Some(t) => (prev.0, prev.1.push((target_key(p), t))),
                None => (prev.0.push((source_slot(p), target_key(p))), prev.1),
            }
        }
    }
}

/// `pair` joins the targets of the active paths `i` and `j` (`j` before
/// `i`), which share their source adapter and source id.
pub open spec fn pair_on_shared_source(paths: Seq<PathInfo>, i: int, j: int, pair: (DisplayKey, DisplayKey)) -> bool {
    &&& 0 <= j < i < paths.len()
    &&& is_active_path(paths[i]) && is_active_path(paths[j])
    &&& paths[i].source_adapter == paths[j].source_adapter
    &&& paths[i].source_id == paths[j].source_id
    &&& pair == (target_key(paths[i]), target_key(paths[j]))
}

proof fn lemma_slot_lookup_found(slots: Seq<(SourceSlot, DisplayKey)>, slot: SourceSlot)
    ensures
        slot_lookup(slots, slot) matches Some(t) ==> exists|e: int| 0 <= e < slots.len() && #[trigger] slots[e] == (slot, t),
    decreases slots.len(),
{
    if slots.len() > 0 && slots.last().0 != slot {
        lemma_slot_lookup_found(slots.drop_last(), slot);
        if let Some(t) = slot_lookup(slots, slot) {
            let e = choose|e: int| 0 <= e < slots.drop_last().len() && #[trigger] slots.drop_last()[e] == (slot, t);
            assert(slots[e] == (slot, t));
        }
    } else if slots.len() > 0 {
        assert(slots[slots.len() - 1] == slots.last());
    }
}

/// An active path with this source adapter, source id and target.
pub open spec fn record_from_path(paths: Seq<PathInfo>, j: int, rec: (SourceSlot, DisplayKey)) -> bool {
    &&& 0 <= j < paths.len()
    &&& is_active_path(paths[j])
    &&& rec.0.adapter == paths[j].source_adapter
    &&& rec.0.source_id == paths[j].source_id
    &&& rec.1 == target_key(paths[j])
}

/// Every slot record comes from an active path.
proof fn lemma_record_source(paths: Seq<PathInfo>, e: int)
    requires
        0 <= e < clone_state(paths).0.len(),
    ensures
        exists|j: int| #[trigger] record_from_path(paths, j, clone_state(paths).0[e]),
    decreases paths.len(),
{
    let d = paths.drop_last();
    let n = paths.len() - 1;
    let prev = clone_state(d);
    let p = paths.last();
    assert(paths[n] == p);
    if e < prev.0.len() {
        lemma_record_source(d, e);
        let j = choose|j: int| #[trigger] record_from_path(d, j, prev.0[e]);
        assert(paths[j] == d[j]);
        assert(record_from_path(paths, j, clone_state(paths).0[e]));
    } else {
        assert(record_from_path(paths, n, clone_state(paths).0[e]));
    }
}

/// Every clone pair joins the targets of two active paths, the second
/// earlier, on one source.
proof fn lemma_pair_source(paths: Seq<PathInfo>, c: int)
    requires
        0 <= c < clone_state(paths).1.len(),
    ensures
        exists|i: int, j: int| #[trigger] pair_on_shared_source(paths, i, j, clone_state(paths).1[c]),
    decreases paths.len(),
{
    let d = paths.drop_last();
    let n = paths.len() - 1;
    let prev = clone_state(d);
    let cur = clone_state(paths);
    let p = paths.last();
    assert(paths[n] == p);
    if c < prev.1.len() {
        lemma_pair_source(d, c);
        assert(cur.1[c] == prev.1[c]);
        let (i, j) = choose|i: int, j: int| #[trigger] pair_on_shared_source(d, i, j, prev.1[c]);
        assert(paths[i] == d[i] && paths[j] == d[j]);
        assert(pair_on_shared_source(paths, i, j, cur.1[c]));
    } else {
        lemma_slot_lookup_found(prev.0, source_slot(p));
        let t = slot_lookup(prev.0, source_slot(p))->0;
        let e = choose|e: int| 0 <= e < prev.0.len() && #[trigger] prev.0[e] == (source_slot(p), t);
        lemma_record_source(d, e);
        let j = choose|j: int| #[trigger] record_from_path(d, j, prev.0[e]);
        assert(paths[j] == d[j]);
        assert(cur.1[c] == (target_key(paths[n]), target_key(paths[j])));
        assert(pair_on_shared_source(paths, n, j, cur.1[c]));
    }
}

/// A clone pair joins two displays only where their active paths share both
/// the source adapter and the source id: the first display's path comes after
/// the second's, which owns that source. Paths on different source adapters
/// never make a pair.
pub proof fn lemma_clone_pair_shares_source(paths: Seq<PathInfo>, c: int)
    requires
        0 <= c < clone_state(paths).1.len(),
    ensures
        exists|i: int, j: int| #![trigger paths[i], paths[j]] {
            &&& 0 <= j < i < paths.len()
            &&& is_active_path(paths[i]) && is_active_path(paths[j])
            &&& paths[i].source_adapter == paths[j].source_adapter
            &&& paths[i].source_id == paths[j].source_id
            &&& clone_state(paths).1[c] == (target_key(paths[i]), target_key(paths[j]))
        },
{
    lemma_pair_source(paths, c);
    let (i, j) = choose|i: int, j: int| #[trigger] pair_on_shared_source(paths, i, j, clone_state(paths).1[c]);
    assert(pair_on_shared_source(paths, i, j, clone_state(paths).1[c]));
    assert(is_active_path(paths[i]) && is_active_path(paths[j]));
}

/// The EDID fields of a target name; a field reported as zero is absent.
pub open spec fn name_edid(t: Option<TargetName>) -> EdidFields {
    match t {
        Some(n) => EdidFields {
            manufacture_id: if n.edid_manufacture_id == 0 { None } else { Some(n.edid_manufacture_id) },
            product_code: if n.edid_product_code_id == 0 { None } else { Some(n.edid_product_code_id) },
            connector_instance: if n.connector_instance == 0 { None } else { Some(n.connector_instance) },
        },
        None => EdidFields { manufacture_id: None, product_code: None, connector_instance: None },
    }
}

/// The name shown for a display: the monitor's friendly name, or
/// "Display <luid>:<target>" when the system did not report one.
pub open spec fn name_chars(t: Option<TargetName>, key: DisplayKey) -> Seq<char> {
    match t {
        Some(n) => n.friendly_name@,
        None => seq!['D', 'i', 's', 'p', 'l', 'a', 'y', ' '] + display_key_chars(key.adapter_luid, key.target_id),
    }
}

pub open spec fn source_position(p: PathInfo, modes: Seq<ModeInfo>) -> Position {
    match mode_lookup(modes, p.source_adapter, p.source_id, MODE_INFO_TYPE_SOURCE) {
        Some(m) => m.position,
        None => Position { x: 0, y: 0 },
    }
}

pub open spec fn source_resolution(p: PathInfo, modes: Seq<ModeInfo>) -> Resolution {
    match mode_lookup(modes, p.source_adapter, p.source_id, MODE_INFO_TYPE_SOURCE) {
        Some(m) => Resolution { width: m.width, height: m.height },
        None => Resolution { width: 0, height: 0 },
    }
}

pub open spec fn target_refresh(p: PathInfo, modes: Seq<ModeInfo>) -> u32 {
    match mode_lookup(modes, p.target_adapter, p.target_id, MODE_INFO_TYPE_TARGET) {
        Some(m) => spec_refresh_mhz(m.vsync_numerator, m.vsync_denominator),
        None => DEFAULT_REFRESH_MHZ,
    }
}

pub open spec fn path_display_id(p: PathInfo, t: Option<TargetName>) -> DisplayId {
    DisplayId {
        adapter_luid: target_key(p).adapter_luid,
        target_id: p.target_id,
        edid_hash: name_edid(t).spec_hash(),
    }
}

pub open spec fn at_origin(pos: Position) -> bool {
    pos.x == 0 && pos.y == 0
}

/// The output that an active path stands for.
pub open spec fn path_output(p: PathInfo, modes: Seq<ModeInfo>, t: Option<TargetName>) -> OutputConfig {
    OutputConfig {
        display_id: path_display_id(p, t),
        enabled: true,
        position: source_position(p, modes),
        resolution: source_resolution(p, modes),
        refresh_rate_mhz: target_refresh(p, modes),
        primary: at_origin(source_position(p, modes)),
    }
}

/// The display that an active path stands for.
pub open spec fn path_display(p: PathInfo, modes: Seq<ModeInfo>, t: Option<TargetName>) -> DisplayInfoView {
    DisplayInfoView {
        id: path_display_id(p, t),
        friendly_name: name_chars(t, target_key(p)),
        is_active: true,
        is_primary: at_origin(source_position(p, modes)),
        resolution: spec_effective_resolution(source_resolution(p, modes), p.rotation),
        refresh_rate_mhz: target_refresh(p, modes),
    }
}

pub open spec fn target_of(n: PathNames) -> Option<TargetName> {
    n.target
}

/// Displays, outputs, GDI names, rotations and EDID fields of the active paths, in order.
pub open spec fn built_outputs(paths: Seq<PathInfo>, modes: Seq<ModeInfo>, names: Seq<PathNames>) -> Seq<OutputConfig>
    decreases paths.len(),
{
    if paths.len() == 0 || names.len() != paths.len() {
        Seq::empty()
    } else {
        let prev = built_outputs(paths.drop_last(), modes, names.drop_last());
        if is_active_path(paths.last()) {
            prev.push(path_output(paths.last(), modes, names.last().target))
        } else {
            prev
        }
    }
}

pub open spec fn built_displays(paths: Seq<PathInfo>, modes: Seq<ModeInfo>, names: Seq<PathNames>) -> Seq<DisplayInfoView>
    decreases paths.len(),
{
    if paths.len() == 0 || names.len() != paths.len() {
        Seq::empty()
    } else {
        let prev = built_displays(paths.drop_last(), modes, names.drop_last());
        if is_active_path(paths.last()) {
            prev.push(path_display(paths.last(), modes, names.last().target))
        } else {
            prev
        }
    }
}

pub open spec fn built_gdi_names(paths: Seq<PathInfo>, names: Seq<PathNames>) -> Seq<(DisplayKey, Seq<char>)>
    decreases paths.len(),
{
    if paths.len() == 0 || names.len() != paths.len() {
        Seq::empty()
    } else {
        let prev = built_gdi_names(paths.drop_last(), names.drop_last());
        if is_active_path(paths.last()) && names.last().gdi_name is Some {
            prev.push((target_key(paths.last()), names.last().gdi_name->0@))
        } else {
            prev
        }
    }
}

pub open spec fn built_rotations(paths: Seq<PathInfo>) -> Seq<(DisplayKey, u32)>
    decreases paths.len(),
{
    if paths.len() == 0 {
        Seq::empty()
    } else {
        let prev = built_rotations(paths.drop_last());
        let p = paths.last();
        if is_active_path(p) && spec_rotation_degrees(p.rotation) != 0 {
            prev.push((target_key(p), spec_rotation_degrees(p.rotation)))
        } else {
            prev
        }
    }
}

pub open spec fn built_edid_fields(paths: Seq<PathInfo>, names: Seq<PathNames>) -> Seq<(DisplayKey, EdidFields)>
    decreases paths.len(),
{
    if paths.len() == 0 || names.len() != paths.len() {
        Seq::empty()
    } else {
        let prev = built_edid_fields(paths.drop_last(), names.drop_last());
        if is_active_path(paths.last()) {
            prev.push((target_key(paths.last()), name_edid(names.last().target)))
        } else {
            prev
        }
    }
}

/// Some output is enabled and primary.
pub open spec fn any_primary(outs: Seq<OutputConfig>) -> bool {
    exists|i: int| 0 <= i < outs.len() && (#[trigger] outs[i]).primary && outs[i].enabled
}

/// When no output sits at the origin, the first one is made primary.
pub open spec fn fix_primary_outputs(outs: Seq<OutputConfig>) -> Seq<OutputConfig> {
    if any_primary(outs) || outs.len() == 0 {
        outs
    } else {
        outs.update(0, OutputConfig { primary: true, ..outs[0] })
    }
}

pub open spec fn fix_primary_displays(outs: Seq<OutputConfig>, ds: Seq<DisplayInfoView>) -> Seq<DisplayInfoView> {
    if any_primary(outs) || ds.len() == 0 {
        ds
    } else {
        ds.update(0, DisplayInfoView { is_primary: true, ..ds[0] })
    }
}

/// Everything Kaiser knows about the active topology.
pub struct TopologySnapshot {
    pub raw: RawTopologySnapshot,
    pub layout: Layout,
    pub displays: Vec<DisplayInfo>,
    /// GDI source device names ("\\.\DISPLAY1") per display key.
    pub gdi_names: Vec<(DisplayKey, String)>,
    /// Rotation in degrees per display key; a display that is not listed is at 0.
    pub rotation_values: Vec<(DisplayKey, u32)>,
    /// Clone relations: the display of the first key mirrors that of the second.
    pub clone_pairs: Vec<(DisplayKey, DisplayKey)>,
    /// Raw EDID fields per display key.
    pub edid_fields: Vec<(DisplayKey, EdidFields)>,
}

pub open spec fn gdi_views(s: Seq<(DisplayKey, String)>) -> Seq<(DisplayKey, Seq<char>)> {
    s.map_values(|e: (DisplayKey, String)| (e.0, e.1@))
}

fn name_fields(t: &Option<TargetName>, key: DisplayKey) -> (r: (String, EdidFields))
    ensures
        r.0@ == name_chars(*t, key),
        r.1 == name_edid(*t),
{
    match t {
        Some(n) => {
            let e = EdidFields {
                manufacture_id: if n.edid_manufacture_id == 0 { None } else { Some(n.edid_manufacture_id) },
                product_code: if n.edid_product_code_id == 0 { None } else { Some(n.edid_product_code_id) },
                connector_instance: if n.connector_instance == 0 { None } else { Some(n.connector_instance) },
            };
            (n.friendly_name.clone(), e)
        },
        None => {
            let mut v = vec!['D', 'i', 's', 'p', 'l', 'a', 'y', ' '];
            let mut l = decimal_chars(key.adapter_luid);
            v.append(&mut l);
            v.push(':');
            let mut t = decimal_chars(key.target_id as u64);
            v.append(&mut t);
            assert(v@ =~= name_chars(None, key));
            (chars_to_string(&v), EdidFields { manufacture_id: None, product_code: None, connector_instance: None })
        },
    }
}

fn lookup_slot(slots: &Vec<(SourceSlot, DisplayKey)>, slot: SourceSlot) -> (r: Option<DisplayKey>)
    ensures
        r == slot_lookup(slots@, slot),
{
    let mut r: Option<DisplayKey> = None;
    let mut i: usize = 0;
    while i < slots.len()
        invariant
            0 <= i <= slots@.len(),
            r == slot_lookup(slots@.take(i as int), slot),
        decreases slots@.len() - i,
    {
        assert(slots@.take(i + 1).drop_last() =~= slots@.take(i as int));
        if slots[i].0 == slot {
            r = Some(slots[i].1);
        }
        i = i + 1;
    }
    assert(slots@.take(slots@.len() as int) =~= slots@);
    r
}

/// Builds Kaiser's model of the active topology from the raw paths and modes of
/// a query and the names reported for each path (`names[i]` for `paths[i]`).
pub fn build_topology_snapshot(raw: RawTopologySnapshot, names: &Vec<PathNames>) -> (r: TopologySnapshot)
    requires
        names@.len() == raw.paths@.len(),
    ensures
        r.raw.paths@ == raw.paths@,
        r.raw.modes@ == raw.modes@,
        r.layout@ == fix_primary_outputs(built_outputs(raw.paths@, raw.modes@, names@)),
        display_views(r.displays@) == fix_primary_displays(
            built_outputs(raw.paths@, raw.modes@, names@),
            built_displays(raw.paths@, raw.modes@, names@),
        ),
        gdi_views(r.gdi_names@) == built_gdi_names(raw.paths@, names@),
        r.rotation_values@ == built_rotations(raw.paths@),
        r.clone_pairs@ == clone_state(raw.paths@).1,
        r.edid_fields@ == built_edid_fields(raw.paths@, names@),
{
    let ghost paths0 = raw.paths@;
    let ghost modes0 = raw.modes@;
    let mut displays: Vec<DisplayInfo> = Vec::new();
    let mut outputs: Vec<OutputConfig> = Vec::new();
    let mut gdi_names: Vec<(DisplayKey, String)> = Vec::new();
    let mut rotation_values: Vec<(DisplayKey, u32)> = Vec::new();
    let mut clone_pairs: Vec<(DisplayKey, DisplayKey)> = Vec::new();
    let mut slots: Vec<(SourceSlot, DisplayKey)> = Vec::new();
    let mut edid_fields: Vec<(DisplayKey, EdidFields)> = Vec::new();
    let mut i: usize = 0;
    while i < raw.paths.len()
        invariant
            0 <= i <= paths0.len(),
            raw.paths@ == paths0,
            raw.modes@ == modes0,
            names@.len() == paths0.len(),
            outputs@ == built_outputs(paths0.take(i as int), modes0, names@.take(i as int)),
            display_views(displays@) == built_displays(paths0.take(i as int), modes0, names@.take(i as int)),
            gdi_views(gdi_names@) == built_gdi_names(paths0.take(i as int), names@.take(i as int)),
            rotation_values@ == built_rotations(paths0.take(i as int)),
            (slots@, clone_pairs@) == clone_state(paths0.take(i as int)),
            edid_fields@ == built_edid_fields(paths0.take(i as int), names@.take(i as int)),
        decreases paths0.len() - i,
    {
        assert(paths0.take(i + 1).drop_last() =~= paths0.take(i as int));
        assert(names@.take(i + 1).drop_last() =~= names@.take(i as int));
        let p = raw.paths[i];
        if path_is_active(&p) {
            let key = path_target_key(&p);
            let nm = &names[i];
            let (friendly_name, edid) = name_fields(&nm.target, key);
            let display_id = make_display_id(key.adapter_luid, p.target_id, &edid);
            match &nm.gdi_name {
                Some(g) => {
                    let ghost before = gdi_names@;
                    gdi_names.push((key, g.clone()));
                    assert(gdi_views(gdi_names@) =~= gdi_views(before).push((key, g@)));
                },
                None => {},
            }
            let slot = SourceSlot { adapter: p.source_adapter, source_id: p.source_id };
            match lookup_slot(&slots, slot) {
                Some(src_target) => {
                    clone_pairs.push((key, src_target));
                },
                None => {
                    slots.push((slot, key));
                },
            }
            let (position, source_res) = match find_mode(&raw.modes, p.source_adapter, p.source_id, MODE_INFO_TYPE_SOURCE) {
                Some(m) => source_mode_position_and_resolution(&m),
                None => (Position { x: 0, y: 0 }, Resolution { width: 0, height: 0 }),
            };
            let refresh_rate_mhz = match find_mode(&raw.modes, p.target_adapter, p.target_id, MODE_INFO_TYPE_TARGET) {
                Some(m) => target_mode_refresh_mhz(&m),
                None => DEFAULT_REFRESH_MHZ,
            };
            let rotation = rotation_to_degrees(p.rotation);
            if rotation != 0 {
                rotation_values.push((key, rotation));
            }
            edid_fields.push((key, edid));
            let display_resolution = effective_resolution_for_rotation(source_res, p.rotation);
            let is_primary = position.x == 0 && position.y == 0;
            let ghost dv = display_views(displays@);
            displays.push(DisplayInfo {
                id: display_id,
                friendly_name,
                is_active: true,
                is_primary,
                resolution: display_resolution,
                refresh_rate_mhz,
            });
            assert(display_views(displays@) =~= dv.push(path_display(p, modes0, names@[i as int].target)));
            outputs.push(OutputConfig {
                display_id,
                enabled: true,
                position,
                resolution: source_res,
                refresh_rate_mhz,
                primary: is_primary,
            });
        }
        i = i + 1;
    }
    assert(paths0.take(paths0.len() as int) =~= paths0);
    assert(names@.take(names@.len() as int) =~= names@);

    let ghost outs0 = outputs@;
    let ghost ds0 = display_views(displays@);
    assert(outs0.len() == ds0.len()) by {
        lemma_built_lengths(paths0, modes0, names@);
    }
    let mut any = false;
    let mut j: usize = 0;
    while j < outputs.len()
        invariant
            0 <= j <= outputs@.len(),
            any == (exists|k: int| 0 <= k < j && (#[trigger] outputs@[k]).primary && outputs@[k].enabled),
        decreases outputs@.len() - j,
    {
        if outputs[j].primary && outputs[j].enabled {
            any = true;
        }
        j = j + 1;
    }
    if !any && outputs.len() > 0 {
        let first = outputs[0];
        outputs.set(0, OutputConfig { primary: true, ..first });
        let mut d = displays.remove(0);
        d.is_primary = true;
        displays.insert(0, d);
        assert(display_views(displays@) =~= fix_primary_displays(outs0, ds0));
    }
    assert(outputs@ =~= fix_primary_outputs(outs0));
    TopologySnapshot {
        raw,
        layout: Layout { outputs },
        displays,
        gdi_names,
        rotation_values,
        clone_pairs,
        edid_fields,
    }
}

proof fn lemma_built_lengths(paths: Seq<PathInfo>, modes: Seq<ModeInfo>, names: Seq<PathNames>)
    ensures
        built_outputs(paths, modes, names).len() == built_displays(paths, modes, names).len(),
    decreases paths.len(),
{
    if paths.len() > 0 && names.len() == paths.len() {
        lemma_built_lengths(paths.drop_last(), modes, names.drop_last());
    }
}


/// The keys of the active paths, in order.
pub open spec fn active_keys(paths: Seq<PathInfo>) -> Seq<DisplayKey>
    decreases paths.len(),
{
    if paths.len() == 0 {
        Seq::empty()
    } else {
        let prev = active_keys(paths.drop_last());
        if is_active_path(paths.last()) { prev.push(target_key(paths.last())) } else { prev }
    }
}

/// The display `k` is driven by an active path.
pub open spec fn key_is_active(paths: Seq<PathInfo>, k: DisplayKey) -> bool {
    exists|i: int| 0 <= i < paths.len() && is_active_path(#[trigger] paths[i]) && target_key(paths[i]) == k
}

/// Whether the display `k` is driven by an active path of `paths`.
pub fn key_active_in(paths: &Vec<PathInfo>, k: &DisplayKey) -> (r: bool)
    ensures
        r == key_is_active(paths@, *k),
{
    let mut i: usize = 0;
    while i < paths.len()
        invariant
            0 <= i <= paths@.len(),
            forall|j: int| 0 <= j < i ==> !(is_active_path(#[trigger] paths@[j]) && target_key(paths@[j]) == *k),
        decreases paths@.len() - i,
    {
        let p = paths[i];
        if path_is_active(&p) && path_target_key(&p) == *k {
            assert(is_active_path(paths@[i as int]) && target_key(paths@[i as int]) == *k);
            return true;
        }
        i = i + 1;
    }
    false
}

/// Some path of `paths`, active or not, reaches the display `k`.
pub open spec fn key_has_path(paths: Seq<PathInfo>, k: DisplayKey) -> bool {
    exists|i: int| 0 <= i < paths.len() && target_key(#[trigger] paths[i]) == k
}

/// Every enabled output of the layout has a path in `raw`.
pub open spec fn spec_raw_covers(paths: Seq<PathInfo>, outs: Seq<OutputConfig>) -> bool {
    forall|i: int| 0 <= i < outs.len() && (#[trigger] outs[i]).enabled ==> key_has_path(paths, outs[i].key())
}

/// Whether every enabled output of `layout` is reachable by some path of `raw`.
pub fn raw_covers_active_outputs(raw: &RawTopologySnapshot, layout: &Layout) -> (r: bool)
    ensures
        r == spec_raw_covers(raw.paths@, layout@),
{
    let mut i: usize = 0;
    while i < layout.outputs.len()
        invariant
            0 <= i <= layout@.len(),
            forall|j: int| 0 <= j < i && (#[trigger] layout@[j]).enabled ==> key_has_path(raw.paths@, layout@[j].key()),
        decreases layout@.len() - i,
    {
        let o = layout.outputs[i];
        if o.enabled {
            let k = crate::display::output_key(&o);
            let mut found = false;
            let mut j: usize = 0;
            while j < raw.paths.len() && !found
                invariant
                    0 <= j <= raw.paths@.len(),
                    found ==> key_has_path(raw.paths@, k),
                    !found ==> forall|m: int| 0 <= m < j ==> target_key(#[trigger] raw.paths@[m]) != k,
                decreases raw.paths@.len() - j, if found { 0int } else { 1int },
            {
                if path_target_key(&raw.paths[j]) == k {
                    assert(target_key(raw.paths@[j as int]) == k);
                    found = true;
                } else {
                    j = j + 1;
                }
            }
            if !found {
                assert(layout@[i as int] == o);
                return false;
            }
        }
        i = i + 1;
    }
    true
}

/// A copy of a raw snapshot.
pub fn clone_raw(raw: &RawTopologySnapshot) -> (r: RawTopologySnapshot)
    ensures
        r.paths@ == raw.paths@,
        r.modes@ == raw.modes@,
{
    let paths = raw.paths.clone();
    let modes = raw.modes.clone();
    assert(paths@ =~= raw.paths@);
    assert(modes@ =~= raw.modes@);
    RawTopologySnapshot { paths, modes }
}

/// The cache keeps the richer raw paths of the previous snapshot when the
/// fresh query returned fewer paths and the old ones still reach every
/// enabled output; all else comes from the fresh snapshot.
pub open spec fn keeps_previous_raw(previous: Option<Seq<PathInfo>>, fresh_paths: Seq<PathInfo>, fresh_outputs: Seq<OutputConfig>) -> bool {
    match previous {
        Some(pp) => pp.len() > fresh_paths.len() && spec_raw_covers(pp, fresh_outputs),
        None => false,
    }
}

/// What the cache holds after a fresh snapshot `fresh` arrives when it held
/// `previous` (see `keeps_previous_raw`).
pub open spec fn cache_merge(previous: Option<TopologySnapshot>, fresh: TopologySnapshot, r: TopologySnapshot) -> bool {
    &&& ({
        let prev_paths = match previous { Some(p) => Some(p.raw.paths@), None => None };
        if keeps_previous_raw(prev_paths, fresh.raw.paths@, fresh.layout@) {
            &&& r.raw.paths@ == previous->0.raw.paths@
            &&& r.raw.modes@ == previous->0.raw.modes@
        } else {
            &&& r.raw.paths@ == fresh.raw.paths@
            &&& r.raw.modes@ == fresh.raw.modes@
        }
    })
    &&& r.layout@ == fresh.layout@
    &&& r.displays@ == fresh.displays@
    &&& r.gdi_names@ == fresh.gdi_names@
    &&& r.rotation_values@ == fresh.rotation_values@
    &&& r.clone_pairs@ == fresh.clone_pairs@
    &&& r.edid_fields@ == fresh.edid_fields@
}

/// Merges a fresh snapshot into the cache (see `keeps_previous_raw`).
pub fn merge_snapshot_for_cache(previous: Option<&TopologySnapshot>, fresh: TopologySnapshot) -> (r: TopologySnapshot)
    ensures
        cache_merge(match previous { Some(p) => Some(*p), None => None }, fresh, r),
{
    match previous {
        Some(prev) => {
            if prev.raw.paths.len() > fresh.raw.paths.len() && raw_covers_active_outputs(&prev.raw, &fresh.layout) {
                let mut merged = fresh;
                merged.raw = clone_raw(&prev.raw);
                return merged;
            }
            fresh
        },
        None => fresh,
    }
}

/// The GDI name recorded for a display key (the last record when there are several).
pub open spec fn gdi_lookup(entries: Seq<(DisplayKey, Seq<char>)>, k: DisplayKey) -> Option<Seq<char>>
    decreases entries.len(),
{
    if entries.len() == 0 {
        None
    } else if entries.last().0 == k {
        Some(entries.last().1)
    } else {
        gdi_lookup(entries.drop_last(), k)
    }
}

impl TopologySnapshot {
    /// The GDI device name of a display ("\\.\DISPLAY1"), if the snapshot has one.
    pub fn get_gdi_name(&self, adapter_luid: u64, target_id: u32) -> (r: Option<String>)
        ensures
            match r {
                Some(s) => gdi_lookup(gdi_views(self.gdi_names@), DisplayKey { adapter_luid, target_id }) == Some(s@),
                None => gdi_lookup(gdi_views(self.gdi_names@), DisplayKey { adapter_luid, target_id }) is None,
            },
    {
        let k = DisplayKey { adapter_luid, target_id };
        let mut found: Option<usize> = None;
        let mut i: usize = 0;
        while i < self.gdi_names.len()
            invariant
                0 <= i <= self.gdi_names@.len(),
                match found {
                    Some(j) => j < i && gdi_lookup(gdi_views(self.gdi_names@.take(i as int)), k) == Some(self.gdi_names@[j as int].1@),
                    None => gdi_lookup(gdi_views(self.gdi_names@.take(i as int)), k) is None,
                },
            decreases self.gdi_names@.len() - i,
        {
            assert(gdi_views(self.gdi_names@.take(i + 1)).drop_last() =~= gdi_views(self.gdi_names@.take(i as int)));
            if self.gdi_names[i].0 == k {
                found = Some(i);
            }
            i = i + 1;
        }
        assert(self.gdi_names@.take(self.gdi_names@.len() as int) =~= self.gdi_names@);
        match found {
            Some(j) => Some(self.gdi_names[j].1.clone()),
            None => None,
        }
    }
}

/// The layout is in force: every enabled output is driven by an active path
/// and no disabled output is.
pub open spec fn spec_layout_applied(outs: Seq<OutputConfig>, paths: Seq<PathInfo>) -> bool {
    forall|i: int| 0 <= i < outs.len() ==> (#[trigger] outs[i]).enabled == key_is_active(paths, outs[i].key())
}

/// Checks whether the active topology matches what the desired layout requires.
pub fn verify_layout_applied(desired: &Layout, snapshot: &TopologySnapshot) -> (r: bool)
    ensures
        r == spec_layout_applied(desired@, snapshot.raw.paths@),
{
    let mut ok = true;
    let mut i: usize = 0;
    while i < desired.outputs.len()
        invariant
            0 <= i <= desired@.len(),
            ok == (forall|j: int| 0 <= j < i ==> (#[trigger] desired@[j]).enabled == key_is_active(snapshot.raw.paths@, desired@[j].key())),
        decreases desired@.len() - i,
    {
        let o = desired.outputs[i];
        let k = crate::display::output_key(&o);
        let active = key_active_in(&snapshot.raw.paths, &k);
        if o.enabled != active {
            ok = false;
        }
        i = i + 1;
    }
    ok
}

} // verus!
