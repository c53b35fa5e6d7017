//! Planning a topology change. Applying a layout takes two calls of the
//! system's SetDisplayConfig: the first brings inactive monitors online by
//! appending their paths to the active ones, the second turns off the paths
//! that should be off, writes the desired modes and moves the desktop so that
//! the primary display sits at the origin. This module computes the path and
//! mode arrays handed to those calls; the calls themselves are made outside.

use vstd::prelude::*;
use crate::display::{DisplayKey, Layout, OutputConfig, Position, output_key};
use crate::text::{dec_chars, decimal_chars};
use crate::topology::{
    PathInfo, ModeInfo, RawTopologySnapshot, is_active_path, target_key, path_is_active, path_target_key,
    key_is_active, key_active_in, at_origin, PATH_ACTIVE_FLAG, MODE_INFO_TYPE_SOURCE, INVALID_MODE_INDEX,
};

verus! {

/// Why a layout could not be applied.
#[derive(Clone, Copy, Debug, PartialEq, Eq, Structural)]
pub enum ApplyError {
    /// The layout turns every display off.
    AllOutputsDisabled,
    /// The planned configuration would leave no path active (a black screen).
    AllPathsInactive,
    /// The fallback found no enabled output that is not active already.
    NoInactiveOutputs,
    /// SetDisplayConfig rejected the planned configuration with this status.
    SetDisplayConfigFailed(i32),
    /// SetDisplayConfig rejected the fallback configuration with this status.
    AttachFailed(i32),
    /// Querying the topology failed with this status.
    QueryFailed(i32),
}

/// The status text of a failed SetDisplayConfig call names the invalid-parameter
/// error: its decimal digits begin with "87". The fallback is chosen by
/// looking for "SetDisplayConfig failed: 87" in the error's text, so a status
/// such as 870 or 8700 is taken for it as well.
pub open spec fn names_invalid_parameter(status: i32) -> bool {
    status >= 0 && dec_chars(status as nat).len() >= 2 && dec_chars(status as nat)[0] == '8' && dec_chars(
        status as nat,
    )[1] == '7'
}

/// The error that triggers the inactive-path fallback: SetDisplayConfig
/// rejected the planned configuration as an invalid parameter (see
/// `names_invalid_parameter`).
pub fn is_set_display_invalid_parameter(error: &ApplyError) -> (r: bool)
    ensures
        r == (*error matches ApplyError::SetDisplayConfigFailed(status) && names_invalid_parameter(status)),
{
    match error {
        ApplyError::SetDisplayConfigFailed(status) => {
            if *status < 0 {
                return false;
            }
            let digits = decimal_chars(*status as u64);
            digits.len() >= 2 && digits[0] == '8' && digits[1] == '7'
        },
        _ => false,
    }
}

/// The stages of applying a layout: the planned two-phase apply, then, when
/// SetDisplayConfig rejects it as an invalid parameter, attaching inactive
/// paths, and last of all extending the desktop topology and applying again.
#[derive(Clone, Copy, Debug, PartialEq, Eq, Structural)]
pub enum ApplyStage {
    Planned,
    AttachInactive,
    ExtendAndRetry,
}

/// What to do after a stage ended.
#[derive(Clone, Copy, Debug, PartialEq, Eq, Structural)]
pub enum ApplyStep {
    /// The layout is applied.
    Done,
    /// Run this stage next.
    Run(ApplyStage),
    /// Give up with this error.
    Fail(ApplyError),
}

pub open spec fn spec_next_apply_step(stage: ApplyStage, outcome: Result<(), ApplyError>) -> ApplyStep {
    match outcome {
        Ok(()) => ApplyStep::Done,
        Err(e) => match stage {
            ApplyStage::Planned => if e matches ApplyError::SetDisplayConfigFailed(status) && names_invalid_parameter(status) {
                ApplyStep::Run(ApplyStage::AttachInactive)
            } else {
                ApplyStep::Fail(e)
            },
            ApplyStage::AttachInactive => ApplyStep::Run(ApplyStage::ExtendAndRetry),
            ApplyStage::ExtendAndRetry => ApplyStep::Fail(e),
        },
    }
}

/// The recovery policy of an apply: given the stage that ran and how it
/// ended, the next step.
pub fn next_apply_step(stage: ApplyStage, outcome: Result<(), ApplyError>) -> (r: ApplyStep)
    ensures
        r == spec_next_apply_step(stage, outcome),
{
    match outcome {
        Ok(()) => ApplyStep::Done,
        Err(e) => match stage {
            ApplyStage::Planned => if is_set_display_invalid_parameter(&e) {
                ApplyStep::Run(ApplyStage::AttachInactive)
            } else {
                ApplyStep::Fail(e)
            },
            ApplyStage::AttachInactive => ApplyStep::Run(ApplyStage::ExtendAndRetry),
            ApplyStage::ExtendAndRetry => ApplyStep::Fail(e),
        },
    }
}

/// The stage a step moves to, where it moves on.
pub open spec fn stage_rank(stage: ApplyStage) -> int {
    match stage {
        ApplyStage::Planned => 0,
        ApplyStage::AttachInactive => 1,
        ApplyStage::ExtendAndRetry => 2,
    }
}

/// The recovery always ends: every step either finishes or moves to a later
/// stage, so no stage runs twice.
pub proof fn lemma_apply_steps_advance(stage: ApplyStage, outcome: Result<(), ApplyError>)
    ensures
        spec_next_apply_step(stage, outcome) matches ApplyStep::Run(next) ==> stage_rank(next) > stage_rank(stage),
{
}

/// The desired output for a display key: the last output of the layout with
/// that key (a later output replaces an earlier one, as in a map).
pub open spec fn desired_lookup(outs: Seq<OutputConfig>, k: DisplayKey) -> Option<OutputConfig>
    decreases outs.len(),
{
    if outs.len() == 0 {
        None
    } else if outs.last().key() == k {
        Some(outs.last())
    } else {
        desired_lookup(outs.drop_last(), k)
    }
}

pub fn find_desired_output(desired: &Layout, k: &DisplayKey) -> (r: Option<OutputConfig>)
    ensures
        r == desired_lookup(desired@, *k),
{
    let mut r: Option<OutputConfig> = None;
    let mut i: usize = 0;
    while i < desired.outputs.len()
        invariant
            0 <= i <= desired@.len(),
            r == desired_lookup(desired@.take(i as int), *k),
        decreases desired@.len() - i,
    {
        assert(desired@.take(i + 1).drop_last() =~= desired@.take(i as int));
        if output_key(&desired.outputs[i]) == *k {
            r = Some(desired.outputs[i]);
        }
        i = i + 1;
    }
    assert(desired@.take(desired@.len() as int) =~= desired@);
    r
}

/// A path with the active flag set.
pub open spec fn with_active(p: PathInfo) -> PathInfo {
    PathInfo { flags: p.flags | PATH_ACTIVE_FLAG, ..p }
}

/// A path with the active flag cleared; its mode indices are kept.
pub open spec fn without_active(p: PathInfo) -> PathInfo {
    PathInfo { flags: p.flags & 0xFFFF_FFFE, ..p }
}

/// Setting the flag makes a path active and clearing it makes it inactive.
pub proof fn lemma_active_flag(p: PathInfo)
    ensures
        is_active_path(with_active(p)),
        !is_active_path(without_active(p)),
{
    let f = p.flags;
    assert((f | 1u32) & 1u32 != 0 && (f & 0xFFFF_FFFEu32) & 1u32 == 0) by (bit_vector);
}

/// The modes after writing the desired position and size into the source mode of a path.
pub open spec fn spec_apply_source_mode(ms: Seq<ModeInfo>, p: PathInfo, d: Option<OutputConfig>) -> Seq<ModeInfo> {
    match d {
        Some(o) => {
            let i = p.source_mode_idx as int;
            if i < ms.len() && ms[i].info_type == MODE_INFO_TYPE_SOURCE {
                ms.update(i, ModeInfo { position: o.position, width: o.resolution.width, height: o.resolution.height, ..ms[i] })
            } else {
                ms
            }
        },
        None => ms,
    }
}

/// Writes the desired position and resolution into the source mode of a path.
pub fn apply_desired_source_mode(path: &PathInfo, modes: &mut Vec<ModeInfo>, desired_output: Option<OutputConfig>)
    ensures
        final(modes)@ == spec_apply_source_mode(old(modes)@, *path, desired_output),
{
    match desired_output {
        Some(output) => {
            let mode_index = path.source_mode_idx as usize;
            if mode_index < modes.len() {
                let mode = modes[mode_index];
                if mode.info_type == MODE_INFO_TYPE_SOURCE {
                    modes.set(mode_index, ModeInfo {
                        position: output.position,
                        width: output.resolution.width,
                        height: output.resolution.height,
                        ..mode
                    });
                }
            }
        },
        None => {},
    }
}

/// A path with the desired refresh rate (millihertz over 1000, at least 1).
pub open spec fn spec_apply_refresh(p: PathInfo, d: Option<OutputConfig>) -> PathInfo {
    match d {
        Some(o) => PathInfo {
            refresh_numerator: if o.refresh_rate_mhz == 0 { 1 } else { o.refresh_rate_mhz },
            refresh_denominator: 1000,
            ..p
        },
        None => p,
    }
}

/// Writes the desired refresh rate into a path's target.
pub fn apply_desired_target_refresh(path: &mut PathInfo, desired_output: Option<OutputConfig>)
    ensures
        *final(path) == spec_apply_refresh(*old(path), desired_output),
{
    match desired_output {
        Some(output) => {
            let desired_refresh_mhz = if output.refresh_rate_mhz == 0 { 1 } else { output.refresh_rate_mhz };
            path.refresh_numerator = desired_refresh_mhz;
            path.refresh_denominator = 1000;
        },
        None => {},
    }
}

/// The source-mode index of the first active path whose desired output is the
/// primary one (paths without a source mode are passed over).
pub open spec fn primary_mode_index(paths: Seq<PathInfo>, outs: Seq<OutputConfig>) -> Option<u32>
    decreases paths.len(),
{
    if paths.len() == 0 {
        None
    } else {
        let p = paths[0];
        if is_active_path(p) && (desired_lookup(outs, target_key(p)) matches Some(o) && o.primary)
            && p.source_mode_idx != INVALID_MODE_INDEX {
            Some(p.source_mode_idx)
        } else {
            primary_mode_index(paths.drop_first(), outs)
        }
    }
}

/// The offset by which every source mode moves so that the desired primary
/// display lands at the origin; `None` when nothing moves.
pub open spec fn normalize_offset(paths: Seq<PathInfo>, modes: Seq<ModeInfo>, outs: Seq<OutputConfig>) -> Option<Position> {
    match primary_mode_index(paths, outs) {
        Some(idx) => {
            let i = idx as int;
            if i < modes.len() && modes[i].info_type == MODE_INFO_TYPE_SOURCE && !at_origin(modes[i].position) {
                Some(modes[i].position)
            } else {
                None
            }
        },
        None => None,
    }
}

pub open spec fn shifted_mode(m: ModeInfo, off: Position) -> ModeInfo {
    if m.info_type == MODE_INFO_TYPE_SOURCE {
        ModeInfo { position: Position { x: (m.position.x - off.x) as i32, y: (m.position.y - off.y) as i32 }, ..m }
    } else {
        m
    }
}

/// Every shifted source position fits in an `i32`.
pub open spec fn shift_fits(modes: Seq<ModeInfo>, off: Position) -> bool {
    forall|i: int|
        0 <= i < modes.len() && (#[trigger] modes[i]).info_type == MODE_INFO_TYPE_SOURCE ==> {
            &&& i32::MIN <= modes[i].position.x - off.x <= i32::MAX
            &&& i32::MIN <= modes[i].position.y - off.y <= i32::MAX
        }
}

pub open spec fn normalize_fits(paths: Seq<PathInfo>, modes: Seq<ModeInfo>, outs: Seq<OutputConfig>) -> bool {
    match normalize_offset(paths, modes, outs) {
        Some(off) => shift_fits(modes, off),
        None => true,
    }
}

pub open spec fn spec_normalize(paths: Seq<PathInfo>, modes: Seq<ModeInfo>, outs: Seq<OutputConfig>) -> Seq<ModeInfo> {
    match normalize_offset(paths, modes, outs) {
        Some(off) => modes.map_values(|m: ModeInfo| shifted_mode(m, off)),
        None => modes,
    }
}

fn find_primary_mode_index(paths: &Vec<PathInfo>, desired: &Layout) -> (r: Option<u32>)
    ensures
        r == primary_mode_index(paths@, desired@),
{
    let mut i: usize = 0;
    assert(paths@.skip(0) =~= paths@);
    while i < paths.len()
        invariant
            0 <= i <= paths@.len(),
            primary_mode_index(paths@, desired@) == primary_mode_index(paths@.skip(i as int), desired@),
        decreases paths@.len() - i,
    {
        let p = paths[i];
        assert(paths@.skip(i as int)[0] == p);
        assert(paths@.skip(i as int).drop_first() =~= paths@.skip(i + 1));
        if path_is_active(&p) && p.source_mode_idx != INVALID_MODE_INDEX {
            let k = path_target_key(&p);
            match find_desired_output(desired, &k) {
                Some(o) => {
                    if o.primary {
                        return Some(p.source_mode_idx);
                    }
                },
                None => {},
            }
        }
        i = i + 1;
    }
    assert(paths@.skip(i as int).len() == 0);
    None
}

/// Whether the primary shift of the planned modes stays within `i32` (see `normalize_fits`).
pub fn normalize_primary_fits(paths: &Vec<PathInfo>, modes: &Vec<ModeInfo>, desired: &Layout) -> (r: bool)
    ensures
        r == normalize_fits(paths@, modes@, desired@),
{
    let off = match offset_of_primary(paths, modes, desired) {
        Some(off) => off,
        None => return true,
    };
    let mut i: usize = 0;
    while i < modes.len()
        invariant
            0 <= i <= modes@.len(),
            normalize_offset(paths@, modes@, desired@) == Some(off),
            forall|j: int|
                0 <= j < i && (#[trigger] modes@[j]).info_type == MODE_INFO_TYPE_SOURCE ==> {
                    &&& i32::MIN <= modes@[j].position.x - off.x <= i32::MAX
                    &&& i32::MIN <= modes@[j].position.y - off.y <= i32::MAX
                },
        decreases modes@.len() - i,
    {
        let m = modes[i];
        if m.info_type == MODE_INFO_TYPE_SOURCE {
            let dx = m.position.x as i64 - off.x as i64;
            let dy = m.position.y as i64 - off.y as i64;
            if dx < i32::MIN as i64 || dx > i32::MAX as i64 || dy < i32::MIN as i64 || dy > i32::MAX as i64 {
                return false;
            }
        }
        i = i + 1;
    }
    true
}

fn offset_of_primary(paths: &Vec<PathInfo>, modes: &Vec<ModeInfo>, desired: &Layout) -> (r: Option<Position>)
    ensures
        r == normalize_offset(paths@, modes@, desired@),
{
    match find_primary_mode_index(paths, desired) {
        Some(idx) => {
            let i = idx as usize;
            if i < modes.len() {
                let m = modes[i];
                if m.info_type == MODE_INFO_TYPE_SOURCE && !(m.position.x == 0 && m.position.y == 0) {
                    return Some(m.position);
                }
            }
            None
        },
        None => None,
    }
}

/// Moves every source mode so that the desired primary display sits at the
/// origin, as Windows requires of the primary.
pub fn normalize_primary_position(paths: &Vec<PathInfo>, modes: &mut Vec<ModeInfo>, desired: &Layout)
    requires
        normalize_fits(paths@, old(modes)@, desired@),
    ensures
        final(modes)@ == spec_normalize(paths@, old(modes)@, desired@),
{
    let off = match offset_of_primary(paths, modes, desired) {
        Some(off) => off,
        None => return,
    };
    let ghost m0 = modes@;
    let mut i: usize = 0;
    while i < modes.len()
        invariant
            0 <= i <= m0.len(),
            modes@.len() == m0.len(),
            shift_fits(m0, off),
            forall|j: int| 0 <= j < i ==> #[trigger] modes@[j] == shifted_mode(m0[j], off),
            forall|j: int| i <= j < m0.len() ==> #[trigger] modes@[j] == m0[j],
        decreases m0.len() - i,
    {
        let m = modes[i];
        if m.info_type == MODE_INFO_TYPE_SOURCE {
            assert(m0[i as int] == m);
            let moved = ModeInfo {
                position: Position { x: m.position.x - off.x, y: m.position.y - off.y },
                ..m
            };
            modes.set(i, moved);
        }
        i = i + 1;
    }
    assert(modes@ =~= m0.map_values(|m: ModeInfo| shifted_mode(m, off)));
}


/// The order in which paths are handed to SetDisplayConfig: the primary first,
/// then the other enabled outputs top to bottom and left to right, then the
/// disabled ones, then paths the layout does not mention; ties by display key.
#[derive(Clone, Copy, Debug, PartialEq, Eq, Structural)]
pub struct PathRank {
    pub bucket: u8,
    pub y: i32,
    pub x: i32,
    pub adapter_luid: u64,
    pub target_id: u32,
}

pub open spec fn spec_path_rank(p: PathInfo, outs: Seq<OutputConfig>) -> PathRank {
    let k = target_key(p);
    match desired_lookup(outs, k) {
        None => PathRank { bucket: 3, y: 0, x: 0, adapter_luid: k.adapter_luid, target_id: k.target_id },
        Some(o) => if !o.enabled {
            PathRank { bucket: 2, y: 0, x: 0, adapter_luid: k.adapter_luid, target_id: k.target_id }
        } else {
            PathRank {
                bucket: if o.primary { 0 } else { 1 },
                y: o.position.y,
                x: o.position.x,
                adapter_luid: k.adapter_luid,
                target_id: k.target_id,
            }
        },
    }
}

/// The lexicographic order of ranks.
pub open spec fn rank_lt(a: PathRank, b: PathRank) -> bool {
    a.bucket < b.bucket || (a.bucket == b.bucket && (a.y < b.y || (a.y == b.y && (a.x < b.x || (a.x == b.x
        && (a.adapter_luid < b.adapter_luid || (a.adapter_luid == b.adapter_luid && a.target_id
        < b.target_id)))))))
}

pub fn path_priority_rank(path: &PathInfo, desired: &Layout) -> (r: PathRank)
    ensures
        r == spec_path_rank(*path, desired@),
{
    let k = path_target_key(path);
    match find_desired_output(desired, &k) {
        None => PathRank { bucket: 3, y: 0, x: 0, adapter_luid: k.adapter_luid, target_id: k.target_id },
        Some(o) => {
            if !o.enabled {
                PathRank { bucket: 2, y: 0, x: 0, adapter_luid: k.adapter_luid, target_id: k.target_id }
            } else {
                PathRank {
                    bucket: if o.primary { 0 } else { 1 },
                    y: o.position.y,
                    x: o.position.x,
                    adapter_luid: k.adapter_luid,
                    target_id: k.target_id,
                }
            }
        },
    }
}

fn rank_less(a: &PathRank, b: &PathRank) -> (r: bool)
    ensures
        r == rank_lt(*a, *b),
{
    a.bucket < b.bucket || (a.bucket == b.bucket && (a.y < b.y || (a.y == b.y && (a.x < b.x || (a.x == b.x
        && (a.adapter_luid < b.adapter_luid || (a.adapter_luid == b.adapter_luid && a.target_id
        < b.target_id)))))))
}

/// Where a stable insertion puts an element of rank `r`: before the first
/// element of greater rank.
pub open spec fn insert_pos(s: Seq<(PathRank, PathInfo)>, r: PathRank) -> int
    decreases s.len(),
{
    if s.len() == 0 {
        0
    } else if rank_lt(r, s[0].0) {
        0
    } else {
        1 + insert_pos(s.drop_first(), r)
    }
}

/// Stable sort by rank (insertion sort): elements of equal rank keep their order.
pub open spec fn stable_sort_ranked(s: Seq<(PathRank, PathInfo)>) -> Seq<(PathRank, PathInfo)>
    decreases s.len(),
{
    if s.len() == 0 {
        s
    } else {
        let t = stable_sort_ranked(s.drop_last());
        t.insert(insert_pos(t, s.last().0), s.last())
    }
}

pub open spec fn ranked_paths(paths: Seq<PathInfo>, outs: Seq<OutputConfig>) -> Seq<(PathRank, PathInfo)> {
    paths.map_values(|p: PathInfo| (spec_path_rank(p, outs), p))
}

/// The paths in the order in which they are handed to the system.
pub open spec fn spec_reorder(paths: Seq<PathInfo>, outs: Seq<OutputConfig>) -> Seq<PathInfo> {
    stable_sort_ranked(ranked_paths(paths, outs)).map_values(|e: (PathRank, PathInfo)| e.1)
}

proof fn lemma_insert_pos(s: Seq<(PathRank, PathInfo)>, r: PathRank, j: int)
    requires
        0 <= j <= s.len(),
        forall|k: int| 0 <= k < j ==> !rank_lt(r, #[trigger] s[k].0),
        j < s.len() ==> rank_lt(r, s[j].0),
    ensures
        insert_pos(s, r) == j,
    decreases j,
{
    if j > 0 {
        assert(!rank_lt(r, s[0].0));
        let t = s.drop_first();
        assert forall|k: int| 0 <= k < j - 1 implies !rank_lt(r, #[trigger] t[k].0) by {
            assert(t[k] == s[k + 1]);
        }
        if j - 1 < t.len() {
            assert(t[j - 1] == s[j]);
        }
        lemma_insert_pos(t, r, j - 1);
    }
}

/// Orders the paths by priority (see `PathRank`), keeping the order of paths of equal rank.
pub fn reorder_paths_for_desired_priority(paths: &mut Vec<PathInfo>, desired: &Layout)
    ensures
        final(paths)@ == spec_reorder(old(paths)@, desired@),
{
    let ghost p0 = paths@;
    let ghost ranked = ranked_paths(p0, desired@);
    let mut sorted: Vec<(PathRank, PathInfo)> = Vec::new();
    let mut i: usize = 0;
    while i < paths.len()
        invariant
            0 <= i <= p0.len(),
            paths@ == p0,
            ranked == ranked_paths(p0, desired@),
            sorted@ == stable_sort_ranked(ranked.take(i as int)),
        decreases p0.len() - i,
    {
        let p = paths[i];
        let r = path_priority_rank(&p, desired);
        let mut j: usize = 0;
        while j < sorted.len() && !rank_less(&r, &sorted[j].0)
            invariant
                0 <= j <= sorted@.len(),
                forall|k: int| 0 <= k < j ==> !rank_lt(r, #[trigger] sorted@[k].0),
            decreases sorted@.len() - j,
        {
            j = j + 1;
        }
        proof {
            lemma_insert_pos(sorted@, r, j as int);
            assert(ranked.take(i + 1).drop_last() =~= ranked.take(i as int));
            assert(ranked.take(i + 1).last() == (r, p));
        }
        sorted.insert(j, (r, p));
        i = i + 1;
    }
    assert(ranked.take(p0.len() as int) =~= ranked);
    let ghost sorted_all = sorted@;
    let mut out: Vec<PathInfo> = Vec::new();
    let mut k: usize = 0;
    while k < sorted.len()
        invariant
            0 <= k <= sorted@.len(),
            sorted@ == sorted_all,
            out@ == sorted_all.take(k as int).map_values(|e: (PathRank, PathInfo)| e.1),
        decreases sorted@.len() - k,
    {
        out.push(sorted[k].1);
        assert(sorted_all.take(k + 1).map_values(|e: (PathRank, PathInfo)| e.1) =~= sorted_all.take(k as int).map_values(|e: (PathRank, PathInfo)| e.1).push(sorted_all[k as int].1));
        k = k + 1;
    }
    assert(sorted_all.take(sorted_all.len() as int) =~= sorted_all);
    *paths = out;
}


/// The keys of the enabled outputs, in layout order, whose display is not
/// driven by an active path of `paths`.
pub open spec fn spec_needs_enable(outs: Seq<OutputConfig>, paths: Seq<PathInfo>) -> Seq<DisplayKey>
    decreases outs.len(),
{
    if outs.len() == 0 {
        Seq::empty()
    } else {
        let prev = spec_needs_enable(outs.drop_last(), paths);
        let o = outs.last();
        if o.enabled && !key_is_active(paths, o.key()) { prev.push(o.key()) } else { prev }
    }
}

/// The displays that the layout turns on but that are not active yet.
pub fn needs_enable(desired: &Layout, paths: &Vec<PathInfo>) -> (r: Vec<DisplayKey>)
    ensures
        r@ == spec_needs_enable(desired@, paths@),
{
    let mut r: Vec<DisplayKey> = Vec::new();
    let mut i: usize = 0;
    while i < desired.outputs.len()
        invariant
            0 <= i <= desired@.len(),
            r@ == spec_needs_enable(desired@.take(i as int), paths@),
        decreases desired@.len() - i,
    {
        assert(desired@.take(i + 1).drop_last() =~= desired@.take(i as int));
        let o = desired.outputs[i];
        let k = output_key(&o);
        if o.enabled && !key_active_in(paths, &k) {
            r.push(k);
        }
        i = i + 1;
    }
    assert(desired@.take(desired@.len() as int) =~= desired@);
    r
}

/// The keys of `needs` whose display is not yet driven by an active path.
pub open spec fn spec_missing(needs: Seq<DisplayKey>, paths: Seq<PathInfo>) -> Seq<DisplayKey>
    decreases needs.len(),
{
    if needs.len() == 0 {
        Seq::empty()
    } else {
        let prev = spec_missing(needs.drop_last(), paths);
        if key_is_active(paths, needs.last()) { prev } else { prev.push(needs.last()) }
    }
}

/// The displays still waited for after bringing targets online.
pub fn missing_targets(needs: &Vec<DisplayKey>, paths: &Vec<PathInfo>) -> (r: Vec<DisplayKey>)
    ensures
        r@ == spec_missing(needs@, paths@),
{
    let mut r: Vec<DisplayKey> = Vec::new();
    let mut i: usize = 0;
    while i < needs.len()
        invariant
            0 <= i <= needs@.len(),
            r@ == spec_missing(needs@.take(i as int), paths@),
        decreases needs@.len() - i,
    {
        assert(needs@.take(i + 1).drop_last() =~= needs@.take(i as int));
        if !key_active_in(paths, &needs[i]) {
            r.push(needs[i]);
        }
        i = i + 1;
    }
    assert(needs@.take(needs@.len() as int) =~= needs@);
    r
}

/// The first inactive path to the display `k`, if any.
pub open spec fn first_inactive_path(all: Seq<PathInfo>, k: DisplayKey) -> Option<PathInfo>
    decreases all.len(),
{
    if all.len() == 0 {
        None
    } else if target_key(all[0]) == k && !is_active_path(all[0]) {
        Some(all[0])
    } else {
        first_inactive_path(all.drop_first(), k)
    }
}

fn find_first_inactive_path(all: &Vec<PathInfo>, k: &DisplayKey) -> (r: Option<PathInfo>)
    ensures
        r == first_inactive_path(all@, *k),
{
    let mut i: usize = 0;
    assert(all@.skip(0) =~= all@);
    while i < all.len()
        invariant
            0 <= i <= all@.len(),
            first_inactive_path(all@, *k) == first_inactive_path(all@.skip(i as int), *k),
        decreases all@.len() - i,
    {
        let p = all[i];
        assert(all@.skip(i as int)[0] == p);
        assert(all@.skip(i as int).drop_first() =~= all@.skip(i + 1));
        if path_target_key(&p) == *k && !path_is_active(&p) {
            return Some(p);
        }
        i = i + 1;
    }
    assert(all@.skip(i as int).len() == 0);
    None
}

/// An inactive path made active without modes, for the system to choose them.
pub open spec fn prepared_path(p: PathInfo) -> PathInfo {
    PathInfo {
        flags: p.flags | PATH_ACTIVE_FLAG,
        source_mode_idx: INVALID_MODE_INDEX,
        target_mode_idx: INVALID_MODE_INDEX,
        ..p
    }
}

fn prepare_path(p: &PathInfo) -> (r: PathInfo)
    ensures
        r == prepared_path(*p),
{
    PathInfo {
        flags: p.flags | PATH_ACTIVE_FLAG,
        source_mode_idx: INVALID_MODE_INDEX,
        target_mode_idx: INVALID_MODE_INDEX,
        ..*p
    }
}

/// The inactive paths to the displays of `needs`, prepared to be switched on.
/// A display without an inactive path is passed over (it may be active already).
pub open spec fn phase1_additions(needs: Seq<DisplayKey>, all: Seq<PathInfo>) -> Seq<PathInfo>
    decreases needs.len(),
{
    if needs.len() == 0 {
        Seq::empty()
    } else {
        let prev = phase1_additions(needs.drop_last(), all);
        match first_inactive_path(all, needs.last()) {
            Some(p) => prev.push(prepared_path(p)),
            None => prev,
        }
    }
}

/// The paths of the first SetDisplayConfig call: the active paths with the
/// inactive paths of the displays to be enabled appended.
pub fn phase1_paths(needs: &Vec<DisplayKey>, active_paths: &Vec<PathInfo>, all_paths: &Vec<PathInfo>) -> (r: Vec<PathInfo>)
    ensures
        r@ == active_paths@ + phase1_additions(needs@, all_paths@),
{
    let mut r = active_paths.clone();
    assert(r@ =~= active_paths@);
    let mut i: usize = 0;
    while i < needs.len()
        invariant
            0 <= i <= needs@.len(),
            r@ == active_paths@ + phase1_additions(needs@.take(i as int), all_paths@),
        decreases needs@.len() - i,
    {
        assert(needs@.take(i + 1).drop_last() =~= needs@.take(i as int));
        match find_first_inactive_path(all_paths, &needs[i]) {
            Some(p) => {
                r.push(prepare_path(&p));
                assert(r@ =~= active_paths@ + phase1_additions(needs@.take(i + 1), all_paths@));
            },
            None => {},
        }
        i = i + 1;
    }
    assert(needs@.take(needs@.len() as int) =~= needs@);
    r
}

/// The second call's paths and modes before the primary shift: paths of
/// enabled outputs are switched on and get the desired source mode (where they
/// have one) and refresh rate; all other paths are switched off.
pub open spec fn phase2_fold(paths: Seq<PathInfo>, modes: Seq<ModeInfo>, outs: Seq<OutputConfig>) -> (Seq<PathInfo>, Seq<ModeInfo>)
    decreases paths.len(),
{
    if paths.len() == 0 {
        (Seq::empty(), modes)
    } else {
        let prev = phase2_fold(paths.drop_last(), modes, outs);
        let p = paths.last();
        let d = desired_lookup(outs, target_key(p));
        if d matches Some(o) && o.enabled {
            let ms = if p.source_mode_idx != INVALID_MODE_INDEX { spec_apply_source_mode(prev.1, p, d) } else { prev.1 };
            (prev.0.push(spec_apply_refresh(with_active(p), d)), ms)
        } else {
            (prev.0.push(without_active(p)), prev.1)
        }
    }
}

/// Switches the freshly queried paths on or off as the layout wants and
/// writes the desired modes (see `phase2_fold`).
pub fn phase2_paths_and_modes(desired: &Layout, fresh: RawTopologySnapshot) -> (r: RawTopologySnapshot)
    ensures
        (r.paths@, r.modes@) == phase2_fold(fresh.paths@, fresh.modes@, desired@),
{
    let ghost p0 = fresh.paths@;
    let ghost m0 = fresh.modes@;
    let src = fresh.paths;
    let mut modes = fresh.modes;
    let mut paths: Vec<PathInfo> = Vec::new();
    let mut i: usize = 0;
    while i < src.len()
        invariant
            0 <= i <= p0.len(),
            src@ == p0,
            (paths@, modes@) == phase2_fold(p0.take(i as int), m0, desired@),
        decreases p0.len() - i,
    {
        assert(p0.take(i + 1).drop_last() =~= p0.take(i as int));
        let p = src[i];
        let k = path_target_key(&p);
        let d = find_desired_output(desired, &k);
        let should_be_active = match d {
            Some(o) => o.enabled,
            None => false,
        };
        if should_be_active {
            let mut q = PathInfo { flags: p.flags | PATH_ACTIVE_FLAG, ..p };
            if p.source_mode_idx != INVALID_MODE_INDEX {
                apply_desired_source_mode(&q, &mut modes, d);
            }
            apply_desired_target_refresh(&mut q, d);
            paths.push(q);
        } else {
            paths.push(PathInfo { flags: p.flags & 0xFFFF_FFFE, ..p });
        }
        i = i + 1;
    }
    assert(p0.take(p0.len() as int) =~= p0);
    RawTopologySnapshot { paths, modes }
}

pub open spec fn any_active(paths: Seq<PathInfo>) -> bool {
    exists|i: int| 0 <= i < paths.len() && is_active_path(#[trigger] paths[i])
}

/// The configuration of the second call: the planned modes shifted so that the
/// primary sits at the origin and the paths in priority order; refused when no
/// path would stay active.
pub open spec fn spec_finish_phase2(paths: Seq<PathInfo>, modes: Seq<ModeInfo>, outs: Seq<OutputConfig>) -> Result<(Seq<PathInfo>, Seq<ModeInfo>), ApplyError> {
    if !any_active(paths) {
        Err(ApplyError::AllPathsInactive)
    } else {
        Ok((spec_reorder(paths, outs), spec_normalize(paths, modes, outs)))
    }
}

fn count_active(paths: &Vec<PathInfo>) -> (r: bool)
    ensures
        r == any_active(paths@),
{
    let mut i: usize = 0;
    while i < paths.len()
        invariant
            0 <= i <= paths@.len(),
            forall|j: int| 0 <= j < i ==> !is_active_path(#[trigger] paths@[j]),
        decreases paths@.len() - i,
    {
        if path_is_active(&paths[i]) {
            assert(is_active_path(paths@[i as int]));
            return true;
        }
        i = i + 1;
    }
    false
}

/// Completes the second call's configuration (see `spec_finish_phase2`). The
/// primary shift must stay within `i32` (`normalize_primary_fits`).
pub fn finish_phase2(planned: RawTopologySnapshot, desired: &Layout) -> (r: Result<RawTopologySnapshot, ApplyError>)
    requires
        normalize_fits(planned.paths@, planned.modes@, desired@),
    ensures
        match r {
            Ok(raw) => spec_finish_phase2(planned.paths@, planned.modes@, desired@) == Ok::<(Seq<PathInfo>, Seq<ModeInfo>), ApplyError>((raw.paths@, raw.modes@)),
            Err(e) => spec_finish_phase2(planned.paths@, planned.modes@, desired@) == Err::<(Seq<PathInfo>, Seq<ModeInfo>), ApplyError>(e),
        },
{
    let mut paths = planned.paths;
    let mut modes = planned.modes;
    normalize_primary_position(&paths, &mut modes, desired);
    if !count_active(&paths) {
        return Err(ApplyError::AllPathsInactive);
    }
    reorder_paths_for_desired_priority(&mut paths, desired);
    Ok(RawTopologySnapshot { paths, modes })
}

/// The fallback's edit of the active paths: paths of enabled outputs get the
/// desired source mode and refresh rate, all others are switched off.
pub open spec fn attach_fold(paths: Seq<PathInfo>, modes: Seq<ModeInfo>, outs: Seq<OutputConfig>) -> (Seq<PathInfo>, Seq<ModeInfo>)
    decreases paths.len(),
{
    if paths.len() == 0 {
        (Seq::empty(), modes)
    } else {
        let prev = attach_fold(paths.drop_last(), modes, outs);
        let p = paths.last();
        let d = desired_lookup(outs, target_key(p));
        if d matches Some(o) && o.enabled {
            (prev.0.push(spec_apply_refresh(p, d)), spec_apply_source_mode(prev.1, p, d))
        } else {
            (prev.0.push(without_active(p)), prev.1)
        }
    }
}

/// The inactive paths appended by the fallback, with the desired refresh rate.
pub open spec fn attach_additions(needs: Seq<DisplayKey>, all: Seq<PathInfo>, outs: Seq<OutputConfig>) -> Seq<PathInfo>
    decreases needs.len(),
{
    if needs.len() == 0 {
        Seq::empty()
    } else {
        let prev = attach_additions(needs.drop_last(), all, outs);
        let k = needs.last();
        match first_inactive_path(all, k) {
            Some(p) => prev.push(spec_apply_refresh(prepared_path(p), desired_lookup(outs, k))),
            None => prev,
        }
    }
}

/// The fallback configuration when SetDisplayConfig rejects the planned one:
/// the active configuration edited as the layout wants, with the inactive
/// paths of the displays to be enabled appended, in priority order.
pub open spec fn spec_plan_attach(paths: Seq<PathInfo>, modes: Seq<ModeInfo>, all: Seq<PathInfo>, outs: Seq<OutputConfig>) -> Result<(Seq<PathInfo>, Seq<ModeInfo>), ApplyError> {
    let needs = spec_needs_enable(outs, paths);
    if needs.len() == 0 {
        Err(ApplyError::NoInactiveOutputs)
    } else {
        let f = attach_fold(paths, modes, outs);
        Ok((spec_reorder(f.0 + attach_additions(needs, all, outs), outs), f.1))
    }
}

/// Plans the inactive-path fallback (see `spec_plan_attach`).
pub fn plan_attach_inactive(desired: &Layout, active: &RawTopologySnapshot, all_paths: &Vec<PathInfo>) -> (r: Result<RawTopologySnapshot, ApplyError>)
    ensures
        match r {
            Ok(raw) => spec_plan_attach(active.paths@, active.modes@, all_paths@, desired@) == Ok::<(Seq<PathInfo>, Seq<ModeInfo>), ApplyError>((raw.paths@, raw.modes@)),
            Err(e) => spec_plan_attach(active.paths@, active.modes@, all_paths@, desired@) == Err::<(Seq<PathInfo>, Seq<ModeInfo>), ApplyError>(e),
        },
{
    let needs = needs_enable(desired, &active.paths);
    if needs.len() == 0 {
        return Err(ApplyError::NoInactiveOutputs);
    }
    let ghost p0 = active.paths@;
    let ghost m0 = active.modes@;
    let mut modes = active.modes.clone();
    assert(modes@ =~= m0);
    let mut paths: Vec<PathInfo> = Vec::new();
    let mut i: usize = 0;
    while i < active.paths.len()
        invariant
            0 <= i <= p0.len(),
            active.paths@ == p0,
            (paths@, modes@) == attach_fold(p0.take(i as int), m0, desired@),
        decreases p0.len() - i,
    {
        assert(p0.take(i + 1).drop_last() =~= p0.take(i as int));
        let p = active.paths[i];
        let k = path_target_key(&p);
        let d = find_desired_output(desired, &k);
        let enabled = match d {
            Some(o) => o.enabled,
            None => false,
        };
        if enabled {
            apply_desired_source_mode(&p, &mut modes, d);
            let mut q = p;
            apply_desired_target_refresh(&mut q, d);
            paths.push(q);
        } else {
            paths.push(PathInfo { flags: p.flags & 0xFFFF_FFFE, ..p });
        }
        i = i + 1;
    }
    assert(p0.take(p0.len() as int) =~= p0);
    let ghost folded = paths@;
    let mut j: usize = 0;
    while j < needs.len()
        invariant
            0 <= j <= needs@.len(),
            paths@ == folded + attach_additions(needs@.take(j as int), all_paths@, desired@),
        decreases needs@.len() - j,
    {
        assert(needs@.take(j + 1).drop_last() =~= needs@.take(j as int));
        let k = needs[j];
        match find_first_inactive_path(all_paths, &k) {
            Some(p) => {
                let mut q = prepare_path(&p);
                let d = find_desired_output(desired, &k);
                apply_desired_target_refresh(&mut q, d);
                paths.push(q);
                assert(paths@ =~= folded + attach_additions(needs@.take(j + 1), all_paths@, desired@));
            },
            None => {},
        }
        j = j + 1;
    }
    assert(needs@.take(needs@.len() as int) =~= needs@);
    reorder_paths_for_desired_priority(&mut paths, desired);
    Ok(RawTopologySnapshot { paths, modes })
}


/// No element of `t` has a smaller rank than an element before it.
pub open spec fn ranks_sorted(t: Seq<(PathRank, PathInfo)>) -> bool {
    forall|i: int, j: int| 0 <= i < j < t.len() ==> !rank_lt(#[trigger] t[j].0, #[trigger] t[i].0)
}

proof fn lemma_rank_order(a: PathRank, b: PathRank, c: PathRank)
    ensures
        rank_lt(a, b) && rank_lt(b, c) ==> rank_lt(a, c),
        !rank_lt(b, a) && rank_lt(b, c) ==> rank_lt(a, c),
        !rank_lt(a, b) ==> rank_lt(b, a) || a == b,
        !rank_lt(a, a),
{
}

proof fn lemma_insert_pos_props(t: Seq<(PathRank, PathInfo)>, r: PathRank)
    ensures
        0 <= insert_pos(t, r) <= t.len(),
        forall|k: int| 0 <= k < insert_pos(t, r) ==> !rank_lt(r, #[trigger] t[k].0),
        insert_pos(t, r) < t.len() ==> rank_lt(r, t[insert_pos(t, r)].0),
    decreases t.len(),
{
    if t.len() > 0 && !rank_lt(r, t[0].0) {
        let u = t.drop_first();
        lemma_insert_pos_props(u, r);
        assert forall|k: int| 0 <= k < insert_pos(t, r) implies !rank_lt(r, #[trigger] t[k].0) by {
            if k > 0 {
                assert(t[k] == u[k - 1]);
            }
        }
        if insert_pos(t, r) < t.len() {
            assert(t[insert_pos(t, r)] == u[insert_pos(u, r)]);
        }
    }
}

proof fn lemma_stable_sort(s: Seq<(PathRank, PathInfo)>)
    ensures
        ranks_sorted(stable_sort_ranked(s)),
        stable_sort_ranked(s).to_multiset() == s.to_multiset(),
        stable_sort_ranked(s).map_values(|e: (PathRank, PathInfo)| e.1).to_multiset()
            == s.map_values(|e: (PathRank, PathInfo)| e.1).to_multiset(),
    decreases s.len(),
{
    broadcast use vstd::seq_lib::group_to_multiset_ensures;
    if s.len() > 0 {
        let prev = s.drop_last();
        lemma_stable_sort(prev);
        let t = stable_sort_ranked(prev);
        let x = s.last();
        let pos = insert_pos(t, x.0);
        lemma_insert_pos_props(t, x.0);
        let u = t.insert(pos, x);
        assert(u == stable_sort_ranked(s));
        assert forall|i: int, j: int| 0 <= i < j < u.len() implies !rank_lt(#[trigger] u[j].0, #[trigger] u[i].0) by {
            if j < pos {
                assert(u[i] == t[i] && u[j] == t[j]);
            } else if j == pos {
                assert(u[i] == t[i] && u[j] == x);
                lemma_rank_order(t[i].0, x.0, x.0);
            } else if i == pos {
                assert(u[j] == t[j - 1]);
                if j - 1 > pos {
                    lemma_rank_order(x.0, t[pos].0, t[j - 1].0);
                    lemma_rank_order(t[j - 1].0, x.0, t[pos].0);
                }
                lemma_rank_order(t[j - 1].0, x.0, x.0);
            } else if i < pos {
                assert(u[i] == t[i] && u[j] == t[j - 1]);
            } else {
                assert(u[i] == t[i - 1] && u[j] == t[j - 1]);
            }
        }
        vstd::seq_lib::to_multiset_insert(t, pos, x);
        assert(s =~= prev.push(x));
        let f = |e: (PathRank, PathInfo)| e.1;
        assert(u.map_values(f) =~= t.map_values(f).insert(pos, x.1));
        vstd::seq_lib::to_multiset_insert(t.map_values(f), pos, x.1);
        assert(s.map_values(f) =~= prev.map_values(f).push(x.1));
    }
}

/// Reordering hands the system the same paths, each as often as before, with
/// no path after one of greater priority rank.
pub proof fn lemma_reorder_laws(paths: Seq<PathInfo>, outs: Seq<OutputConfig>)
    ensures
        spec_reorder(paths, outs).to_multiset() == paths.to_multiset(),
        forall|i: int, j: int|
            0 <= i < j < spec_reorder(paths, outs).len() ==> !rank_lt(
                spec_path_rank(#[trigger] spec_reorder(paths, outs)[j], outs),
                spec_path_rank(#[trigger] spec_reorder(paths, outs)[i], outs),
            ),
{
    let rp = ranked_paths(paths, outs);
    lemma_stable_sort(rp);
    let f = |e: (PathRank, PathInfo)| e.1;
    assert(rp.map_values(f) =~= paths);
    let t = stable_sort_ranked(rp);
    assert(forall|k: int| 0 <= k < rp.len() ==> (#[trigger] rp[k]).0 == spec_path_rank(rp[k].1, outs));
    assert forall|k: int| 0 <= k < t.len() implies (#[trigger] t[k]).0 == spec_path_rank(t[k].1, outs) by {
        broadcast use vstd::seq_lib::group_to_multiset_ensures;
        assert(t.contains(t[k]));
        assert(t.to_multiset().count(t[k]) > 0);
        assert(rp.contains(t[k]));
    }
    let r = spec_reorder(paths, outs);
    assert forall|i: int, j: int| 0 <= i < j < r.len() implies !rank_lt(
        spec_path_rank(#[trigger] r[j], outs),
        spec_path_rank(#[trigger] r[i], outs),
    ) by {
        assert(r[i] == t[i].1 && r[j] == t[j].1);
        assert(t[i].0 == spec_path_rank(t[i].1, outs));
        assert(t[j].0 == spec_path_rank(t[j].1, outs));
    }
}

/// The second call switches on exactly the paths whose display the layout
/// enables and switches off every other path; paths keep their display.
pub proof fn lemma_phase2_activation(paths: Seq<PathInfo>, modes: Seq<ModeInfo>, outs: Seq<OutputConfig>)
    ensures
        phase2_fold(paths, modes, outs).0.len() == paths.len(),
        phase2_fold(paths, modes, outs).1.len() == modes.len(),
        forall|i: int|
            0 <= i < paths.len() ==> {
                &&& target_key(#[trigger] phase2_fold(paths, modes, outs).0[i]) == target_key(paths[i])
                &&& is_active_path(phase2_fold(paths, modes, outs).0[i]) == (desired_lookup(
                    outs,
                    target_key(paths[i]),
                ) matches Some(o) && o.enabled)
            },
    decreases paths.len(),
{
    if paths.len() > 0 {
        let prev = paths.drop_last();
        lemma_phase2_activation(prev, modes, outs);
        let p = paths.last();
        lemma_active_flag(p);
        lemma_active_flag(spec_apply_refresh(p, desired_lookup(outs, target_key(p))));
        let f = phase2_fold(paths, modes, outs);
        let fp = phase2_fold(prev, modes, outs);
        assert forall|i: int| 0 <= i < paths.len() implies {
            &&& target_key(#[trigger] f.0[i]) == target_key(paths[i])
            &&& is_active_path(f.0[i]) == (desired_lookup(outs, target_key(paths[i])) matches Some(o) && o.enabled)
        } by {
            if i < prev.len() {
                assert(f.0[i] == fp.0[i]);
                assert(paths[i] == prev[i]);
            } else {
                assert(spec_apply_refresh(with_active(p), desired_lookup(outs, target_key(p))).flags == with_active(p).flags);
            }
        }
    }
}

/// After the shift the desired primary display's source mode sits at the origin.
pub proof fn lemma_primary_lands_at_origin(paths: Seq<PathInfo>, modes: Seq<ModeInfo>, outs: Seq<OutputConfig>)
    requires
        normalize_fits(paths, modes, outs),
        (primary_mode_index(paths, outs) matches Some(idx) && (idx as int) < modes.len()
            && modes[idx as int].info_type == MODE_INFO_TYPE_SOURCE),
    ensures
        at_origin(spec_normalize(paths, modes, outs)[primary_mode_index(paths, outs)->0 as int].position),
{
}


/// Whether the layout asks for the display `k` to be primary: its last
/// output with that key has `primary` set.
pub open spec fn desired_primary(outs: Seq<OutputConfig>, k: DisplayKey) -> bool {
    exists|j: int|
        0 <= j < outs.len() && (#[trigger] outs[j]).key() == k && outs[j].primary
            && forall|j2: int| j < j2 < outs.len() ==> (#[trigger] outs[j2]).key() != k
}

/// An active path with a source mode whose display the layout makes primary.
pub open spec fn path_wants_primary(p: PathInfo, outs: Seq<OutputConfig>) -> bool {
    is_active_path(p) && p.source_mode_idx != INVALID_MODE_INDEX && desired_primary(outs, target_key(p))
}

proof fn lemma_lookup_primary(outs: Seq<OutputConfig>, k: DisplayKey)
    ensures
        (desired_lookup(outs, k) matches Some(o) && o.primary) == desired_primary(outs, k),
    decreases outs.len(),
{
    if outs.len() > 0 {
        let n = outs.len() - 1;
        lemma_lookup_primary(outs.drop_last(), k);
        if outs.last().key() == k {
            if outs.last().primary {
                assert(outs[n].key() == k);
            } else if desired_primary(outs, k) {
                let j = choose|j: int|
                    0 <= j < outs.len() && (#[trigger] outs[j]).key() == k && outs[j].primary
                        && forall|j2: int| j < j2 < outs.len() ==> (#[trigger] outs[j2]).key() != k;
                if j < n {
                    assert(outs[n].key() != k);
                }
            }
        } else {
            if desired_primary(outs, k) {
                let j = choose|j: int|
                    0 <= j < outs.len() && (#[trigger] outs[j]).key() == k && outs[j].primary
                        && forall|j2: int| j < j2 < outs.len() ==> (#[trigger] outs[j2]).key() != k;
                assert(j < n);
                assert(outs.drop_last()[j] == outs[j]);
                assert forall|j2: int| j < j2 < outs.drop_last().len() implies (#[trigger] outs.drop_last()[j2]).key() != k by {
                    assert(outs.drop_last()[j2] == outs[j2]);
                }
            }
            if desired_primary(outs.drop_last(), k) {
                let d = outs.drop_last();
                let j = choose|j: int|
                    0 <= j < d.len() && (#[trigger] d[j]).key() == k && d[j].primary
                        && forall|j2: int| j < j2 < d.len() ==> (#[trigger] d[j2]).key() != k;
                assert(outs[j] == d[j]);
                assert forall|j2: int| j < j2 < outs.len() implies (#[trigger] outs[j2]).key() != k by {
                    if j2 < n {
                        assert(d[j2] == outs[j2]);
                    }
                }
            }
        }
    }
}

proof fn lemma_primary_index_first(paths: Seq<PathInfo>, outs: Seq<OutputConfig>)
    ensures
        forall|i: int| 0 <= i < paths.len() ==> (#[trigger] path_wants_primary(paths[i], outs)) ==>
            (forall|j: int| 0 <= j < i ==> !path_wants_primary(#[trigger] paths[j], outs)) ==>
            primary_mode_index(paths, outs) == Some(paths[i].source_mode_idx),
        (forall|i: int| 0 <= i < paths.len() ==> !path_wants_primary(#[trigger] paths[i], outs)) ==>
            primary_mode_index(paths, outs) is None,
    decreases paths.len(),
{
    if paths.len() > 0 {
        let rest = paths.drop_first();
        lemma_primary_index_first(rest, outs);
        lemma_lookup_primary(outs, target_key(paths[0]));
        assert forall|i: int| 0 <= i < paths.len() && #[trigger] path_wants_primary(paths[i], outs)
            && (forall|j: int| 0 <= j < i ==> !path_wants_primary(#[trigger] paths[j], outs))
            implies primary_mode_index(paths, outs) == Some(paths[i].source_mode_idx) by {
            if i > 0 {
                assert(!path_wants_primary(paths[0], outs));
                assert(rest[i - 1] == paths[i]);
                assert forall|j: int| 0 <= j < i - 1 implies !path_wants_primary(#[trigger] rest[j], outs) by {
                    assert(rest[j] == paths[j + 1]);
                }
            }
        }
        if forall|i: int| 0 <= i < paths.len() ==> !path_wants_primary(#[trigger] paths[i], outs) {
            assert(!path_wants_primary(paths[0], outs));
            assert forall|i: int| 0 <= i < rest.len() implies !path_wants_primary(#[trigger] rest[i], outs) by {
                assert(rest[i] == paths[i + 1]);
            }
        }
    }
}

/// The shift is taken from the display that the layout makes primary: the
/// first active path (with a source mode) whose desired output is primary.
/// After the shift that path's source mode sits at the origin, and every other
/// source mode keeps its place relative to it; other modes are untouched.
pub proof fn lemma_desired_primary_at_origin(paths: Seq<PathInfo>, modes: Seq<ModeInfo>, outs: Seq<OutputConfig>, i: int)
    requires
        0 <= i < paths.len(),
        path_wants_primary(paths[i], outs),
        forall|j: int| 0 <= j < i ==> !path_wants_primary(#[trigger] paths[j], outs),
        (paths[i].source_mode_idx as int) < modes.len(),
        modes[paths[i].source_mode_idx as int].info_type == MODE_INFO_TYPE_SOURCE,
    ensures ({
        let idx = paths[i].source_mode_idx as int;
        let new = spec_normalize(paths, modes, outs);
        &&& new.len() == modes.len()
        &&& at_origin(new[idx].position)
        &&& forall|m: int| 0 <= m < modes.len() && (#[trigger] modes[m]).info_type == MODE_INFO_TYPE_SOURCE
            && i32::MIN <= modes[m].position.x - modes[idx].position.x <= i32::MAX
            && i32::MIN <= modes[m].position.y - modes[idx].position.y <= i32::MAX
            ==> new[m].position.x == modes[m].position.x - modes[idx].position.x
                && new[m].position.y == modes[m].position.y - modes[idx].position.y
        &&& forall|m: int| 0 <= m < modes.len() && (#[trigger] modes[m]).info_type != MODE_INFO_TYPE_SOURCE
            ==> new[m] == modes[m]
    }),
{
    lemma_primary_index_first(paths, outs);
    assert(path_wants_primary(paths[i], outs));
    assert(primary_mode_index(paths, outs) == Some(paths[i].source_mode_idx));
}

/// Where the layout makes none of the active displays primary, no mode moves.
pub proof fn lemma_no_desired_primary_no_shift(paths: Seq<PathInfo>, modes: Seq<ModeInfo>, outs: Seq<OutputConfig>)
    requires
        forall|i: int| 0 <= i < paths.len() ==> !path_wants_primary(#[trigger] paths[i], outs),
    ensures
        spec_normalize(paths, modes, outs) == modes,
{
    lemma_primary_index_first(paths, outs);
}

/// What the wait after the first call does next.
#[derive(Clone, Copy, Debug, PartialEq, Eq, Structural)]
pub enum WaitStep {
    /// Every display to be enabled is active.
    Done,
    /// Poll again.
    KeepWaiting,
    /// Give up waiting and go on.
    TimedOut,
}

pub open spec fn spec_wait_step(needs: Seq<DisplayKey>, polled: Option<Seq<PathInfo>>, elapsed_ms: u64, timeout_ms: u64) -> WaitStep {
    if polled matches Some(paths) && spec_missing(needs, paths).len() == 0 {
        WaitStep::Done
    } else if elapsed_ms >= timeout_ms {
        WaitStep::TimedOut
    } else {
        WaitStep::KeepWaiting
    }
}

/// One round of waiting for the displays that the first call brings online:
/// given what the last poll of the active paths returned (`None` when the
/// query failed) and the time waited so far, whether they are all active,
/// whether to poll again, or whether the wait is over.
pub fn phase1_wait_step(needs: &Vec<DisplayKey>, polled: Option<&Vec<PathInfo>>, elapsed_ms: u64, timeout_ms: u64) -> (r: WaitStep)
    ensures
        r == spec_wait_step(needs@, match polled { Some(p) => Some(p@), None => None }, elapsed_ms, timeout_ms),
{
    match polled {
        Some(paths) => {
            let missing = missing_targets(needs, paths);
            if missing.len() == 0 {
                return WaitStep::Done;
            }
        },
        None => {},
    }
    if elapsed_ms >= timeout_ms {
        WaitStep::TimedOut
    } else {
        WaitStep::KeepWaiting
    }
}

/// The waiting ends: once the time is up the wait goes on no longer, and it
/// is over as soon as a poll shows every display active.
pub proof fn lemma_wait_ends(needs: Seq<DisplayKey>, polled: Option<Seq<PathInfo>>, elapsed_ms: u64, timeout_ms: u64)
    ensures
        elapsed_ms >= timeout_ms ==> spec_wait_step(needs, polled, elapsed_ms, timeout_ms) != WaitStep::KeepWaiting,
        (polled matches Some(p) && spec_missing(needs, p).len() == 0) ==> spec_wait_step(needs, polled, elapsed_ms, timeout_ms) == WaitStep::Done,
{
}

/// The flags of a second call: first the supplied configuration exactly, then
/// with the system allowed to adjust it.
#[derive(Clone, Copy, Debug, PartialEq, Eq, Structural)]
pub enum ConfigFlags {
    Exact,
    AllowChanges,
}

/// What to do after a SetDisplayConfig call of the second phase.
#[derive(Clone, Copy, Debug, PartialEq, Eq, Structural)]
pub enum SetStep {
    Applied,
    Retry(ConfigFlags),
    Failed(ApplyError),
}

pub open spec fn spec_set_step(flags: ConfigFlags, status: i32) -> SetStep {
    if status == 0 {
        SetStep::Applied
    } else {
        match flags {
            ConfigFlags::Exact => SetStep::Retry(ConfigFlags::AllowChanges),
            ConfigFlags::AllowChanges => SetStep::Failed(ApplyError::SetDisplayConfigFailed(status)),
        }
    }
}

/// The retry policy of the second call: a rejection with the exact flags is
/// retried once with changes allowed; a second rejection fails with its status.
pub fn phase2_set_step(flags: ConfigFlags, status: i32) -> (r: SetStep)
    ensures
        r == spec_set_step(flags, status),
{
    if status == 0 {
        SetStep::Applied
    } else {
        match flags {
            ConfigFlags::Exact => SetStep::Retry(ConfigFlags::AllowChanges),
            ConfigFlags::AllowChanges => SetStep::Failed(ApplyError::SetDisplayConfigFailed(status)),
        }
    }
}

/// The second call is retried at most once.
pub proof fn lemma_set_retries_once(status: i32)
    ensures
        !(spec_set_step(ConfigFlags::AllowChanges, status) is Retry),
{
}

} // verus!
