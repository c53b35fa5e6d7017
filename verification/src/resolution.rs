//! Display modes and per-monitor DPI scaling.
//!
//! Windows reports DPI scaling of a source relative to the scale it
//! recommends for the monitor, as steps in a fixed table of percentages; the
//! recommended scale sits at the index that equals the magnitude of the
//! smallest relative step.

use vstd::prelude::*;
use crate::display::DisplayKey;
use crate::topology::{PathInfo, target_key, path_target_key};

verus! {

/// A display mode: resolution, refresh rate and colour depth.
#[derive(Clone, Copy, Debug, PartialEq, Eq, Structural)]
pub struct DisplayMode {
    pub width: u32,
    pub height: u32,
    pub refresh_rate_hz: u32,
    pub bit_depth: u32,
}

/// Why the modes or the DPI of a display could not be read or set.
#[derive(Clone, Copy, Debug, PartialEq, Eq, Structural)]
pub enum ResolutionError {
    /// The device reported no usable display mode.
    NoDisplayModes,
    /// No active path leads to the display.
    NoActivePath,
    /// The current DPI step lies outside the table.
    DpiIndexOutOfRange(i32),
    /// The recommended DPI step lies outside the table.
    RecommendedDpiOutOfRange(u32),
    /// The requested scale is not a value of the table.
    NotADpiValue(u32),
}

/// The lexicographic order of modes (width, height, refresh rate, depth).
pub open spec fn mode_lt(a: DisplayMode, b: DisplayMode) -> bool {
    a.width < b.width || (a.width == b.width && (a.height < b.height || (a.height == b.height && (
    a.refresh_rate_hz < b.refresh_rate_hz || (a.refresh_rate_hz == b.refresh_rate_hz && a.bit_depth
        < b.bit_depth)))))
}

fn mode_less(a: &DisplayMode, b: &DisplayMode) -> (r: bool)
    ensures
        r == mode_lt(*a, *b),
{
    a.width < b.width || (a.width == b.width && (a.height < b.height || (a.height == b.height && (
    a.refresh_rate_hz < b.refresh_rate_hz || (a.refresh_rate_hz == b.refresh_rate_hz && a.bit_depth
        < b.bit_depth)))))
}

/// Strictly increasing: sorted and without repeats.
pub open spec fn strictly_sorted(s: Seq<DisplayMode>) -> bool {
    forall|i: int, j: int| 0 <= i < j < s.len() ==> mode_lt(#[trigger] s[i], #[trigger] s[j])
}

/// A mode with a nonzero size.
pub open spec fn usable_mode(m: DisplayMode) -> bool {
    m.width > 0 && m.height > 0
}

proof fn lemma_mode_order(a: DisplayMode, b: DisplayMode, c: DisplayMode)
    ensures
        mode_lt(a, b) && mode_lt(b, c) ==> mode_lt(a, c),
        !mode_lt(a, b) && a != b ==> mode_lt(b, a),
        !mode_lt(a, a),
{
}

fn insert_sorted_mode(modes: &mut Vec<DisplayMode>, m: DisplayMode)
    requires
        strictly_sorted(old(modes)@),
    ensures
        strictly_sorted(final(modes)@),
        forall|x: DisplayMode| final(modes)@.contains(x) ==> (old(modes)@.contains(x) || x == m),
        forall|x: DisplayMode| old(modes)@.contains(x) ==> final(modes)@.contains(x),
        final(modes)@.contains(m),
{
    let ghost before = modes@;
    assert(before == old(modes)@);
    let mut j: usize = 0;
    while j < modes.len() && mode_less(&modes[j], &m)
        invariant
            0 <= j <= modes@.len(),
            modes@ == before,
            forall|k: int| 0 <= k < j ==> mode_lt(#[trigger] modes@[k], m),
        decreases modes@.len() - j,
    {
        j = j + 1;
    }
    if j < modes.len() && modes[j] == m {
        assert(before.contains(m)) by {
            assert(before[j as int] == m);
        }
        return;
    }
    proof {
        if j < before.len() {
            lemma_mode_order(before[j as int], m, m);
            assert(mode_lt(m, before[j as int]));
        }
    }
    modes.insert(j, m);
    assert forall|a: int, b: int| 0 <= a < b < modes@.len() implies mode_lt(#[trigger] modes@[a], #[trigger] modes@[b]) by {
        if b < j {
            assert(modes@[a] == before[a] && modes@[b] == before[b]);
        } else if b == j {
            assert(modes@[a] == before[a]);
        } else if a == j {
            assert(modes@[b] == before[b - 1]);
            if b - 1 > j {
                lemma_mode_order(m, before[j as int], before[b - 1]);
            }
        } else if a < j {
            assert(modes@[a] == before[a] && modes@[b] == before[b - 1]);
        } else {
            assert(modes@[a] == before[a - 1] && modes@[b] == before[b - 1]);
        }
    }
    assert forall|x: DisplayMode| modes@.contains(x) <==> (before.contains(x) || x == m) by {
        if modes@.contains(x) {
            let k = choose|k: int| 0 <= k < modes@.len() && modes@[k] == x;
            if k < j {
                assert(before[k] == x);
            } else if k > j {
                assert(before[k - 1] == x);
            }
        }
        if before.contains(x) {
            let k = choose|k: int| 0 <= k < before.len() && before[k] == x;
            if k < j {
                assert(modes@[k] == x);
            } else {
                assert(modes@[k + 1] == x);
            }
        }
        if x == m {
            assert(modes@[j as int] == m);
        }
    }
    assert(modes@[j as int] == m);
}

/// The modes that the system enumerated for a display, without zero-sized
/// entries and repeats, in ascending order; an error when none is left.
pub fn list_display_modes(enumerated: &Vec<DisplayMode>) -> (r: Result<Vec<DisplayMode>, ResolutionError>)
    ensures
        match r {
            Ok(modes) => {
                &&& modes@.len() > 0
                &&& strictly_sorted(modes@)
                &&& forall|m: DisplayMode| #![trigger modes@.contains(m)] #![trigger enumerated@.contains(m)] modes@.contains(m) <==> (enumerated@.contains(m) && usable_mode(m))
            },
            Err(e) => {
                &&& e == ResolutionError::NoDisplayModes
                &&& forall|m: DisplayMode| enumerated@.contains(m) ==> !usable_mode(m)
            },
        },
{
    let mut modes: Vec<DisplayMode> = Vec::new();
    let mut i: usize = 0;
    while i < enumerated.len()
        invariant
            0 <= i <= enumerated@.len(),
            strictly_sorted(modes@),
            forall|m: DisplayMode| #![trigger modes@.contains(m)] #![trigger enumerated@.take(i as int).contains(m)] modes@.contains(m) <==> (enumerated@.take(i as int).contains(m) && usable_mode(m)),
        decreases enumerated@.len() - i,
    {
        let m = enumerated[i];
        let ghost t = enumerated@.take(i as int);
        let ghost t1 = enumerated@.take(i + 1);
        assert(t1 =~= t.push(m));
        assert forall|x: DisplayMode| t1.contains(x) <==> (t.contains(x) || x == m) by {
            if t1.contains(x) {
                let k = choose|k: int| 0 <= k < t1.len() && t1[k] == x;
                if k < i {
                    assert(t[k] == x);
                }
            }
            if t.contains(x) {
                let k = choose|k: int| 0 <= k < t.len() && t[k] == x;
                assert(t1[k] == x);
            }
            if x == m {
                assert(t1[i as int] == x);
            }
        }
        if m.width > 0 && m.height > 0 {
            insert_sorted_mode(&mut modes, m);
        }
        i = i + 1;
    }
    assert(enumerated@.take(enumerated@.len() as int) =~= enumerated@);
    if modes.len() == 0 {
        assert forall|m: DisplayMode| enumerated@.contains(m) implies !usable_mode(m) by {
            if usable_mode(m) {
                assert(!modes@.contains(m));
            }
        }
        return Err(ResolutionError::NoDisplayModes);
    }
    Ok(modes)
}

/// The source id of the first path that leads to the display `k`.
pub open spec fn source_id_for(paths: Seq<PathInfo>, k: DisplayKey) -> Option<u32>
    decreases paths.len(),
{
    if paths.len() == 0 {
        None
    } else if target_key(paths[0]) == k {
        Some(paths[0].source_id)
    } else {
        source_id_for(paths.drop_first(), k)
    }
}

/// Finds the source of a display among the active paths: DPI scaling is a
/// property of the source, not of the target.
pub fn find_source_id(paths: &Vec<PathInfo>, adapter_luid: u64, target_id: u32) -> (r: Result<u32, ResolutionError>)
    ensures
        match source_id_for(paths@, DisplayKey { adapter_luid, target_id }) {
            Some(s) => r == Ok::<u32, ResolutionError>(s),
            None => r == Err::<u32, ResolutionError>(ResolutionError::NoActivePath),
        },
{
    let k = DisplayKey { adapter_luid, target_id };
    let mut i: usize = 0;
    assert(paths@.skip(0) =~= paths@);
    while i < paths.len()
        invariant
            0 <= i <= paths@.len(),
            k == (DisplayKey { adapter_luid, target_id }),
            source_id_for(paths@, k) == source_id_for(paths@.skip(i as int), k),
        decreases paths@.len() - i,
    {
        assert(paths@.skip(i as int)[0] == paths@[i as int]);
        assert(paths@.skip(i as int).drop_first() =~= paths@.skip(i + 1));
        let p = paths[i];
        if path_target_key(&p) == k {
            assert(target_key(paths@.skip(i as int)[0]) == k);
            assert(source_id_for(paths@.skip(i as int), k) == Some(p.source_id));
            return Ok(p.source_id);
        }
        i = i + 1;
    }
    assert(paths@.skip(i as int).len() == 0);
    Err(ResolutionError::NoActivePath)
}

/// The scale percentages that Windows offers, in order.
pub open spec fn dpi_values() -> Seq<u32> {
    seq![100u32, 125, 150, 175, 200, 225, 250, 300, 350, 400, 450, 500]
}

pub const DPI_VALUE_COUNT: usize = 12;

/// The scale percentage at an index of the table.
pub fn dpi_value_at(i: usize) -> (v: u32)
    requires
        i < DPI_VALUE_COUNT,
    ensures
        v == dpi_values()[i as int],
{
    match i {
        0 => 100,
        1 => 125,
        2 => 150,
        3 => 175,
        4 => 200,
        5 => 225,
        6 => 250,
        7 => 300,
        8 => 350,
        9 => 400,
        10 => 450,
        _ => 500,
    }
}

/// What the system reports of a source's scaling, in table steps relative to
/// the recommended scale.
#[derive(Clone, Copy, Debug, PartialEq, Eq, Structural)]
pub struct DpiScaleInfo {
    pub min_scale_rel: i32,
    pub cur_scale_rel: i32,
    pub max_scale_rel: i32,
}

/// `|min_scale_rel|` taken to `i32` as the system's code does (the magnitude
/// of `i32::MIN` wraps to `i32::MIN`).
pub open spec fn min_abs_wrapped(min_scale_rel: i32) -> int {
    if min_scale_rel == i32::MIN {
        i32::MIN as int
    } else if min_scale_rel < 0 {
        -(min_scale_rel as int)
    } else {
        min_scale_rel as int
    }
}

/// The current step, clamped first up to the minimum and then down to the maximum.
pub open spec fn clamped_cur(info: DpiScaleInfo) -> int {
    let c = if info.cur_scale_rel < info.min_scale_rel { info.min_scale_rel } else { info.cur_scale_rel };
    if c > info.max_scale_rel { info.max_scale_rel as int } else { c as int }
}

/// The table index of the current scale.
pub open spec fn current_dpi_index(info: DpiScaleInfo) -> int {
    min_abs_wrapped(info.min_scale_rel) + clamped_cur(info)
}

pub open spec fn spec_get_display_dpi(info: DpiScaleInfo) -> Result<u32, ResolutionError> {
    let idx = current_dpi_index(info);
    if 0 <= idx < 12 {
        Ok(dpi_values()[idx])
    } else {
        Err(ResolutionError::DpiIndexOutOfRange(idx as i32))
    }
}

fn min_abs_i32(min_scale_rel: i32) -> (r: i32)
    ensures
        r == min_abs_wrapped(min_scale_rel),
{
    if min_scale_rel == i32::MIN {
        i32::MIN
    } else if min_scale_rel < 0 {
        -min_scale_rel
    } else {
        min_scale_rel
    }
}

/// The current DPI scaling percentage of a monitor from what the system
/// reports of its source. The index arithmetic is done in `i32`, as the
/// system's own code does; it must not overflow.
pub fn get_display_dpi(info: DpiScaleInfo) -> (r: Result<u32, ResolutionError>)
    requires
        i32::MIN <= current_dpi_index(info) <= i32::MAX,
    ensures
        r == spec_get_display_dpi(info),
{
    let c = if info.cur_scale_rel < info.min_scale_rel { info.min_scale_rel } else { info.cur_scale_rel };
    let cur = if c > info.max_scale_rel { info.max_scale_rel } else { c };
    let idx = min_abs_i32(info.min_scale_rel) + cur;
    if idx < 0 || idx >= 12 {
        return Err(ResolutionError::DpiIndexOutOfRange(idx));
    }
    Ok(dpi_value_at(idx as usize))
}

/// The table index of the largest scale that the monitor supports.
pub open spec fn max_dpi_index(info: DpiScaleInfo) -> int {
    min_abs_wrapped(info.min_scale_rel) + info.max_scale_rel
}

/// The largest supported scale; the largest of the table when the index is
/// outside it.
pub open spec fn max_dpi_percent(info: DpiScaleInfo) -> u32 {
    let m = max_dpi_index(info);
    if 0 <= m < 12 { dpi_values()[m] } else { 500 }
}

/// The magnitude of the minimum step, which is the index of the recommended scale.
pub open spec fn recommended_index(info: DpiScaleInfo) -> int {
    if info.min_scale_rel < 0 { -(info.min_scale_rel as int) } else { info.min_scale_rel as int }
}

pub open spec fn clamp_u32(v: u32, lo: u32, hi: u32) -> u32 {
    if v < lo { lo } else if v > hi { hi } else { v }
}

/// The index of a value in the table.
pub open spec fn dpi_position(v: u32) -> Option<int> {
    if exists|i: int| 0 <= i < 12 && dpi_values()[i] == v {
        Some(choose|i: int| 0 <= i < 12 && dpi_values()[i] == v)
    } else {
        None
    }
}

/// The relative step that requests `percent` (clamped to the supported range).
pub open spec fn spec_set_display_dpi(info: DpiScaleInfo, percent: u32) -> Result<i32, ResolutionError> {
    let rec = recommended_index(info);
    if rec >= 12 {
        Err(ResolutionError::RecommendedDpiOutOfRange(rec as u32))
    } else {
        let p = clamp_u32(percent, 100, max_dpi_percent(info));
        match dpi_position(p) {
            Some(i) => Ok((i - rec) as i32),
            None => Err(ResolutionError::NotADpiValue(p)),
        }
    }
}

fn position_of_dpi(v: u32) -> (r: Option<usize>)
    ensures
        match dpi_position(v) {
            Some(i) => r == Some(i as usize),
            None => r is None,
        },
{
    let mut i: usize = 0;
    while i < DPI_VALUE_COUNT
        invariant
            0 <= i <= 12,
            forall|j: int| 0 <= j < i ==> dpi_values()[j] != v,
        decreases 12 - i,
    {
        if dpi_value_at(i) == v {
            proof {
                let w = choose|k: int| 0 <= k < 12 && dpi_values()[k] == v;
                assert(dpi_values()[i as int] == v);
                if w != i {
                    assert(dpi_values()[w] != dpi_values()[i as int]);
                }
            }
            return Some(i);
        }
        i = i + 1;
    }
    None
}

/// The relative step to hand the system so that a monitor scales by
/// `percent`, clamped to 100 and to the monitor's largest scale. The index
/// arithmetic is done in `i32`, as the system's own code does; it must not
/// overflow.
pub fn set_display_dpi(info: DpiScaleInfo, percent: u32) -> (r: Result<i32, ResolutionError>)
    requires
        i32::MIN <= max_dpi_index(info) <= i32::MAX,
    ensures
        r == spec_set_display_dpi(info, percent),
{
    let rec: u32 = if info.min_scale_rel == i32::MIN {
        0x8000_0000
    } else if info.min_scale_rel < 0 {
        (-info.min_scale_rel) as u32
    } else {
        info.min_scale_rel as u32
    };
    if rec >= 12 {
        return Err(ResolutionError::RecommendedDpiOutOfRange(rec));
    }
    let max_idx = min_abs_i32(info.min_scale_rel) + info.max_scale_rel;
    let maximum = if 0 <= max_idx && max_idx < 12 { dpi_value_at(max_idx as usize) } else { 500 };
    let p = if percent < 100 { 100 } else if percent > maximum { maximum } else { percent };
    match position_of_dpi(p) {
        Some(i1) => Ok(i1 as i32 - rec as i32),
        None => Err(ResolutionError::NotADpiValue(p)),
    }
}

proof fn lemma_dpi_values_increasing()
    ensures
        forall|i: int, j: int| 0 <= i < j < 12 ==> #[trigger] dpi_values()[i] < #[trigger] dpi_values()[j],
{
    let v = dpi_values();
    assert(v[0] < v[1] && v[1] < v[2] && v[2] < v[3] && v[3] < v[4] && v[4] < v[5] && v[5] < v[6]
        && v[6] < v[7] && v[7] < v[8] && v[8] < v[9] && v[9] < v[10] && v[10] < v[11]);
}

/// Setting a scale and reading it back gives the scale set: for a percentage
/// of the table between 100 and the monitor's largest scale, reading the
/// scale at the step that setting it computes gives that percentage. The
/// report must be consistent: the minimum step is at most zero (the
/// recommended scale is at or above the smallest) and at most the maximum step.
pub proof fn lemma_dpi_round_trip(info: DpiScaleInfo, percent: u32)
    requires
        info.min_scale_rel <= 0,
        info.min_scale_rel <= info.max_scale_rel,
        dpi_position(percent) is Some,
        100 <= percent <= max_dpi_percent(info),
        spec_set_display_dpi(info, percent) is Ok,
    ensures
        spec_get_display_dpi(DpiScaleInfo { cur_scale_rel: spec_set_display_dpi(info, percent)->Ok_0, ..info })
            == Ok::<u32, ResolutionError>(percent),
{
    lemma_dpi_values_increasing();
    let i1 = choose|i: int| 0 <= i < 12 && dpi_values()[i] == percent;
    let rec = recommended_index(info);
    assert(rec == -(info.min_scale_rel as int));
    assert(clamp_u32(percent, 100, max_dpi_percent(info)) == percent);
    let m = max_dpi_index(info);
    assert(m == rec + info.max_scale_rel);
    assert(m >= 0);
    if m < 12 {
        if i1 > m {
            assert(dpi_values()[m] < dpi_values()[i1]);
        }
        assert(i1 <= m);
    }
    let s = spec_set_display_dpi(info, percent)->Ok_0;
    assert(s == i1 - rec);
    assert(info.min_scale_rel <= s <= info.max_scale_rel);
}

} // verus!
