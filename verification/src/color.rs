//! Colour calibration bookkeeping: recognising identity gamma ramps, keeping
//! the SDR ramps of monitors across topology changes, and the signature of the
//! HDR state of the active displays.

use vstd::prelude::*;
use crate::display::DisplayKey;
use crate::text::{chars_to_string, decimal_chars, dec_chars};
use crate::topology::{PathInfo, RawTopologySnapshot, is_active_path, target_key, path_is_active, path_target_key};

verus! {

/// Three channels of 256 gamma entries each.
pub const GAMMA_RAMP_WORDS: usize = 768;

/// An entry of an identity ramp, `i * 257`, within 384 (1.5 steps of 8 bits).
pub open spec fn near_identity(v: u16, i: int) -> bool {
    -384 <= v as int - i * 257 <= 384
}

pub open spec fn spec_ramp_is_identity(ramp: Seq<u16>) -> bool {
    forall|k: int| 0 <= k < 768 ==> near_identity(#[trigger] ramp[k], k % 256)
}

/// Whether a gamma ramp is (close to) the identity, as a ramp reset by the
/// system looks; such a ramp carries no calibration worth restoring.
pub fn gamma_ramp_looks_identity(ramp: &[u16; 768]) -> (r: bool)
    ensures
        r == spec_ramp_is_identity(ramp@),
{
    let mut k: usize = 0;
    while k < GAMMA_RAMP_WORDS
        invariant
            0 <= k <= 768,
            ramp@.len() == 768,
            forall|j: int| 0 <= j < k ==> near_identity(#[trigger] ramp@[j], j % 256),
        decreases 768 - k,
    {
        let i: usize = k % 256;
        let ghost m: int = k as int % 256;
        assert(i as int == m);
        let expected: i32 = (i as i32) * 257;
        let actual: i32 = ramp[k] as i32;
        let d: i32 = actual - expected;
        assert(d as int == ramp@[k as int] as int - m * 257);
        if d > 384 || d < -384 {
            assert(!near_identity(ramp@[k as int], m));
            return false;
        }
        k = k + 1;
    }
    true
}

pub open spec fn ramp_keys(s: Seq<(DisplayKey, [u16; 768])>) -> Seq<DisplayKey> {
    s.map_values(|e: (DisplayKey, [u16; 768])| e.0)
}

/// The SDR ramps kept after a change of HDR state: the remembered ramps that
/// are not identity and whose display did not report a fresh ramp, followed by
/// the fresh ramps that are not identity.
pub open spec fn spec_merge_sdr(old: Seq<(DisplayKey, [u16; 768])>, fresh: Seq<(DisplayKey, [u16; 768])>) -> Seq<(DisplayKey, [u16; 768])> {
    old.filter(|e: (DisplayKey, [u16; 768])| !spec_ramp_is_identity(e.1@) && !ramp_keys(fresh).contains(e.0))
        + fresh.filter(|e: (DisplayKey, [u16; 768])| !spec_ramp_is_identity(e.1@))
}

fn has_ramp_key(s: &Vec<(DisplayKey, [u16; 768])>, k: &DisplayKey) -> (r: bool)
    ensures
        r == ramp_keys(s@).contains(*k),
{
    let mut i: usize = 0;
    while i < s.len()
        invariant
            0 <= i <= s@.len(),
            forall|j: int| 0 <= j < i ==> s@[j].0 != *k,
        decreases s@.len() - i,
    {
        if s[i].0 == *k {
            assert(ramp_keys(s@)[i as int] == *k);
            return true;
        }
        i = i + 1;
    }
    assert forall|j: int| 0 <= j < ramp_keys(s@).len() implies ramp_keys(s@)[j] != *k by {
        assert(ramp_keys(s@)[j] == s@[j].0);
    }
    false
}

/// Merges freshly captured SDR gamma ramps into the remembered ones (see `spec_merge_sdr`).
pub fn merge_sdr_gamma_cache(old: &Vec<(DisplayKey, [u16; 768])>, fresh: &Vec<(DisplayKey, [u16; 768])>) -> (r: Vec<(DisplayKey, [u16; 768])>)
    ensures
        r@ == spec_merge_sdr(old@, fresh@),
{
    let mut r: Vec<(DisplayKey, [u16; 768])> = Vec::new();
    let mut i: usize = 0;
    while i < old.len()
        invariant
            0 <= i <= old@.len(),
            r@ == old@.take(i as int).filter(|e: (DisplayKey, [u16; 768])| !spec_ramp_is_identity(e.1@) && !ramp_keys(fresh@).contains(e.0)),
        decreases old@.len() - i,
    {
        let e = old[i];
        assert(old@.take(i + 1).drop_last() =~= old@.take(i as int));
        reveal_with_fuel(Seq::filter, 1);
        if !gamma_ramp_looks_identity(&e.1) && !has_ramp_key(fresh, &e.0) {
            r.push(e);
        }
        i = i + 1;
    }
    assert(old@.take(old@.len() as int) =~= old@);
    let ghost first = r@;
    let mut j: usize = 0;
    while j < fresh.len()
        invariant
            0 <= j <= fresh@.len(),
            r@ == first + fresh@.take(j as int).filter(|e: (DisplayKey, [u16; 768])| !spec_ramp_is_identity(e.1@)),
        decreases fresh@.len() - j,
    {
        let e = fresh[j];
        assert(fresh@.take(j + 1).drop_last() =~= fresh@.take(j as int));
        reveal_with_fuel(Seq::filter, 1);
        if !gamma_ramp_looks_identity(&e.1) {
            r.push(e);
            assert(r@ =~= first + fresh@.take(j + 1).filter(|e: (DisplayKey, [u16; 768])| !spec_ramp_is_identity(e.1@)));
        }
        j = j + 1;
    }
    assert(fresh@.take(fresh@.len() as int) =~= fresh@);
    r
}


/// The HDR state of one active display: its adapter LUID, its target id and
/// whether advanced colour is on (`None` where the system did not say).
pub type ColorEntry = (u64, u32, Option<bool>);

pub open spec fn flag_rank(f: Option<bool>) -> int {
    match f {
        None => 0,
        Some(false) => 1,
        Some(true) => 2,
    }
}

/// The order of the signature's entries: by adapter, then target; entries of
/// the same display are ordered by their flag so that the order is total.
pub open spec fn entry_leq(a: ColorEntry, b: ColorEntry) -> bool {
    a.0 < b.0 || (a.0 == b.0 && (a.1 < b.1 || (a.1 == b.1 && flag_rank(a.2) <= flag_rank(b.2))))
}

pub open spec fn entry_order() -> spec_fn(ColorEntry, ColorEntry) -> bool {
    |a: ColorEntry, b: ColorEntry| entry_leq(a, b)
}

pub open spec fn hex_char(d: nat) -> char {
    if d < 10 {
        (('0' as u32) + d) as char
    } else {
        (('a' as u32) + d - 10) as char
    }
}

/// The last `count` lowercase hexadecimal digits of `n`, zero-padded.
pub open spec fn hex_digits(n: nat, count: nat) -> Seq<char>
    decreases count,
{
    if count == 0 {
        Seq::empty()
    } else {
        hex_digits(n / 16, (count - 1) as nat).push(hex_char(n % 16))
    }
}

pub open spec fn flag_char(f: Option<bool>) -> char {
    match f {
        Some(true) => '1',
        Some(false) => '0',
        None => 'x',
    }
}

/// One entry as `format!("{luid:016x}:{target_id}:{flag}")` writes it.
pub open spec fn entry_chars(e: ColorEntry) -> Seq<char> {
    hex_digits(e.0 as nat, 16) + seq![':'] + dec_chars(e.1 as nat) + seq![':', flag_char(e.2)]
}

/// Entries written one after the other, separated by ';'.
pub open spec fn joined_entries(s: Seq<ColorEntry>) -> Seq<char>
    decreases s.len(),
{
    if s.len() == 0 {
        Seq::empty()
    } else if s.len() == 1 {
        entry_chars(s[0])
    } else {
        joined_entries(s.drop_last()) + seq![';'] + entry_chars(s.last())
    }
}

/// The HDR state of the given path: what the system reported for it, or
/// nothing when no report was given for that index.
pub open spec fn reported_color(advanced_color: Seq<Option<bool>>, i: int) -> Option<bool> {
    if 0 <= i < advanced_color.len() { advanced_color[i] } else { None }
}

/// The entries of the active paths, in path order.
pub open spec fn active_color_entries(paths: Seq<PathInfo>, advanced_color: Seq<Option<bool>>) -> Seq<ColorEntry>
    decreases paths.len(),
{
    if paths.len() == 0 {
        Seq::empty()
    } else {
        let prev = active_color_entries(paths.drop_last(), advanced_color);
        let p = paths.last();
        if is_active_path(p) {
            let k = target_key(p);
            prev.push((k.adapter_luid, k.target_id, reported_color(advanced_color, paths.len() - 1)))
        } else {
            prev
        }
    }
}

/// The signature of the HDR state of the active displays: their entries sorted
/// by display and joined with ';'.
pub open spec fn spec_color_signature(paths: Seq<PathInfo>, advanced_color: Seq<Option<bool>>) -> Seq<char> {
    joined_entries(active_color_entries(paths, advanced_color).sort_by(entry_order()))
}

/// The order of the signature's entries is total, so sorting them has one result.
pub proof fn lemma_entry_order_total()
    ensures
        vstd::relations::total_ordering(entry_order()),
{
    let f = entry_order();
    assert forall|a: ColorEntry| #[trigger] f(a, a) by {}
    assert forall|a: ColorEntry, b: ColorEntry| #[trigger] f(a, b) && #[trigger] f(b, a) implies a == b by {
        assert(flag_rank(a.2) == flag_rank(b.2));
        assert(a.2 == b.2);
    }
    assert forall|a: ColorEntry, b: ColorEntry, c: ColorEntry| #[trigger] f(a, b) && #[trigger] f(b, c) implies f(a, c) by {}
    assert forall|a: ColorEntry, b: ColorEntry| #[trigger] f(a, b) || #[trigger] f(b, a) by {}
}

fn hex_char_of(d: u64) -> (c: char)
    requires
        d < 16,
    ensures
        c == hex_char(d as nat),
{
    match d {
        0 => '0',
        1 => '1',
        2 => '2',
        3 => '3',
        4 => '4',
        5 => '5',
        6 => '6',
        7 => '7',
        8 => '8',
        9 => '9',
        10 => 'a',
        11 => 'b',
        12 => 'c',
        13 => 'd',
        14 => 'e',
        _ => 'f',
    }
}

/// The sixteen lowercase hexadecimal digits of `n`, as `{:016x}` writes them.
pub fn hex16_chars(n: u64) -> (r: Vec<char>)
    ensures
        r@ == hex_digits(n as nat, 16),
{
    let mut suffix: Vec<char> = Vec::new();
    let mut v: u64 = n;
    let mut j: usize = 0;
    while j < 16
        invariant
            0 <= j <= 16,
            hex_digits(n as nat, 16) == hex_digits(v as nat, (16 - j) as nat) + suffix@,
        decreases 16 - j,
    {
        let c = hex_char_of(v % 16);
        let ghost before = suffix@;
        proof {
            let rest = hex_digits((v / 16) as nat, (15 - j) as nat);
            assert(hex_digits(v as nat, (16 - j) as nat) == rest.push(hex_char((v % 16) as nat)));
            assert(rest.push(hex_char((v % 16) as nat)) + before =~= rest + (seq![c] + before));
        }
        suffix.insert(0, c);
        assert(suffix@ =~= seq![c] + before);
        v = v / 16;
        j = j + 1;
    }
    suffix
}


fn flag_rank_of(f: Option<bool>) -> (r: u8)
    ensures
        r as int == flag_rank(f),
{
    match f {
        None => 0,
        Some(false) => 1,
        Some(true) => 2,
    }
}

fn entry_le(a: ColorEntry, b: ColorEntry) -> (r: bool)
    ensures
        r == entry_leq(a, b),
{
    a.0 < b.0 || (a.0 == b.0 && (a.1 < b.1 || (a.1 == b.1 && flag_rank_of(a.2) <= flag_rank_of(b.2))))
}

fn insert_entry_sorted(sorted: &mut Vec<ColorEntry>, x: ColorEntry)
    requires
        vstd::relations::sorted_by(old(sorted)@, entry_order()),
    ensures
        vstd::relations::sorted_by(final(sorted)@, entry_order()),
        final(sorted)@.to_multiset() == old(sorted)@.to_multiset().insert(x),
{
    proof { lemma_entry_order_total(); }
    let ghost f = entry_order();
    let mut p: usize = 0;
    while p < sorted.len() && entry_le(sorted[p], x)
        invariant
            0 <= p <= sorted@.len(),
            sorted@ == old(sorted)@,
            f == entry_order(),
            forall|k: int| 0 <= k < p ==> entry_leq(#[trigger] sorted@[k], x),
        decreases sorted@.len() - p,
    {
        p = p + 1;
    }
    let ghost before = sorted@;
    proof {
        assert forall|k: int| p <= k < before.len() implies entry_leq(x, #[trigger] before[k]) by {
            assert(!entry_leq(before[p as int], x));
            if p < k {
                assert(f(before[p as int], before[k]));
                if entry_leq(before[k], x) {
                    assert(f(before[k], x));
                    assert(f(before[p as int], x));
                }
            }
            assert(f(before[k], x) || f(x, before[k]));
        }
        vstd::seq_lib::to_multiset_insert(before, p as int, x);
    }
    sorted.insert(p, x);
    proof {
        let after = sorted@;
        assert(after == before.insert(p as int, x));
        assert forall|i: int, j: int| 0 <= i < j < after.len() implies #[trigger] f(after[i], after[j]) by {
            if j < p {
                assert(f(before[i], before[j]));
            } else if j == p {
                assert(entry_leq(before[i], x));
            } else if i == p {
                assert(entry_leq(x, before[j - 1]));
            } else if i < p {
                assert(f(before[i], before[j - 1]));
            } else {
                assert(f(before[i - 1], before[j - 1]));
            }
        }
    }
}

/// The signature of the HDR state of the active displays, from the raw paths
/// and what the system reported of each path's advanced colour (`advanced_color[i]`
/// for `paths[i]`; a path without a report counts as unknown). Two signatures
/// differ exactly when the set of active displays or one of their HDR states
/// changed, whatever order the paths came in.
pub fn active_color_state_signature(raw: &RawTopologySnapshot, advanced_color: &Vec<Option<bool>>) -> (r: String)
    ensures
        r@ == spec_color_signature(raw.paths@, advanced_color@),
{
    let ghost order = entry_order();
    let ghost entries = active_color_entries(raw.paths@, advanced_color@);
    let mut sorted: Vec<ColorEntry> = Vec::new();
    let ghost mut taken: Seq<ColorEntry> = Seq::empty();
    let mut i: usize = 0;
    while i < raw.paths.len()
        invariant
            0 <= i <= raw.paths@.len(),
            order == entry_order(),
            taken == active_color_entries(raw.paths@.take(i as int), advanced_color@),
            vstd::relations::sorted_by(sorted@, order),
            sorted@.to_multiset() == taken.to_multiset(),
        decreases raw.paths@.len() - i,
    {
        let p = raw.paths[i];
        assert(raw.paths@.take(i + 1).drop_last() =~= raw.paths@.take(i as int));
        if path_is_active(&p) {
            let k = path_target_key(&p);
            let flag: Option<bool> = if i < advanced_color.len() { advanced_color[i] } else { None };
            let e: ColorEntry = (k.adapter_luid, k.target_id, flag);
            proof {
                vstd::seq_lib::lemma_multiset_commutative(taken, seq![e]);
                assert(taken.push(e).to_multiset() =~= taken.to_multiset().insert(e)) by {
                    broadcast use vstd::seq_lib::group_to_multiset_ensures;
                    vstd::seq_lib::to_multiset_insert(taken, taken.len() as int, e);
                    assert(taken.insert(taken.len() as int, e) =~= taken.push(e));
                }
                taken = taken.push(e);
            }
            insert_entry_sorted(&mut sorted, e);
        }
        i = i + 1;
    }
    proof {
        assert(raw.paths@.take(raw.paths@.len() as int) =~= raw.paths@);
        lemma_entry_order_total();
        entries.lemma_sort_by_ensures(order);
        vstd::seq_lib::lemma_sorted_unique(sorted@, entries.sort_by(order), order);
    }
    let mut out: Vec<char> = Vec::new();
    let mut j: usize = 0;
    while j < sorted.len()
        invariant
            0 <= j <= sorted@.len(),
            out@ == joined_entries(sorted@.take(j as int)),
        decreases sorted@.len() - j,
    {
        let e = sorted[j];
        let ghost prev = out@;
        assert(sorted@.take(j + 1).drop_last() =~= sorted@.take(j as int));
        if j > 0 {
            out.push(';');
        }
        let mut hex = hex16_chars(e.0);
        out.append(&mut hex);
        out.push(':');
        let mut dec = decimal_chars(e.1 as u64);
        out.append(&mut dec);
        out.push(':');
        out.push(match e.2 {
            Some(true) => '1',
            Some(false) => '0',
            None => 'x',
        });
        proof {
            let t = sorted@.take(j + 1);
            assert(t.last() == e);
            if j == 0 {
                assert(t.len() == 1);
                assert(out@ =~= entry_chars(e));
            } else {
                assert(out@ =~= prev + seq![';'] + entry_chars(e));
            }
        }
        j = j + 1;
    }
    assert(sorted@.take(sorted@.len() as int) =~= sorted@);
    chars_to_string(&out)
}


/// The signature does not depend on the order in which the system listed the
/// paths: two queries whose active displays and HDR states are the same, in any
/// order, give the same signature.
pub proof fn lemma_signature_order_independent(
    paths1: Seq<PathInfo>,
    advanced1: Seq<Option<bool>>,
    paths2: Seq<PathInfo>,
    advanced2: Seq<Option<bool>>,
)
    requires
        active_color_entries(paths1, advanced1).to_multiset()
            == active_color_entries(paths2, advanced2).to_multiset(),
    ensures
        spec_color_signature(paths1, advanced1) == spec_color_signature(paths2, advanced2),
{
    let o = entry_order();
    let e1 = active_color_entries(paths1, advanced1);
    let e2 = active_color_entries(paths2, advanced2);
    lemma_entry_order_total();
    e1.lemma_sort_by_ensures(o);
    e2.lemma_sort_by_ensures(o);
    vstd::seq_lib::lemma_sorted_unique(e1.sort_by(o), e2.sort_by(o), o);
}

/// What the merged SDR cache holds: no identity ramp; every fresh ramp that is
/// not identity; and for a display with a fresh ramp, only fresh ramps.
pub proof fn lemma_merge_sdr_laws(old: Seq<(DisplayKey, [u16; 768])>, fresh: Seq<(DisplayKey, [u16; 768])>)
    ensures
        forall|i: int| 0 <= i < spec_merge_sdr(old, fresh).len()
            ==> !spec_ramp_is_identity((#[trigger] spec_merge_sdr(old, fresh)[i]).1@),
        forall|e: (DisplayKey, [u16; 768])| #[trigger] fresh.contains(e) && !spec_ramp_is_identity(e.1@)
            ==> spec_merge_sdr(old, fresh).contains(e),
        forall|e: (DisplayKey, [u16; 768])| #[trigger] spec_merge_sdr(old, fresh).contains(e) && ramp_keys(fresh).contains(e.0)
            ==> fresh.contains(e),
{
    let fo = |e: (DisplayKey, [u16; 768])| !spec_ramp_is_identity(e.1@) && !ramp_keys(fresh).contains(e.0);
    let ff = |e: (DisplayKey, [u16; 768])| !spec_ramp_is_identity(e.1@);
    let a = old.filter(fo);
    let b = fresh.filter(ff);
    let m = spec_merge_sdr(old, fresh);
    assert(m == a + b);
    old.filter_lemma(fo);
    fresh.filter_lemma(ff);
    assert forall|i: int| 0 <= i < m.len() implies !spec_ramp_is_identity((#[trigger] m[i]).1@) by {
        if i < a.len() {
            assert(m[i] == a[i]);
            assert(fo(a[i]));
        } else {
            assert(m[i] == b[i - a.len()]);
            assert(ff(b[i - a.len()]));
        }
    }
    assert forall|e: (DisplayKey, [u16; 768])| #[trigger] fresh.contains(e) && !spec_ramp_is_identity(e.1@) implies m.contains(e) by {
        assert(b.contains(e));
        let k = choose|k: int| 0 <= k < b.len() && b[k] == e;
        assert(m[a.len() + k] == e);
    }
    assert forall|e: (DisplayKey, [u16; 768])| #[trigger] m.contains(e) && ramp_keys(fresh).contains(e.0) implies fresh.contains(e) by {
        let k = choose|k: int| 0 <= k < m.len() && m[k] == e;
        if k < a.len() {
            assert(m[k] == a[k]);
            assert(fo(a[k]));
        } else {
            assert(m[k] == b[k - a.len()]);
            assert(b.contains(e));
            fresh.lemma_filter_contains_rev(ff, e);
        }
    }
}


/// The paths whose gamma ramp is captured, with their display keys, in path
/// order: the active ones; with `sdr_only`, not those whose advanced colour
/// (HDR) is known to be on.
pub open spec fn capture_selection(paths: Seq<PathInfo>, advanced_color: Seq<Option<bool>>, sdr_only: bool) -> Seq<(usize, DisplayKey)>
    decreases paths.len(),
{
    if paths.len() == 0 {
        Seq::empty()
    } else {
        let i = paths.len() - 1;
        let prev = capture_selection(paths.drop_last(), advanced_color, sdr_only);
        let p = paths.last();
        if is_active_path(p) && !(sdr_only && reported_color(advanced_color, i) == Some(true)) {
            prev.push((i as usize, target_key(p)))
        } else {
            prev
        }
    }
}

/// The paths whose gamma ramps are to be captured (see `capture_selection`).
pub fn gamma_capture_paths(raw: &RawTopologySnapshot, advanced_color: &Vec<Option<bool>>, sdr_only: bool) -> (r: Vec<(usize, DisplayKey)>)
    ensures
        r@ == capture_selection(raw.paths@, advanced_color@, sdr_only),
{
    let mut r: Vec<(usize, DisplayKey)> = Vec::new();
    let mut i: usize = 0;
    while i < raw.paths.len()
        invariant
            0 <= i <= raw.paths@.len(),
            r@ == capture_selection(raw.paths@.take(i as int), advanced_color@, sdr_only),
        decreases raw.paths@.len() - i,
    {
        let p = raw.paths[i];
        assert(raw.paths@.take(i + 1).drop_last() =~= raw.paths@.take(i as int));
        let hdr_on: bool = i < advanced_color.len() && advanced_color[i] == Some(true);
        if path_is_active(&p) && !(sdr_only && hdr_on) {
            r.push((i, path_target_key(&p)));
        }
        i = i + 1;
    }
    assert(raw.paths@.take(raw.paths@.len() as int) =~= raw.paths@);
    r
}

/// The ramp remembered for a display (the last one when several are).
pub open spec fn ramp_lookup(ramps: Seq<(DisplayKey, [u16; 768])>, k: DisplayKey) -> Option<[u16; 768]>
    decreases ramps.len(),
{
    if ramps.len() == 0 {
        None
    } else if ramps.last().0 == k {
        Some(ramps.last().1)
    } else {
        ramp_lookup(ramps.drop_last(), k)
    }
}

/// The ramps to write back after a topology change: for each active path, in
/// path order, the ramp remembered for its display, if any.
pub open spec fn restore_selection(paths: Seq<PathInfo>, ramps: Seq<(DisplayKey, [u16; 768])>) -> Seq<(usize, [u16; 768])>
    decreases paths.len(),
{
    if paths.len() == 0 {
        Seq::empty()
    } else {
        let i = paths.len() - 1;
        let prev = restore_selection(paths.drop_last(), ramps);
        let p = paths.last();
        if is_active_path(p) {
            match ramp_lookup(ramps, target_key(p)) {
                Some(r) => prev.push((i as usize, r)),
                None => prev,
            }
        } else {
            prev
        }
    }
}

fn find_ramp(ramps: &Vec<(DisplayKey, [u16; 768])>, k: DisplayKey) -> (r: Option<[u16; 768]>)
    ensures
        r == ramp_lookup(ramps@, k),
{
    let mut r: Option<[u16; 768]> = None;
    let mut i: usize = 0;
    while i < ramps.len()
        invariant
            0 <= i <= ramps@.len(),
            r == ramp_lookup(ramps@.take(i as int), k),
        decreases ramps@.len() - i,
    {
        assert(ramps@.take(i + 1).drop_last() =~= ramps@.take(i as int));
        if ramps[i].0 == k {
            r = Some(ramps[i].1);
        }
        i = i + 1;
    }
    assert(ramps@.take(ramps@.len() as int) =~= ramps@);
    r
}

/// The gamma ramps to write back, path by path (see `restore_selection`).
pub fn gamma_restore_plan(raw: &RawTopologySnapshot, ramps: &Vec<(DisplayKey, [u16; 768])>) -> (r: Vec<(usize, [u16; 768])>)
    ensures
        r@ == restore_selection(raw.paths@, ramps@),
{
    let mut r: Vec<(usize, [u16; 768])> = Vec::new();
    let mut i: usize = 0;
    while i < raw.paths.len()
        invariant
            0 <= i <= raw.paths@.len(),
            r@ == restore_selection(raw.paths@.take(i as int), ramps@),
        decreases raw.paths@.len() - i,
    {
        let p = raw.paths[i];
        assert(raw.paths@.take(i + 1).drop_last() =~= raw.paths@.take(i as int));
        if path_is_active(&p) {
            match find_ramp(ramps, path_target_key(&p)) {
                Some(ramp) => {
                    r.push((i, ramp));
                },
                None => {},
            }
        }
        i = i + 1;
    }
    assert(raw.paths@.take(raw.paths@.len() as int) =~= raw.paths@);
    r
}

} // verus!
