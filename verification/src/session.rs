//! Decisions the application makes around profiles: where a profile's stored
//! DPI settings go after its displays were matched to the live ones, which
//! display names a saved profile remembers, and when the set of connected
//! displays changed.

use vstd::prelude::*;
use crate::display::{DisplayInfo, DisplayKey, Layout, OutputConfig};
use crate::text::{display_key_chars, display_key_string, lemma_display_key_round_trip, parse_display_key, parse_display_key_spec};

verus! {

/// For each output of a stored layout (up to the shorter of the two layouts),
/// its stored key "luid:tid" and the key of the output that took its place
/// after matching to the live displays.
pub open spec fn spec_dpi_key_remap(original: Seq<OutputConfig>, remapped: Seq<OutputConfig>) -> Seq<(Seq<char>, DisplayKey)> {
    let n = if original.len() <= remapped.len() { original.len() } else { remapped.len() };
    Seq::new(n, |i: int| (display_key_chars(original[i].display_id.adapter_luid, original[i].display_id.target_id), remapped[i].key()))
}

pub open spec fn remap_views(s: Seq<(String, DisplayKey)>) -> Seq<(Seq<char>, DisplayKey)> {
    s.map_values(|e: (String, DisplayKey)| (e.0@, e.1))
}

/// Pairs the stored keys of a layout's outputs with the keys they were matched to.
pub fn dpi_key_remap(original: &Layout, remapped: &Layout) -> (r: Vec<(String, DisplayKey)>)
    ensures
        remap_views(r@) == spec_dpi_key_remap(original@, remapped@),
{
    let n: usize = if original.outputs.len() <= remapped.outputs.len() { original.outputs.len() } else { remapped.outputs.len() };
    let mut r: Vec<(String, DisplayKey)> = Vec::new();
    let mut i: usize = 0;
    while i < n
        invariant
            0 <= i <= n,
            n <= original@.len(),
            n <= remapped@.len(),
            n == (if original@.len() <= remapped@.len() { original@.len() } else { remapped@.len() }),
            remap_views(r@) == spec_dpi_key_remap(original@, remapped@).take(i as int),
        decreases n - i,
    {
        let o = original.outputs[i];
        let m = remapped.outputs[i];
        let key = display_key_string(o.display_id.adapter_luid, o.display_id.target_id);
        let ghost before = r@;
        r.push((key, DisplayKey { adapter_luid: m.display_id.adapter_luid, target_id: m.display_id.target_id }));
        assert(remap_views(r@) =~= remap_views(before).push(spec_dpi_key_remap(original@, remapped@)[i as int]));
        assert(spec_dpi_key_remap(original@, remapped@).take(i + 1) =~= spec_dpi_key_remap(original@, remapped@).take(i as int).push(spec_dpi_key_remap(original@, remapped@)[i as int]));
        i = i + 1;
    }
    assert(spec_dpi_key_remap(original@, remapped@).take(n as int) =~= spec_dpi_key_remap(original@, remapped@));
    r
}

/// The last entry for a stored key (a later entry replaces an earlier one).
pub open spec fn remap_lookup(entries: Seq<(Seq<char>, DisplayKey)>, key: Seq<char>) -> Option<DisplayKey>
    decreases entries.len(),
{
    if entries.len() == 0 {
        None
    } else if entries.last().0 == key {
        Some(entries.last().1)
    } else {
        remap_lookup(entries.drop_last(), key)
    }
}

/// The display a stored DPI setting applies to: the one its key was matched
/// to, else the display the key itself names, if it parses.
pub open spec fn spec_dpi_target(entries: Seq<(Seq<char>, DisplayKey)>, key: Seq<char>) -> Option<DisplayKey> {
    match remap_lookup(entries, key) {
        Some(k) => Some(k),
        None => match parse_display_key_spec(key) {
            Some((l, t)) => Some(DisplayKey { adapter_luid: l, target_id: t }),
            None => None,
        },
    }
}

/// Where the DPI setting stored under `key` goes (see `spec_dpi_target`);
/// `None` means the setting is skipped.
pub fn dpi_target(remap: &Vec<(String, DisplayKey)>, key: &str) -> (r: Option<DisplayKey>)
    ensures
        r == spec_dpi_target(remap_views(remap@), key@),
{
    let wanted = key.to_owned();
    let mut found: Option<DisplayKey> = None;
    let mut i: usize = 0;
    while i < remap.len()
        invariant
            0 <= i <= remap@.len(),
            wanted@ == key@,
            found == remap_lookup(remap_views(remap@.take(i as int)), key@),
        decreases remap@.len() - i,
    {
        assert(remap_views(remap@.take(i + 1)).drop_last() =~= remap_views(remap@.take(i as int)));
        if remap[i].0 == wanted {
            found = Some(remap[i].1);
        }
        i = i + 1;
    }
    assert(remap@.take(remap@.len() as int) =~= remap@);
    match found {
        Some(k) => Some(k),
        None => match parse_display_key(key) {
            Some((l, t)) => Some(DisplayKey { adapter_luid: l, target_id: t }),
            None => None,
        },
    }
}

/// The target ids of the active displays.
pub open spec fn active_target(displays: Seq<DisplayInfo>, t: u32) -> bool {
    exists|i: int| 0 <= i < displays.len() && (#[trigger] displays[i]).is_active && displays[i].id.target_id == t
}

pub open spec fn strictly_increasing(s: Seq<u32>) -> bool {
    forall|i: int, j: int| 0 <= i < j < s.len() ==> #[trigger] s[i] < #[trigger] s[j]
}

fn insert_sorted_u32(s: &mut Vec<u32>, t: u32)
    requires
        strictly_increasing(old(s)@),
    ensures
        strictly_increasing(final(s)@),
        forall|x: u32| final(s)@.contains(x) <==> (old(s)@.contains(x) || x == t),
{
    let ghost before = s@;
    let mut j: usize = 0;
    while j < s.len() && s[j] < t
        invariant
            0 <= j <= s@.len(),
            s@ == before,
            forall|k: int| 0 <= k < j ==> #[trigger] s@[k] < t,
        decreases s@.len() - j,
    {
        j = j + 1;
    }
    if j < s.len() && s[j] == t {
        assert forall|x: u32| s@.contains(x) <==> (before.contains(x) || x == t) by {
            if x == t {
                assert(s@[j as int] == t);
            }
        }
        return;
    }
    s.insert(j, t);
    assert forall|a: int, b: int| 0 <= a < b < s@.len() implies #[trigger] s@[a] < #[trigger] s@[b] by {
        if b < j {
            assert(s@[a] == before[a] && s@[b] == before[b]);
        } else if b == j {
            assert(s@[a] == before[a]);
        } else if a == j {
            assert(s@[b] == before[b - 1]);
            assert(before[j as int] > t);
            if b - 1 > j {
                assert(before[j as int] < before[b - 1]);
            }
        } else if a < j {
            assert(s@[a] == before[a] && s@[b] == before[b - 1]);
        } else {
            assert(s@[a] == before[a - 1] && s@[b] == before[b - 1]);
        }
    }
    assert forall|x: u32| s@.contains(x) <==> (before.contains(x) || x == t) by {
        if s@.contains(x) {
            let k = choose|k: int| 0 <= k < s@.len() && s@[k] == x;
            if k < j {
                assert(before[k] == x);
            } else if k > j {
                assert(before[k - 1] == x);
            }
        }
        if before.contains(x) {
            let k = choose|k: int| 0 <= k < before.len() && before[k] == x;
            if k < j {
                assert(s@[k] == x);
            } else {
                assert(s@[k + 1] == x);
            }
        }
        if x == t {
            assert(s@[j as int] == t);
        }
    }
}

/// The set of target ids of the active displays, in ascending order. The
/// profiles are brought up to date with newly connected displays only when
/// this set differs from the one seen last.
pub fn active_target_ids(displays: &Vec<DisplayInfo>) -> (r: Vec<u32>)
    ensures
        strictly_increasing(r@),
        forall|t: u32| r@.contains(t) <==> active_target(displays@, t),
{
    let mut r: Vec<u32> = Vec::new();
    let mut i: usize = 0;
    while i < displays.len()
        invariant
            0 <= i <= displays@.len(),
            strictly_increasing(r@),
            forall|t: u32| r@.contains(t) <==> active_target(displays@.take(i as int), t),
        decreases displays@.len() - i,
    {
        let ghost prev = displays@.take(i as int);
        let ghost next = displays@.take(i + 1);
        assert forall|k: int| 0 <= k < i implies #[trigger] next[k] == prev[k] by {}
        if displays[i].is_active {
            insert_sorted_u32(&mut r, displays[i].id.target_id);
        }
        assert forall|t: u32| r@.contains(t) <==> active_target(next, t) by {
            if active_target(next, t) {
                let k = choose|k: int| 0 <= k < next.len() && (#[trigger] next[k]).is_active && next[k].id.target_id == t;
                if k < i {
                    assert(prev[k] == next[k]);
                    assert(active_target(prev, t));
                }
            }
            if active_target(prev, t) {
                let k = choose|k: int| 0 <= k < prev.len() && (#[trigger] prev[k]).is_active && prev[k].id.target_id == t;
                assert(next[k] == prev[k]);
            }
            if displays@[i as int].is_active && displays@[i as int].id.target_id == t {
                assert(next[i as int] == displays@[i as int]);
            }
        }
        i = i + 1;
    }
    assert(displays@.take(displays@.len() as int) =~= displays@);
    r
}

fn same_ids(a: &Vec<u32>, b: &Vec<u32>) -> (r: bool)
    ensures
        r == (a@ == b@),
{
    if a.len() != b.len() {
        return false;
    }
    let mut i: usize = 0;
    while i < a.len()
        invariant
            0 <= i <= a@.len(),
            a@.len() == b@.len(),
            forall|j: int| 0 <= j < i ==> a@[j] == b@[j],
        decreases a@.len() - i,
    {
        if a[i] != b[i] {
            assert(a@[i as int] != b@[i as int]);
            return false;
        }
        i = i + 1;
    }
    assert(a@ =~= b@);
    true
}

/// Whether the set of active displays differs from the one seen last (always
/// so before any was seen).
pub fn display_set_changed(known: &Option<Vec<u32>>, current: &Vec<u32>) -> (r: bool)
    ensures
        r == match known {
            Some(k) => k@ != current@,
            None => true,
        },
{
    match known {
        Some(k) => !same_ids(k, current),
        None => true,
    }
}

/// The friendly name a saved profile remembers for an output: that of the
/// first display with the output's adapter and target.
pub open spec fn display_name_of(displays: Seq<DisplayInfo>, k: DisplayKey) -> Option<Seq<char>>
    decreases displays.len(),
{
    if displays.len() == 0 {
        None
    } else if displays[0].id.adapter_luid == k.adapter_luid && displays[0].id.target_id == k.target_id {
        Some(displays[0].friendly_name@)
    } else {
        display_name_of(displays.drop_first(), k)
    }
}

/// The names remembered for the enabled outputs of a layout, keyed "luid:tid",
/// in output order (outputs without a display of their own are left out).
pub open spec fn captured_names(outs: Seq<OutputConfig>, displays: Seq<DisplayInfo>) -> Seq<(Seq<char>, Seq<char>)>
    decreases outs.len(),
{
    if outs.len() == 0 {
        Seq::empty()
    } else {
        let prev = captured_names(outs.drop_last(), displays);
        let o = outs.last();
        if o.enabled {
            match display_name_of(displays, o.key()) {
                Some(n) => prev.push((display_key_chars(o.display_id.adapter_luid, o.display_id.target_id), n)),
                None => prev,
            }
        } else {
            prev
        }
    }
}

fn find_display_name(displays: &Vec<DisplayInfo>, k: DisplayKey) -> (r: Option<String>)
    ensures
        match r {
            Some(s) => display_name_of(displays@, k) == Some(s@),
            None => display_name_of(displays@, k).is_none(),
        },
{
    let mut i: usize = 0;
    assert(displays@.skip(0) =~= displays@);
    while i < displays.len()
        invariant
            0 <= i <= displays@.len(),
            display_name_of(displays@, k) == display_name_of(displays@.skip(i as int), k),
        decreases displays@.len() - i,
    {
        let d = &displays[i];
        assert(displays@.skip(i as int).drop_first() =~= displays@.skip(i + 1));
        assert(displays@.skip(i as int)[0] == displays@[i as int]);
        if d.id.adapter_luid == k.adapter_luid && d.id.target_id == k.target_id {
            return Some(d.friendly_name.clone());
        }
        i = i + 1;
    }
    None
}

pub open spec fn name_pair_views(s: Seq<(String, String)>) -> Seq<(Seq<char>, Seq<char>)> {
    s.map_values(|e: (String, String)| (e.0@, e.1@))
}

/// The display names a saved profile remembers (see `captured_names`).
pub fn capture_display_names(layout: &Layout, displays: &Vec<DisplayInfo>) -> (r: Vec<(String, String)>)
    ensures
        name_pair_views(r@) == captured_names(layout@, displays@),
{
    let mut r: Vec<(String, String)> = Vec::new();
    let mut i: usize = 0;
    while i < layout.outputs.len()
        invariant
            0 <= i <= layout@.len(),
            name_pair_views(r@) == captured_names(layout@.take(i as int), displays@),
        decreases layout@.len() - i,
    {
        let o = layout.outputs[i];
        assert(layout@.take(i + 1).drop_last() =~= layout@.take(i as int));
        assert(layout@.take(i + 1).last() == o);
        if o.enabled {
            let k = DisplayKey { adapter_luid: o.display_id.adapter_luid, target_id: o.display_id.target_id };
            match find_display_name(displays, k) {
                Some(n) => {
                    let key = display_key_string(o.display_id.adapter_luid, o.display_id.target_id);
                    let ghost before = r@;
                    r.push((key, n));
                    assert(name_pair_views(r@) =~= name_pair_views(before).push((key@, n@)));
                },
                None => {},
            }
        }
        i = i + 1;
    }
    assert(layout@.take(layout@.len() as int) =~= layout@);
    r
}


proof fn lemma_remap_lookup_last(entries: Seq<(Seq<char>, DisplayKey)>, i: int)
    requires
        0 <= i < entries.len(),
        forall|j: int| i < j < entries.len() ==> (#[trigger] entries[j]).0 != entries[i].0,
    ensures
        remap_lookup(entries, entries[i].0) == Some(entries[i].1),
    decreases entries.len(),
{
    if i < entries.len() - 1 {
        let d = entries.drop_last();
        assert forall|j: int| i < j < d.len() implies (#[trigger] d[j]).0 != d[i].0 by {
            assert(d[j] == entries[j]);
        }
        lemma_remap_lookup_last(d, i);
    }
}

/// A stored DPI setting follows its display: the setting stored under the key
/// of the `i`-th output of a profile's layout goes to the display that output
/// was matched to, when no later output has the same adapter and target.
pub proof fn lemma_dpi_follows_remap(original: Seq<OutputConfig>, remapped: Seq<OutputConfig>, i: int)
    requires
        0 <= i < original.len(),
        i < remapped.len(),
        forall|j: int| i < j < original.len() ==> (#[trigger] original[j]).key() != original[i].key(),
    ensures
        spec_dpi_target(
            spec_dpi_key_remap(original, remapped),
            display_key_chars(original[i].display_id.adapter_luid, original[i].display_id.target_id),
        ) == Some(remapped[i].key()),
{
    let e = spec_dpi_key_remap(original, remapped);
    assert forall|j: int| i < j < e.len() implies (#[trigger] e[j]).0 != e[i].0 by {
        let a = original[i].display_id;
        let b = original[j].display_id;
        lemma_display_key_round_trip(a.adapter_luid, a.target_id);
        lemma_display_key_round_trip(b.adapter_luid, b.target_id);
        if e[j].0 == e[i].0 {
            assert(original[j].key() == original[i].key());
        }
    }
    lemma_remap_lookup_last(e, i);
}

} // verus!
