//! Edits of layouts: cleaning up saved profiles, bringing newly connected
//! displays into them, choosing the primary display and folding remembered
//! inactive displays into what the system reports.

use vstd::prelude::*;
use crate::display::{DisplayId, DisplayInfo, DisplayKey, Layout, OutputConfig, output_key};

verus! {

/// `seen` holds the target id `t`.
pub open spec fn seen_target(seen: Seq<u32>, t: u32) -> bool {
    seen.contains(t)
}

/// One pass of the clean-up: keeps, in order, the outputs whose enabled flag is
/// `enabled` and whose target id has not been seen; disabled outputs lose the
/// primary flag.
pub open spec fn sanitize_pass(outs: Seq<OutputConfig>, seen0: Seq<u32>, enabled: bool) -> (Seq<OutputConfig>, Seq<u32>)
    decreases outs.len(),
{
    if outs.len() == 0 {
        (Seq::empty(), seen0)
    } else {
        let p = sanitize_pass(outs.drop_last(), seen0, enabled);
        let o = outs.last();
        let t = o.display_id.target_id;
        if o.enabled == enabled && !p.1.contains(t) {
            let kept = if enabled { o } else { OutputConfig { primary: false, ..o } };
            (p.0.push(kept), p.1.push(t))
        } else {
            p
        }
    }
}

/// The cleaned-up outputs: enabled outputs first, then disabled ones, one
/// output per target id (an enabled output wins over a disabled one).
pub open spec fn spec_sanitize(outs: Seq<OutputConfig>) -> Seq<OutputConfig> {
    let a = sanitize_pass(outs, Seq::empty(), true);
    let b = sanitize_pass(outs, a.1, false);
    a.0 + b.0
}

fn contains_u32(v: &Vec<u32>, x: u32) -> (r: bool)
    ensures
        r == v@.contains(x),
{
    let mut i: usize = 0;
    while i < v.len()
        invariant
            0 <= i <= v@.len(),
            forall|j: int| 0 <= j < i ==> v@[j] != x,
        decreases v@.len() - i,
    {
        if v[i] == x {
            assert(v@[i as int] == x);
            return true;
        }
        i = i + 1;
    }
    false
}

fn sanitize_pass_exec(outs: &Vec<OutputConfig>, seen: &mut Vec<u32>, enabled: bool, result: &mut Vec<OutputConfig>)
    ensures
        final(seen)@ == sanitize_pass(outs@, old(seen)@, enabled).1,
        final(result)@ == old(result)@ + sanitize_pass(outs@, old(seen)@, enabled).0,
{
    let ghost seen0 = seen@;
    let ghost res0 = result@;
    let mut i: usize = 0;
    while i < outs.len()
        invariant
            0 <= i <= outs@.len(),
            seen@ == sanitize_pass(outs@.take(i as int), seen0, enabled).1,
            result@ == res0 + sanitize_pass(outs@.take(i as int), seen0, enabled).0,
        decreases outs@.len() - i,
    {
        assert(outs@.take(i + 1).drop_last() =~= outs@.take(i as int));
        let o = outs[i];
        let t = o.display_id.target_id;
        if o.enabled == enabled && !contains_u32(seen, t) {
            let kept = if enabled { o } else { OutputConfig { primary: false, ..o } };
            let ghost before = result@;
            result.push(kept);
            seen.push(t);
            assert(result@ =~= res0 + sanitize_pass(outs@.take(i + 1), seen0, enabled).0);
        }
        i = i + 1;
    }
    assert(outs@.take(outs@.len() as int) =~= outs@);
}

/// Removes duplicate outputs for one target id (an enabled output wins over a
/// disabled one) and clears the primary flag of every disabled output. This
/// repairs profiles in which duplicates or stale primary flags were stored.
pub fn sanitize_layout(layout: Layout) -> (r: Layout)
    ensures
        r@ == spec_sanitize(layout@),
{
    let mut seen: Vec<u32> = Vec::new();
    let mut outputs: Vec<OutputConfig> = Vec::new();
    sanitize_pass_exec(&layout.outputs, &mut seen, true, &mut outputs);
    sanitize_pass_exec(&layout.outputs, &mut seen, false, &mut outputs);
    assert(outputs@ =~= spec_sanitize(layout@));
    Layout { outputs }
}


/// The target ids of a sequence of outputs.
pub open spec fn targets(s: Seq<OutputConfig>) -> Seq<u32> {
    s.map_values(|o: OutputConfig| o.display_id.target_id)
}

/// No two outputs share a target id.
pub open spec fn distinct_targets(s: Seq<OutputConfig>) -> bool {
    forall|i: int, j: int| 0 <= i < j < s.len() ==> #[trigger] s[i].display_id.target_id != #[trigger] s[j].display_id.target_id
}

/// What the clean-up makes of an output it keeps.
pub open spec fn kept_form(o: OutputConfig) -> OutputConfig {
    if o.enabled { o } else { OutputConfig { primary: false, ..o } }
}

proof fn lemma_sanitize_pass(outs: Seq<OutputConfig>, seen0: Seq<u32>, enabled: bool)
    ensures
        ({
            let p = sanitize_pass(outs, seen0, enabled);
            &&& p.1 == seen0 + targets(p.0)
            &&& distinct_targets(p.0)
            &&& forall|k: int| 0 <= k < p.0.len() ==> !seen0.contains(#[trigger] p.0[k].display_id.target_id)
            &&& forall|k: int| 0 <= k < p.0.len() ==> (#[trigger] p.0[k]).enabled == enabled
            &&& forall|k: int| 0 <= k < p.0.len() ==> exists|i: int| 0 <= i < outs.len() && #[trigger] p.0[k] == kept_form(outs[i])
            &&& forall|i: int| 0 <= i < outs.len() && (#[trigger] outs[i]).enabled == enabled ==> p.1.contains(outs[i].display_id.target_id)
        }),
    decreases outs.len(),
{
    if outs.len() > 0 {
        let prev_outs = outs.drop_last();
        lemma_sanitize_pass(prev_outs, seen0, enabled);
        let p = sanitize_pass(prev_outs, seen0, enabled);
        let r = sanitize_pass(outs, seen0, enabled);
        let o = outs.last();
        let t = o.display_id.target_id;
        if o.enabled == enabled && !p.1.contains(t) {
            assert(targets(r.0) =~= targets(p.0).push(t));
            assert(r.1 =~= seen0 + targets(r.0));
            assert forall|k: int| 0 <= k < r.0.len() - 1 implies #[trigger] r.0[k].display_id.target_id != t by {
                assert(p.1[seen0.len() + k] == p.0[k].display_id.target_id);
            }
            assert forall|k: int| 0 <= k < r.0.len() implies !seen0.contains(#[trigger] r.0[k].display_id.target_id) by {
                if k == r.0.len() - 1 {
                    if seen0.contains(t) {
                        let m = choose|m: int| 0 <= m < seen0.len() && seen0[m] == t;
                        assert(p.1[m] == t);
                    }
                } else {
                    assert(r.0[k] == p.0[k]);
                }
            }
            assert(kept_form(o) == (if enabled { o } else { OutputConfig { primary: false, ..o } }));
            assert forall|k: int| 0 <= k < r.0.len() implies exists|i: int| 0 <= i < outs.len() && #[trigger] r.0[k] == kept_form(outs[i]) by {
                if k == r.0.len() - 1 {
                    assert(r.0[k] == kept_form(outs[outs.len() - 1]));
                } else {
                    assert(r.0[k] == p.0[k]);
                    let i = choose|i: int| 0 <= i < prev_outs.len() && p.0[k] == kept_form(prev_outs[i]);
                    assert(prev_outs[i] == outs[i]);
                }
            }
            assert forall|i: int| 0 <= i < outs.len() && (#[trigger] outs[i]).enabled == enabled implies r.1.contains(outs[i].display_id.target_id) by {
                if i < prev_outs.len() {
                    assert(prev_outs[i] == outs[i]);
                    let m = choose|m: int| 0 <= m < p.1.len() && p.1[m] == outs[i].display_id.target_id;
                    assert(r.1[m] == p.1[m]);
                } else {
                    assert(r.1[r.1.len() - 1] == t);
                }
            }
        } else {
            assert forall|k: int| 0 <= k < r.0.len() implies exists|i: int| 0 <= i < outs.len() && #[trigger] r.0[k] == kept_form(outs[i]) by {
                let i = choose|i: int| 0 <= i < prev_outs.len() && p.0[k] == kept_form(prev_outs[i]);
                assert(prev_outs[i] == outs[i]);
            }
            assert forall|i: int| 0 <= i < outs.len() && (#[trigger] outs[i]).enabled == enabled implies r.1.contains(outs[i].display_id.target_id) by {
                if i < prev_outs.len() {
                    assert(prev_outs[i] == outs[i]);
                }
            }
        }
    }
}

/// The clean-up leaves one output per target id, keeps the target id of every
/// output it was given, makes no disabled output primary, and every output it
/// returns is one it was given (a disabled one with its primary flag cleared).
pub proof fn lemma_sanitize_laws(outs: Seq<OutputConfig>)
    ensures
        distinct_targets(spec_sanitize(outs)),
        forall|k: int|
            0 <= k < spec_sanitize(outs).len() && !(#[trigger] spec_sanitize(outs)[k]).enabled
                ==> !spec_sanitize(outs)[k].primary,
        forall|i: int|
            0 <= i < outs.len() ==> targets(spec_sanitize(outs)).contains(
                (#[trigger] outs[i]).display_id.target_id,
            ),
        forall|k: int|
            0 <= k < spec_sanitize(outs).len() ==> exists|i: int|
                0 <= i < outs.len() && #[trigger] spec_sanitize(outs)[k] == kept_form(outs[i]),
{
    let a = sanitize_pass(outs, Seq::empty(), true);
    let b = sanitize_pass(outs, a.1, false);
    lemma_sanitize_pass(outs, Seq::empty(), true);
    lemma_sanitize_pass(outs, a.1, false);
    let r = spec_sanitize(outs);
    assert(a.1 =~= targets(a.0));
    assert forall|i: int, j: int| 0 <= i < j < r.len() implies #[trigger] r[i].display_id.target_id != #[trigger] r[j].display_id.target_id by {
        if j < a.0.len() {
            assert(r[i] == a.0[i] && r[j] == a.0[j]);
        } else if i >= a.0.len() {
            assert(r[i] == b.0[i - a.0.len()] && r[j] == b.0[j - a.0.len()]);
        } else {
            assert(r[i] == a.0[i] && r[j] == b.0[j - a.0.len()]);
            assert(a.1[i] == a.0[i].display_id.target_id);
        }
    }
    assert forall|k: int| 0 <= k < r.len() && !(#[trigger] r[k]).enabled implies !r[k].primary by {
        if k < a.0.len() {
            assert(r[k] == a.0[k]);
        } else {
            assert(r[k] == b.0[k - a.0.len()]);
            let i = choose|i: int| 0 <= i < outs.len() && b.0[k - a.0.len()] == kept_form(outs[i]);
        }
    }
    assert(targets(r) =~= targets(a.0) + targets(b.0));
    assert forall|i: int| 0 <= i < outs.len() implies targets(r).contains((#[trigger] outs[i]).display_id.target_id) by {
        let t = outs[i].display_id.target_id;
        if outs[i].enabled {
            let m = choose|m: int| 0 <= m < a.1.len() && a.1[m] == t;
            assert(targets(r)[m] == t);
        } else {
            let m = choose|m: int| 0 <= m < b.1.len() && b.1[m] == t;
            assert(b.1 =~= targets(r));
        }
    }
    assert forall|k: int| 0 <= k < r.len() implies exists|i: int| 0 <= i < outs.len() && #[trigger] r[k] == kept_form(outs[i]) by {
        if k < a.0.len() {
            assert(r[k] == a.0[k]);
        } else {
            assert(r[k] == b.0[k - a.0.len()]);
        }
    }
}


pub open spec fn with_flag(enabled: bool) -> spec_fn(OutputConfig) -> bool {
    |o: OutputConfig| o.enabled == enabled
}

proof fn lemma_filter_all(s: Seq<OutputConfig>, pred: spec_fn(OutputConfig) -> bool)
    requires
        forall|i: int| 0 <= i < s.len() ==> pred(#[trigger] s[i]),
    ensures
        s.filter(pred) == s,
    decreases s.len(),
{
    if s.len() > 0 {
        let d = s.drop_last();
        lemma_filter_all(d, pred);
        d.lemma_filter_push(s.last(), pred);
        assert(d.push(s.last()) =~= s);
    } else {
        assert(s.filter(pred) =~= s) by {
            reveal(Seq::filter);
        }
    }
}

proof fn lemma_filter_none(s: Seq<OutputConfig>, pred: spec_fn(OutputConfig) -> bool)
    requires
        forall|i: int| 0 <= i < s.len() ==> !pred(#[trigger] s[i]),
    ensures
        s.filter(pred) == Seq::<OutputConfig>::empty(),
    decreases s.len(),
{
    if s.len() > 0 {
        let d = s.drop_last();
        lemma_filter_none(d, pred);
        d.lemma_filter_push(s.last(), pred);
        assert(d.push(s.last()) =~= s);
    } else {
        assert(s.filter(pred) =~= Seq::<OutputConfig>::empty()) by {
            reveal(Seq::filter);
        }
    }
}

/// A pass over outputs with distinct target ids, none of the selected ones seen
/// before, that the clean-up would keep as they are, selects exactly the
/// outputs with the given flag.
proof fn lemma_pass_of_clean(s: Seq<OutputConfig>, seen0: Seq<u32>, enabled: bool)
    requires
        distinct_targets(s),
        forall|k: int| 0 <= k < s.len() ==> kept_form(#[trigger] s[k]) == s[k],
        forall|k: int| 0 <= k < s.len() && (#[trigger] s[k]).enabled == enabled ==> !seen0.contains(s[k].display_id.target_id),
    ensures
        sanitize_pass(s, seen0, enabled).0 == s.filter(with_flag(enabled)),
    decreases s.len(),
{
    if s.len() == 0 {
        assert(s.filter(with_flag(enabled)) =~= Seq::<OutputConfig>::empty()) by {
            reveal(Seq::filter);
        }
    } else {
        let d = s.drop_last();
        let o = s.last();
        assert forall|i: int, j: int| 0 <= i < j < d.len() implies #[trigger] d[i].display_id.target_id != #[trigger] d[j].display_id.target_id by {
            assert(d[i] == s[i] && d[j] == s[j]);
        }
        assert forall|k: int| 0 <= k < d.len() implies kept_form(#[trigger] d[k]) == d[k] by {
            assert(d[k] == s[k]);
        }
        assert forall|k: int| 0 <= k < d.len() && (#[trigger] d[k]).enabled == enabled implies !seen0.contains(d[k].display_id.target_id) by {
            assert(d[k] == s[k]);
        }
        lemma_pass_of_clean(d, seen0, enabled);
        lemma_sanitize_pass(d, seen0, enabled);
        d.lemma_filter_push(o, with_flag(enabled));
        assert(d.push(o) =~= s);
        let p = sanitize_pass(d, seen0, enabled);
        if o.enabled == enabled {
            let t = o.display_id.target_id;
            assert(!p.1.contains(t)) by {
                if p.1.contains(t) {
                    let m = choose|m: int| 0 <= m < p.1.len() && p.1[m] == t;
                    if m < seen0.len() {
                        assert(seen0[m] == t);
                        assert(s[s.len() - 1] == o);
                    } else {
                        let k = m - seen0.len();
                        assert(targets(p.0)[k] == t);
                        assert(p.0[k].display_id.target_id == t);
                        let i = choose|i: int| 0 <= i < d.len() && #[trigger] p.0[k] == kept_form(d[i]);
                        assert(d[i] == s[i]);
                        assert(s[i].display_id.target_id != s[s.len() - 1].display_id.target_id);
                    }
                }
            }
            assert(kept_form(s[s.len() - 1]) == o);
        }
    }
}

/// Cleaning up a cleaned-up layout changes nothing.
pub proof fn lemma_sanitize_idempotent(outs: Seq<OutputConfig>)
    ensures
        spec_sanitize(spec_sanitize(outs)) == spec_sanitize(outs),
{
    let a = sanitize_pass(outs, Seq::empty(), true);
    let b = sanitize_pass(outs, a.1, false);
    lemma_sanitize_pass(outs, Seq::empty(), true);
    lemma_sanitize_pass(outs, a.1, false);
    lemma_sanitize_laws(outs);
    let r = spec_sanitize(outs);
    assert(r == a.0 + b.0);
    assert forall|k: int| 0 <= k < r.len() implies kept_form(#[trigger] r[k]) == r[k] by {
        if k < a.0.len() {
            assert(r[k] == a.0[k]);
        } else {
            assert(r[k] == b.0[k - a.0.len()]);
            assert(!r[k].enabled);
        }
    }
    lemma_pass_of_clean(r, Seq::empty(), true);
    let a2 = sanitize_pass(r, Seq::empty(), true);
    lemma_sanitize_pass(r, Seq::empty(), true);
    Seq::filter_distributes_over_add(a.0, b.0, with_flag(true));
    Seq::filter_distributes_over_add(a.0, b.0, with_flag(false));
    assert forall|k: int| 0 <= k < a.0.len() implies with_flag(true)(#[trigger] a.0[k]) by {}
    assert forall|k: int| 0 <= k < b.0.len() implies !with_flag(true)(#[trigger] b.0[k]) by {}
    assert forall|k: int| 0 <= k < a.0.len() implies !with_flag(false)(#[trigger] a.0[k]) by {}
    assert forall|k: int| 0 <= k < b.0.len() implies with_flag(false)(#[trigger] b.0[k]) by {}
    lemma_filter_all(a.0, with_flag(true));
    lemma_filter_none(b.0, with_flag(true));
    lemma_filter_none(a.0, with_flag(false));
    lemma_filter_all(b.0, with_flag(false));
    assert(a2.0 == a.0);
    assert(a2.1 == targets(a.0));
    assert forall|k: int| 0 <= k < r.len() && (#[trigger] r[k]).enabled == false implies !a2.1.contains(r[k].display_id.target_id) by {
        if a2.1.contains(r[k].display_id.target_id) {
            let m = choose|m: int| 0 <= m < a2.1.len() && a2.1[m] == r[k].display_id.target_id;
            assert(targets(a.0)[m] == a.0[m].display_id.target_id);
            assert(r[m] == a.0[m]);
            assert(r[m].enabled);
            assert(k != m);
        }
    }
    lemma_pass_of_clean(r, a2.1, false);
    assert(a.0 + Seq::<OutputConfig>::empty() =~= a.0);
    assert(Seq::<OutputConfig>::empty() + b.0 =~= b.0);
}

/// A live output is represented in a profile when some output of the profile
/// has the same EDID hash (both present) or the same target id.
pub open spec fn represented(profile: Seq<OutputConfig>, live: OutputConfig) -> bool {
    exists|k: int|
        0 <= k < profile.len() && ({
            let o = #[trigger] profile[k];
            (o.display_id.edid_hash is Some && live.display_id.edid_hash is Some
                && o.display_id.edid_hash == live.display_id.edid_hash)
                || o.display_id.target_id == live.display_id.target_id
        })
}

/// A live output as it is added to a profile that does not know it yet.
pub open spec fn added_form(live: OutputConfig) -> OutputConfig {
    OutputConfig { enabled: false, primary: false, ..live }
}

/// The profile's outputs after adding every enabled live output that it does
/// not represent yet, in live order, as a disabled non-primary output.
pub open spec fn sync_outputs(profile: Seq<OutputConfig>, live: Seq<OutputConfig>) -> Seq<OutputConfig>
    decreases live.len(),
{
    if live.len() == 0 {
        profile
    } else {
        let p = sync_outputs(profile, live.drop_last());
        let l = live.last();
        if l.enabled && !represented(p, l) {
            p.push(added_form(l))
        } else {
            p
        }
    }
}

fn is_represented(profile: &Vec<OutputConfig>, live: &OutputConfig) -> (r: bool)
    ensures
        r == represented(profile@, *live),
{
    let mut i: usize = 0;
    while i < profile.len()
        invariant
            0 <= i <= profile@.len(),
            forall|k: int| 0 <= k < i ==> !({
                let o = #[trigger] profile@[k];
                (o.display_id.edid_hash is Some && live.display_id.edid_hash is Some
                    && o.display_id.edid_hash == live.display_id.edid_hash)
                    || o.display_id.target_id == live.display_id.target_id
            }),
        decreases profile@.len() - i,
    {
        let o = profile[i];
        let hash_match = match (o.display_id.edid_hash, live.display_id.edid_hash) {
            (Some(h1), Some(h2)) => h1 == h2,
            _ => false,
        };
        if hash_match || o.display_id.target_id == live.display_id.target_id {
            assert(profile@[i as int] == o);
            return true;
        }
        i = i + 1;
    }
    false
}

/// Adds the newly connected displays of the live layout to a saved profile as
/// disabled outputs; returns whether the profile changed.
pub fn sync_profile_layout(profile: &mut Layout, live: &Layout) -> (changed: bool)
    ensures
        final(profile)@ == sync_outputs(old(profile)@, live@),
        changed == (final(profile)@.len() != old(profile)@.len()),
{
    let ghost p0 = profile@;
    let mut changed = false;
    let mut i: usize = 0;
    while i < live.outputs.len()
        invariant
            0 <= i <= live@.len(),
            profile@ == sync_outputs(p0, live@.take(i as int)),
            profile@.len() >= p0.len(),
            changed == (profile@.len() != p0.len()),
        decreases live@.len() - i,
    {
        assert(live@.take(i + 1).drop_last() =~= live@.take(i as int));
        let l = live.outputs[i];
        if l.enabled && !is_represented(&profile.outputs, &l) {
            profile.outputs.push(OutputConfig { enabled: false, primary: false, ..l });
            changed = true;
        }
        i = i + 1;
    }
    assert(live@.take(live@.len() as int) =~= live@);
    changed
}

proof fn lemma_represented_prefix(p: Seq<OutputConfig>, q: Seq<OutputConfig>, l: OutputConfig)
    requires
        p.len() <= q.len(),
        forall|k: int| 0 <= k < p.len() ==> p[k] == q[k],
        represented(p, l),
    ensures
        represented(q, l),
{
    let k = choose|k: int| 0 <= k < p.len() && ({
        let o = #[trigger] p[k];
        (o.display_id.edid_hash is Some && l.display_id.edid_hash is Some
            && o.display_id.edid_hash == l.display_id.edid_hash)
            || o.display_id.target_id == l.display_id.target_id
    });
    assert(q[k] == p[k]);
}

proof fn lemma_sync_extends(profile: Seq<OutputConfig>, live: Seq<OutputConfig>)
    ensures
        sync_outputs(profile, live).len() >= profile.len(),
        forall|k: int| 0 <= k < profile.len() ==> #[trigger] sync_outputs(profile, live)[k] == profile[k],
        forall|i: int| 0 <= i < live.len() && (#[trigger] live[i]).enabled ==> represented(sync_outputs(profile, live), live[i]),
    decreases live.len(),
{
    if live.len() > 0 {
        let lp = live.drop_last();
        lemma_sync_extends(profile, lp);
        let p = sync_outputs(profile, lp);
        let r = sync_outputs(profile, live);
        let l = live.last();
        assert forall|i: int| 0 <= i < live.len() && (#[trigger] live[i]).enabled implies represented(r, live[i]) by {
            if i < lp.len() {
                assert(lp[i] == live[i]);
                lemma_represented_prefix(p, r, live[i]);
            } else if !represented(p, l) {
                assert(r[r.len() - 1].display_id.target_id == l.display_id.target_id);
            }
        }
    }
}

proof fn lemma_sync_noop(profile: Seq<OutputConfig>, live: Seq<OutputConfig>)
    requires
        forall|i: int| 0 <= i < live.len() && (#[trigger] live[i]).enabled ==> represented(profile, live[i]),
    ensures
        sync_outputs(profile, live) == profile,
    decreases live.len(),
{
    if live.len() > 0 {
        let lp = live.drop_last();
        assert forall|i: int| 0 <= i < lp.len() && (#[trigger] lp[i]).enabled implies represented(profile, lp[i]) by {
            assert(lp[i] == live[i]);
        }
        lemma_sync_noop(profile, lp);
    }
}

/// After a sync every enabled live display is represented in the profile, the
/// profile's earlier outputs are untouched, and syncing again changes nothing.
pub proof fn lemma_sync_laws(profile: Seq<OutputConfig>, live: Seq<OutputConfig>)
    ensures
        forall|k: int| 0 <= k < profile.len() ==> #[trigger] sync_outputs(profile, live)[k] == profile[k],
        forall|i: int| 0 <= i < live.len() && (#[trigger] live[i]).enabled ==> represented(sync_outputs(profile, live), live[i]),
        sync_outputs(sync_outputs(profile, live), live) == sync_outputs(profile, live),
{
    lemma_sync_extends(profile, live);
    lemma_sync_noop(sync_outputs(profile, live), live);
}

/// A sync only appends displays that are new to the profile: every output it
/// adds comes from an enabled live output, is disabled and not primary, and
/// shares neither a target id nor an EDID hash with any output before it (so a
/// display on a port the profile already has is never added again, whatever
/// its EDID hash); the profile's own outputs stay as they were.
pub proof fn lemma_sync_adds_only_new(profile: Seq<OutputConfig>, live: Seq<OutputConfig>)
    ensures
        sync_outputs(profile, live).len() >= profile.len(),
        forall|k: int| 0 <= k < profile.len() ==> #[trigger] sync_outputs(profile, live)[k] == profile[k],
        forall|m: int, k: int|
            #![trigger sync_outputs(profile, live)[m], sync_outputs(profile, live)[k]]
            profile.len() <= m < sync_outputs(profile, live).len() && 0 <= k < m ==> {
                let r = sync_outputs(profile, live);
                &&& r[k].display_id.target_id != r[m].display_id.target_id
                &&& !(r[k].display_id.edid_hash is Some && r[k].display_id.edid_hash == r[m].display_id.edid_hash)
            },
        forall|m: int| profile.len() <= m < sync_outputs(profile, live).len() ==> {
            let o = #[trigger] sync_outputs(profile, live)[m];
            &&& !o.enabled
            &&& !o.primary
            &&& exists|j: int| 0 <= j < live.len() && (#[trigger] live[j]).enabled
                && o == (OutputConfig { enabled: false, primary: false, ..live[j] })
        },
    decreases live.len(),
{
    if live.len() > 0 {
        let d = live.drop_last();
        lemma_sync_adds_only_new(profile, d);
        let p = sync_outputs(profile, d);
        let r = sync_outputs(profile, live);
        let l = live.last();
        assert(live[live.len() - 1] == l);
        assert forall|j: int| 0 <= j < d.len() implies #[trigger] d[j] == live[j] by {}
        if l.enabled && !represented(p, l) {
            assert(r == p.push(added_form(l)));
            assert forall|m: int, k: int|
                #![trigger r[m], r[k]]
                profile.len() <= m < r.len() && 0 <= k < m implies {
                    &&& r[k].display_id.target_id != r[m].display_id.target_id
                    &&& !(r[k].display_id.edid_hash is Some && r[k].display_id.edid_hash == r[m].display_id.edid_hash)
                } by {
                assert(r[k] == p[k]);
                if m < p.len() {
                    assert(r[m] == p[m]);
                } else {
                    assert(r[m] == added_form(l));
                    let o = p[k];
                    if o.display_id.target_id == l.display_id.target_id || (o.display_id.edid_hash is Some
                        && o.display_id.edid_hash == l.display_id.edid_hash) {
                        assert(represented(p, l));
                    }
                }
            }
            assert forall|m: int| profile.len() <= m < r.len() implies {
                let o = #[trigger] r[m];
                &&& !o.enabled
                &&& !o.primary
                &&& exists|j: int| 0 <= j < live.len() && (#[trigger] live[j]).enabled
                    && o == (OutputConfig { enabled: false, primary: false, ..live[j] })
            } by {
                if m < p.len() {
                    assert(r[m] == p[m]);
                    let o = p[m];
                    let j = choose|j: int| 0 <= j < d.len() && (#[trigger] d[j]).enabled
                        && o == (OutputConfig { enabled: false, primary: false, ..d[j] });
                    assert(d[j] == live[j]);
                } else {
                    assert(r[m] == added_form(l));
                    assert(live[live.len() - 1].enabled);
                }
            }
        } else {
            assert(r == p);
            assert forall|m: int| profile.len() <= m < r.len() implies {
                let o = #[trigger] r[m];
                &&& !o.enabled
                &&& !o.primary
                &&& exists|j: int| 0 <= j < live.len() && (#[trigger] live[j]).enabled
                    && o == (OutputConfig { enabled: false, primary: false, ..live[j] })
            } by {
                let o = p[m];
                let j = choose|j: int| 0 <= j < d.len() && (#[trigger] d[j]).enabled
                    && o == (OutputConfig { enabled: false, primary: false, ..d[j] });
                assert(d[j] == live[j]);
            }
        }
    }
}

/// The outputs with the primary flag on exactly the enabled outputs of the display `target`.
pub open spec fn spec_make_primary(outs: Seq<OutputConfig>, target: DisplayKey) -> Seq<OutputConfig> {
    Seq::new(outs.len(), |i: int| OutputConfig { primary: outs[i].key() == target && outs[i].enabled, ..outs[i] })
}

/// Makes the display `target` the primary one in a layout.
pub fn make_primary_layout(layout: &mut Layout, target: &DisplayId)
    ensures
        final(layout)@ == spec_make_primary(old(layout)@, target.key()),
{
    let ghost l0 = layout@;
    let mut i: usize = 0;
    while i < layout.outputs.len()
        invariant
            0 <= i <= l0.len(),
            layout@.len() == l0.len(),
            forall|k: int| 0 <= k < i ==> #[trigger] layout@[k] == spec_make_primary(l0, target.key())[k],
            forall|k: int| i <= k < l0.len() ==> #[trigger] layout@[k] == l0[k],
        decreases l0.len() - i,
    {
        let o = layout.outputs[i];
        let is_target = o.display_id.adapter_luid == target.adapter_luid
            && o.display_id.target_id == target.target_id && o.enabled;
        layout.outputs.set(i, OutputConfig { primary: is_target, ..o });
        i = i + 1;
    }
    assert(layout@ =~= spec_make_primary(l0, target.key()));
}

/// The layout has at least one enabled output.
pub open spec fn has_enabled_output(outs: Seq<OutputConfig>) -> bool {
    exists|i: int| 0 <= i < outs.len() && (#[trigger] outs[i]).enabled
}

pub fn layout_has_enabled_output(layout: &Layout) -> (r: bool)
    ensures
        r == has_enabled_output(layout@),
{
    let mut i: usize = 0;
    while i < layout.outputs.len()
        invariant
            0 <= i <= layout@.len(),
            forall|k: int| 0 <= k < i ==> !(#[trigger] layout@[k]).enabled,
        decreases layout@.len() - i,
    {
        if layout.outputs[i].enabled {
            assert(layout@[i as int].enabled);
            return true;
        }
        i = i + 1;
    }
    false
}

/// Some output of `outs` addresses the display `k`.
pub open spec fn has_key(outs: Seq<OutputConfig>, k: DisplayKey) -> bool {
    exists|j: int| 0 <= j < outs.len() && (#[trigger] outs[j]).key() == k
}

/// The outputs `outs` followed by every remembered output whose display is not
/// among them, marked disabled, in remembered order.
pub open spec fn merge_outputs(outs: Seq<OutputConfig>, remembered: Seq<OutputConfig>) -> Seq<OutputConfig>
    decreases remembered.len(),
{
    if remembered.len() == 0 {
        outs
    } else {
        let p = merge_outputs(outs, remembered.drop_last());
        let o = remembered.last();
        if has_key(outs, o.key()) { p } else { p.push(OutputConfig { enabled: false, ..o }) }
    }
}

fn has_output_key(outs: &Vec<OutputConfig>, k: &DisplayKey) -> (r: bool)
    ensures
        r == has_key(outs@, *k),
{
    let mut i: usize = 0;
    while i < outs.len()
        invariant
            0 <= i <= outs@.len(),
            forall|j: int| 0 <= j < i ==> (#[trigger] outs@[j]).key() != *k,
        decreases outs@.len() - i,
    {
        if output_key(&outs[i]) == *k {
            assert(outs@[i as int].key() == *k);
            return true;
        }
        i = i + 1;
    }
    false
}

/// Adds the outputs of a remembered layout that are not live to a live layout,
/// disabled, so that a display turned off earlier can be turned on again.
pub fn merge_disabled_outputs(layout: Layout, remembered: &Vec<OutputConfig>) -> (r: Layout)
    ensures
        r@ == merge_outputs(layout@, remembered@),
{
    let live = layout.outputs;
    let mut outputs = live.clone();
    assert(outputs@ =~= live@);
    let mut i: usize = 0;
    while i < remembered.len()
        invariant
            0 <= i <= remembered@.len(),
            outputs@ == merge_outputs(live@, remembered@.take(i as int)),
        decreases remembered@.len() - i,
    {
        assert(remembered@.take(i + 1).drop_last() =~= remembered@.take(i as int));
        let o = remembered[i];
        let k = output_key(&o);
        if !has_output_key(&live, &k) {
            outputs.push(OutputConfig { enabled: false, ..o });
        }
        i = i + 1;
    }
    assert(remembered@.take(remembered@.len() as int) =~= remembered@);
    Layout { outputs }
}


/// Some display of `displays` has the id `id`.
pub open spec fn has_display_id(displays: Seq<DisplayInfo>, id: DisplayId) -> bool {
    exists|j: int| 0 <= j < displays.len() && (#[trigger] displays[j]).id == id
}

/// The displays `active` followed by every remembered display whose id is not
/// among them, marked inactive, in remembered order.
pub open spec fn merge_displays(active: Seq<DisplayInfo>, remembered: Seq<DisplayInfo>) -> Seq<DisplayInfo>
    decreases remembered.len(),
{
    if remembered.len() == 0 {
        active
    } else {
        let p = merge_displays(active, remembered.drop_last());
        let d = remembered.last();
        if has_display_id(active, d.id) { p } else { p.push(DisplayInfo { is_active: false, ..d }) }
    }
}

/// Adds the remembered displays that are not active any more to the active
/// ones, marked inactive, so that the user can switch them on again.
pub fn merge_inactive_displays(active: Vec<DisplayInfo>, remembered: Vec<DisplayInfo>) -> (r: Vec<DisplayInfo>)
    ensures
        r@ == merge_displays(active@, remembered@),
{
    let ghost active0 = active@;
    let mut ids: Vec<DisplayId> = Vec::new();
    let mut i: usize = 0;
    while i < active.len()
        invariant
            0 <= i <= active@.len(),
            ids@.len() == i,
            forall|j: int| 0 <= j < i ==> #[trigger] ids@[j] == active@[j].id,
        decreases active@.len() - i,
    {
        ids.push(active[i].id);
        i = i + 1;
    }
    let mut result = active;
    let mut rest = remembered;
    let ghost orig = rest@;
    let ghost mut k: int = 0;
    while rest.len() > 0
        invariant
            0 <= k <= orig.len(),
            rest@ == orig.skip(k),
            result@ == merge_displays(active0, orig.take(k)),
            ids@.len() == active0.len(),
            forall|j: int| 0 <= j < active0.len() ==> #[trigger] ids@[j] == active0[j].id,
        decreases rest@.len(),
    {
        assert(orig.take(k + 1).drop_last() =~= orig.take(k));
        assert(rest@[0] == orig[k]);
        let mut d = rest.remove(0);
        let mut found = false;
        let mut j: usize = 0;
        while j < ids.len()
            invariant
                0 <= j <= ids@.len(),
                found == (exists|m: int| 0 <= m < j && #[trigger] ids@[m] == d.id),
            decreases ids@.len() - j,
        {
            if ids[j] == d.id {
                found = true;
            }
            j = j + 1;
        }
        assert(found == has_display_id(active0, d.id)) by {
            if found {
                let m = choose|m: int| 0 <= m < ids@.len() && #[trigger] ids@[m] == d.id;
                assert(active0[m].id == d.id);
            }
            if has_display_id(active0, d.id) {
                let m = choose|m: int| 0 <= m < active0.len() && (#[trigger] active0[m]).id == d.id;
                assert(ids@[m] == d.id);
            }
        }
        if !found {
            d.is_active = false;
            result.push(d);
        }
        proof {
            k = k + 1;
        }
        assert(rest@ =~= orig.skip(k));
    }
    assert(orig.take(orig.len() as int) =~= orig);
    result
}

} // verus!
