//! Carrying a saved layout over to the displays that are connected now.
//!
//! Windows may hand a monitor a new adapter LUID after a reboot or a driver
//! reinstall. A saved output whose id is not live any more is matched to a live
//! output first by its EDID hash, then by its target id, and only where exactly
//! one unused live output qualifies.

use vstd::prelude::*;
use crate::display::{DisplayId, Layout, OutputConfig};

verus! {

/// Some output of `outputs` has the id `id`.
pub open spec fn has_id(outputs: Seq<OutputConfig>, id: DisplayId) -> bool {
    exists|j: int| 0 <= j < outputs.len() && outputs[j].display_id == id
}

/// The ids of the live outputs that are candidates for a missing id: those with
/// the same EDID hash (when `by_hash`) or the same target id (otherwise), and
/// not yet used, in the order of the live layout.
pub open spec fn candidate_ids(
    current: Seq<OutputConfig>,
    used: Seq<DisplayId>,
    id: DisplayId,
    by_hash: bool,
) -> Seq<DisplayId>
    decreases current.len(),
{
    if current.len() == 0 {
        Seq::empty()
    } else {
        let prev = candidate_ids(current.drop_last(), used, id, by_hash);
        let c = current.last().display_id;
        let qualifies = if by_hash {
            id.edid_hash is Some && c.edid_hash == id.edid_hash
        } else {
            c.target_id == id.target_id
        };
        if qualifies && !used.contains(c) {
            prev.push(c)
        } else {
            prev
        }
    }
}

/// The id that a missing id is replaced by, if any: the unique EDID-hash
/// candidate, else the unique target-id candidate.
pub open spec fn replacement_id(current: Seq<OutputConfig>, used: Seq<DisplayId>, id: DisplayId) -> Option<DisplayId> {
    let by_hash = candidate_ids(current, used, id, true);
    let by_target = candidate_ids(current, used, id, false);
    if by_hash.len() == 1 {
        Some(by_hash[0])
    } else if by_target.len() == 1 {
        Some(by_target[0])
    } else {
        None
    }
}

/// One output with a new display id.
pub open spec fn with_id(o: OutputConfig, id: DisplayId) -> OutputConfig {
    OutputConfig { display_id: id, ..o }
}

/// Remaps one output given the ids used so far; returns the output and the new used ids.
pub open spec fn remap_one(current: Seq<OutputConfig>, used: Seq<DisplayId>, o: OutputConfig) -> (OutputConfig, Seq<DisplayId>) {
    if has_id(current, o.display_id) {
        (o, used)
    } else {
        match replacement_id(current, used, o.display_id) {
            Some(n) => (with_id(o, n), used.push(n)),
            None => (o, used),
        }
    }
}

/// Remaps the outputs in order, threading the used ids through.
pub open spec fn remap_outputs(current: Seq<OutputConfig>, used0: Seq<DisplayId>, outs: Seq<OutputConfig>) -> (Seq<OutputConfig>, Seq<DisplayId>)
    decreases outs.len(),
{
    if outs.len() == 0 {
        (Seq::empty(), used0)
    } else {
        let prev = remap_outputs(current, used0, outs.drop_last());
        let step = remap_one(current, prev.1, outs.last());
        (prev.0.push(step.0), step.1)
    }
}

/// The ids of the desired outputs that are already live, in order.
pub open spec fn live_ids(desired: Seq<OutputConfig>, current: Seq<OutputConfig>) -> Seq<DisplayId>
    decreases desired.len(),
{
    if desired.len() == 0 {
        Seq::empty()
    } else {
        let prev = live_ids(desired.drop_last(), current);
        let id = desired.last().display_id;
        if has_id(current, id) { prev.push(id) } else { prev }
    }
}

pub open spec fn all_live(desired: Seq<OutputConfig>, current: Seq<OutputConfig>) -> bool {
    forall|i: int| 0 <= i < desired.len() ==> has_id(current, #[trigger] desired[i].display_id)
}

/// The layout `desired` with its ids carried over to the live layout `current`.
pub open spec fn spec_remap(desired: Seq<OutputConfig>, current: Seq<OutputConfig>) -> Seq<OutputConfig> {
    if all_live(desired, current) {
        desired
    } else {
        remap_outputs(current, live_ids(desired, current), desired).0
    }
}

/// Whether `outputs` holds an output with the id `id`.
pub fn contains_output_id(outputs: &Vec<OutputConfig>, id: &DisplayId) -> (r: bool)
    ensures
        r == has_id(outputs@, *id),
{
    let mut i: usize = 0;
    while i < outputs.len()
        invariant
            0 <= i <= outputs@.len(),
            forall|j: int| 0 <= j < i ==> outputs@[j].display_id != *id,
        decreases outputs@.len() - i,
    {
        if outputs[i].display_id == *id {
            return true;
        }
        i = i + 1;
    }
    false
}

fn contains_id(ids: &Vec<DisplayId>, id: &DisplayId) -> (r: bool)
    ensures
        r == ids@.contains(*id),
{
    let mut i: usize = 0;
    while i < ids.len()
        invariant
            0 <= i <= ids@.len(),
            forall|j: int| 0 <= j < i ==> ids@[j] != *id,
        decreases ids@.len() - i,
    {
        if ids[i] == *id {
            assert(ids@[i as int] == *id);
            return true;
        }
        i = i + 1;
    }
    false
}

/// The only candidate for `id`, if there is exactly one.
fn unique_candidate(current: &Vec<OutputConfig>, used: &Vec<DisplayId>, id: &DisplayId, by_hash: bool) -> (r: Option<DisplayId>)
    ensures
        r == (if candidate_ids(current@, used@, *id, by_hash).len() == 1 {
            Some(candidate_ids(current@, used@, *id, by_hash)[0])
        } else {
            None::<DisplayId>
        }),
{
    let mut count: usize = 0;
    let mut first: Option<DisplayId> = None;
    let mut i: usize = 0;
    while i < current.len()
        invariant
            0 <= i <= current@.len(),
            count == candidate_ids(current@.take(i as int), used@, *id, by_hash).len(),
            count <= i,
            count > 0 ==> first == Some(candidate_ids(current@.take(i as int), used@, *id, by_hash)[0]),
        decreases current@.len() - i,
    {
        assert(current@.take(i + 1).drop_last() =~= current@.take(i as int));
        let c = current[i].display_id;
        let qualifies = if by_hash {
            id.edid_hash.is_some() && c.edid_hash == id.edid_hash
        } else {
            c.target_id == id.target_id
        };
        if qualifies && !contains_id(used, &c) {
            if count == 0 {
                first = Some(c);
            }
            count = count + 1;
        }
        i = i + 1;
    }
    assert(current@.take(current@.len() as int) =~= current@);
    if count == 1 {
        first
    } else {
        None
    }
}

/// The id that a saved output is carried over to (see `replacement_id`).
fn find_replacement(current: &Vec<OutputConfig>, used: &Vec<DisplayId>, id: &DisplayId) -> (r: Option<DisplayId>)
    ensures
        r == replacement_id(current@, used@, *id),
{
    let by_hash = unique_candidate(current, used, id, true);
    if by_hash.is_some() {
        return by_hash;
    }
    unique_candidate(current, used, id, false)
}

/// Carries the display ids of a saved layout over to the live layout. Outputs
/// whose id is live are kept; a missing id is replaced by the single unused live
/// id with the same EDID hash, or else the single unused live id with the same
/// target id; an output with no such match keeps its id.
pub fn remap_layout_display_ids(desired: Layout, current: &Layout) -> (r: Layout)
    ensures
        r@ == spec_remap(desired@, current@),
{
    let mut all = true;
    let mut i: usize = 0;
    while i < desired.outputs.len()
        invariant
            0 <= i <= desired@.len(),
            all == (forall|j: int| 0 <= j < i ==> has_id(current@, #[trigger] desired@[j].display_id)),
        decreases desired@.len() - i,
    {
        if !contains_output_id(&current.outputs, &desired.outputs[i].display_id) {
            all = false;
        }
        i = i + 1;
    }
    if all {
        return desired;
    }

    let mut used: Vec<DisplayId> = Vec::new();
    let mut i: usize = 0;
    while i < desired.outputs.len()
        invariant
            0 <= i <= desired@.len(),
            used@ == live_ids(desired@.take(i as int), current@),
        decreases desired@.len() - i,
    {
        assert(desired@.take(i + 1).drop_last() =~= desired@.take(i as int));
        let id = desired.outputs[i].display_id;
        if contains_output_id(&current.outputs, &id) {
            used.push(id);
        }
        i = i + 1;
    }
    assert(desired@.take(desired@.len() as int) =~= desired@);

    let ghost used0 = used@;
    let mut outputs: Vec<OutputConfig> = Vec::new();
    let mut i: usize = 0;
    while i < desired.outputs.len()
        invariant
            0 <= i <= desired@.len(),
            used0 == live_ids(desired@, current@),
            (outputs@, used@) == remap_outputs(current@, used0, desired@.take(i as int)),
        decreases desired@.len() - i,
    {
        assert(desired@.take(i + 1).drop_last() =~= desired@.take(i as int));
        let o = desired.outputs[i];
        if contains_output_id(&current.outputs, &o.display_id) {
            outputs.push(o);
        } else {
            match find_replacement(&current.outputs, &used, &o.display_id) {
                Some(n) => {
                    used.push(n);
                    outputs.push(OutputConfig { display_id: n, ..o });
                },
                None => {
                    outputs.push(o);
                },
            }
        }
        i = i + 1;
    }
    assert(desired@.take(desired@.len() as int) =~= desired@);
    Layout { outputs }
}


/// `new_id` was matched to `old_id` by EDID hash or by target id.
pub open spec fn matched_by(old_id: DisplayId, new_id: DisplayId) -> bool {
    (old_id.edid_hash is Some && new_id.edid_hash == old_id.edid_hash) || new_id.target_id == old_id.target_id
}

proof fn lemma_candidates(current: Seq<OutputConfig>, used: Seq<DisplayId>, id: DisplayId, by_hash: bool)
    ensures
        forall|k: int|
            0 <= k < candidate_ids(current, used, id, by_hash).len() ==> {
                let n = #[trigger] candidate_ids(current, used, id, by_hash)[k];
                &&& has_id(current, n)
                &&& !used.contains(n)
                &&& if by_hash {
                    id.edid_hash is Some && n.edid_hash == id.edid_hash
                } else {
                    n.target_id == id.target_id
                }
            },
    decreases current.len(),
{
    if current.len() > 0 {
        let prev = current.drop_last();
        lemma_candidates(prev, used, id, by_hash);
        let cands = candidate_ids(current, used, id, by_hash);
        assert forall|k: int| 0 <= k < cands.len() implies has_id(current, #[trigger] cands[k]) by {
            if k < candidate_ids(prev, used, id, by_hash).len() {
                let n = candidate_ids(prev, used, id, by_hash)[k];
                let j = choose|j: int| 0 <= j < prev.len() && prev[j].display_id == n;
                assert(current[j] == prev[j]);
            } else {
                assert(current[current.len() - 1].display_id == cands[k]);
            }
        }
    }
}

proof fn lemma_replacement(current: Seq<OutputConfig>, used: Seq<DisplayId>, id: DisplayId)
    ensures
        replacement_id(current, used, id) matches Some(n) ==> {
            &&& has_id(current, n)
            &&& !used.contains(n)
            &&& matched_by(id, n)
        },
{
    lemma_candidates(current, used, id, true);
    lemma_candidates(current, used, id, false);
    if candidate_ids(current, used, id, true).len() == 1 {
        let n = candidate_ids(current, used, id, true)[0];
    } else if candidate_ids(current, used, id, false).len() == 1 {
        let n = candidate_ids(current, used, id, false)[0];
    }
}

proof fn lemma_live_ids(desired: Seq<OutputConfig>, current: Seq<OutputConfig>)
    ensures
        forall|j: int|
            0 <= j < desired.len() && has_id(current, desired[j].display_id) ==> live_ids(
                desired,
                current,
            ).contains(#[trigger] desired[j].display_id),
        forall|x: DisplayId| live_ids(desired, current).contains(x) ==> has_id(current, x),
    decreases desired.len(),
{
    if desired.len() > 0 {
        let prev = desired.drop_last();
        lemma_live_ids(prev, current);
        let l = live_ids(desired, current);
        let lp = live_ids(prev, current);
        assert forall|j: int|
            0 <= j < desired.len() && has_id(current, desired[j].display_id) implies l.contains(
            #[trigger] desired[j].display_id,
        ) by {
            if j < prev.len() {
                assert(prev[j] == desired[j]);
                let k = choose|k: int| 0 <= k < lp.len() && lp[k] == desired[j].display_id;
                assert(l[k] == lp[k]);
            } else {
                assert(l[l.len() - 1] == desired[j].display_id);
            }
        }
        assert forall|x: DisplayId| l.contains(x) implies has_id(current, x) by {
            let k = choose|k: int| 0 <= k < l.len() && l[k] == x;
            if k < lp.len() {
                assert(lp.contains(x));
            }
        }
    }
}

proof fn lemma_remap_outputs(current: Seq<OutputConfig>, used0: Seq<DisplayId>, outs: Seq<OutputConfig>)
    ensures
        ({
            let r = remap_outputs(current, used0, outs);
            &&& r.0.len() == outs.len()
            &&& forall|i: int| 0 <= i < outs.len() ==> #[trigger] r.0[i] == with_id(outs[i], r.0[i].display_id)
            &&& forall|x: DisplayId| used0.contains(x) ==> r.1.contains(x)
            &&& forall|i: int| 0 <= i < outs.len() && has_id(current, outs[i].display_id) ==> #[trigger] r.0[i] == outs[i]
            &&& forall|i: int|
                0 <= i < outs.len() && #[trigger] r.0[i].display_id != outs[i].display_id ==> {
                    &&& r.1.contains(r.0[i].display_id)
                    &&& !used0.contains(r.0[i].display_id)
                    &&& has_id(current, r.0[i].display_id)
                    &&& !has_id(current, outs[i].display_id)
                    &&& matched_by(outs[i].display_id, r.0[i].display_id)
                }
            &&& forall|i: int, j: int|
                0 <= i < j < outs.len() && #[trigger] r.0[i].display_id != outs[i].display_id
                    && #[trigger] r.0[j].display_id != outs[j].display_id ==> r.0[i].display_id
                    != r.0[j].display_id
        }),
    decreases outs.len(),
{
    if outs.len() > 0 {
        let prev_outs = outs.drop_last();
        lemma_remap_outputs(current, used0, prev_outs);
        let prev = remap_outputs(current, used0, prev_outs);
        let o = outs.last();
        lemma_replacement(current, prev.1, o.display_id);
        let step = remap_one(current, prev.1, o);
        let r = remap_outputs(current, used0, outs);
        assert(r.0 == prev.0.push(step.0));
        assert(with_id(o, o.display_id) == o);
        assert forall|i: int| 0 <= i < outs.len() implies #[trigger] r.0[i] == with_id(outs[i], r.0[i].display_id) by {
            if i < prev_outs.len() {
                assert(r.0[i] == prev.0[i]);
                assert(outs[i] == prev_outs[i]);
            }
        }
        assert forall|x: DisplayId| used0.contains(x) implies r.1.contains(x) by {
            assert(prev.1.contains(x));
            let k = choose|k: int| 0 <= k < prev.1.len() && prev.1[k] == x;
            if step.1 != prev.1 {
                assert(step.1[k] == prev.1[k]);
            }
        }
        assert forall|i: int| 0 <= i < outs.len() && #[trigger] r.0[i].display_id != outs[i].display_id implies {
            &&& r.1.contains(r.0[i].display_id)
            &&& !used0.contains(r.0[i].display_id)
            &&& has_id(current, r.0[i].display_id)
            &&& !has_id(current, outs[i].display_id)
            &&& matched_by(outs[i].display_id, r.0[i].display_id)
        } by {
            if i < prev_outs.len() {
                assert(r.0[i] == prev.0[i]);
                assert(outs[i] == prev_outs[i]);
                let k = choose|k: int| 0 <= k < prev.1.len() && prev.1[k] == prev.0[i].display_id;
                if step.1 != prev.1 {
                    assert(step.1[k] == prev.1[k]);
                }
            } else {
                assert(step.1[step.1.len() - 1] == r.0[i].display_id);
                if used0.contains(r.0[i].display_id) {
                    assert(prev.1.contains(r.0[i].display_id));
                }
            }
        }
        assert forall|i: int, j: int|
            0 <= i < j < outs.len() && #[trigger] r.0[i].display_id != outs[i].display_id
                && #[trigger] r.0[j].display_id != outs[j].display_id implies r.0[i].display_id
            != r.0[j].display_id by {
            assert(r.0[i] == prev.0[i]);
            assert(outs[i] == prev_outs[i]);
            if j < prev_outs.len() {
                assert(r.0[j] == prev.0[j]);
                assert(outs[j] == prev_outs[j]);
            } else {
                assert(prev.1.contains(prev.0[i].display_id));
            }
        }
    }
}

/// The ids taken when the output at index `i` is carried over: the live ids
/// of the desired layout and the replacements given to the outputs before it.
pub open spec fn ids_taken_before(desired: Seq<OutputConfig>, current: Seq<OutputConfig>, i: int) -> Seq<DisplayId> {
    remap_outputs(current, live_ids(desired, current), desired.take(i)).1
}

proof fn lemma_remap_prefix(current: Seq<OutputConfig>, used0: Seq<DisplayId>, outs: Seq<OutputConfig>, i: int)
    requires
        0 <= i < outs.len(),
    ensures
        remap_outputs(current, used0, outs).0[i] == remap_one(current, remap_outputs(current, used0, outs.take(i)).1, outs[i]).0,
    decreases outs.len(),
{
    let d = outs.drop_last();
    lemma_remap_outputs(current, used0, d);
    let prev = remap_outputs(current, used0, d);
    assert(remap_outputs(current, used0, outs).0 == prev.0.push(remap_one(current, prev.1, outs.last()).0));
    if i == outs.len() - 1 {
        assert(d =~= outs.take(i));
    } else {
        lemma_remap_prefix(current, used0, d, i);
        assert(d.take(i) =~= outs.take(i));
        assert(d[i] == outs[i]);
    }
}

/// A display id that is not live is replaced by its sole candidate: the only
/// live id not taken by the outputs before it that shares its EDID hash, else
/// the only such id that shares its target id; with no sole candidate it stays.
pub proof fn lemma_remap_sole_candidate(desired: Seq<OutputConfig>, current: Seq<OutputConfig>, i: int)
    requires
        0 <= i < desired.len(),
        !has_id(current, desired[i].display_id),
    ensures
        spec_remap(desired, current)[i].display_id == (match replacement_id(current, ids_taken_before(desired, current, i), desired[i].display_id) {
            Some(n) => n,
            None => desired[i].display_id,
        }),
{
    assert(!all_live(desired, current));
    lemma_remap_prefix(current, live_ids(desired, current), desired, i);
}

/// The EDID hash is tried before the target id. A display id that is not live
/// takes the sole unused live id with its EDID hash, whatever the target-id
/// candidates are; only where the hash gives no sole candidate does it take the
/// sole unused live id with its target id; with neither it stays.
pub proof fn lemma_remap_hash_before_target(desired: Seq<OutputConfig>, current: Seq<OutputConfig>, i: int)
    requires
        0 <= i < desired.len(),
        !has_id(current, desired[i].display_id),
    ensures ({
        let id = desired[i].display_id;
        let used = ids_taken_before(desired, current, i);
        let by_hash = candidate_ids(current, used, id, true);
        let by_target = candidate_ids(current, used, id, false);
        let r = spec_remap(desired, current)[i].display_id;
        &&& by_hash.len() == 1 ==> r == by_hash[0]
        &&& by_hash.len() != 1 && by_target.len() == 1 ==> r == by_target[0]
        &&& by_hash.len() != 1 && by_target.len() != 1 ==> r == id
    }),
{
    lemma_remap_sole_candidate(desired, current, i);
}

/// What carrying a layout over to the live displays keeps and what it changes:
/// the outputs stay the same in number, order and every field but the id; an
/// output whose id is live keeps it; an id that changes is replaced by a live id
/// that shares its EDID hash or its target id; and no live id is given to an
/// output whose id changed if another output of the result carries it.
pub proof fn lemma_remap_laws(desired: Seq<OutputConfig>, current: Seq<OutputConfig>)
    ensures
        ({
            let r = spec_remap(desired, current);
            &&& r.len() == desired.len()
            &&& forall|i: int| 0 <= i < desired.len() ==> #[trigger] r[i] == with_id(desired[i], r[i].display_id)
            &&& forall|i: int| 0 <= i < desired.len() && has_id(current, desired[i].display_id) ==> #[trigger] r[i] == desired[i]
            &&& forall|i: int|
                0 <= i < desired.len() && #[trigger] r[i].display_id != desired[i].display_id ==> {
                    &&& has_id(current, r[i].display_id)
                    &&& matched_by(desired[i].display_id, r[i].display_id)
                }
            &&& forall|i: int, j: int|
                0 <= i < desired.len() && 0 <= j < desired.len() && i != j
                    && #[trigger] r[i].display_id != desired[i].display_id
                    && has_id(current, #[trigger] r[j].display_id) ==> r[i].display_id != r[j].display_id
        }),
{
    let r = spec_remap(desired, current);
    if all_live(desired, current) {
        assert forall|i: int| 0 <= i < desired.len() implies #[trigger] r[i] == with_id(desired[i], r[i].display_id) by {
            assert(with_id(desired[i], desired[i].display_id) == desired[i]);
        }
    } else {
        let used0 = live_ids(desired, current);
        lemma_live_ids(desired, current);
        lemma_remap_outputs(current, used0, desired);
        let rr = remap_outputs(current, used0, desired);
        assert forall|i: int, j: int|
            0 <= i < desired.len() && 0 <= j < desired.len() && i != j
                && #[trigger] r[i].display_id != desired[i].display_id
                && has_id(current, #[trigger] r[j].display_id) implies r[i].display_id != r[j].display_id by {
            if r[j].display_id == desired[j].display_id {
                assert(used0.contains(desired[j].display_id));
            } else if i < j {
                assert(rr.0[i].display_id != rr.0[j].display_id);
            } else {
                assert(rr.0[j].display_id != rr.0[i].display_id);
            }
        }
    }
}

/// A layout whose ids are all live is left as it is.
pub proof fn lemma_remap_all_live_is_identity(desired: Seq<OutputConfig>, current: Seq<OutputConfig>)
    requires
        all_live(desired, current),
    ensures
        spec_remap(desired, current) == desired,
{
}


/// The live id that a display id stands for: itself when it is live, else its
/// only live match by EDID hash, else its only live match by target id, else itself.
pub open spec fn spec_resolve(id: DisplayId, live: Seq<OutputConfig>) -> DisplayId {
    if has_id(live, id) {
        id
    } else {
        match replacement_id(live, Seq::empty(), id) {
            Some(n) => n,
            None => id,
        }
    }
}

/// Resolves a display id chosen in the user interface against the live layout.
pub fn resolve_display_id(display_id: &DisplayId, live: &Layout) -> (r: DisplayId)
    ensures
        r == spec_resolve(*display_id, live@),
{
    if contains_output_id(&live.outputs, display_id) {
        return *display_id;
    }
    let none: Vec<DisplayId> = Vec::new();
    match find_replacement(&live.outputs, &none, display_id) {
        Some(n) => n,
        None => *display_id,
    }
}

/// A resolved id is the id itself or a live id matched to it by EDID hash or target id.
pub proof fn lemma_resolve_is_live_match(id: DisplayId, live: Seq<OutputConfig>)
    ensures
        spec_resolve(id, live) == id || (has_id(live, spec_resolve(id, live)) && matched_by(
            id,
            spec_resolve(id, live),
        )),
        has_id(live, id) ==> spec_resolve(id, live) == id,
{
    lemma_replacement(live, Seq::empty(), id);
}

} // verus!
