//! The state the display backend keeps between calls: the last topology
//! snapshot, the signature of the HDR state it saw last, and the SDR gamma
//! ramps worth restoring after a colour-state change. The queries that feed it
//! are made by the application.

use vstd::prelude::*;
use crate::color::{merge_sdr_gamma_cache, spec_merge_sdr};
use crate::display::DisplayKey;
use crate::topology::{TopologySnapshot, cache_merge, gdi_lookup, gdi_views, merge_snapshot_for_cache};

verus! {

pub struct BackendCache {
    pub last_snapshot: Option<TopologySnapshot>,
    pub last_color_state_signature: Option<String>,
    pub sdr_gamma_cache: Vec<(DisplayKey, [u16; 768])>,
}

/// What a fresh query of the topology brings into an empty cache.
pub struct InitialQuery {
    pub snapshot: TopologySnapshot,
    pub signature: String,
    pub sdr_ramps: Vec<(DisplayKey, [u16; 768])>,
}

/// The cache after `ensure_snapshot`: unchanged when it held a snapshot, else
/// holding the fresh query.
pub open spec fn ensured(before: BackendCache, after: BackendCache, fresh: InitialQuery) -> bool {
    if before.last_snapshot is Some {
        &&& after.last_snapshot == before.last_snapshot
        &&& after.last_color_state_signature == before.last_color_state_signature
        &&& after.sdr_gamma_cache@ == before.sdr_gamma_cache@
    } else {
        &&& after.last_snapshot == Some(fresh.snapshot)
        &&& after.last_color_state_signature == Some(fresh.signature)
        &&& after.sdr_gamma_cache@ == fresh.sdr_ramps@
    }
}

/// The signature compared against: the last one seen, or the empty text
/// before any was seen.
pub open spec fn known_signature(sig: Option<String>) -> Seq<char> {
    match sig {
        Some(s) => s@,
        None => Seq::empty(),
    }
}

/// The GDI name that the cached snapshot records for a display.
pub open spec fn cached_gdi_name(snapshot: Option<TopologySnapshot>, k: DisplayKey) -> Option<Seq<char>> {
    match snapshot {
        Some(s) => gdi_lookup(gdi_views(s.gdi_names@), k),
        None => None,
    }
}

impl BackendCache {
    /// A cache that knows nothing yet.
    pub fn new() -> (r: Self)
        ensures
            r.last_snapshot.is_none(),
            r.last_color_state_signature.is_none(),
            r.sdr_gamma_cache@.len() == 0,
    {
        BackendCache { last_snapshot: None, last_color_state_signature: None, sdr_gamma_cache: Vec::new() }
    }

    /// The first step of every read of the backend: with no snapshot cached
    /// (at the start, or after `invalidate_snapshot`) the topology is to be
    /// queried and handed to `ensure_snapshot` before anything is read.
    pub fn needs_query(&self) -> (r: bool)
        ensures
            r == self.last_snapshot.is_none(),
    {
        self.last_snapshot.is_none()
    }

    /// Takes in a fresh query when no snapshot is cached: its snapshot, its
    /// colour-state signature and the SDR ramps captured with it. A cache that
    /// holds a snapshot stays as it is.
    pub fn ensure_snapshot(&mut self, fresh: InitialQuery)
        ensures
            ensured(*old(self), *final(self), fresh),
    {
        if self.last_snapshot.is_some() {
            return;
        }
        self.last_snapshot = Some(fresh.snapshot);
        self.last_color_state_signature = Some(fresh.signature);
        self.sdr_gamma_cache = fresh.sdr_ramps;
    }

    /// Whether the HDR state changed since the last signature; when it did,
    /// fresh SDR ramps are to be captured and recorded.
    pub fn color_state_changed(&self, signature: &String) -> (r: bool)
        ensures
            r == (signature@ != known_signature(self.last_color_state_signature)),
    {
        match &self.last_color_state_signature {
            Some(old) => !(*old == *signature),
            None => {
                let empty = String::new();
                !(empty == *signature)
            },
        }
    }

    /// Records a changed colour state: its signature, and the SDR ramps merged
    /// from the remembered and the freshly captured ones.
    pub fn record_color_change(&mut self, signature: String, fresh_sdr: &Vec<(DisplayKey, [u16; 768])>)
        ensures
            final(self).last_color_state_signature == Some(signature),
            final(self).sdr_gamma_cache@ == spec_merge_sdr(old(self).sdr_gamma_cache@, fresh_sdr@),
            final(self).last_snapshot == old(self).last_snapshot,
    {
        let merged = merge_sdr_gamma_cache(&self.sdr_gamma_cache, fresh_sdr);
        self.sdr_gamma_cache = merged;
        self.last_color_state_signature = Some(signature);
    }

    /// Takes in a fresh snapshot (see `cache_merge`).
    pub fn refresh_snapshot(&mut self, next: TopologySnapshot)
        ensures
            final(self).last_snapshot matches Some(s) && cache_merge(old(self).last_snapshot, next, s),
            final(self).last_color_state_signature == old(self).last_color_state_signature,
            final(self).sdr_gamma_cache@ == old(self).sdr_gamma_cache@,
    {
        let merged = merge_snapshot_for_cache(self.last_snapshot.as_ref(), next);
        self.last_snapshot = Some(merged);
    }

    /// Forgets the snapshot, so that the next call queries the topology again.
    pub fn invalidate_snapshot(&mut self)
        ensures
            final(self).last_snapshot.is_none(),
            final(self).last_color_state_signature == old(self).last_color_state_signature,
            final(self).sdr_gamma_cache@ == old(self).sdr_gamma_cache@,
    {
        self.last_snapshot = None;
    }

    /// The GDI device name of a display in the cached snapshot. The backend
    /// reads it after `ensure_snapshot`, so after an invalidation it comes from
    /// the fresh query (see `lemma_invalidate_then_read`).
    pub fn get_gdi_name(&self, adapter_luid: u64, target_id: u32) -> (r: Option<String>)
        ensures
            match r {
                Some(s) => cached_gdi_name(self.last_snapshot, DisplayKey { adapter_luid, target_id }) == Some(s@),
                None => cached_gdi_name(self.last_snapshot, DisplayKey { adapter_luid, target_id }) is None,
            },
    {
        match &self.last_snapshot {
            Some(s) => s.get_gdi_name(adapter_luid, target_id),
            None => None,
        }
    }
}


/// Once a colour state has been recorded, the same signature no longer counts
/// as a change.
pub proof fn lemma_recorded_signature_unchanged(recorded: BackendCache, signature: String)
    requires
        recorded.last_color_state_signature == Some(signature),
    ensures
        signature@ == known_signature(recorded.last_color_state_signature),
{
}

/// After an invalidation the next read works from a fresh query: once the
/// fresh query is taken in, a display's GDI name is the one that query reports.
pub proof fn lemma_invalidate_then_read(invalidated: BackendCache, after: BackendCache, fresh: InitialQuery, k: DisplayKey)
    requires
        invalidated.last_snapshot.is_none(),
        ensured(invalidated, after, fresh),
    ensures
        cached_gdi_name(after.last_snapshot, k) == gdi_lookup(gdi_views(fresh.snapshot.gdi_names@), k),
{
}

/// A cache that holds a snapshot is read as it is: taking in a query changes nothing.
pub proof fn lemma_cached_read_stable(cached: BackendCache, after: BackendCache, fresh: InitialQuery, k: DisplayKey)
    requires
        cached.last_snapshot.is_some(),
        ensured(cached, after, fresh),
    ensures
        cached_gdi_name(after.last_snapshot, k) == cached_gdi_name(cached.last_snapshot, k),
{
}

} // verus!
