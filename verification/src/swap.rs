//! The map-swap queue: requests coalesce latest-wins, the first map is
//! queued once at start-up, and a loaded request becomes the new ground truth.

use vstd::prelude::*;
use crate::dvm::MapAsset;
use crate::ground_truth::{GroundTruthMap, unpack};
use crate::registry::MapEntry;

verus! {

/// A request to swap the ground-truth map: the asset's handle and its name.
pub struct MapSwapRequested<H> {
    pub handle: H,
    pub name: String,
}

/// The latest swap request, waiting for its asset to finish loading.
pub struct PendingMapSwap<H> {
    pub handle: Option<H>,
    pub name: String,
}

impl<H> PendingMapSwap<H> {
    /// Nothing pending.
    pub fn new() -> (p: Self)
        ensures
            p.handle is None,
            p.name@ == Seq::<char>::empty(),
    {
        PendingMapSwap { handle: None, name: String::new() }
    }
}

/// Queue the latest of this frame's requests; earlier ones are dropped.
/// With no request the queue is left as it was.
pub fn enqueue_map_swap<H>(requests: Vec<MapSwapRequested<H>>, pending: &mut PendingMapSwap<H>)
    ensures
        requests@.len() == 0 ==> *final(pending) == *old(pending),
        requests@.len() > 0 ==> final(pending).handle == Some(requests@.last().handle)
            && final(pending).name == requests@.last().name,
{
    let mut requests = requests;
    match requests.pop() {
        Some(msg) => {
            pending.handle = Some(msg.handle);
            pending.name = msg.name;
        },
        None => {},
    }
}

/// First-frame bootstrap: when no ground truth exists yet, nothing is
/// pending, the registry has an entry and this has not run before, queue
/// the first entry and remember that it ran. Returns whether it queued.
pub fn bootstrap_initial_map<H>(
    first_entry: Option<MapEntry<H>>,
    has_ground_truth: bool,
    pending: &mut PendingMapSwap<H>,
    once: &mut bool,
) -> (queued: bool)
    ensures
        queued == (!*old(once) && !has_ground_truth && first_entry is Some && old(pending).handle is None),
        queued ==> final(pending).handle == Some(first_entry->Some_0.handle) && final(pending).name
            == first_entry->Some_0.name && *final(once),
        !queued ==> *final(pending) == *old(pending) && *final(once) == *old(once),
{
    if *once || has_ground_truth {
        return false;
    }
    let entry = match first_entry {
        Some(e) => e,
        None => {
            return false;
        },
    };
    if pending.handle.is_some() {
        return false;
    }
    pending.handle = Some(entry.handle);
    pending.name = entry.name;
    *once = true;
    true
}

/// Apply the pending swap once its asset has loaded. `loaded` is the asset
/// of the pending handle when it is in the asset store. With no handle
/// queued, or while the asset is still loading, nothing happens: the queue
/// stays as it is and the swap is tried again on a later frame. Otherwise
/// the queue is cleared and the ground truth the asset describes is
/// returned.
pub fn apply_pending_swap<H>(pending: &mut PendingMapSwap<H>, loaded: Option<&MapAsset>) -> (map:
    Option<GroundTruthMap>)
    requires
        loaded matches Some(a) ==> a.dims.x * a.dims.y <= u32::MAX && a.dims.cell_count()
            <= u32::MAX,
    ensures
        map is None <==> (old(pending).handle is None || loaded is None),
        map is None ==> *final(pending) == *old(pending),
        map matches Some(m) ==> {
            let a = loaded->Some_0;
            &&& m.wf()
            &&& m.grid() == a.dims
            &&& m@ == unpack(a.bitset@, a.dims.cell_count() as nat)
            &&& final(pending).handle is None
            &&& final(pending).name@ == Seq::<char>::empty()
        },
{
    if pending.handle.is_none() {
        return None;
    }
    let asset = match loaded {
        Some(a) => a,
        None => {
            return None;
        },
    };
    let map = GroundTruthMap::from_bitset(asset.dims, asset.bitset.as_slice());
    pending.handle = None;
    pending.name = String::new();
    Some(map)
}

} // verus!
