//! When the workstation recompiles its graph engine and re-runs the timeline
//! sweep: the decisions taken between the background work, as a state
//! machine that the host drives with events and whose answers it carries out.

use vstd::prelude::*;

verus! {

/// Bookkeeping of the background recompile-and-sweep.
#[derive(Clone, Copy, Debug, PartialEq, Eq, Structural)]
pub struct SweepSchedule {
    /// Engine-cache generation of the last committed sweep.
    pub last_compiled_generation: u64,
    /// Asset-data epoch of the last committed sweep.
    pub last_swept_asset_epoch: u64,
    /// A sweep runs in the background.
    pub inflight: bool,
    /// A request came in that no sweep has served yet.
    pub pending: bool,
}

/// What a sweep request leads to.
#[derive(Clone, Copy, Debug, PartialEq, Eq, Structural)]
pub enum SweepStart {
    /// Results for this generation and asset epoch are already in place.
    UpToDate,
    /// A sweep is running or sweeps are deferred: remembered for later.
    Queued,
    /// Start a sweep now; the engine compiled for the last committed
    /// generation may be reused when the stage has not changed since.
    Start { reuse_compiled_engine: bool },
}

/// Where the sweep takes its stage snapshot from.
#[derive(Clone, Copy, Debug, PartialEq, Eq, Structural)]
pub enum SnapshotSource {
    /// The snapshot cached for the current pipeline revision.
    Cached,
    /// A snapshot built straight from the canvas topology.
    Direct,
    /// A snapshot read from USDA text composed for the canvas.
    ComposedUsda,
    /// A walk of the stage itself.
    Stage,
}

/// What a finished sweep leads to.
#[derive(Clone, Copy, Debug, PartialEq, Eq, Structural)]
pub struct SweepFinish {
    /// The stage changed while the sweep ran: its results are dropped.
    pub stale: bool,
    /// Run another sweep request right away.
    pub resweep: bool,
}

/// The state after a sweep request for `generation` and `asset_epoch`, with
/// the answer.
pub open spec fn spec_request(s: SweepSchedule, generation: u64, asset_epoch: u64, deferred: bool) -> (
    SweepSchedule,
    SweepStart,
) {
    if generation == s.last_compiled_generation && asset_epoch == s.last_swept_asset_epoch {
        (s, SweepStart::UpToDate)
    } else if s.inflight || deferred {
        (SweepSchedule { pending: true, ..s }, SweepStart::Queued)
    } else {
        (
            SweepSchedule { inflight: true, ..s },
            SweepStart::Start { reuse_compiled_engine: generation == s.last_compiled_generation },
        )
    }
}

/// The state after the sweep started for `target_generation` and
/// `target_asset_epoch` finished while the stage is at `current_generation`.
pub open spec fn spec_finish(
    s: SweepSchedule,
    target_generation: u64,
    target_asset_epoch: u64,
    current_generation: u64,
) -> (SweepSchedule, SweepFinish) {
    if target_generation != current_generation {
        (SweepSchedule { inflight: false, pending: true, ..s }, SweepFinish { stale: true, resweep: true })
    } else {
        (
            SweepSchedule {
                last_compiled_generation: target_generation,
                last_swept_asset_epoch: target_asset_epoch,
                inflight: false,
                pending: false,
            },
            SweepFinish { stale: false, resweep: s.pending },
        )
    }
}

impl SweepSchedule {
    /// Nothing swept yet: generation and epoch 0 count as swept.
    pub fn new() -> (r: Self)
        ensures
            r == (SweepSchedule {
                last_compiled_generation: 0,
                last_swept_asset_epoch: 0,
                inflight: false,
                pending: false,
            }),
    {
        SweepSchedule { last_compiled_generation: 0, last_swept_asset_epoch: 0, inflight: false, pending: false }
    }

    /// A sweep is asked for with the stage at `generation` and the asset
    /// data at `asset_epoch`; `deferred` while the host holds sweeps back.
    pub fn request_sweep(&mut self, generation: u64, asset_epoch: u64, deferred: bool) -> (r: SweepStart)
        ensures
            (*final(self), r) == spec_request(*old(self), generation, asset_epoch, deferred),
    {
        if generation == self.last_compiled_generation && asset_epoch == self.last_swept_asset_epoch {
            return SweepStart::UpToDate;
        }
        if self.inflight || deferred {
            self.pending = true;
            return SweepStart::Queued;
        }
        self.inflight = true;
        SweepStart::Start { reuse_compiled_engine: generation == self.last_compiled_generation }
    }

    /// The sweep started for `target_generation` and `target_asset_epoch`
    /// has finished; the stage is now at `current_generation`. A sweep that
    /// is not stale is committed (its results applied, or its error
    /// reported) and a request that came in meanwhile is run.
    pub fn finish_sweep(&mut self, target_generation: u64, target_asset_epoch: u64, current_generation: u64) -> (r:
        SweepFinish)
        ensures
            (*final(self), r) == spec_finish(*old(self), target_generation, target_asset_epoch, current_generation),
    {
        self.inflight = false;
        if target_generation != current_generation {
            self.pending = true;
            return SweepFinish { stale: true, resweep: true };
        }
        self.last_compiled_generation = target_generation;
        self.last_swept_asset_epoch = target_asset_epoch;
        let resweep = self.pending;
        self.pending = false;
        SweepFinish { stale: false, resweep }
    }

    /// The workspace changed; `true` when a sweep should be asked for.
    /// Nothing happens while the host bootstraps; while sweeps are deferred
    /// the change is remembered.
    pub fn workspace_changed(&mut self, bootstrapping: bool, deferred: bool, engine_cache_dirty: bool) -> (r: bool)
        ensures
            r == (!bootstrapping && !deferred && engine_cache_dirty),
            *final(self) == (if !bootstrapping && deferred {
                SweepSchedule { pending: true, ..*old(self) }
            } else {
                *old(self)
            }),
    {
        if bootstrapping {
            return false;
        }
        if deferred {
            self.pending = true;
            return false;
        }
        engine_cache_dirty
    }
}

/// The snapshot a sweep reads: a cached one first, then one built from the
/// canvas, then one read from composed USDA, else a walk of the stage.
pub fn snapshot_source(has_cached: bool, has_direct: bool, has_composed_usda: bool) -> (r: SnapshotSource)
    ensures
        r == (if has_cached {
            SnapshotSource::Cached
        } else if has_direct {
            SnapshotSource::Direct
        } else if has_composed_usda {
            SnapshotSource::ComposedUsda
        } else {
            SnapshotSource::Stage
        }),
{
    if has_cached {
        SnapshotSource::Cached
    } else if has_direct {
        SnapshotSource::Direct
    } else if has_composed_usda {
        SnapshotSource::ComposedUsda
    } else {
        SnapshotSource::Stage
    }
}

/// At most one sweep runs: a request made while one is in flight is queued,
/// and a request queued during a sweep that finishes up to date is run
/// right after it (no request is lost).
pub proof fn lemma_one_sweep_at_a_time_and_none_lost(
    s: SweepSchedule,
    generation: u64,
    asset_epoch: u64,
    deferred: bool,
    target_generation: u64,
    target_asset_epoch: u64,
)
    requires
        s.inflight,
    ensures
        spec_request(s, generation, asset_epoch, deferred).1 !is Start,
        ({
            let (queued, answer) = spec_request(s, generation, asset_epoch, deferred);
            answer is Queued ==> spec_finish(queued, target_generation, target_asset_epoch, target_generation).1.resweep
        }),
{
}

/// A committed sweep records the generation and epoch it ran for, so asking
/// again for them is answered up to date; a stale one always sweeps again.
pub proof fn lemma_committed_sweep_is_up_to_date(
    s: SweepSchedule,
    target_generation: u64,
    target_asset_epoch: u64,
    current_generation: u64,
    deferred: bool,
)
    ensures
        ({
            let (after, fin) = spec_finish(s, target_generation, target_asset_epoch, current_generation);
            &&& !fin.stale ==> spec_request(after, target_generation, target_asset_epoch, deferred).1 == SweepStart::UpToDate
            &&& fin.stale ==> fin.resweep && after.pending
        }),
{
}

} // verus!
