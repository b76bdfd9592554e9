use marketlab::sweep_schedule::{snapshot_source, SnapshotSource, SweepSchedule, SweepStart};

#[test]
fn sweeps_run_one_at_a_time_and_queue_requests() {
    let mut s = SweepSchedule::new();
    assert_eq!(s.request_sweep(0, 0, false), SweepStart::UpToDate);
    assert_eq!(s.request_sweep(1, 0, false), SweepStart::Start { reuse_compiled_engine: false });
    assert!(s.inflight);
    assert_eq!(s.request_sweep(2, 0, false), SweepStart::Queued);
    assert!(s.pending);
    let fin = s.finish_sweep(1, 0, 1);
    assert!(!fin.stale);
    assert!(fin.resweep);
    assert_eq!(s.last_compiled_generation, 1);
    assert!(!s.inflight && !s.pending);
    assert_eq!(s.request_sweep(1, 0, false), SweepStart::UpToDate);
    // Only the asset data changed: the compiled engine can be reused.
    assert_eq!(s.request_sweep(1, 7, false), SweepStart::Start { reuse_compiled_engine: true });
}

#[test]
fn stale_sweeps_are_dropped_and_rerun() {
    let mut s = SweepSchedule::new();
    assert_eq!(s.request_sweep(3, 0, false), SweepStart::Start { reuse_compiled_engine: false });
    let fin = s.finish_sweep(3, 0, 4);
    assert!(fin.stale && fin.resweep);
    assert_eq!(s.last_compiled_generation, 0);
    assert!(s.pending && !s.inflight);
}

#[test]
fn deferred_sweeps_and_workspace_changes() {
    let mut s = SweepSchedule::new();
    assert_eq!(s.request_sweep(5, 0, true), SweepStart::Queued);
    assert!(s.pending && !s.inflight);
    let mut t = SweepSchedule::new();
    assert!(!t.workspace_changed(true, true, true));
    assert!(!t.pending);
    assert!(!t.workspace_changed(false, true, true));
    assert!(t.pending);
    assert!(t.workspace_changed(false, false, true));
    assert!(!t.workspace_changed(false, false, false));
}

#[test]
fn snapshots_come_from_the_cheapest_source() {
    assert_eq!(snapshot_source(true, true, true), SnapshotSource::Cached);
    assert_eq!(snapshot_source(false, true, true), SnapshotSource::Direct);
    assert_eq!(snapshot_source(false, false, true), SnapshotSource::ComposedUsda);
    assert_eq!(snapshot_source(false, false, false), SnapshotSource::Stage);
}
