use migration_profile::dirty_log_worker::{
    dirty_page_count, DirtyLogWorker, DirtyLogWorkerSharedState, WorkerAction, WorkerEvent,
};
use migration_profile::error::MigratableError;
use migration_profile::memory_range_table::{MemoryRange, MemoryRangeTable};

fn table(ranges: &[(u64, u64)]) -> MemoryRangeTable {
    let mut t = MemoryRangeTable::default();
    for &(gpa, length) in ranges {
        t.push(MemoryRange { gpa, length });
    }
    t
}

#[test]
fn dirty_rate_capacity_and_average() {
    assert_eq!(DirtyLogWorkerSharedState::dirty_rate_vec_capacity(), 31);
    let mut s = DirtyLogWorkerSharedState::new();
    assert_eq!(s.average_dirty_rate_pps(), 0);
    s.update_dirty_rate(10);
    s.update_dirty_rate(11);
    // (10 + 11) / 2 rounded up
    assert_eq!(s.average_dirty_rate_pps(), 11);
    for _ in 0..40 {
        s.update_dirty_rate(4);
    }
    assert_eq!(s.average_dirty_rate_pps(), 4);
}

#[test]
fn old_rates_drop_out() {
    let mut s = DirtyLogWorkerSharedState::new();
    s.update_dirty_rate(1000);
    for _ in 0..30 {
        s.update_dirty_rate(0);
    }
    // 1000 / 31 rounded up: the oldest sample is still in the window
    assert_eq!(s.average_dirty_rate_pps(), 33);
    s.update_dirty_rate(0);
    assert_eq!(s.average_dirty_rate_pps(), 0);
}

#[test]
fn updates_merge_and_get_takes_table() {
    let mut s = DirtyLogWorkerSharedState::new();
    s.calc_metrics_and_update_table(table(&[(0, 0x1000), (0x3000, 0x1000)]), 2);
    s.calc_metrics_and_update_table(table(&[(0x1000, 0x1000)]), 4);
    let (t, rate) = s.get();
    let got: Vec<(u64, u64)> = t.regions().iter().map(|r| (r.gpa, r.length)).collect();
    assert_eq!(got, vec![(0, 0x2000), (0x3000, 0x1000)]);
    assert_eq!(rate, 3);
    let (t2, _) = s.get();
    assert!(t2.is_empty());
}

#[test]
fn stop_flag() {
    let mut s = DirtyLogWorkerSharedState::new();
    assert!(!s.stop_requested());
    s.request_stop();
    assert!(s.stop_requested());
}

#[test]
fn page_count() {
    assert_eq!(dirty_page_count(&table(&[(0, 0x1000), (0x5000, 0x2800)])), 3);
}

#[test]
fn worker_loop_decisions() {
    let (mut w, first) = DirtyLogWorker::new();
    assert_eq!(first, WorkerAction::FetchAndUpdate);
    assert_eq!(w.on_event(WorkerEvent::Updated), WorkerAction::Wait);
    assert_eq!(w.on_event(WorkerEvent::WokeUp { stop: false }), WorkerAction::FetchAndUpdate);
    assert_eq!(w.on_event(WorkerEvent::Updated), WorkerAction::Wait);
    assert_eq!(w.on_event(WorkerEvent::WokeUp { stop: true }), WorkerAction::FetchAndUpdate);
    assert_eq!(w.on_event(WorkerEvent::Updated), WorkerAction::Exit(Ok(())));

    let (mut w, _) = DirtyLogWorker::new();
    let err = MigratableError::DirtyLog("no log".to_string());
    assert_eq!(w.on_event(WorkerEvent::FetchFailed(err.clone())), WorkerAction::Exit(Err(err)));
}

#[test]
fn get_twice_gives_empty_table_and_same_rate() {
    let mut s = DirtyLogWorkerSharedState::new();
    s.calc_metrics_and_update_table(table(&[(0x1000, 0x2000)]), 7);
    s.calc_metrics_and_update_table(table(&[(0x3000, 0x1000)]), 8);
    let (t1, r1) = s.get();
    let (t2, r2) = s.get();
    assert_eq!(t1.regions(), &[MemoryRange { gpa: 0x1000, length: 0x3000 }]);
    assert!(t2.is_empty());
    assert_eq!(r1, 8);
    assert_eq!(r2, r1);
}

#[test]
fn worker_exits_after_one_fetch_following_stop() {
    let (mut w, a) = DirtyLogWorker::new();
    assert_eq!(a, WorkerAction::FetchAndUpdate);
    assert_eq!(w.on_event(WorkerEvent::Updated), WorkerAction::Wait);
    assert_eq!(w.on_event(WorkerEvent::WokeUp { stop: false }), WorkerAction::FetchAndUpdate);
    assert_eq!(w.on_event(WorkerEvent::Updated), WorkerAction::Wait);
    assert_eq!(w.on_event(WorkerEvent::WokeUp { stop: true }), WorkerAction::FetchAndUpdate);
    assert_eq!(w.on_event(WorkerEvent::Updated), WorkerAction::Exit(Ok(())));
}

#[test]
fn worker_exits_at_once_on_failed_fetch_after_stop() {
    let (mut w, _) = DirtyLogWorker::new();
    assert_eq!(w.on_event(WorkerEvent::Updated), WorkerAction::Wait);
    assert_eq!(w.on_event(WorkerEvent::WokeUp { stop: true }), WorkerAction::FetchAndUpdate);
    let err = MigratableError::DirtyLog("gone".to_string());
    assert_eq!(w.on_event(WorkerEvent::FetchFailed(err.clone())), WorkerAction::Exit(Err(err)));
}
