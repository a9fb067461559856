use diskdoc::application::{App, AppMode};
use diskdoc::entities::{FileStats, FileType, Recommendation, RecommendationCategory, SortOrder, StoreError};
use diskdoc::ports::{Analyzer, AnalyzerError, Cleaner, DeletionError, ScanEvent};

struct MockCleaner;

impl Cleaner for MockCleaner {
    fn delete_item(&self, _path: &str) -> Result<u64, DeletionError> {
        Ok(100)
    }
}

struct FailingCleaner;

impl Cleaner for FailingCleaner {
    fn delete_item(&self, _path: &str) -> Result<u64, DeletionError> {
        Err(DeletionError {
            message: "permission denied".to_string(),
        })
    }
}

struct MockAnalyzer;

impl Analyzer for MockAnalyzer {
    fn analyze(&self) -> Result<Option<Recommendation>, AnalyzerError> {
        Ok(None)
    }

    fn prune(&self) -> Result<(), AnalyzerError> {
        Ok(())
    }
}

fn entry(path: &str, size: u64, file_type: FileType) -> FileStats {
    FileStats {
        path: path.to_string(),
        size,
        is_dir: false,
        modified: 0,
        children_count: None,
        file_type,
    }
}

fn app_at(root: &str) -> App<MockCleaner, MockAnalyzer> {
    App::new(root.to_string(), MockCleaner, MockAnalyzer)
}

#[test]
fn test_total_size_tracks_ingest_and_remove() {
    let mut app = app_at("/d");
    assert_eq!(app.total_size, 0);
    app.ingest(entry("/d/a", 10, FileType::Normal)).unwrap();
    assert_eq!(app.total_size, 10);
    assert_eq!(app.scanned_count, 1);
    app.ingest(entry("/d/b", 32, FileType::Normal)).unwrap();
    assert_eq!(app.total_size, 42);
    assert_eq!(app.scanned_count, 2);
    let freed = app.remove("/d/a").unwrap();
    assert_eq!(freed, 10);
    assert_eq!(app.total_size, 32);
    // the scanned counter reflects what was ever discovered
    assert_eq!(app.scanned_count, 2);
    app.ingest(entry("/d/c", 8, FileType::Normal)).unwrap();
    assert_eq!(app.total_size, 40);
}

#[test]
fn test_ingest_rejects_duplicate_path() {
    let mut app = app_at("/d");
    app.ingest(entry("/d/a", 10, FileType::Normal)).unwrap();
    let r = app.ingest(entry("/d/a", 99, FileType::Log));
    assert_eq!(r, Err(StoreError::DuplicatePath));
    // the first entry is kept and nothing is double counted
    assert_eq!(app.total_size, 10);
    assert_eq!(app.files.len(), 1);
    assert_eq!(app.files[0].size, 10);
}

#[test]
fn test_ingest_rejects_total_overflow() {
    let mut app = app_at("/d");
    app.ingest(entry("/d/a", u64::MAX - 5, FileType::Normal))
        .unwrap();
    let r = app.ingest(entry("/d/b", 6, FileType::Normal));
    assert_eq!(r, Err(StoreError::CounterOverflow));
    assert_eq!(app.total_size, u64::MAX - 5);
    assert_eq!(app.files.len(), 1);
}

#[test]
fn test_remove_missing_path_is_not_found() {
    let mut app = app_at("/d");
    app.ingest(entry("/d/a", 10, FileType::Normal)).unwrap();
    assert_eq!(app.remove("/d/zzz"), Err(StoreError::NotFound));
    assert_eq!(app.total_size, 10);
}

#[test]
fn test_toggle_sort_round_trip() {
    let mut app = app_at("/d");
    app.ingest(entry("/d/a", 1000, FileType::Normal)).unwrap();
    app.ingest(entry("/d/b", 500, FileType::Normal)).unwrap();
    app.ingest(entry("/d/c", 100, FileType::Normal)).unwrap();
    app.sort_files();
    let before: Vec<String> = app.files.iter().map(|f| f.path.clone()).collect();

    app.toggle_sort();
    // a single toggle from descending to ascending
    let sizes: Vec<u64> = app.files.iter().map(|f| f.size).collect();
    assert_eq!(sizes, vec![100, 500, 1000]);

    app.toggle_sort();
    let after: Vec<String> = app.files.iter().map(|f| f.path.clone()).collect();
    assert_eq!(before, after);
}

#[test]
fn test_sort_ties_broken_by_path() {
    let mut app = app_at("/d");
    app.ingest(entry("/d/b", 100, FileType::Normal)).unwrap();
    app.ingest(entry("/d/a", 100, FileType::Normal)).unwrap();
    app.ingest(entry("/d/c", 100, FileType::Normal)).unwrap();
    app.sort_files();
    let paths: Vec<String> = app.files.iter().map(|f| f.path.clone()).collect();
    assert_eq!(paths, vec!["/d/a", "/d/b", "/d/c"]);
}

#[test]
fn test_children_independent_of_insertion_order() {
    let mut one = app_at("/r");
    one.ingest(entry("/r/x", 1, FileType::Normal)).unwrap();
    one.ingest(entry("/r/sub/y", 2, FileType::Normal)).unwrap();
    one.ingest(entry("/r/z", 3, FileType::Normal)).unwrap();

    let mut two = app_at("/r");
    two.ingest(entry("/r/z", 3, FileType::Normal)).unwrap();
    two.ingest(entry("/r/x", 1, FileType::Normal)).unwrap();
    two.ingest(entry("/r/sub/y", 2, FileType::Normal)).unwrap();

    let mut a: Vec<String> = one.get_current_files().iter().map(|f| f.path.clone()).collect();
    let mut b: Vec<String> = two.get_current_files().iter().map(|f| f.path.clone()).collect();
    a.sort();
    b.sort();
    assert_eq!(a, vec!["/r/x", "/r/z"]);
    assert_eq!(a, b);
}

#[test]
fn test_delete_removes_from_view_and_total() {
    let mut app = app_at("/d");
    app.ingest(entry("/d/a", 500, FileType::Normal)).unwrap();
    app.ingest(entry("/d/b", 200, FileType::Normal)).unwrap();
    app.mode = AppMode::Browsing;
    app.selection = 0;
    app.sort_files(); // descending: /d/a first

    app.request_delete();
    assert_eq!(app.item_to_delete, Some("/d/a".to_string()));
    let freed = app.confirm_delete().unwrap();
    // the collaborator reported 100 freed, while the store drops the
    // recorded size
    assert_eq!(freed, 100);
    assert_eq!(app.total_size, 200);
    let view = app.get_current_files();
    assert_eq!(view.len(), 1);
    assert!(view.iter().all(|f| f.path != "/d/a"));
    assert_eq!(app.mode, AppMode::Browsing);
}

#[test]
fn test_failed_delete_leaves_store_untouched() {
    let mut app = App::new("/d".to_string(), FailingCleaner, MockAnalyzer);
    app.ingest(entry("/d/a", 500, FileType::Normal)).unwrap();
    app.mode = AppMode::Browsing;
    app.request_delete();
    let r = app.confirm_delete();
    assert!(r.is_err());
    assert_eq!(r.unwrap_err().message, "permission denied");
    assert_eq!(app.total_size, 500);
    assert_eq!(app.files.len(), 1);
    assert_eq!(app.mode, AppMode::Browsing);
    assert_eq!(app.item_to_delete, None);
}

#[test]
fn test_request_then_cancel_changes_nothing() {
    let mut app = app_at("/d");
    app.ingest(entry("/d/a", 500, FileType::Normal)).unwrap();
    app.ingest(entry("/d/b", 200, FileType::Normal)).unwrap();
    app.mode = AppMode::Browsing;
    app.selection = 1;

    let total_before = app.total_size;
    let count_before = app.files.len();
    let selection_before = app.selection;

    app.request_delete();
    app.cancel_delete();

    assert_eq!(app.total_size, total_before);
    assert_eq!(app.files.len(), count_before);
    assert_eq!(app.selection, selection_before);
    assert_eq!(app.item_to_delete, None);
    assert_eq!(app.mode, AppMode::Browsing);
}

#[test]
fn test_selection_clamped_after_shrinking_view() {
    let mut app = app_at("/d");
    app.ingest(entry("/d/a", 300, FileType::Normal)).unwrap();
    app.ingest(entry("/d/b", 200, FileType::Normal)).unwrap();
    app.ingest(entry("/d/c", 100, FileType::Normal)).unwrap();
    app.mode = AppMode::Browsing;
    app.sort_files();
    app.selection = 2; // last entry, /d/c

    app.request_delete();
    app.confirm_delete().unwrap();
    // the view shrank below the old selection: clamp to the last one
    assert_eq!(app.get_current_files().len(), 2);
    assert_eq!(app.selection, 1);
}

#[test]
fn test_selection_zero_when_view_empties() {
    let mut app = app_at("/d");
    app.ingest(entry("/d/only", 300, FileType::Normal)).unwrap();
    app.mode = AppMode::Browsing;
    app.selection = 0;
    app.request_delete();
    app.confirm_delete().unwrap();
    assert_eq!(app.get_current_files().len(), 0);
    assert_eq!(app.selection, 0);
}

#[test]
fn test_log_cleanup_removes_category_and_recommendation() {
    let mut app = app_at("/d");
    app.ingest(entry("/d/app.log", 1000, FileType::Log)).unwrap();
    app.ingest(entry("/d/err.log", 2000, FileType::Log)).unwrap();
    app.ingest(entry("/d/keep.txt", 100, FileType::Normal)).unwrap();
    app.scan_dashboard();
    assert_eq!(app.recommendations[0].category, RecommendationCategory::Log);
    app.mode = AppMode::Dashboard;
    app.recommendation_selection = 0;

    app.request_clean_recommendation();
    let report = app.confirm_clean_recommendation();

    assert_eq!(report.freed, 3000);
    assert!(report.failures.is_empty());
    assert!(app.files.iter().all(|f| f.file_type != FileType::Log));
    assert_eq!(app.files.len(), 1);
    assert_eq!(app.total_size, 100);
    assert!(app
        .recommendations
        .iter()
        .all(|r| r.category != RecommendationCategory::Log));
    assert_eq!(app.mode, AppMode::Dashboard);
}

#[test]
fn test_category_cleanup_collects_failures() {
    let mut app = App::new("/d".to_string(), FailingCleaner, MockAnalyzer);
    app.ingest(entry("/d/app.log", 1000, FileType::Log)).unwrap();
    app.scan_dashboard();
    app.mode = AppMode::Dashboard;
    app.recommendation_selection = 0;
    app.request_clean_recommendation();
    let report = app.confirm_clean_recommendation();

    // the failing item stays visible, is reported, and frees nothing
    assert_eq!(report.freed, 0);
    assert_eq!(report.failures, vec!["/d/app.log".to_string()]);
    assert_eq!(app.files.len(), 1);
    assert_eq!(app.total_size, 1000);
}

#[test]
fn test_scan_events_drive_store_and_mode() {
    let mut app = app_at("/d");
    assert!(app.is_scanning);
    app.apply_scan_event(ScanEvent::NewEntry(entry("/d/a", 7, FileType::Normal)))
        .unwrap();
    app.apply_scan_event(ScanEvent::Progress {
        total_size: 0,
        files_scanned: 0,
    })
    .unwrap();
    app.apply_scan_event(ScanEvent::Error("unreadable".to_string()))
        .unwrap();
    assert_eq!(app.total_size, 7);
    assert_eq!(app.scanned_count, 1);
    assert!(app.is_scanning);
    app.apply_scan_event(ScanEvent::Complete).unwrap();
    assert!(!app.is_scanning);
    assert_eq!(app.mode, AppMode::Browsing);
}

#[test]
fn test_rebuild_recommendations_is_idempotent() {
    let mut app = app_at("/d");
    app.ingest(entry("/d/app.log", 1000, FileType::Log)).unwrap();
    app.ingest(entry("/d/cache.bin", 500, FileType::Cache)).unwrap();
    app.scan_dashboard();
    let first: Vec<(RecommendationCategory, String, u64)> = app
        .recommendations
        .iter()
        .map(|r| (r.category, r.description.clone(), r.size))
        .collect();
    app.scan_dashboard();
    let second: Vec<(RecommendationCategory, String, u64)> = app
        .recommendations
        .iter()
        .map(|r| (r.category, r.description.clone(), r.size))
        .collect();
    assert_eq!(first, second);
}

#[test]
fn test_docker_fallback_recommendation() {
    let mut app = app_at("/d");
    app.ingest(entry("/var/lib/docker/overlay2/x", 4096, FileType::Docker))
        .unwrap();
    app.scan_dashboard();
    assert_eq!(app.recommendations.len(), 1);
    let rec = &app.recommendations[0];
    assert_eq!(rec.category, RecommendationCategory::Docker);
    assert_eq!(rec.size, 4096);
    assert!(rec.description.contains("CLI not available"));
    assert!(rec.action_command.is_none());
}

#[test]
fn test_set_sort_order() {
    let mut app = app_at("/d");
    app.ingest(entry("/d/a", 100, FileType::Normal)).unwrap();
    app.ingest(entry("/d/b", 900, FileType::Normal)).unwrap();
    app.set_sort_order(SortOrder::Asc);
    assert_eq!(app.sort_order, SortOrder::Asc);
    assert_eq!(app.files[0].size, 100);
    app.set_sort_order(SortOrder::Desc);
    assert_eq!(app.files[0].size, 900);
}

#[test]
fn test_view_follows_sort_order() {
    let mut app = app_at("/d");
    app.ingest(entry("/d/a", 100, FileType::Normal)).unwrap();
    app.ingest(entry("/d/sub/x", 5000, FileType::Normal)).unwrap();
    app.ingest(entry("/d/b", 900, FileType::Normal)).unwrap();
    app.ingest(entry("/d/c", 400, FileType::Normal)).unwrap();
    app.set_sort_order(SortOrder::Desc);
    let sizes: Vec<u64> = app.get_current_files().iter().map(|f| f.size).collect();
    assert_eq!(sizes, vec![900, 400, 100]);
}

#[test]
fn test_apply_scan_event_rejects_duplicate() {
    let mut app = app_at("/d");
    app.apply_scan_event(ScanEvent::NewEntry(entry("/d/a", 7, FileType::Normal)))
        .unwrap();
    let r = app.apply_scan_event(ScanEvent::NewEntry(entry("/d/a", 9, FileType::Log)));
    assert_eq!(r, Err(StoreError::DuplicatePath));
    // the first entry stays, nothing is double counted
    assert_eq!(app.total_size, 7);
    assert_eq!(app.scanned_count, 1);
    assert_eq!(app.files.len(), 1);
}

#[test]
fn test_batch_settles_sorted_after_completion() {
    let mut app = app_at("/d");
    let events = vec![
        ScanEvent::NewEntry(entry("/d/a", 100, FileType::Normal)),
        ScanEvent::NewEntry(entry("/d/b", 900, FileType::Normal)),
        ScanEvent::Progress {
            total_size: 0,
            files_scanned: 0,
        },
        ScanEvent::NewEntry(entry("/d/c", 400, FileType::Normal)),
        ScanEvent::Complete,
    ];
    let mut needs_sort = false;
    for event in events {
        if diskdoc::application::event_triggers_sort(&event) {
            needs_sort = true;
        }
        app.apply_scan_event(event).unwrap();
    }
    app.settle_after_batch(needs_sort);
    // scanning ended, so the batch settles into descending order
    let sizes: Vec<u64> = app.files.iter().map(|f| f.size).collect();
    assert_eq!(sizes, vec![900, 400, 100]);
    assert_eq!(app.total_size, 1400);
    assert_eq!(app.scanned_count, 3);
}

#[test]
fn test_batch_defers_sorting_while_scanning() {
    let mut app = app_at("/d");
    app.apply_scan_event(ScanEvent::NewEntry(entry("/d/a", 100, FileType::Normal)))
        .unwrap();
    app.apply_scan_event(ScanEvent::NewEntry(entry("/d/b", 900, FileType::Normal)))
        .unwrap();
    app.settle_after_batch(true);
    // still scanning: the store keeps arrival order
    let sizes: Vec<u64> = app.files.iter().map(|f| f.size).collect();
    assert_eq!(sizes, vec![100, 900]);
}
