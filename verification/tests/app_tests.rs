use diskdoc::application::{App, AppMode};
use diskdoc::entities::{FileStats, FileType, Recommendation, SortOrder};
use diskdoc::ports::{Analyzer, AnalyzerError, Cleaner, DeletionError};

struct MockCleaner;

impl MockCleaner {
    fn new() -> Self {
        Self
    }
}

impl Cleaner for MockCleaner {
    fn delete_item(&self, _path: &str) -> Result<u64, DeletionError> {
        Ok(100)
    }
}

struct MockAnalyzer;

impl MockAnalyzer {
    fn new() -> Self {
        Self
    }
}

impl Analyzer for MockAnalyzer {
    fn analyze(&self) -> Result<Option<Recommendation>, AnalyzerError> {
        Ok(None)
    }

    fn prune(&self) -> Result<(), AnalyzerError> {
        Ok(())
    }
}

fn setup_app() -> App<MockCleaner, MockAnalyzer> {
    App::new("/test".to_string(), MockCleaner::new(), MockAnalyzer::new())
}

fn create_file_stat(name: &str, size: u64) -> FileStats {
    FileStats {
        path: name.to_string(),
        size,
        is_dir: false,
        modified: 0,
        children_count: None,
        file_type: FileType::Normal,
    }
}

#[test]
fn test_app_sorting() {
    let mut app = setup_app();

    app.ingest(create_file_stat("small", 100)).unwrap();
    app.ingest(create_file_stat("large", 1000)).unwrap();
    app.ingest(create_file_stat("medium", 500)).unwrap();

    // Default is Descending
    assert_eq!(app.sort_order, SortOrder::Desc);

    app.toggle_sort(); // Switch to Ascending
    assert_eq!(app.sort_order, SortOrder::Asc);

    // Verify Ascending order
    assert_eq!(app.files[0].size, 100);
    assert_eq!(app.files[1].size, 500);
    assert_eq!(app.files[2].size, 1000);

    app.toggle_sort(); // Becomes Desc
    assert_eq!(app.sort_order, SortOrder::Desc);

    // Verify Descending order
    assert_eq!(app.files[0].size, 1000);
    assert_eq!(app.files[1].size, 500);
    assert_eq!(app.files[2].size, 100);

    app.toggle_sort();
    assert_eq!(app.sort_order, SortOrder::Asc);
    assert_eq!(app.files[0].size, 100);
}

#[test]
fn test_delete_confirmation_flow() {
    let mut app = setup_app();
    app.ingest(create_file_stat("/test/file1", 100)).unwrap();
    app.mode = AppMode::Browsing;

    // Request delete
    app.request_delete();
    assert_eq!(app.mode, AppMode::DeleteConfirmation);
    assert_eq!(app.item_to_delete, Some("/test/file1".to_string()));

    // Cancel delete
    app.cancel_delete();
    assert_eq!(app.mode, AppMode::Browsing);
    assert_eq!(app.item_to_delete, None);

    // Request again
    app.request_delete();
    assert_eq!(app.mode, AppMode::DeleteConfirmation);
}
