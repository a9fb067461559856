use diskdoc::application::App;
use diskdoc::entities::{FileStats, FileType, Recommendation};
use diskdoc::ports::{Analyzer, AnalyzerError, Cleaner, DeletionError};

struct MockCleaner;

impl MockCleaner {
    fn new() -> Self {
        Self
    }
}

impl Cleaner for MockCleaner {
    fn delete_item(&self, _path: &str) -> Result<u64, DeletionError> {
        Ok(100)
    }
}

struct MockAnalyzer;

impl MockAnalyzer {
    fn new() -> Self {
        Self
    }
}

impl Analyzer for MockAnalyzer {
    fn analyze(&self) -> Result<Option<Recommendation>, AnalyzerError> {
        Ok(None)
    }

    fn prune(&self) -> Result<(), AnalyzerError> {
        Ok(())
    }
}

fn create_entry(path: &str, is_dir: bool) -> FileStats {
    FileStats {
        path: path.to_string(),
        size: 100,
        is_dir,
        modified: 0,
        children_count: None,
        file_type: FileType::Normal,
    }
}

#[test]
fn test_navigation() {
    let mut app = App::new(
        "/root".to_string(),
        MockCleaner::new(),
        MockAnalyzer::new(),
    );

    // Setup file structure:
    // /root/file1
    // /root/dir1
    // /root/dir1/file2

    app.ingest(create_entry("/root/file1", false)).unwrap();
    app.ingest(create_entry("/root/dir1", true)).unwrap();
    app.ingest(create_entry("/root/dir1/file2", false)).unwrap();

    // Initial view should show file1 and dir1
    let current = app.get_current_files();
    assert_eq!(current.len(), 2);

    // Select dir1 by finding its index in the current view.
    let dir_index = current.iter().position(|f| f.is_dir).unwrap();
    app.selection = dir_index;

    // Enter directory
    app.enter_dir();
    assert_eq!(app.current_path, "/root/dir1");
    assert_eq!(app.selection, 0);

    // View should now show file2
    let current = app.get_current_files();
    assert_eq!(current.len(), 1);
    assert_eq!(current[0].path, "/root/dir1/file2");

    // Go up
    app.go_up();
    assert_eq!(app.current_path, "/root");
    assert_eq!(app.selection, 0); // Logic resets to 0
}
