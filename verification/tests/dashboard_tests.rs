use diskdoc::application::{App, AppMode};
use diskdoc::entities::{FileStats, FileType, Recommendation, RecommendationCategory};
use diskdoc::ports::{Analyzer, AnalyzerError, Cleaner, DeletionError};

struct MockCleaner;

impl MockCleaner {
    fn new() -> Self {
        Self
    }
}

impl Cleaner for MockCleaner {
    fn delete_item(&self, _path: &str) -> Result<u64, DeletionError> {
        Ok(100)
    }
}

struct MockAnalyzer;

impl MockAnalyzer {
    fn new() -> Self {
        Self
    }
}

impl Analyzer for MockAnalyzer {
    fn analyze(&self) -> Result<Option<Recommendation>, AnalyzerError> {
        Ok(None)
    }

    fn prune(&self) -> Result<(), AnalyzerError> {
        Ok(())
    }
}

fn create_file_stat(name: &str, size: u64, file_type: FileType) -> FileStats {
    FileStats {
        path: name.to_string(),
        size,
        is_dir: false,
        modified: 0,
        children_count: None,
        file_type,
    }
}

#[test]
fn test_dashboard_aggregation() {
    let mut app = App::new(
        "/test".to_string(),
        MockCleaner::new(),
        MockAnalyzer::new(),
    );

    // Add some files
    app.ingest(create_file_stat("app.log", 1000, FileType::Log))
        .unwrap();
    app.ingest(create_file_stat("error.log", 2000, FileType::Log))
        .unwrap();
    app.ingest(create_file_stat("cache.bin", 500, FileType::Cache))
        .unwrap();
    app.ingest(create_file_stat("normal.txt", 100, FileType::Normal))
        .unwrap();

    // Scan dashboard
    app.scan_dashboard();

    // Check Logs
    let log_rec = app
        .recommendations
        .iter()
        .find(|r| r.category == RecommendationCategory::Log)
        .unwrap();
    assert_eq!(log_rec.size, 3000);
    assert!(log_rec.description.contains("2 files"));

    // Check Cache
    let cache_rec = app
        .recommendations
        .iter()
        .find(|r| r.category == RecommendationCategory::Cache)
        .unwrap();
    assert_eq!(cache_rec.size, 500);
}

#[test]
fn test_dashboard_cleanup_flow() {
    let mut app = App::new(
        "/test".to_string(),
        MockCleaner::new(),
        MockAnalyzer::new(),
    );
    // Mock recommendations
    app.recommendations.push(Recommendation {
        category: RecommendationCategory::Log,
        description: "Logs".to_string(),
        size: 100,
        path: None,
        action_command: None,
    });

    app.mode = AppMode::Dashboard;

    // Select first one
    app.recommendation_selection = 0;

    // Request clean
    app.request_clean_recommendation();
    assert_eq!(app.mode, AppMode::DashboardCleanupConfirmation);

    // Cancel
    app.cancel_clean();
    assert_eq!(app.mode, AppMode::Dashboard);

    // Request again
    app.request_clean_recommendation();

    // Confirm: there are no files of the category, so nothing is
    // removed and the dashboard is shown again.
    app.confirm_clean_recommendation();
    assert_eq!(app.mode, AppMode::Dashboard);
}
