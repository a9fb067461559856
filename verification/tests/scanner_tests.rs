use diskdoc::entities::{FileStats, FileType};

#[test]
fn test_file_stats_creation() {
    let path = "test_file.txt".to_string();
    let stats = FileStats {
        path: path.clone(),
        size: 1024,
        is_dir: false,
        modified: 0,
        children_count: None,
        file_type: FileType::Normal,
    };

    assert_eq!(stats.path, "test_file.txt");
}
