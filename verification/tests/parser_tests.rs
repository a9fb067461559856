use diskdoc::docker_report::{parse_docker_report, parse_human_size};
use diskdoc::entities::RecommendationCategory;

#[test]
fn test_parse_human_size_units() {
    assert_eq!(parse_human_size("0"), 0);
    assert_eq!(parse_human_size("1024"), 1024);
    assert_eq!(parse_human_size("1B"), 1);
    assert_eq!(parse_human_size("2KB"), 2048);
    assert_eq!(parse_human_size("500MB"), 500 * 1024 * 1024);
    assert_eq!(parse_human_size("1.5GB"), 1610612736);
    assert_eq!(parse_human_size("0.5KB"), 512);
    assert_eq!(parse_human_size("  7MB  "), 7 * 1024 * 1024);
}

#[test]
fn test_parse_human_size_rejects_garbage() {
    assert_eq!(parse_human_size(""), 0);
    assert_eq!(parse_human_size("   "), 0);
    assert_eq!(parse_human_size("abc"), 0);
    assert_eq!(parse_human_size("GB"), 0);
    assert_eq!(parse_human_size("1.2.3GB"), 0);
    assert_eq!(parse_human_size("-5MB"), 0);
}

#[test]
fn test_parse_human_size_saturates() {
    assert_eq!(parse_human_size("99999999999999999999GB"), u64::MAX);
}

#[test]
fn test_docker_report_sums_lines() {
    let out = "Images|1.5GB (50%)\nContainers|0B (0%)\nLocal Volumes|24MB (100%)";
    let rec = parse_docker_report(out).unwrap();
    assert_eq!(rec.category, RecommendationCategory::Docker);
    assert_eq!(rec.size, 1610612736 + 24 * 1024 * 1024);
    assert_eq!(
        rec.description,
        "Docker Cleanup: Images: 1.5GB (50%), Local Volumes: 24MB (100%)"
    );
    assert_eq!(
        rec.action_command,
        Some("docker system prune -f".to_string())
    );
}

#[test]
fn test_docker_report_empty_when_nothing_reclaimable() {
    assert!(parse_docker_report("").is_none());
    assert!(parse_docker_report("Images|0B (0%)\nContainers|0B (0%)").is_none());
    assert!(parse_docker_report("not a report at all").is_none());
}
