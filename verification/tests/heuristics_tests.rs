use diskdoc::entities::FileType;
use diskdoc::heuristics::HeuristicsEngine;

#[test]
fn test_log_detection() {
    let engine = HeuristicsEngine::new();

    assert_eq!(engine.analyze("/var/log/syslog", false), FileType::Log);
    assert_eq!(engine.analyze("app.log", false), FileType::Log);
    assert_eq!(engine.analyze("image.png", false), FileType::Normal);
}

#[test]
fn test_cache_detection() {
    let engine = HeuristicsEngine::new();

    assert_eq!(
        engine.analyze("/Users/me/Library/Caches/com.apple.dt.Xcode", true),
        FileType::Cache
    );
    assert_eq!(
        engine.analyze("/home/user/.cache/mozilla", true),
        FileType::Cache
    );
    assert_eq!(
        engine.analyze("/project/target/debug/build", true),
        FileType::Cache
    );
}

#[test]
fn test_npm_detection() {
    let engine = HeuristicsEngine::new();
    assert_eq!(
        engine.analyze("/home/user/.npm/_cacache/content-v2", true),
        FileType::NpmCache
    );
    assert_eq!(
        engine.analyze("/project/node_modules/.cache/babel", true),
        FileType::NpmCache
    );
}

#[test]
fn test_composer_detection() {
    let engine = HeuristicsEngine::new();
    assert_eq!(
        engine.analyze("/home/user/.composer/cache/repo", true),
        FileType::ComposerCache
    );
}

#[test]
fn test_apt_detection() {
    let engine = HeuristicsEngine::new();
    assert_eq!(
        engine.analyze("/var/cache/apt/archives/partial", true),
        FileType::AptCache
    );
}

#[test]
fn test_docker_detection() {
    let engine = HeuristicsEngine::new();
    // The heuristic checks the path string alone; the path need not
    // exist on disk.
    assert_eq!(
        engine.analyze("/var/lib/docker/overlay2", true),
        FileType::Docker
    );
}
