//! Path classification: an ordered list of heuristic rules over the
//! path string alone. The first rule that matches wins; the order is
//! fixed and significant, because some markers are substrings of
//! others' search space (the npm cache rule must run before the generic
//! cache rule, or it would be shadowed).
//!
//! Priority order: Log, NpmCache, ComposerCache, AptCache, Cache,
//! Docker; anything else is Normal. Classification reads only the path
//! string and the directory flag, never the filesystem.

use vstd::prelude::*;

use crate::entities::FileType;
use crate::textutil::contains_seq;
use crate::textutil::contains_sub;
use crate::textutil::ends_with_seq;
use crate::textutil::ends_with_sub;

verus! {

/// A log file: the `.log` suffix or a path under `/var/log`.
pub open spec fn is_log_path(path: Seq<char>) -> bool {
    ends_with_seq(path, ".log"@) || contains_seq(path, "/var/log"@)
}

/// A cache location: OS cache directories, dot-cache directories,
/// `node_modules` trees, or build-output (`target`) directories.
pub open spec fn is_cache_path(path: Seq<char>) -> bool {
    ||| contains_seq(path, "/Library/Caches"@)
    ||| contains_seq(path, "/.cache"@)
    ||| contains_seq(path, "node_modules"@)
    ||| contains_seq(path, "target"@)
}

/// The npm content cache.
pub open spec fn is_npm_path(path: Seq<char>) -> bool {
    contains_seq(path, ".npm/_cacache"@) || contains_seq(path, "node_modules/.cache"@)
}

/// The composer package cache.
pub open spec fn is_composer_path(path: Seq<char>) -> bool {
    contains_seq(path, ".composer/cache"@)
}

/// The apt archive cache.
pub open spec fn is_apt_path(path: Seq<char>) -> bool {
    contains_seq(path, "/var/cache/apt/archives"@)
}

/// Container-runtime data directories.
pub open spec fn is_docker_path(path: Seq<char>) -> bool {
    contains_seq(path, "/var/lib/docker"@)
}

/// The classification of a path: the first matching rule in priority
/// order, or `Normal` when none matches.
pub open spec fn classify(path: Seq<char>) -> FileType {
    if is_log_path(path) {
        FileType::Log
    } else if is_npm_path(path) {
        FileType::NpmCache
    } else if is_composer_path(path) {
        FileType::ComposerCache
    } else if is_apt_path(path) {
        FileType::AptCache
    } else if is_cache_path(path) {
        FileType::Cache
    } else if is_docker_path(path) {
        FileType::Docker
    } else {
        FileType::Normal
    }
}

/// One heuristic rule: a predicate on the path string, with a
/// spec-level account of exactly when it fires.
pub trait Heuristic: Sized {
    spec fn spec_detect(path: Seq<char>, is_dir: bool) -> Option<FileType>;

    fn detect(&self, path: &str, is_dir: bool) -> (r: Option<FileType>)
        ensures
            r == Self::spec_detect(path@, is_dir),
    ;
}

pub struct LogHeuristic;

impl Heuristic for LogHeuristic {
    open spec fn spec_detect(path: Seq<char>, is_dir: bool) -> Option<FileType> {
        if is_log_path(path) {
            Some(FileType::Log)
        } else {
            None
        }
    }

    fn detect(&self, path: &str, is_dir: bool) -> (r: Option<FileType>) {
        if ends_with_sub(path, ".log") || contains_sub(path, "/var/log") {
            Some(FileType::Log)
        } else {
            None
        }
    }
}

pub struct CacheHeuristic;

impl Heuristic for CacheHeuristic {
    open spec fn spec_detect(path: Seq<char>, is_dir: bool) -> Option<FileType> {
        if is_cache_path(path) {
            Some(FileType::Cache)
        } else {
            None
        }
    }

    fn detect(&self, path: &str, is_dir: bool) -> (r: Option<FileType>) {
        if contains_sub(path, "/Library/Caches") || contains_sub(path, "/.cache")
            || contains_sub(path, "node_modules") || contains_sub(path, "target") {
            Some(FileType::Cache)
        } else {
            None
        }
    }
}

pub struct NpmHeuristic;

impl Heuristic for NpmHeuristic {
    open spec fn spec_detect(path: Seq<char>, is_dir: bool) -> Option<FileType> {
        if is_npm_path(path) {
            Some(FileType::NpmCache)
        } else {
            None
        }
    }

    fn detect(&self, path: &str, is_dir: bool) -> (r: Option<FileType>) {
        if contains_sub(path, ".npm/_cacache") || contains_sub(path, "node_modules/.cache") {
            Some(FileType::NpmCache)
        } else {
            None
        }
    }
}

pub struct ComposerHeuristic;

impl Heuristic for ComposerHeuristic {
    open spec fn spec_detect(path: Seq<char>, is_dir: bool) -> Option<FileType> {
        if is_composer_path(path) {
            Some(FileType::ComposerCache)
        } else {
            None
        }
    }

    fn detect(&self, path: &str, is_dir: bool) -> (r: Option<FileType>) {
        if contains_sub(path, ".composer/cache") {
            Some(FileType::ComposerCache)
        } else {
            None
        }
    }
}

pub struct AptHeuristic;

impl Heuristic for AptHeuristic {
    open spec fn spec_detect(path: Seq<char>, is_dir: bool) -> Option<FileType> {
        if is_apt_path(path) {
            Some(FileType::AptCache)
        } else {
            None
        }
    }

    fn detect(&self, path: &str, is_dir: bool) -> (r: Option<FileType>) {
        if contains_sub(path, "/var/cache/apt/archives") {
            Some(FileType::AptCache)
        } else {
            None
        }
    }
}

pub struct DockerHeuristic;

impl Heuristic for DockerHeuristic {
    open spec fn spec_detect(path: Seq<char>, is_dir: bool) -> Option<FileType> {
        if is_docker_path(path) {
            Some(FileType::Docker)
        } else {
            None
        }
    }

    fn detect(&self, path: &str, is_dir: bool) -> (r: Option<FileType>) {
        if contains_sub(path, "/var/lib/docker") {
            Some(FileType::Docker)
        } else {
            None
        }
    }
}

/// Runs the heuristic rules in their fixed priority order.
pub struct HeuristicsEngine;

impl HeuristicsEngine {
    pub fn new() -> (r: Self) {
        HeuristicsEngine
    }

    /// Classifies one path; the result follows `classify` exactly.
    pub fn analyze(&self, path: &str, is_dir: bool) -> (t: FileType)
        ensures
            t == classify(path@),
    {
        if let Some(t) = LogHeuristic.detect(path, is_dir) {
            return t;
        }
        if let Some(t) = NpmHeuristic.detect(path, is_dir) {
            return t;
        }
        if let Some(t) = ComposerHeuristic.detect(path, is_dir) {
            return t;
        }
        if let Some(t) = AptHeuristic.detect(path, is_dir) {
            return t;
        }
        if let Some(t) = CacheHeuristic.detect(path, is_dir) {
            return t;
        }
        if let Some(t) = DockerHeuristic.detect(path, is_dir) {
            return t;
        }
        FileType::Normal
    }
}

} // verus!
