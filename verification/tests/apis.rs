use std::collections::HashMap;

use glob_hasher::{
    PartialHashGlobOptions, PartialHashGlobParallelOptions, get_hash_glob_config,
    get_hash_glob_parallel_config, glob, hash, hash_glob_git, hash_glob_xxhash, normalize_path,
    resolve_paths, xxhash,
};
use rayon::iter::{IntoParallelRefIterator, ParallelIterator};

fn opts(cwd: &str) -> Option<PartialHashGlobOptions> {
    Some(PartialHashGlobOptions { cwd: Some(cwd.to_string()), gitignore: None })
}

fn entry(path: &str, content: &[u8]) -> (String, Option<Vec<u8>>) {
    (path.to_string(), Some(content.to_vec()))
}

#[test]
fn config_defaults_and_overrides() {
    let d = get_hash_glob_config(None);
    assert_eq!(d.cwd, ".");
    assert!(d.gitignore);

    let c = get_hash_glob_config(Some(PartialHashGlobOptions {
        cwd: Some("/repo".to_string()),
        gitignore: Some(false),
    }));
    assert_eq!(c.cwd, "/repo");
    assert!(!c.gitignore);
}

#[test]
fn parallel_config_defaults_and_overrides() {
    let d = get_hash_glob_parallel_config(None);
    assert_eq!(d.cwd, ".");
    assert!(d.gitignore);
    assert_eq!(d.concurrency, 4);

    let c = get_hash_glob_parallel_config(Some(PartialHashGlobParallelOptions {
        cwd: None,
        gitignore: None,
        concurrency: Some(16),
    }));
    assert_eq!(c.concurrency, 16);
}

#[test]
fn normalize_path_strips_cwd_and_uses_forward_slashes() {
    let cwd = "repo".to_string();
    assert_eq!(normalize_path(&cwd, &"repo/src/a.rs".to_string()), "src/a.rs");
    assert_eq!(normalize_path(&cwd, &"repo\\src\\a.rs".to_string()), "src/a.rs");
    assert_eq!(normalize_path(&cwd, &"elsewhere/a.rs".to_string()), "elsewhere/a.rs");
}

#[test]
fn resolve_paths_joins_relative_inputs() {
    let files = vec!["a.txt".to_string(), "/abs/b.txt".to_string()];
    let r = resolve_paths(&files, &"repo".to_string());
    assert_eq!(r, vec!["repo/a.txt".to_string(), "/abs/b.txt".to_string()]);
}

#[test]
fn glob_selects_matching_candidates_in_order() {
    let candidates = vec![
        "src/a.rs".to_string(),
        "src/b.txt".to_string(),
        "src/deep/c.rs".to_string(),
    ];
    let files = glob(vec!["**/*.rs".to_string()], None, &candidates).unwrap();
    assert_eq!(files, vec!["src/a.rs".to_string(), "src/deep/c.rs".to_string()]);
}

#[test]
fn invalid_pattern_yields_absence_in_every_api() {
    let bad = vec!["src/[abc".to_string()];
    let candidates = vec!["src/a.rs".to_string()];
    assert!(glob(bad.clone(), None, &candidates).is_none());

    let entries = vec![entry("src/a.rs", b"fn main() {}\n")];
    assert!(hash_glob_xxhash(bad.clone(), None, entries.clone()).is_none());
    assert!(hash_glob_git(bad, None, entries).is_none());
}

#[test]
fn hash_glob_xxhash_filters_and_keys_relative_to_cwd() {
    let entries = vec![
        entry("repo/src/a.rs", b"alpha\n"),
        entry("repo/readme.md", b"docs\n"),
        entry("repo/src/b.rs", b"beta\n"),
    ];
    let m = hash_glob_xxhash(vec!["**/*.rs".to_string()], opts("repo"), entries).unwrap();
    let keys: Vec<&str> = m.iter().map(|r| r.0.as_str()).collect();
    assert_eq!(keys, vec!["src/a.rs", "src/b.rs"]);
    assert_eq!(m[0].1, Some(xxhash_rust::xxh3::xxh3_64(b"alpha\n")));
}

#[test]
fn unreadable_file_keeps_its_entry_with_null_digest() {
    let entries = vec![
        entry("repo/ok.txt", b"fine\n"),
        ("repo/gone.txt".to_string(), None),
    ];
    let m = hash_glob_git(vec!["*.txt".to_string()], opts("repo"), entries).unwrap();
    assert_eq!(m.len(), 2);
    assert_eq!(m[0].0, "ok.txt");
    assert!(m[0].1.is_some());
    assert_eq!(m[1].0, "gone.txt");
    assert!(m[1].1.is_none());
}

#[test]
fn hash_explicit_files_keys_all_entries() {
    let entries = vec![
        entry("repo/a.txt", b"hello\n"),
        ("repo/missing.txt".to_string(), None),
    ];
    let m = hash(entries, opts("repo")).unwrap();
    assert_eq!(m.len(), 2);
    assert_eq!(m[0].0, "a.txt");
    assert_eq!(
        m[0].1.as_deref(),
        Some("ce013625030ba8dba906f756967f9e9ca394464a")
    );
    assert_eq!(m[1].0, "missing.txt");
    assert_eq!(m[1].1, None);
}

#[test]
fn empty_match_is_a_mapping_not_an_absence() {
    let entries = vec![entry("repo/readme.md", b"docs\n")];
    let m = hash_glob_xxhash(vec!["**/*.rs".to_string()], opts("repo"), entries).unwrap();
    assert!(m.is_empty());
}

#[test]
fn sequential_and_parallel_runs_agree() {
    let entries: Vec<(String, Option<Vec<u8>>)> = (0..64)
        .map(|i| entry(&format!("repo/f{i}.dat"), format!("content {i}\r\n").as_bytes()))
        .collect();

    let sequential: HashMap<String, Option<u64>> =
        xxhash(entries.clone(), &"repo".to_string()).into_iter().collect();

    let parallel: HashMap<String, Option<u64>> = entries
        .par_iter()
        .map(|(path, content)| {
            let rows = xxhash(
                vec![(path.clone(), content.clone())],
                &"repo".to_string(),
            );
            rows.into_iter().next().unwrap()
        })
        .collect();

    assert_eq!(sequential, parallel);
}
