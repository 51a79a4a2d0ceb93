//! Glob-driven content fingerprinting for build caching.
//!
//! The library enumerates files selected by gitignore-style glob patterns,
//! normalizes their content deterministically, and produces per-file digests
//! (a fast 64-bit hash or a digest byte-compatible with git's blob object
//! ids), aggregated into a path-keyed mapping.

mod aggregate;
mod config;
mod content;
mod digest;
mod filter;
mod hashing;
mod pattern;
mod walker;

pub use config::{
    HashGlobOptions, HashGlobParallelOptions, PartialHashGlobOptions,
    PartialHashGlobParallelOptions, get_hash_glob_config, get_hash_glob_parallel_config,
    spec_resolved_concurrency, spec_resolved_cwd, spec_resolved_gitignore,
};
pub use pattern::{
    GlobError, GlobToken, lemma_class_body_shrinks, spec_class_body, spec_class_matches,
    spec_pattern_ok, spec_tokens_for, spec_tokens_match,
};
pub use filter::{
    GlobPattern, OverrideFilter, chars_vec, compile_pattern, pattern_matches,
    spec_has_slash, spec_includes_file, spec_last_verdict, spec_pattern_anchored,
    spec_pattern_core, spec_pattern_from, spec_pattern_matches, spec_pattern_valid,
    spec_prunes_dir,
};
pub use walker::{
    IgnoreLevel, Walker, is_hidden, lemma_lines_nonempty, parse_ignore_rules,
    spec_basename_start, spec_clean_line, spec_dir_entered, spec_dir_prefix,
    spec_file_visible, spec_hidden, spec_keep_line, spec_kept_lines, spec_level_opinion,
    spec_lines_of, spec_rules_for, spec_rules_of_text, spec_stack_ignored, spec_trim_spaces,
};
pub use content::{
    BINARY_SNIFF_LEN, CR, LF, content_to_hash, is_binary, lemma_binary_content_hashed_raw,
    lemma_normalize_crlf_free_identity, lemma_normalize_yields_crlf_free,
    lemma_standalone_line_ending_changes_reach_digest, normalize_crlf,
    spec_content_to_hash, spec_crlf_free, spec_is_binary, spec_no_cr_before_crlf,
    spec_normalize_crlf,
};
pub use digest::{
    canonical_digest, fast_digest, lemma_digest_invariant_under_crlf_collapse,
    lemma_identical_content_identical_digests, spec_blob_header, spec_canonical_digest,
    spec_decimal_digits, spec_fast_digest, spec_hex_digit, spec_hex_of, spec_sha1, spec_xxh3,
};
pub use hashing::{
    git_hash, git_hash_vec, glob, hash, hash_glob_git, hash_glob_xxhash, normalize_path,
    resolve_paths, spec_fast_entry, spec_git_entry, spec_normalize_path, spec_opt_str_is,
    spec_resolve_path, spec_resolved_cwd_of, spec_selected, spec_selected_entries,
    spec_slashes, spec_strip_prefix, string_from_chars, xxhash,
};
pub use aggregate::{
    lemma_every_selected_file_exactly_once, lemma_final_mapping_order_irrelevant,
    lemma_rows_map_contains, lemma_rows_map_value, lemma_selection_splits,
    lemma_sequential_and_parallel_runs_agree, spec_rows_map,
    spec_unique_keys,
};
