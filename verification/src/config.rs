//! Resolution of caller-supplied partial options over documented defaults.

use vstd::prelude::*;

verus! {

/// Caller-supplied partial options; a missing field takes its default.
pub struct PartialHashGlobOptions {
    pub cwd: Option<String>,
    pub gitignore: Option<bool>,
}

/// Fully resolved options consumed by the core.
pub struct HashGlobOptions {
    pub cwd: String,
    pub gitignore: bool,
}

/// Caller-supplied partial options for the parallel APIs.
pub struct PartialHashGlobParallelOptions {
    pub cwd: Option<String>,
    pub gitignore: Option<bool>,
    pub concurrency: Option<u32>,
}

/// Fully resolved options for the parallel APIs.
pub struct HashGlobParallelOptions {
    pub cwd: String,
    pub gitignore: bool,
    pub concurrency: usize,
}

/// The root directory that a partial options value resolves to: the
/// caller's value when present, else the default `"."`.
pub open spec fn spec_resolved_cwd(cwd: Option<String>) -> Seq<char> {
    match cwd {
        Some(c) => c@,
        None => "."@,
    }
}

/// Whether ignore-file rules are honored: the caller's choice when
/// present, else the default `true`.
pub open spec fn spec_resolved_gitignore(gitignore: Option<bool>) -> bool {
    match gitignore {
        Some(g) => g,
        None => true,
    }
}

/// The worker count: the caller's value when present, else the default 4.
pub open spec fn spec_resolved_concurrency(concurrency: Option<u32>) -> int {
    match concurrency {
        Some(c) => c as int,
        None => 4,
    }
}

/// Merges caller-supplied partial options over the defaults
/// `{ cwd: ".", gitignore: true }`.
pub fn get_hash_glob_config(maybe_options: Option<PartialHashGlobOptions>) -> (r: HashGlobOptions)
    ensures
        r.cwd@ == spec_resolved_cwd(
            match maybe_options { Some(o) => o.cwd, None => None::<String> },
        ),
        r.gitignore == spec_resolved_gitignore(
            match maybe_options { Some(o) => o.gitignore, None => None::<bool> },
        ),
{
    let mut options = HashGlobOptions { cwd: ".".to_owned(), gitignore: true };

    if let Some(passed_in_options) = maybe_options {
        if let Some(cwd) = passed_in_options.cwd {
            options.cwd = cwd;
        }
        if let Some(gitignore) = passed_in_options.gitignore {
            options.gitignore = gitignore;
        }
    }

    options
}

/// Merges caller-supplied partial options over the defaults
/// `{ cwd: ".", gitignore: true, concurrency: 4 }`.
pub fn get_hash_glob_parallel_config(
    maybe_options: Option<PartialHashGlobParallelOptions>,
) -> (r: HashGlobParallelOptions)
    ensures
        r.cwd@ == spec_resolved_cwd(
            match maybe_options { Some(o) => o.cwd, None => None::<String> },
        ),
        r.gitignore == spec_resolved_gitignore(
            match maybe_options { Some(o) => o.gitignore, None => None::<bool> },
        ),
        r.concurrency == spec_resolved_concurrency(
            match maybe_options { Some(o) => o.concurrency, None => None::<u32> },
        ),
{
    let mut options = HashGlobParallelOptions {
        cwd: ".".to_owned(),
        gitignore: true,
        concurrency: 4,
    };

    if let Some(passed_in_options) = maybe_options {
        if let Some(cwd) = passed_in_options.cwd {
            options.cwd = cwd;
        }
        if let Some(gitignore) = passed_in_options.gitignore {
            options.gitignore = gitignore;
        }
        if let Some(concurrency) = passed_in_options.concurrency {
            options.concurrency = concurrency as usize;
        }
    }

    options
}

} // verus!
