//! The fingerprinting operations: path normalization, per-file digest rows,
//! and the glob-driven hashing APIs.
//!
//! The caller enumerates files (driving the walker) and reads their bytes;
//! everything that decides or computes — filtering, key normalization,
//! digesting, aggregation into the final mapping — happens here. A file
//! whose bytes could not be read keeps its entry, with a null digest.

use vstd::prelude::*;

use crate::config::{PartialHashGlobOptions, get_hash_glob_config};
use crate::digest::{
    canonical_digest, fast_digest, spec_canonical_digest, spec_fast_digest,
};
use crate::filter::{
    GlobPattern, OverrideFilter, chars_vec, spec_includes_file, spec_pattern_from,
    spec_pattern_valid,
};

verus! {

/// Relies on `String::push`: appends one character.
pub assume_specification[ String::push ](s: &mut String, c: char)
    ensures
        final(s)@ == old(s)@.push(c),
;

/// A string holding exactly these characters.
pub fn string_from_chars(cs: &Vec<char>) -> (r: String)
    ensures
        r@ == cs@,
{
    let mut r = String::new();
    let mut i: usize = 0;
    while i < cs.len()
        invariant
            0 <= i <= cs@.len(),
            r@ == cs@.take(i as int),
        decreases cs@.len() - i,
    {
        r.push(cs[i]);
        proof {
            assert(r@ =~= cs@.take(i + 1));
        }
        i += 1;
    }
    proof {
        assert(cs@.take(cs@.len() as int) =~= cs@);
    }
    r
}

/// The path with every backslash replaced by a forward slash, so that keys
/// are identical across host path conventions.
pub open spec fn spec_slashes(p: Seq<char>) -> Seq<char> {
    p.map_values(|c: char| if c == '\\' { '/' } else { c })
}

/// The path with the root directory prefix (and one following separator)
/// removed; a path not under the root is kept whole.
pub open spec fn spec_strip_prefix(cwd: Seq<char>, p: Seq<char>) -> Seq<char> {
    if p.len() >= cwd.len() && p.take(cwd.len() as int) == cwd {
        let rest = p.skip(cwd.len() as int);
        if rest.len() > 0 && (rest[0] == '/' || rest[0] == '\\') {
            rest.skip(1)
        } else {
            rest
        }
    } else {
        p
    }
}

/// The mapping key for a visited file: its path relative to the root,
/// forward-slash-normalized, identical across host OS path conventions.
pub open spec fn spec_normalize_path(cwd: Seq<char>, p: Seq<char>) -> Seq<char> {
    spec_slashes(spec_strip_prefix(cwd, p))
}

/// The key under which a file's digest is reported: the path relative to
/// `cwd`, with forward slashes.
pub fn normalize_path(cwd: &String, path: &String) -> (r: String)
    ensures
        r@ == spec_normalize_path(cwd@, path@),
{
    let p = chars_vec(path.as_str());
    let c = chars_vec(cwd.as_str());
    let mut start: usize = 0;
    if p.len() >= c.len() {
        let mut eq = true;
        let mut i: usize = 0;
        while i < c.len()
            invariant
                0 <= i <= c@.len() <= p@.len(),
                eq == (forall|j: int| 0 <= j < i ==> p@[j] == c@[j]),
            decreases c@.len() - i,
        {
            if p[i] != c[i] {
                eq = false;
            }
            i += 1;
        }
        proof {
            if eq {
                assert(p@.take(c@.len() as int) =~= c@);
            } else {
                let j = choose|j: int| 0 <= j < c@.len() && p@[j] != c@[j];
                assert(p@.take(c@.len() as int)[j] != c@[j]);
            }
        }
        if eq {
            start = c.len();
            if p.len() > start && (p[start] == '/' || p[start] == '\\') {
                start = start + 1;
            }
        }
    }
    let mut out: Vec<char> = Vec::new();
    let mut i: usize = start;
    let ghost stripped = spec_strip_prefix(cwd@, path@);
    proof {
        assert(stripped =~= p@.skip(start as int));
    }
    while i < p.len()
        invariant
            start <= i <= p@.len(),
            stripped == p@.skip(start as int),
            out@ == spec_slashes(p@.skip(start as int).take(i - start as int)),
        decreases p@.len() - i,
    {
        let c0 = p[i];
        out.push(if c0 == '\\' { '/' } else { c0 });
        proof {
            assert(out@ =~= spec_slashes(p@.skip(start as int).take(i + 1 - start as int)));
        }
        i += 1;
    }
    proof {
        assert(p@.skip(start as int).take(p@.len() - start as int) =~= p@.skip(start as int));
    }
    string_from_chars(&out)
}

/// An explicit input path resolved against the root: a path that does not
/// start with a separator is joined to `cwd` with a `/`.
pub open spec fn spec_resolve_path(cwd: Seq<char>, p: Seq<char>) -> Seq<char> {
    if p.len() > 0 && (p[0] == '/' || p[0] == '\\') {
        p
    } else {
        cwd + seq!['/'] + p
    }
}

/// Resolves each explicit input path against the root directory, in order;
/// the caller reads each resolved path.
pub fn resolve_paths(files: &Vec<String>, cwd: &String) -> (r: Vec<String>)
    ensures
        r@.len() == files@.len(),
        forall|i: int|
            0 <= i < files@.len() ==> (#[trigger] r@[i])@ == spec_resolve_path(
                cwd@,
                files@[i]@,
            ),
{
    let mut r: Vec<String> = Vec::new();
    let mut i: usize = 0;
    while i < files.len()
        invariant
            0 <= i <= files@.len(),
            r@.len() == i,
            forall|j: int|
                0 <= j < i ==> (#[trigger] r@[j])@ == spec_resolve_path(cwd@, files@[j]@),
        decreases files@.len() - i,
    {
        let f = chars_vec(files[i].as_str());
        if f.len() > 0 && (f[0] == '/' || f[0] == '\\') {
            r.push(files[i].clone());
        } else {
            let mut joined = chars_vec(cwd.as_str());
            joined.push('/');
            let mut f = f;
            joined.append(&mut f);
            proof {
                assert(joined@ =~= spec_resolve_path(cwd@, files@[i as int]@));
            }
            r.push(string_from_chars(&joined));
        }
        i += 1;
    }
    r
}

/// The fast digest recorded for a file's read outcome: the digest of the
/// bytes when the read succeeded, null when it failed.
pub open spec fn spec_fast_entry(content: Option<Vec<u8>>) -> Option<u64> {
    match content {
        Some(b) => Some(spec_fast_digest(b@)),
        None => None,
    }
}

/// The canonical digest recorded for a file's read outcome: null when the
/// read failed or the SHA-1 engine rejected the input.
pub open spec fn spec_git_entry(content: Option<Vec<u8>>) -> Option<Seq<char>> {
    match content {
        Some(b) => spec_canonical_digest(b@),
        None => None,
    }
}

/// Whether an optional digest string holds exactly these characters.
pub open spec fn spec_opt_str_is(d: Option<String>, h: Option<Seq<char>>) -> bool {
    match d {
        Some(s) => h == Some(s@),
        None => h is None,
    }
}

/// One fast-digest row per visited file, keys normalized relative to the
/// root: the row order follows the input, a failed read keeps its row with
/// a null digest.
pub fn xxhash(file_set: Vec<(String, Option<Vec<u8>>)>, cwd: &String) -> (r: Vec<
    (String, Option<u64>),
>)
    ensures
        r@.len() == file_set@.len(),
        forall|i: int|
            0 <= i < file_set@.len() ==> (#[trigger] r@[i]).0@ == spec_normalize_path(
                cwd@,
                file_set@[i].0@,
            ) && r@[i].1 == spec_fast_entry(file_set@[i].1),
{
    let mut r: Vec<(String, Option<u64>)> = Vec::new();
    let mut i: usize = 0;
    while i < file_set.len()
        invariant
            0 <= i <= file_set@.len(),
            r@.len() == i,
            forall|j: int|
                0 <= j < i ==> (#[trigger] r@[j]).0@ == spec_normalize_path(
                    cwd@,
                    file_set@[j].0@,
                ) && r@[j].1 == spec_fast_entry(file_set@[j].1),
        decreases file_set@.len() - i,
    {
        let e = &file_set[i];
        let key = normalize_path(cwd, &e.0);
        let d: Option<u64> = match &e.1 {
            Some(bytes) => Some(fast_digest(bytes)),
            None => None,
        };
        r.push((key, d));
        i += 1;
    }
    r
}

/// One canonical-digest row per visited file, keys normalized relative to
/// the root: a failed read (or a rejected SHA-1 input) keeps its row with a
/// null digest.
pub fn git_hash(file_set: Vec<(String, Option<Vec<u8>>)>, cwd: &String) -> (r: Vec<
    (String, Option<String>),
>)
    ensures
        r@.len() == file_set@.len(),
        forall|i: int|
            0 <= i < file_set@.len() ==> (#[trigger] r@[i]).0@ == spec_normalize_path(
                cwd@,
                file_set@[i].0@,
            ) && spec_opt_str_is(r@[i].1, spec_git_entry(file_set@[i].1)),
{
    let mut r: Vec<(String, Option<String>)> = Vec::new();
    let mut i: usize = 0;
    while i < file_set.len()
        invariant
            0 <= i <= file_set@.len(),
            r@.len() == i,
            forall|j: int|
                0 <= j < i ==> (#[trigger] r@[j]).0@ == spec_normalize_path(
                    cwd@,
                    file_set@[j].0@,
                ) && spec_opt_str_is(r@[j].1, spec_git_entry(file_set@[j].1)),
        decreases file_set@.len() - i,
    {
        let e = &file_set[i];
        let key = normalize_path(cwd, &e.0);
        let d: Option<String> = match &e.1 {
            Some(bytes) => canonical_digest(bytes),
            None => None,
        };
        r.push((key, d));
        i += 1;
    }
    r
}

/// Canonical-digest rows for an explicit file list (the tolerant,
/// path-list API); behaviorally the per-row contract of `git_hash`.
pub fn git_hash_vec(files: Vec<(String, Option<Vec<u8>>)>, cwd: &String) -> (r: Vec<
    (String, Option<String>),
>)
    ensures
        r@.len() == files@.len(),
        forall|i: int|
            0 <= i < files@.len() ==> (#[trigger] r@[i]).0@ == spec_normalize_path(
                cwd@,
                files@[i].0@,
            ) && spec_opt_str_is(r@[i].1, spec_git_entry(files@[i].1)),
{
    git_hash(files, cwd)
}

/// The candidate paths selected by the pattern set, in input order.
pub open spec fn spec_selected(ps: Seq<GlobPattern>, cands: Seq<String>) -> Seq<String>
    decreases cands.len(),
{
    if cands.len() == 0 {
        Seq::<String>::empty()
    } else {
        let rest = spec_selected(ps, cands.drop_last());
        if spec_includes_file(ps, cands.last()@) {
            rest + seq![cands.last()]
        } else {
            rest
        }
    }
}

/// The entries whose normalized keys the pattern set selects, in input
/// order.
pub open spec fn spec_selected_entries(
    ps: Seq<GlobPattern>,
    cwd: Seq<char>,
    es: Seq<(String, Option<Vec<u8>>)>,
) -> Seq<(String, Option<Vec<u8>>)>
    decreases es.len(),
{
    if es.len() == 0 {
        Seq::<(String, Option<Vec<u8>>)>::empty()
    } else {
        let rest = spec_selected_entries(ps, cwd, es.drop_last());
        if spec_includes_file(ps, spec_normalize_path(cwd, es.last().0@)) {
            rest + seq![es.last()]
        } else {
            rest
        }
    }
}

/// Keeps the entries whose normalized keys the filter selects.
fn select_entries(
    f: &OverrideFilter,
    cwd: &String,
    entries: Vec<(String, Option<Vec<u8>>)>,
) -> (r: Vec<(String, Option<Vec<u8>>)>)
    ensures
        r@ == spec_selected_entries(f.patterns@, cwd@, entries@),
{
    let mut rest = entries;
    let ghost es = rest@;
    let mut r: Vec<(String, Option<Vec<u8>>)> = Vec::new();
    let mut k: usize = 0;
    let n = rest.len();
    proof {
        assert(es.len() == n);
        assert(es.skip(0) =~= es);
        assert(es.take(0) =~= Seq::<(String, Option<Vec<u8>>)>::empty());
    }
    while rest.len() > 0
        invariant
            0 <= k <= es.len(),
            es.len() <= usize::MAX,
            rest@ == es.skip(k as int),
            r@ == spec_selected_entries(f.patterns@, cwd@, es.take(k as int)),
        decreases rest@.len(),
    {
        proof {
            assert(es.skip(k as int)[0] == es[k as int]);
            assert(es.skip(k as int).remove(0) =~= es.skip(k + 1));
        }
        let e = rest.remove(0);
        let key = normalize_path(cwd, &e.0);
        let keep = f.file_included(&key);
        proof {
            assert(es.take(k + 1).drop_last() =~= es.take(k as int));
            assert(es.take(k + 1).last() == es[k as int]);
        }
        if keep {
            proof {
                assert(r@.push(es[k as int]) =~= spec_selected_entries(
                    f.patterns@,
                    cwd@,
                    es.take(k + 1),
                ));
            }
            r.push(e);
        }
        k += 1;
    }
    proof {
        assert(es.take(es.len() as int) =~= es);
        assert(k == es.len());
    }
    r
}

/// Lists the candidate paths that the pattern set selects. Returns the
/// operation-level absence, with nothing listed, exactly when some pattern
/// is malformed; otherwise exactly the selected candidates, in order.
pub fn glob(
    globs: Vec<String>,
    maybe_options: Option<PartialHashGlobOptions>,
    candidates: &Vec<String>,
) -> (r: Option<Vec<String>>)
    ensures
        match r {
            Some(files) => {
                &&& forall|i: int|
                    0 <= i < globs@.len() ==> spec_pattern_valid(#[trigger] globs@[i]@)
                &&& exists|ps: Seq<GlobPattern>|
                    #![trigger ps.len()]
                    {
                        &&& ps.len() == globs@.len()
                        &&& (forall|i: int|
                            0 <= i < globs@.len() ==> spec_pattern_from(
                                #[trigger] ps[i],
                                globs@[i]@,
                            ))
                        &&& files@ == spec_selected(ps, candidates@)
                    }
            },
            None => exists|i: int|
                0 <= i < globs@.len() && !spec_pattern_valid(#[trigger] globs@[i]@),
        },
{
    let _options = get_hash_glob_config(maybe_options);
    let f = match OverrideFilter::build(&globs) {
        Ok(f) => f,
        Err(_) => {
            return None;
        },
    };
    let mut r: Vec<String> = Vec::new();
    let mut i: usize = 0;
    while i < candidates.len()
        invariant
            0 <= i <= candidates@.len(),
            r@ == spec_selected(f.patterns@, candidates@.take(i as int)),
        decreases candidates@.len() - i,
    {
        let keep = f.file_included(&candidates[i]);
        proof {
            assert(candidates@.take(i + 1).drop_last() =~= candidates@.take(i as int));
            assert(candidates@.take(i + 1).last() == candidates@[i as int]);
        }
        if keep {
            let e = candidates[i].clone();
            proof {
                assert(r@.push(candidates@[i as int]) =~= spec_selected(
                    f.patterns@,
                    candidates@.take(i + 1),
                ));
            }
            r.push(e);
        }
        i += 1;
    }
    proof {
        assert(candidates@.take(candidates@.len() as int) =~= candidates@);
    }
    Some(r)
}

/// Hashes the visited files that the patterns select, with the fast
/// digest. Absent exactly when some pattern is malformed — then no file
/// is hashed and no partial mapping exists; a selected file whose bytes
/// could not be read keeps its row with a null digest.
pub fn hash_glob_xxhash(
    globs: Vec<String>,
    maybe_options: Option<PartialHashGlobOptions>,
    entries: Vec<(String, Option<Vec<u8>>)>,
) -> (r: Option<Vec<(String, Option<u64>)>>)
    ensures
        match r {
            Some(m) => {
                &&& (forall|i: int|
                    0 <= i < globs@.len() ==> spec_pattern_valid(#[trigger] globs@[i]@))
                &&& exists|ps: Seq<GlobPattern>|
                    #![trigger ps.len()]
                    {
                        &&& ps.len() == globs@.len()
                        &&& (forall|i: int|
                            0 <= i < globs@.len() ==> spec_pattern_from(
                                #[trigger] ps[i],
                                globs@[i]@,
                            ))
                        &&& {
                            let kept = spec_selected_entries(
                                ps,
                                spec_resolved_cwd_of(maybe_options),
                                entries@,
                            );
                            &&& m@.len() == kept.len()
                            &&& (forall|i: int|
                                0 <= i < kept.len() ==> (#[trigger] m@[i]).0@
                                    == spec_normalize_path(
                                    spec_resolved_cwd_of(maybe_options),
                                    kept[i].0@,
                                ) && m@[i].1 == spec_fast_entry(kept[i].1))
                        }
                    }
            },
            None => exists|i: int|
                0 <= i < globs@.len() && !spec_pattern_valid(#[trigger] globs@[i]@),
        },
{
    let options = get_hash_glob_config(maybe_options);
    let f = match OverrideFilter::build(&globs) {
        Ok(f) => f,
        Err(_) => {
            return None;
        },
    };
    let kept = select_entries(&f, &options.cwd, entries);
    Some(xxhash(kept, &options.cwd))
}

/// Hashes the visited files that the patterns select, with the canonical
/// (git blob) digest. Absent exactly when some pattern is malformed; a
/// selected file whose bytes could not be read keeps its row with a null
/// digest.
pub fn hash_glob_git(
    globs: Vec<String>,
    maybe_options: Option<PartialHashGlobOptions>,
    entries: Vec<(String, Option<Vec<u8>>)>,
) -> (r: Option<Vec<(String, Option<String>)>>)
    ensures
        match r {
            Some(m) => {
                &&& (forall|i: int|
                    0 <= i < globs@.len() ==> spec_pattern_valid(#[trigger] globs@[i]@))
                &&& exists|ps: Seq<GlobPattern>|
                    #![trigger ps.len()]
                    {
                        &&& ps.len() == globs@.len()
                        &&& (forall|i: int|
                            0 <= i < globs@.len() ==> spec_pattern_from(
                                #[trigger] ps[i],
                                globs@[i]@,
                            ))
                        &&& {
                            let kept = spec_selected_entries(
                                ps,
                                spec_resolved_cwd_of(maybe_options),
                                entries@,
                            );
                            &&& m@.len() == kept.len()
                            &&& (forall|i: int|
                                0 <= i < kept.len() ==> (#[trigger] m@[i]).0@
                                    == spec_normalize_path(
                                    spec_resolved_cwd_of(maybe_options),
                                    kept[i].0@,
                                ) && spec_opt_str_is(m@[i].1, spec_git_entry(kept[i].1)))
                        }
                    }
            },
            None => exists|i: int|
                0 <= i < globs@.len() && !spec_pattern_valid(#[trigger] globs@[i]@),
        },
{
    let options = get_hash_glob_config(maybe_options);
    let f = match OverrideFilter::build(&globs) {
        Ok(f) => f,
        Err(_) => {
            return None;
        },
    };
    let kept = select_entries(&f, &options.cwd, entries);
    Some(git_hash(kept, &options.cwd))
}

/// The root directory that the partial options resolve to.
pub open spec fn spec_resolved_cwd_of(maybe_options: Option<PartialHashGlobOptions>) -> Seq<
    char,
> {
    crate::config::spec_resolved_cwd(
        match maybe_options {
            Some(o) => o.cwd,
            None => None::<String>,
        },
    )
}

/// Hashes an explicit list of files with the canonical digest: one row per
/// input entry, in order, keyed by the normalized path; a file whose bytes
/// could not be read keeps its row with a null digest. Never absent: with
/// no patterns to validate there is no setup-time failure.
pub fn hash(
    entries: Vec<(String, Option<Vec<u8>>)>,
    maybe_options: Option<PartialHashGlobOptions>,
) -> (r: Option<Vec<(String, Option<String>)>>)
    ensures
        r is Some,
        match r {
            Some(m) => {
                &&& m@.len() == entries@.len()
                &&& forall|i: int|
                    0 <= i < entries@.len() ==> (#[trigger] m@[i]).0@ == spec_normalize_path(
                        spec_resolved_cwd_of(maybe_options),
                        entries@[i].0@,
                    ) && spec_opt_str_is(m@[i].1, spec_git_entry(entries@[i].1))
            },
            None => false,
        },
{
    let options = get_hash_glob_config(maybe_options);
    Some(git_hash_vec(entries, &options.cwd))
}

} // verus!
