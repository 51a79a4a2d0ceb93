//! The override filter: an ordered glob pattern set with last-match-wins
//! semantics.
//!
//! Patterns are evaluated in order against a candidate path relative to the
//! root; the last pattern that matches decides. A plain pattern selects the
//! path, a `!`-negated pattern deselects it. With a non-empty pattern set a
//! path matching no pattern is not selected; with an empty set every path
//! is.

use vstd::prelude::*;
use vstd::string::StrSliceExecFns;

use crate::pattern::{
    GlobError, GlobToken, lemma_cons_skip, spec_pattern_ok, spec_tokens_for, spec_tokens_match,
    tokenize_at, tokens_match_at,
};

verus! {

/// One compiled glob pattern.
#[derive(Debug, Clone)]
pub struct GlobPattern {
    /// A leading `!` was present: a match deselects instead of selecting
    /// (or, in an ignore file, re-includes instead of ignoring).
    pub negated: bool,
    /// A trailing `/` was present: the pattern matches directories only.
    pub dir_only: bool,
    /// The compiled tokens, matched against the whole relative path.
    pub tokens: Vec<GlobToken>,
}

/// The characters a pattern's tokens are compiled from, after stripping the
/// leading `!`, a trailing `/`, and a leading `/`.
pub open spec fn spec_pattern_core(raw: Seq<char>) -> Seq<char> {
    let body = if raw.len() > 0 && raw[0] == '!' {
        raw.skip(1)
    } else {
        raw
    };
    let trimmed = if body.len() > 0 && body.last() == '/' {
        body.drop_last()
    } else {
        body
    };
    if trimmed.len() > 0 && trimmed[0] == '/' {
        trimmed.skip(1)
    } else {
        trimmed
    }
}

/// Whether a `/` occurs anywhere in the characters.
pub open spec fn spec_has_slash(s: Seq<char>) -> bool {
    exists|i: int| 0 <= i < s.len() && #[trigger] s[i] == '/'
}

/// Whether the pattern (after stripping markers) contains a `/` and is
/// therefore anchored to the root rather than matching at any depth.
pub open spec fn spec_pattern_anchored(raw: Seq<char>) -> bool {
    let body = if raw.len() > 0 && raw[0] == '!' {
        raw.skip(1)
    } else {
        raw
    };
    let trimmed = if body.len() > 0 && body.last() == '/' {
        body.drop_last()
    } else {
        body
    };
    spec_has_slash(trimmed)
}

/// Whether the raw pattern is syntactically valid.
pub open spec fn spec_pattern_valid(raw: Seq<char>) -> bool {
    spec_pattern_ok(spec_pattern_core(raw), true)
}

/// Whether `p` is the compilation of the raw pattern characters: the
/// negation and directory-only markers are read off, and the tokens compile
/// the core, with a `**/` prefix supplied for unanchored patterns so that
/// they match at any depth.
pub open spec fn spec_pattern_from(p: GlobPattern, raw: Seq<char>) -> bool {
    let body = if raw.len() > 0 && raw[0] == '!' {
        raw.skip(1)
    } else {
        raw
    };
    &&& p.negated == (raw.len() > 0 && raw[0] == '!')
    &&& p.dir_only == (body.len() > 0 && body.last() == '/')
    &&& if spec_pattern_anchored(raw) {
        spec_tokens_for(p.tokens@, spec_pattern_core(raw), true)
    } else {
        &&& p.tokens@.len() > 0
        &&& p.tokens@[0] is GlobBoundary
        &&& spec_tokens_for(p.tokens@.skip(1), spec_pattern_core(raw), true)
    }
}

/// The characters of a string, in order.
pub fn chars_vec(s: &str) -> (r: Vec<char>)
    ensures
        r@ == s@,
{
    let n = s.unicode_len();
    let mut r: Vec<char> = Vec::new();
    let mut i: usize = 0;
    while i < n
        invariant
            0 <= i <= n,
            n == s@.len(),
            r@ == s@.take(i as int),
        decreases n - i,
    {
        r.push(s.get_char(i));
        proof {
            assert(r@ =~= s@.take(i + 1));
        }
        i += 1;
    }
    proof {
        assert(s@.take(n as int) =~= s@);
    }
    r
}

/// Compiles one raw pattern. Fails exactly on malformed syntax.
pub fn compile_pattern(raw: &Vec<char>) -> (r: Result<GlobPattern, GlobError>)
    ensures
        match r {
            Ok(p) => spec_pattern_valid(raw@) && spec_pattern_from(p, raw@),
            Err(_) => !spec_pattern_valid(raw@),
        },
{
    let negated = raw.len() > 0 && raw[0] == '!';
    let start0: usize = if negated {
        1
    } else {
        0
    };
    let dir_only = raw.len() > start0 && raw[raw.len() - 1] == '/';
    let end: usize = if dir_only {
        raw.len() - 1
    } else {
        raw.len()
    };
    proof {
        let body = if negated {
            raw@.skip(1)
        } else {
            raw@
        };
        assert(body =~= raw@.subrange(start0 as int, raw@.len() as int));
        let trimmed = if dir_only {
            body.drop_last()
        } else {
            body
        };
        assert(trimmed =~= raw@.subrange(start0 as int, end as int));
    }
    let mut anchored = false;
    let mut i: usize = start0;
    while i < end
        invariant
            start0 <= i <= end <= raw@.len(),
            anchored == exists|j: int| start0 <= j < i && raw@[j] == '/',
        decreases end - i,
    {
        if raw[i] == '/' {
            anchored = true;
        }
        i += 1;
    }
    let start: usize = if end > start0 && raw[start0] == '/' {
        start0 + 1
    } else {
        start0
    };
    let mut core: Vec<char> = Vec::new();
    let mut i: usize = start;
    while i < end
        invariant
            start <= i <= end <= raw@.len(),
            core@ == raw@.subrange(start as int, i as int),
        decreases end - i,
    {
        core.push(raw[i]);
        proof {
            assert(core@ =~= raw@.subrange(start as int, i + 1));
        }
        i += 1;
    }
    proof {
        let body = if negated {
            raw@.skip(1)
        } else {
            raw@
        };
        assert(body =~= raw@.subrange(start0 as int, raw@.len() as int));
        let trimmed0 = if dir_only {
            body.drop_last()
        } else {
            body
        };
        let trimmed = raw@.subrange(start0 as int, end as int);
        assert(trimmed0 =~= trimmed);
        assert(spec_pattern_core(raw@) =~= raw@.subrange(start as int, end as int));
        assert(core@ == spec_pattern_core(raw@));
        assert(spec_pattern_anchored(raw@) == (exists|j: int|
            start0 <= j < end && raw@[j] == '/')) by {
            assert(spec_pattern_anchored(raw@) == spec_has_slash(trimmed));
            if spec_has_slash(trimmed) {
                let i = choose|i: int| 0 <= i < trimmed.len() && #[trigger] trimmed[i] == '/';
                assert(raw@[start0 + i] == '/');
            }
            if exists|j: int| start0 <= j < end && raw@[j] == '/' {
                let j = choose|j: int| start0 <= j < end && raw@[j] == '/';
                assert(trimmed[j - start0] == '/');
                assert(spec_has_slash(trimmed));
            }
        }
        assert(core@.skip(0) =~= core@);
    }
    match tokenize_at(&core, 0, true) {
        Ok(toks) => {
            if anchored {
                Ok(GlobPattern { negated, dir_only, tokens: toks })
            } else {
                let ghost t0 = toks@;
                let mut toks = toks;
                let mut tokens: Vec<GlobToken> = Vec::new();
                tokens.push(GlobToken::GlobBoundary);
                tokens.append(&mut toks);
                proof {
                    lemma_cons_skip(GlobToken::GlobBoundary, t0);
                    assert(tokens@ == seq![GlobToken::GlobBoundary] + t0);
                }
                Ok(GlobPattern { negated, dir_only, tokens })
            }
        },
        Err(e) => Err(e),
    }
}

/// Whether the pattern matches the relative path of a file or directory:
/// a directory-only pattern matches directories alone; the tokens must
/// match the whole path.
pub open spec fn spec_pattern_matches(p: GlobPattern, path: Seq<char>, is_dir: bool) -> bool {
    (!p.dir_only || is_dir) && spec_tokens_match(p.tokens@, path)
}

/// Whether the pattern matches the path characters.
pub fn pattern_matches(p: &GlobPattern, path: &Vec<char>, is_dir: bool) -> (r: bool)
    ensures
        r == spec_pattern_matches(*p, path@, is_dir),
{
    if p.dir_only && !is_dir {
        return false;
    }
    proof {
        assert(p.tokens@.skip(0) =~= p.tokens@);
        assert(path@.skip(0) =~= path@);
    }
    tokens_match_at(&p.tokens, 0, path, 0)
}

/// The verdict of an ordered pattern list on a path: `Some(negated)` for
/// the last pattern that matches, `None` when none does.
pub open spec fn spec_last_verdict(
    ps: Seq<GlobPattern>,
    path: Seq<char>,
    is_dir: bool,
) -> Option<bool>
    decreases ps.len(),
{
    if ps.len() == 0 {
        None
    } else if spec_pattern_matches(ps.last(), path, is_dir) {
        Some(ps.last().negated)
    } else {
        spec_last_verdict(ps.drop_last(), path, is_dir)
    }
}

/// Whether the pattern set selects a file at the given relative path: the
/// last matching pattern must not be negated. With a non-empty pattern set,
/// a file matching no pattern is not selected; an empty set selects every
/// file.
pub open spec fn spec_includes_file(ps: Seq<GlobPattern>, path: Seq<char>) -> bool {
    if ps.len() == 0 {
        true
    } else {
        match spec_last_verdict(ps, path, false) {
            Some(negated) => !negated,
            None => false,
        }
    }
}

/// Whether the pattern set positively deselects a directory (its last
/// matching pattern, evaluated as a directory, is negated), so that the
/// walker need not descend into it.
pub open spec fn spec_prunes_dir(ps: Seq<GlobPattern>, path: Seq<char>) -> bool {
    match spec_last_verdict(ps, path, true) {
        Some(negated) => negated,
        None => false,
    }
}

/// The override filter: the compiled pattern set, evaluated in order with
/// last-match-wins semantics. Immutable once built, freely shared by any
/// number of readers.
#[derive(Debug, Clone)]
pub struct OverrideFilter {
    pub patterns: Vec<GlobPattern>,
}

/// The verdict of the pattern list on the path characters.
pub(crate) fn last_verdict(ps: &Vec<GlobPattern>, path: &Vec<char>, is_dir: bool) -> (r: Option<bool>)
    ensures
        r == spec_last_verdict(ps@, path@, is_dir),
{
    let mut verdict: Option<bool> = None;
    let mut i: usize = 0;
    while i < ps.len()
        invariant
            0 <= i <= ps@.len(),
            verdict == spec_last_verdict(ps@.take(i as int), path@, is_dir),
        decreases ps@.len() - i,
    {
        let ghost prefix = ps@.take(i as int);
        if pattern_matches(&ps[i], path, is_dir) {
            verdict = Some(ps[i].negated);
        }
        proof {
            assert(ps@.take(i + 1).drop_last() =~= prefix);
            assert(ps@.take(i + 1).last() == ps@[i as int]);
        }
        i += 1;
    }
    proof {
        assert(ps@.take(ps@.len() as int) =~= ps@);
    }
    verdict
}

impl OverrideFilter {
    /// Builds the filter from the ordered raw patterns. Fails with
    /// `InvalidGlobPattern`, before any file is visited, exactly when some
    /// pattern is malformed; on success every pattern is compiled, in
    /// order.
    pub fn build(globs: &Vec<String>) -> (r: Result<OverrideFilter, GlobError>)
        ensures
            match r {
                Ok(f) => {
                    &&& f.patterns@.len() == globs@.len()
                    &&& forall|i: int|
                        0 <= i < globs@.len() ==> spec_pattern_valid(#[trigger] globs@[i]@)
                            && spec_pattern_from(f.patterns@[i], globs@[i]@)
                },
                Err(_) => exists|i: int|
                    0 <= i < globs@.len() && !spec_pattern_valid(#[trigger] globs@[i]@),
            },
    {
        let mut patterns: Vec<GlobPattern> = Vec::new();
        let mut i: usize = 0;
        while i < globs.len()
            invariant
                0 <= i <= globs@.len(),
                patterns@.len() == i,
                forall|j: int|
                    0 <= j < i ==> spec_pattern_valid(#[trigger] globs@[j]@)
                        && spec_pattern_from(patterns@[j], globs@[j]@),
            decreases globs@.len() - i,
        {
            let cs = chars_vec(globs[i].as_str());
            match compile_pattern(&cs) {
                Ok(p) => {
                    patterns.push(p);
                },
                Err(e) => {
                    return Err(e);
                },
            }
            i += 1;
        }
        Ok(OverrideFilter { patterns })
    }

    /// Whether a file at the given relative path is selected.
    pub fn file_included(&self, path: &String) -> (r: bool)
        ensures
            r == spec_includes_file(self.patterns@, path@),
    {
        let cs = chars_vec(path.as_str());
        if self.patterns.len() == 0 {
            return true;
        }
        match last_verdict(&self.patterns, &cs, false) {
            Some(negated) => !negated,
            None => false,
        }
    }

    /// Whether a directory at the given relative path is positively
    /// deselected, so that it need not be descended into.
    pub fn dir_pruned(&self, path: &String) -> (r: bool)
        ensures
            r == spec_prunes_dir(self.patterns@, path@),
    {
        let cs = chars_vec(path.as_str());
        match last_verdict(&self.patterns, &cs, true) {
            Some(negated) => negated,
            None => false,
        }
    }
}

} // verus!
