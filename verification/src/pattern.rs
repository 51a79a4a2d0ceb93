//! Gitignore-style glob patterns: compilation and matching.
//!
//! A pattern supports `*` (within one path component), `**` (across
//! components), `?`, bracket expressions such as `[a-z]` or `[!0-9]`,
//! backslash escapes, a leading `!` for negation, and a trailing `/` that
//! restricts the pattern to directories. A pattern containing no `/` matches
//! at any depth; one containing a `/` is anchored to the root.

use vstd::prelude::*;

verus! {

/// A setup-time failure: a pattern's syntax is malformed (for example an
/// unterminated bracket expression). It aborts the whole operation before
/// any file is visited.
#[derive(Debug, Clone, PartialEq, Eq, Structural)]
pub enum GlobError {
    InvalidGlobPattern,
}

/// One element of a compiled glob pattern.
#[derive(Debug, Clone)]
pub enum GlobToken {
    /// A literal character.
    Lit(char),
    /// `?`: exactly one character other than `/`.
    AnyChar,
    /// `*`: zero or more characters other than `/`.
    Star,
    /// A trailing `**` segment: zero or more characters, `/` included.
    DoubleStar,
    /// A `**/` segment: zero or more whole path components.
    GlobBoundary,
    /// A path separator.
    Slash,
    /// A bracket expression: one character other than `/` inside (or, when
    /// negated, outside) one of the closed ranges.
    Class { negated: bool, ranges: Vec<(char, char)> },
}

/// The items of a bracket expression body, read until the closing `]`:
/// the parsed ranges and the remaining characters after the `]`, or `None`
/// when the expression is unterminated. A single character stands for the
/// one-element range; `x-y` (with `y` not the closing bracket) for the
/// closed range from `x` to `y`.
pub open spec fn spec_class_body(cs: Seq<char>) -> Option<(Seq<(char, char)>, Seq<char>)>
    decreases cs.len(),
{
    if cs.len() == 0 {
        None
    } else if cs[0] == ']' {
        Some((Seq::<(char, char)>::empty(), cs.skip(1)))
    } else if cs.len() >= 3 && cs[1] == '-' && cs[2] != ']' {
        match spec_class_body(cs.skip(3)) {
            Some(p) => Some((seq![(cs[0], cs[2])] + p.0, p.1)),
            None => None,
        }
    } else {
        match spec_class_body(cs.skip(1)) {
            Some(p) => Some((seq![(cs[0], cs[0])] + p.0, p.1)),
            None => None,
        }
    }
}

/// A parsed bracket expression consumes at least one character.
pub proof fn lemma_class_body_shrinks(cs: Seq<char>)
    ensures
        spec_class_body(cs) matches Some(p) ==> p.1.len() < cs.len(),
    decreases cs.len(),
{
    if cs.len() == 0 {
    } else if cs[0] == ']' {
    } else if cs.len() >= 3 && cs[1] == '-' && cs[2] != ']' {
        lemma_class_body_shrinks(cs.skip(3));
    } else {
        lemma_class_body_shrinks(cs.skip(1));
    }
}

/// Whether the pattern characters are syntactically well formed, scanning
/// from a component boundary when `boundary` is set.
pub open spec fn spec_pattern_ok(cs: Seq<char>, boundary: bool) -> bool
    decreases cs.len() via spec_pattern_ok_decreases
{
    if cs.len() == 0 {
        true
    } else if cs[0] == '/' {
        spec_pattern_ok(cs.skip(1), true)
    } else if cs[0] == '?' {
        spec_pattern_ok(cs.skip(1), false)
    } else if cs[0] == '*' {
        if boundary && cs.len() >= 2 && cs[1] == '*' && (cs.len() == 2 || cs[2] == '/') {
            if cs.len() == 2 {
                true
            } else {
                spec_pattern_ok(cs.skip(3), true)
            }
        } else {
            spec_pattern_ok(cs.skip(1), false)
        }
    } else if cs[0] == '\\' {
        cs.len() >= 2 && spec_pattern_ok(cs.skip(2), false)
    } else if cs[0] == '[' {
        let after = cs.skip(1);
        let body = if after.len() > 0 && (after[0] == '!' || after[0] == '^') {
            after.skip(1)
        } else {
            after
        };
        match spec_class_body(body) {
            Some(p) => spec_pattern_ok(p.1, false),
            None => false,
        }
    } else {
        spec_pattern_ok(cs.skip(1), false)
    }
}

#[via_fn]
proof fn spec_pattern_ok_decreases(cs: Seq<char>, boundary: bool) {
    if cs.len() > 0 && cs[0] != '/' && cs[0] != '?' && cs[0] != '*' && cs[0] != '\\'
        && cs[0] == '[' {
        let after = cs.skip(1);
        let body = if after.len() > 0 && (after[0] == '!' || after[0] == '^') {
            after.skip(1)
        } else {
            after
        };
        lemma_class_body_shrinks(body);
    }
}

/// Whether the token sequence is the compilation of the pattern characters,
/// scanning from a component boundary when `boundary` is set. The cases are
/// mutually exclusive, so for well-formed characters exactly one token
/// sequence qualifies.
pub open spec fn spec_tokens_for(toks: Seq<GlobToken>, cs: Seq<char>, boundary: bool) -> bool
    decreases toks.len(),
{
    if toks.len() == 0 {
        cs.len() == 0
    } else {
        match toks[0] {
            GlobToken::Slash => cs.len() > 0 && cs[0] == '/' && spec_tokens_for(
                toks.skip(1),
                cs.skip(1),
                true,
            ),
            GlobToken::AnyChar => cs.len() > 0 && cs[0] == '?' && spec_tokens_for(
                toks.skip(1),
                cs.skip(1),
                false,
            ),
            GlobToken::DoubleStar => boundary && cs.len() == 2 && cs[0] == '*' && cs[1] == '*'
                && toks.len() == 1,
            GlobToken::GlobBoundary => boundary && cs.len() >= 3 && cs[0] == '*' && cs[1] == '*'
                && cs[2] == '/' && spec_tokens_for(toks.skip(1), cs.skip(3), true),
            GlobToken::Star => cs.len() > 0 && cs[0] == '*' && !(boundary && cs.len() >= 2
                && cs[1] == '*' && (cs.len() == 2 || cs[2] == '/')) && spec_tokens_for(
                toks.skip(1),
                cs.skip(1),
                false,
            ),
            GlobToken::Lit(c) => cs.len() > 0 && if cs[0] == '\\' {
                cs.len() >= 2 && c == cs[1] && spec_tokens_for(toks.skip(1), cs.skip(2), false)
            } else {
                c == cs[0] && cs[0] != '/' && cs[0] != '?' && cs[0] != '*' && cs[0] != '['
                    && spec_tokens_for(toks.skip(1), cs.skip(1), false)
            },
            GlobToken::Class { negated, ranges } => cs.len() > 0 && cs[0] == '[' && {
                let after = cs.skip(1);
                let hasneg = after.len() > 0 && (after[0] == '!' || after[0] == '^');
                let body = if hasneg {
                    after.skip(1)
                } else {
                    after
                };
                negated == hasneg && match spec_class_body(body) {
                    Some(p) => ranges@ == p.0 && spec_tokens_for(toks.skip(1), p.1, false),
                    None => false,
                }
            },
        }
    }
}

/// Splitting a one-element prefix off a concatenation.
pub(crate) proof fn lemma_cons_skip<A>(x: A, t: Seq<A>)
    ensures
        (seq![x] + t)[0] == x,
        (seq![x] + t).skip(1) == t,
        (seq![x] + t).len() == 1 + t.len(),
{
    assert((seq![x] + t).skip(1) =~= t);
}

/// Reads a bracket expression body starting at `i` (just past the `[` and
/// any negation marker): the ranges and the index just past the closing `]`.
pub(crate) fn parse_class_body(cs: &Vec<char>, i: usize) -> (r: Result<(Vec<(char, char)>, usize), GlobError>)
    requires
        i <= cs@.len(),
    ensures
        match r {
            Ok(p) => {
                &&& spec_class_body(cs@.skip(i as int)) == Some((p.0@, cs@.skip(p.1 as int)))
                &&& i < p.1 <= cs@.len()
            },
            Err(_) => spec_class_body(cs@.skip(i as int)) is None,
        },
    decreases cs@.len() - i,
{
    let ghost pre = cs@.skip(i as int);
    if i == cs.len() {
        Err(GlobError::InvalidGlobPattern)
    } else if cs[i] == ']' {
        proof {
            assert(pre[0] == cs@[i as int]);
            assert(pre.skip(1) =~= cs@.skip(i + 1));
            assert(spec_class_body(pre) == Some((Seq::<(char, char)>::empty(), pre.skip(1))));
        }
        Ok((Vec::new(), i + 1))
    } else if cs.len() - i > 2 && cs[i + 1] == '-' && cs[i + 2] != ']' {
        proof {
            assert(pre.skip(3) =~= cs@.skip(i + 3));
            assert(pre[0] == cs@[i as int] && pre[1] == cs@[i + 1] && pre[2] == cs@[i + 2]);
        }
        match parse_class_body(cs, i + 3) {
            Ok((items, j)) => {
                let ghost items0 = items@;
                let mut out: Vec<(char, char)> = Vec::new();
                out.push((cs[i], cs[i + 2]));
                let mut items = items;
                out.append(&mut items);
                proof {
                    assert(out@ =~= seq![(pre[0], pre[2])] + items0);
                    assert(spec_class_body(pre) == Some((out@, cs@.skip(j as int))));
                }
                Ok((out, j))
            },
            Err(e) => Err(e),
        }
    } else {
        proof {
            assert(pre.skip(1) =~= cs@.skip(i + 1));
            assert(pre[0] == cs@[i as int]);
        }
        match parse_class_body(cs, i + 1) {
            Ok((items, j)) => {
                let ghost items0 = items@;
                let mut out: Vec<(char, char)> = Vec::new();
                out.push((cs[i], cs[i]));
                let mut items = items;
                out.append(&mut items);
                proof {
                    assert(out@ =~= seq![(pre[0], pre[0])] + items0);
                    assert(spec_class_body(pre) == Some((out@, cs@.skip(j as int))));
                }
                Ok((out, j))
            },
            Err(e) => Err(e),
        }
    }
}

/// Compiles the pattern characters from `i` on into tokens, scanning from a
/// component boundary when `boundary` is set. Fails exactly on malformed
/// syntax.
pub(crate) fn tokenize_at(cs: &Vec<char>, i: usize, boundary: bool) -> (r: Result<Vec<GlobToken>, GlobError>)
    requires
        i <= cs@.len(),
    ensures
        match r {
            Ok(toks) => spec_pattern_ok(cs@.skip(i as int), boundary) && spec_tokens_for(
                toks@,
                cs@.skip(i as int),
                boundary,
            ),
            Err(_) => !spec_pattern_ok(cs@.skip(i as int), boundary),
        },
    decreases cs@.len() - i,
{
    let ghost pre = cs@.skip(i as int);
    if i == cs.len() {
        return Ok(Vec::new());
    }
    proof {
        assert(pre[0] == cs@[i as int]);
        assert(pre.skip(1) =~= cs@.skip(i + 1));
    }
    let c = cs[i];
    if c == '/' {
        match tokenize_at(cs, i + 1, true) {
            Ok(mut toks) => {
                let ghost t0 = toks@;
                let mut out: Vec<GlobToken> = Vec::new();
                out.push(GlobToken::Slash);
                out.append(&mut toks);
                proof {
                    lemma_cons_skip(GlobToken::Slash, t0);
                    assert(out@ == seq![GlobToken::Slash] + t0);
                }
                Ok(out)
            },
            Err(e) => Err(e),
        }
    } else if c == '?' {
        match tokenize_at(cs, i + 1, false) {
            Ok(mut toks) => {
                let ghost t0 = toks@;
                let mut out: Vec<GlobToken> = Vec::new();
                out.push(GlobToken::AnyChar);
                out.append(&mut toks);
                proof {
                    lemma_cons_skip(GlobToken::AnyChar, t0);
                    assert(out@ == seq![GlobToken::AnyChar] + t0);
                }
                Ok(out)
            },
            Err(e) => Err(e),
        }
    } else if c == '*' {
        if boundary && i + 1 < cs.len() && cs[i + 1] == '*' && (i + 2 == cs.len() || cs[i + 2]
            == '/') {
            proof {
                assert(pre[1] == cs@[i + 1]);
            }
            if i + 2 == cs.len() {
                let mut toks: Vec<GlobToken> = Vec::new();
                toks.push(GlobToken::DoubleStar);
                proof {
                    assert(pre.len() == 2);
                }
                Ok(toks)
            } else {
                proof {
                    assert(pre[2] == cs@[i + 2]);
                    assert(pre.skip(3) =~= cs@.skip(i + 3));
                }
                match tokenize_at(cs, i + 3, true) {
                    Ok(mut toks) => {
                        let ghost t0 = toks@;
                        let mut out: Vec<GlobToken> = Vec::new();
                        out.push(GlobToken::GlobBoundary);
                        out.append(&mut toks);
                        proof {
                            assert(out@ =~= seq![GlobToken::GlobBoundary] + t0);
                            assert(out@.skip(1) =~= t0);
                            assert(out@[0] == GlobToken::GlobBoundary);
                        }
                        Ok(out)
                    },
                    Err(e) => Err(e),
                }
            }
        } else {
            proof {
                if pre.len() >= 2 {
                    assert(pre[1] == cs@[i + 1]);
                }
                if pre.len() >= 3 {
                    assert(pre[2] == cs@[i + 2]);
                }
            }
            match tokenize_at(cs, i + 1, false) {
                Ok(mut toks) => {
                    let ghost t0 = toks@;
                    let mut out: Vec<GlobToken> = Vec::new();
                    out.push(GlobToken::Star);
                    out.append(&mut toks);
                    proof {
                        assert(out@ =~= seq![GlobToken::Star] + t0);
                        assert(out@.skip(1) =~= t0);
                        assert(out@[0] == GlobToken::Star);
                    }
                    Ok(out)
                },
                Err(e) => Err(e),
            }
        }
    } else if c == '\\' {
        if i + 1 == cs.len() {
            return Err(GlobError::InvalidGlobPattern);
        }
        proof {
            assert(pre[1] == cs@[i + 1]);
            assert(pre.skip(2) =~= cs@.skip(i + 2));
        }
        match tokenize_at(cs, i + 2, false) {
            Ok(mut toks) => {
                let ghost t0 = toks@;
                let mut out: Vec<GlobToken> = Vec::new();
                out.push(GlobToken::Lit(cs[i + 1]));
                out.append(&mut toks);
                proof {
                    lemma_cons_skip(GlobToken::Lit(cs[i + 1]), t0);
                    assert(out@ == seq![GlobToken::Lit(cs[i + 1])] + t0);
                }
                Ok(out)
            },
            Err(e) => Err(e),
        }
    } else if c == '[' {
        let hasneg = i + 1 < cs.len() && (cs[i + 1] == '!' || cs[i + 1] == '^');
        let body_start = if hasneg {
            i + 2
        } else {
            i + 1
        };
        let ghost after = pre.skip(1);
        proof {
            if i + 1 < cs@.len() {
                assert(after[0] == cs@[i + 1]);
            }
            if hasneg {
                assert(after.skip(1) =~= cs@.skip(i + 2));
            }
            assert(cs@.skip(body_start as int) == if hasneg {
                after.skip(1)
            } else {
                after
            });
        }
        match parse_class_body(cs, body_start) {
            Ok((ranges, j)) => {
                proof {
                    lemma_class_body_shrinks(cs@.skip(body_start as int));
                }
                match tokenize_at(cs, j, false) {
                    Ok(mut toks) => {
                        let ghost t0 = toks@;
                        let ghost rs = ranges@;
                        toks.insert(0, GlobToken::Class { negated: hasneg, ranges });
                        proof {
                            assert(toks@.skip(1) =~= t0);
                        }
                        Ok(toks)
                    },
                    Err(e) => Err(e),
                }
            },
            Err(e) => Err(e),
        }
    } else {
        match tokenize_at(cs, i + 1, false) {
            Ok(mut toks) => {
                let ghost t0 = toks@;
                let mut out: Vec<GlobToken> = Vec::new();
                out.push(GlobToken::Lit(c));
                out.append(&mut toks);
                proof {
                    lemma_cons_skip(GlobToken::Lit(c), t0);
                    assert(out@ == seq![GlobToken::Lit(c)] + t0);
                }
                Ok(out)
            },
            Err(e) => Err(e),
        }
    }
}

/// Whether one character falls in (or, when negated, outside) a bracket
/// expression's ranges; `/` never matches a bracket expression.
pub open spec fn spec_class_matches(negated: bool, ranges: Seq<(char, char)>, c: char) -> bool {
    let inside = exists|k: int|
        0 <= k < ranges.len() && (#[trigger] ranges[k]).0 as u32 <= c as u32 && c as u32
            <= ranges[k].1 as u32;
    c != '/' && (if negated {
        !inside
    } else {
        inside
    })
}

/// Whether the tokens match the path characters exactly.
pub open spec fn spec_tokens_match(toks: Seq<GlobToken>, path: Seq<char>) -> bool
    decreases toks.len(), path.len(),
{
    if toks.len() == 0 {
        path.len() == 0
    } else {
        match toks[0] {
            GlobToken::Lit(c) => path.len() > 0 && path[0] == c && spec_tokens_match(
                toks.skip(1),
                path.skip(1),
            ),
            GlobToken::Slash => path.len() > 0 && path[0] == '/' && spec_tokens_match(
                toks.skip(1),
                path.skip(1),
            ),
            GlobToken::AnyChar => path.len() > 0 && path[0] != '/' && spec_tokens_match(
                toks.skip(1),
                path.skip(1),
            ),
            GlobToken::Class { negated, ranges } => path.len() > 0 && spec_class_matches(
                negated,
                ranges@,
                path[0],
            ) && spec_tokens_match(toks.skip(1), path.skip(1)),
            GlobToken::Star => spec_tokens_match(toks.skip(1), path) || (path.len() > 0
                && path[0] != '/' && spec_tokens_match(toks, path.skip(1))),
            GlobToken::DoubleStar => spec_tokens_match(toks.skip(1), path) || (path.len() > 0
                && spec_tokens_match(toks, path.skip(1))),
            GlobToken::GlobBoundary => spec_tokens_match(toks.skip(1), path) || (exists|k: int|
                0 <= k < path.len() && #[trigger] path[k] == '/' && spec_tokens_match(
                    toks,
                    path.skip(k + 1),
                )),
        }
    }
}

/// Whether one character falls in (or, when negated, outside) the ranges.
pub(crate) fn class_matches(negated: bool, ranges: &Vec<(char, char)>, c: char) -> (r: bool)
    ensures
        r == spec_class_matches(negated, ranges@, c),
{
    if c == '/' {
        return false;
    }
    let mut k: usize = 0;
    let mut inside = false;
    while k < ranges.len()
        invariant
            0 <= k <= ranges@.len(),
            inside == exists|j: int|
                0 <= j < k && (#[trigger] ranges@[j]).0 as u32 <= c as u32 && c as u32
                    <= ranges@[j].1 as u32,
        decreases ranges@.len() - k,
    {
        let (lo, hi) = ranges[k];
        if lo as u32 <= c as u32 && c as u32 <= hi as u32 {
            inside = true;
        }
        k += 1;
    }
    if negated {
        !inside
    } else {
        inside
    }
}

/// Whether the tokens from `ti` on match the path characters from `pi` on.
pub(crate) fn tokens_match_at(toks: &Vec<GlobToken>, ti: usize, path: &Vec<char>, pi: usize) -> (r: bool)
    requires
        ti <= toks@.len(),
        pi <= path@.len(),
    ensures
        r == spec_tokens_match(toks@.skip(ti as int), path@.skip(pi as int)),
    decreases toks@.len() - ti, path@.len() - pi,
{
    let ghost ts = toks@.skip(ti as int);
    let ghost ps = path@.skip(pi as int);
    if ti == toks.len() {
        return pi == path.len();
    }
    proof {
        assert(ts[0] == toks@[ti as int]);
        assert(ts.skip(1) =~= toks@.skip(ti + 1));
        if pi < path@.len() {
            assert(ps[0] == path@[pi as int]);
            assert(ps.skip(1) =~= path@.skip(pi + 1));
        }
    }
    match &toks[ti] {
        GlobToken::Lit(c) => {
            if pi < path.len() && path[pi] == *c {
                tokens_match_at(toks, ti + 1, path, pi + 1)
            } else {
                false
            }
        },
        GlobToken::Slash => {
            if pi < path.len() && path[pi] == '/' {
                tokens_match_at(toks, ti + 1, path, pi + 1)
            } else {
                false
            }
        },
        GlobToken::AnyChar => {
            if pi < path.len() && path[pi] != '/' {
                tokens_match_at(toks, ti + 1, path, pi + 1)
            } else {
                false
            }
        },
        GlobToken::Class { negated, ranges } => {
            if pi < path.len() && class_matches(*negated, ranges, path[pi]) {
                tokens_match_at(toks, ti + 1, path, pi + 1)
            } else {
                false
            }
        },
        GlobToken::Star => {
            if tokens_match_at(toks, ti + 1, path, pi) {
                true
            } else if pi < path.len() && path[pi] != '/' {
                tokens_match_at(toks, ti, path, pi + 1)
            } else {
                false
            }
        },
        GlobToken::DoubleStar => {
            if tokens_match_at(toks, ti + 1, path, pi) {
                true
            } else if pi < path.len() {
                tokens_match_at(toks, ti, path, pi + 1)
            } else {
                false
            }
        },
        GlobToken::GlobBoundary => {
            if tokens_match_at(toks, ti + 1, path, pi) {
                return true;
            }
            let mut k: usize = pi;
            while k < path.len()
                invariant
                    pi <= k <= path@.len(),
                    ti < toks@.len(),
                    toks@[ti as int] is GlobBoundary,
                    ts == toks@.skip(ti as int),
                    ps == path@.skip(pi as int),
                    forall|j: int|
                        pi <= j < k ==> !(#[trigger] path@[j] == '/' && spec_tokens_match(
                            ts,
                            path@.skip(j + 1),
                        )),
                decreases path@.len() - k,
            {
                if path[k] == '/' {
                    if tokens_match_at(toks, ti, path, k + 1) {
                        proof {
                            let j: int = k as int - pi as int;
                            assert(ps[j] == path@[k as int]);
                            assert(ps.skip(j + 1) =~= path@.skip(k + 1));
                            assert(0 <= j < ps.len() && ps[j] == '/' && spec_tokens_match(
                                ts,
                                ps.skip(j + 1),
                            ));
                            assert(spec_tokens_match(ts, ps));
                        }
                        return true;
                    }
                }
                k += 1;
            }
            proof {
                assert forall|j: int|
                    0 <= j < ps.len() && #[trigger] ps[j] == '/' implies !spec_tokens_match(
                    ts,
                    ps.skip(j + 1),
                ) by {
                    assert(path@[pi + j] == '/');
                    assert(ps.skip(j + 1) =~= path@.skip(pi + j + 1));
                    assert(!(path@[pi + j] == '/' && spec_tokens_match(
                        ts,
                        path@.skip(pi + j + 1),
                    )));
                }
            }
            false
        },
    }
}

} // verus!
