//! Walk-time decisions: ignore-file rules and hidden-file handling.
//!
//! The caller drives the actual directory traversal and asks this module,
//! for each entry, whether a file is visible or a directory should be
//! descended into. Every directory may carry its own ignore file; rules in
//! a nested ignore file take precedence over ancestor ones for paths under
//! that directory; within one file later rules win over earlier ones, and a
//! `!`-negated rule re-includes a path ignored by an earlier rule.

use vstd::prelude::*;

use crate::filter::{
    GlobPattern, OverrideFilter, chars_vec, compile_pattern, spec_includes_file,
    spec_last_verdict, spec_pattern_from, spec_pattern_valid, spec_prunes_dir,
};

verus! {

/// The lines of a text, split at every newline: one more line than there
/// are newline characters; the newlines themselves are not part of any
/// line.
pub open spec fn spec_lines_of(cs: Seq<char>) -> Seq<Seq<char>>
    decreases cs.len(),
{
    if cs.len() == 0 {
        seq![Seq::<char>::empty()]
    } else {
        let rest = spec_lines_of(cs.skip(1));
        if cs[0] == '\n' {
            seq![Seq::<char>::empty()] + rest
        } else {
            seq![seq![cs[0]] + rest[0]] + rest.skip(1)
        }
    }
}

/// Splitting always yields at least one line.
pub proof fn lemma_lines_nonempty(cs: Seq<char>)
    ensures
        spec_lines_of(cs).len() >= 1,
    decreases cs.len(),
{
    if cs.len() > 0 {
        lemma_lines_nonempty(cs.skip(1));
    }
}

/// The line with its trailing spaces removed.
pub open spec fn spec_trim_spaces(l: Seq<char>) -> Seq<char>
    decreases l.len(),
{
    if l.len() > 0 && l.last() == ' ' {
        spec_trim_spaces(l.drop_last())
    } else {
        l
    }
}

/// The line as an ignore rule is read: a trailing carriage return (from a
/// CRLF checkout) is dropped, then trailing spaces.
pub open spec fn spec_clean_line(l: Seq<char>) -> Seq<char> {
    spec_trim_spaces(
        if l.len() > 0 && l.last() == '\r' {
            l.drop_last()
        } else {
            l
        },
    )
}

/// Whether a cleaned line carries a rule: blank lines, `#` comments and
/// malformed patterns are skipped.
pub open spec fn spec_keep_line(l: Seq<char>) -> bool {
    l.len() > 0 && l[0] != '#' && spec_pattern_valid(l)
}

/// The cleaned lines that carry rules, in file order.
pub open spec fn spec_kept_lines(ls: Seq<Seq<char>>) -> Seq<Seq<char>>
    decreases ls.len(),
{
    if ls.len() == 0 {
        Seq::<Seq<char>>::empty()
    } else {
        let l = spec_clean_line(ls[0]);
        let rest = spec_kept_lines(ls.skip(1));
        if spec_keep_line(l) {
            seq![l] + rest
        } else {
            rest
        }
    }
}

/// Whether `rules` are the compiled patterns of exactly these lines.
pub open spec fn spec_rules_for(rules: Seq<GlobPattern>, lines: Seq<Seq<char>>) -> bool {
    rules.len() == lines.len() && forall|i: int|
        0 <= i < lines.len() ==> spec_pattern_from(#[trigger] rules[i], lines[i])
}

/// The rules of one ignore file's text: one compiled pattern for each
/// non-blank, non-comment, well-formed line, in file order.
pub open spec fn spec_rules_of_text(cs: Seq<char>) -> Seq<Seq<char>> {
    spec_kept_lines(spec_lines_of(cs))
}

/// Removes trailing spaces in place.
fn trim_spaces(l: &mut Vec<char>)
    ensures
        final(l)@ == spec_trim_spaces(old(l)@),
{
    let ghost l0 = l@;
    while l.len() > 0 && l[l.len() - 1] == ' '
        invariant
            spec_trim_spaces(l@) == spec_trim_spaces(l0),
        decreases l@.len(),
    {
        let ghost before = l@;
        l.pop();
        proof {
            assert(l@ =~= before.drop_last());
        }
    }
}

/// Cleans one raw line and compiles it, or reports that it carries no rule.
fn compile_rule_line(line: Vec<char>) -> (r: Option<GlobPattern>)
    ensures
        match r {
            Some(p) => spec_keep_line(spec_clean_line(line@)) && spec_pattern_from(
                p,
                spec_clean_line(line@),
            ),
            None => !spec_keep_line(spec_clean_line(line@)),
        },
{
    let mut l = line;
    let ghost raw = l@;
    if l.len() > 0 && l[l.len() - 1] == '\r' {
        let ghost before = l@;
        l.pop();
        proof {
            assert(l@ =~= before.drop_last());
        }
    }
    trim_spaces(&mut l);
    proof {
        assert(l@ == spec_clean_line(raw));
    }
    if l.len() == 0 {
        return None;
    }
    if l[0] == '#' {
        return None;
    }
    match compile_pattern(&l) {
        Ok(p) => Some(p),
        Err(_) => None,
    }
}

/// Parses one ignore file's text into its rules, in file order: one rule
/// per non-blank, non-comment, well-formed line.
pub fn parse_ignore_rules(text: &Vec<char>) -> (r: Vec<GlobPattern>)
    ensures
        spec_rules_for(r@, spec_rules_of_text(text@)),
{
    let mut current: Vec<char> = Vec::new();
    let mut rules: Vec<GlobPattern> = Vec::new();
    let mut i: usize = text.len();
    proof {
        assert(text@.skip(i as int) =~= Seq::<char>::empty());
    }
    while i > 0
        invariant
            0 <= i <= text@.len(),
            spec_lines_of(text@.skip(i as int)).len() >= 1,
            current@ == spec_lines_of(text@.skip(i as int))[0],
            spec_rules_for(
                rules@,
                spec_kept_lines(spec_lines_of(text@.skip(i as int)).skip(1)),
            ),
        decreases i,
    {
        let ghost old_lines = spec_lines_of(text@.skip(i as int));
        i -= 1;
        let c = text[i];
        proof {
            assert(text@.skip(i as int).skip(1) =~= text@.skip(i + 1));
            assert(text@.skip(i as int)[0] == text@[i as int]);
            lemma_lines_nonempty(text@.skip(i as int));
        }
        if c == '\n' {
            let ghost finished = current@;
            let line = current;
            current = Vec::new();
            let maybe_rule = compile_rule_line(line);
            let ghost new_lines = spec_lines_of(text@.skip(i as int));
            proof {
                assert(new_lines == seq![Seq::<char>::empty()] + old_lines);
                assert(new_lines[0] =~= Seq::<char>::empty());
                assert(new_lines.skip(1) =~= old_lines);
                assert(spec_kept_lines(old_lines) == if spec_keep_line(
                    spec_clean_line(finished),
                ) {
                    seq![spec_clean_line(finished)] + spec_kept_lines(old_lines.skip(1))
                } else {
                    spec_kept_lines(old_lines.skip(1))
                }) by {
                    assert(old_lines[0] == finished);
                }
            }
            match maybe_rule {
                Some(p) => {
                    let ghost r0 = rules@;
                    let mut out: Vec<GlobPattern> = Vec::new();
                    out.push(p);
                    out.append(&mut rules);
                    rules = out;
                    proof {
                        crate::pattern::lemma_cons_skip(p, r0);
                        assert(rules@ == seq![p] + r0);
                        let kept = spec_kept_lines(spec_lines_of(text@.skip(i as int)).skip(1));
                        assert(kept == seq![spec_clean_line(finished)] + spec_kept_lines(
                            old_lines.skip(1),
                        ));
                        assert forall|k: int| 0 <= k < kept.len() implies spec_pattern_from(
                            #[trigger] rules@[k],
                            kept[k],
                        ) by {
                            if k == 0 {
                            } else {
                                assert(rules@[k] == r0[k - 1]);
                                assert(kept[k] == spec_kept_lines(old_lines.skip(1))[k - 1]);
                            }
                        }
                    }
                },
                None => {
                    proof {
                        assert(spec_kept_lines(spec_lines_of(text@.skip(i as int)).skip(1))
                            == spec_kept_lines(old_lines.skip(1)));
                    }
                },
            }
        } else {
            let ghost cur0 = current@;
            let mut out: Vec<char> = Vec::new();
            out.push(c);
            out.append(&mut current);
            current = out;
            let ghost new_lines = spec_lines_of(text@.skip(i as int));
            proof {
                crate::pattern::lemma_cons_skip(c, cur0);
                assert(current@ == seq![c] + cur0);
                assert(new_lines == seq![seq![text@[i as int]] + old_lines[0]] + old_lines.skip(
                    1,
                ));
                assert(new_lines[0] == seq![c] + cur0);
                assert(new_lines.skip(1) =~= old_lines.skip(1));
            }
        }
    }
    proof {
        assert(text@.skip(0) =~= text@);
    }
    let maybe_rule = compile_rule_line(current);
    let ghost all_lines = spec_lines_of(text@);
    proof {
        lemma_lines_nonempty(text@);
        assert(spec_kept_lines(all_lines) == if spec_keep_line(spec_clean_line(all_lines[0])) {
            seq![spec_clean_line(all_lines[0])] + spec_kept_lines(all_lines.skip(1))
        } else {
            spec_kept_lines(all_lines.skip(1))
        });
    }
    match maybe_rule {
        Some(p) => {
            let ghost r0 = rules@;
            let mut out: Vec<GlobPattern> = Vec::new();
            out.push(p);
            out.append(&mut rules);
            proof {
                crate::pattern::lemma_cons_skip(p, r0);
                assert(out@ == seq![p] + r0);
                let kept = spec_rules_of_text(text@);
                assert forall|k: int| 0 <= k < kept.len() implies spec_pattern_from(
                    #[trigger] out@[k],
                    kept[k],
                ) by {
                    if k == 0 {
                    } else {
                        assert(out@[k] == r0[k - 1]);
                        assert(kept[k] == spec_kept_lines(all_lines.skip(1))[k - 1]);
                    }
                }
            }
            out
        },
        None => rules,
    }
}

/// One directory's ignore rules: the directory's path prefix (empty for the
/// root, else the relative path with a trailing `/`) and the compiled
/// rules, which apply to paths under that directory, matched relative to
/// it.
#[derive(Debug, Clone)]
pub struct IgnoreLevel {
    pub prefix: Vec<char>,
    pub rules: Vec<GlobPattern>,
}

/// One level's opinion on a path: `Some(ignored)` when the path lies under
/// the level's directory and some rule matches the path relative to it (the
/// last matching rule decides, a negated rule re-includes); `None`
/// otherwise.
pub open spec fn spec_level_opinion(
    level: IgnoreLevel,
    path: Seq<char>,
    is_dir: bool,
) -> Option<bool> {
    if path.len() >= level.prefix@.len() && path.take(level.prefix@.len() as int)
        == level.prefix@ {
        match spec_last_verdict(
            level.rules@,
            path.skip(level.prefix@.len() as int),
            is_dir,
        ) {
            Some(negated) => Some(!negated),
            None => None,
        }
    } else {
        None
    }
}

/// Whether the stacked ignore files mark the path ignored: the deepest
/// level with an opinion decides, so nested ignore files take precedence
/// over ancestor ones.
pub open spec fn spec_stack_ignored(
    levels: Seq<IgnoreLevel>,
    path: Seq<char>,
    is_dir: bool,
) -> bool
    decreases levels.len(),
{
    if levels.len() == 0 {
        false
    } else {
        match spec_level_opinion(levels.last(), path, is_dir) {
            Some(b) => b,
            None => spec_stack_ignored(levels.drop_last(), path, is_dir),
        }
    }
}

/// The index where the basename (the part after the last `/`) starts.
pub open spec fn spec_basename_start(p: Seq<char>) -> int
    decreases p.len(),
{
    if p.len() == 0 {
        0
    } else if p.last() == '/' {
        p.len() as int
    } else {
        spec_basename_start(p.drop_last())
    }
}

/// Whether the entry's basename starts with a dot.
pub open spec fn spec_hidden(p: Seq<char>) -> bool {
    spec_basename_start(p) < p.len() && p[spec_basename_start(p)] == '.'
}

/// Whether the path's basename starts with a dot.
pub fn is_hidden(path: &Vec<char>) -> (r: bool)
    ensures
        r == spec_hidden(path@),
{
    let mut k: usize = path.len();
    proof {
        assert(path@.take(path@.len() as int) =~= path@);
    }
    while k > 0 && path[k - 1] != '/'
        invariant
            0 <= k <= path@.len(),
            spec_basename_start(path@) == spec_basename_start(path@.take(k as int)),
        decreases k,
    {
        proof {
            assert(path@.take(k as int).drop_last() =~= path@.take(k - 1));
            assert(path@.take(k as int).last() == path@[k - 1]);
        }
        k -= 1;
    }
    proof {
        if k > 0 {
            assert(path@.take(k as int).last() == path@[k - 1]);
            assert(spec_basename_start(path@.take(k as int)) == k);
        }
        assert(path@.take(0) =~= Seq::<char>::empty());
    }
    k < path.len() && path[k] == '.'
}

/// One level's opinion on the path characters.
fn level_opinion(level: &IgnoreLevel, path: &Vec<char>, is_dir: bool) -> (r: Option<bool>)
    ensures
        r == spec_level_opinion(*level, path@, is_dir),
{
    if path.len() < level.prefix.len() {
        return None;
    }
    let mut i: usize = 0;
    while i < level.prefix.len()
        invariant
            0 <= i <= level.prefix@.len() <= path@.len(),
            forall|j: int| 0 <= j < i ==> path@[j] == level.prefix@[j],
        decreases level.prefix@.len() - i,
    {
        if path[i] != level.prefix[i] {
            proof {
                assert(path@.take(level.prefix@.len() as int)[i as int] != level.prefix@[i as int]);
            }
            return None;
        }
        i += 1;
    }
    proof {
        assert(path@.take(level.prefix@.len() as int) =~= level.prefix@);
    }
    let mut rel: Vec<char> = Vec::new();
    let mut i: usize = level.prefix.len();
    while i < path.len()
        invariant
            level.prefix@.len() <= i <= path@.len(),
            rel@ == path@.subrange(level.prefix@.len() as int, i as int),
        decreases path@.len() - i,
    {
        rel.push(path[i]);
        proof {
            assert(rel@ =~= path@.subrange(level.prefix@.len() as int, i + 1));
        }
        i += 1;
    }
    proof {
        assert(rel@ =~= path@.skip(level.prefix@.len() as int));
    }
    match crate::filter::last_verdict(&level.rules, &rel, is_dir) {
        Some(negated) => Some(!negated),
        None => None,
    }
}

/// Whether the stacked ignore files mark the path ignored.
fn stack_ignored(levels: &Vec<IgnoreLevel>, path: &Vec<char>, is_dir: bool) -> (r: bool)
    ensures
        r == spec_stack_ignored(levels@, path@, is_dir),
{
    let mut j: usize = levels.len();
    proof {
        assert(levels@.take(levels@.len() as int) =~= levels@);
    }
    while j > 0
        invariant
            0 <= j <= levels@.len(),
            spec_stack_ignored(levels@, path@, is_dir) == spec_stack_ignored(
                levels@.take(j as int),
                path@,
                is_dir,
            ),
        decreases j,
    {
        j -= 1;
        proof {
            assert(levels@.take(j + 1).drop_last() =~= levels@.take(j as int));
            assert(levels@.take(j + 1).last() == levels@[j as int]);
        }
        match level_opinion(&levels[j], path, is_dir) {
            Some(b) => {
                return b;
            },
            None => {},
        }
    }
    false
}

/// The walk-time decision state: the override filter, the options, and the
/// stack of ignore levels for the directories currently being descended.
#[derive(Debug)]
pub struct Walker {
    pub filter: OverrideFilter,
    pub gitignore: bool,
    pub hidden_included: bool,
    pub levels: Vec<IgnoreLevel>,
}

/// Whether a regular file at the given relative path is visible: selected
/// by the override filter, not marked ignored by the stacked ignore files
/// (when they are honored), and not hidden (unless hidden files are
/// included).
pub open spec fn spec_file_visible(w: Walker, path: Seq<char>) -> bool {
    &&& spec_includes_file(w.filter.patterns@, path)
    &&& !w.gitignore || !spec_stack_ignored(w.levels@, path, false)
    &&& w.hidden_included || !spec_hidden(path)
}

/// Whether a directory at the given relative path is descended into: not
/// positively deselected by the filter, not marked ignored (when ignore
/// files are honored), and not hidden (unless hidden files are included).
pub open spec fn spec_dir_entered(w: Walker, path: Seq<char>) -> bool {
    &&& !spec_prunes_dir(w.filter.patterns@, path)
    &&& !w.gitignore || !spec_stack_ignored(w.levels@, path, true)
    &&& w.hidden_included || !spec_hidden(path)
}

/// The ignore-level prefix of a directory's relative path: empty for the
/// root, else the path with a trailing `/`.
pub open spec fn spec_dir_prefix(dir: Seq<char>) -> Seq<char> {
    if dir.len() == 0 {
        dir
    } else {
        dir + seq!['/']
    }
}

impl Walker {
    /// A fresh walker with no directories entered yet.
    pub fn new(filter: OverrideFilter, gitignore: bool, hidden_included: bool) -> (r: Walker)
        ensures
            r.filter == filter,
            r.gitignore == gitignore,
            r.hidden_included == hidden_included,
            r.levels@ =~= Seq::<IgnoreLevel>::empty(),
    {
        Walker { filter, gitignore, hidden_included, levels: Vec::new() }
    }

    /// Enters a directory (the root has the empty relative path), recording
    /// the rules of its ignore file, if it has one.
    pub fn push_dir(&mut self, dir_rel: &String, ignore_text: Option<&String>)
        ensures
            final(self).filter == old(self).filter,
            final(self).gitignore == old(self).gitignore,
            final(self).hidden_included == old(self).hidden_included,
            final(self).levels@.len() == old(self).levels@.len() + 1,
            final(self).levels@.drop_last() == old(self).levels@,
            final(self).levels@.last().prefix@ == spec_dir_prefix(dir_rel@),
            spec_rules_for(
                final(self).levels@.last().rules@,
                match ignore_text {
                    Some(t) => spec_rules_of_text(t@),
                    None => Seq::<Seq<char>>::empty(),
                },
            ),
    {
        let mut prefix = chars_vec(dir_rel.as_str());
        if prefix.len() > 0 {
            prefix.push('/');
            proof {
                assert(prefix@ =~= spec_dir_prefix(dir_rel@));
            }
        }
        let rules: Vec<GlobPattern> = match ignore_text {
            Some(t) => parse_ignore_rules(&chars_vec(t.as_str())),
            None => Vec::new(),
        };
        proof {
            if ignore_text is None {
                assert(spec_rules_for(Seq::<GlobPattern>::empty(), Seq::<Seq<char>>::empty()));
            }
        }
        let ghost before = self.levels@;
        self.levels.push(IgnoreLevel { prefix, rules });
        proof {
            assert(self.levels@.drop_last() =~= before);
        }
    }

    /// Leaves the most recently entered directory.
    pub fn pop_dir(&mut self)
        requires
            old(self).levels@.len() > 0,
        ensures
            final(self).filter == old(self).filter,
            final(self).gitignore == old(self).gitignore,
            final(self).hidden_included == old(self).hidden_included,
            final(self).levels@ == old(self).levels@.drop_last(),
    {
        let popped = self.levels.pop();
        proof {
            assert(self.levels@ =~= old(self).levels@.drop_last());
        }
    }

    /// Whether a regular file at the given relative path is visible.
    pub fn file_visible(&self, path: &String) -> (r: bool)
        ensures
            r == spec_file_visible(*self, path@),
    {
        let cs = chars_vec(path.as_str());
        if !self.filter.file_included(path) {
            return false;
        }
        if self.gitignore && stack_ignored(&self.levels, &cs, false) {
            return false;
        }
        if !self.hidden_included && is_hidden(&cs) {
            return false;
        }
        true
    }

    /// Whether a directory at the given relative path should be descended
    /// into; a directory that is not is never listed, so nothing under it
    /// is visited.
    pub fn dir_entered(&self, path: &String) -> (r: bool)
        ensures
            r == spec_dir_entered(*self, path@),
    {
        let cs = chars_vec(path.as_str());
        if self.filter.dir_pruned(path) {
            return false;
        }
        if self.gitignore && stack_ignored(&self.levels, &cs, true) {
            return false;
        }
        if !self.hidden_included && is_hidden(&cs) {
            return false;
        }
        true
    }
}

} // verus!
