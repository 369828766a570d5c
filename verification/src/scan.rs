//! The scanner: physical lines, continuation joining, classification.
//!
//! Raw text is split on newlines into physical lines, counted from 1. A
//! physical line whose trailing backslash run has odd length continues
//! onto the next line; the whole chain joins into one logical line whose
//! `start_line` is the first physical line of the group. Each logical
//! line is then classified by its surface shape alone; ambiguous lines
//! are deferred to the parser as `Kind::Unknown`.

use vstd::prelude::*;

use crate::text::{
    find_char_at, find_unescaped_at, first_index, first_non_ws, first_non_ws_at, first_unescaped,
    is_cont, is_ws, split_ws, split_ws_str, ends_in_continuation,
};

verus! {

/// The surface shape of one logical line.
pub enum Kind {
    /// First character is a tab: a recipe (command) line.
    Recipe,
    /// Only whitespace.
    Blank,
    /// First non-whitespace character is `#`.
    Comment,
    /// Has a colon before any unescaped `=`.
    RuleHeader,
    /// Has an unescaped `=` (and no earlier colon).
    Assignment,
    /// First token is a recognized directive keyword (`include`).
    Directive,
    /// None of the above; the parser rejects it with a line number.
    Unknown,
}

/// Mathematical view of a logical line.
pub ghost struct LogicalLineV {
    /// 1-based physical line on which the logical line begins.
    pub start_line: int,
    /// The continuation-joined text.
    pub text: Seq<char>,
}

/// One logical line: one or more physical lines joined by
/// backslash-newline continuation.
pub struct LogicalLine {
    /// 1-based physical line on which the logical line begins.
    pub start_line: usize,
    /// The continuation-joined text.
    pub text: String,
}

impl View for LogicalLine {
    type V = LogicalLineV;

    open spec fn view(&self) -> LogicalLineV {
        LogicalLineV { start_line: self.start_line as int, text: self.text@ }
    }
}

impl DeepView for LogicalLine {
    type V = LogicalLineV;

    open spec fn deep_view(&self) -> LogicalLineV {
        self.view()
    }
}

/// Characterizes `first_index`: -1 means the character is absent, and
/// otherwise it is the smallest index holding the character.
pub proof fn lemma_first_index(s: Seq<char>, c: char)
    ensures
        first_index(s, c) == -1 ==> (forall|j: int| 0 <= j < s.len() ==> s[j] != c),
        first_index(s, c) != -1 ==> 0 <= first_index(s, c) < s.len() && s[first_index(s, c)]
            == c && (forall|j: int| 0 <= j < first_index(s, c) ==> s[j] != c),
    decreases s.len(),
{
    if s.len() == 0 {
    } else if s[0] == c {
    } else {
        lemma_first_index(s.skip(1), c);
        assert forall|j: int| 1 <= j < s.len() implies s[j] == s.skip(1)[j - 1] by {}
    }
}

/// The text split on newlines into physical lines. A trailing newline
/// closes the final line rather than opening an empty one.
pub open spec fn phys_lines(t: Seq<char>) -> Seq<Seq<char>>
    decreases t.len(),
    via phys_lines_decreases
{
    if t.len() == 0 {
        Seq::empty()
    } else {
        let i = first_index(t, '\n');
        if i == -1 {
            seq![t]
        } else {
            seq![t.take(i)] + phys_lines(t.skip(i + 1))
        }
    }
}

#[via_fn]
proof fn phys_lines_decreases(t: Seq<char>) {
    lemma_first_index(t, '\n');
}

/// Number of physical lines in the first continuation group of `ls`:
/// lines are consumed while they end in a continuation, plus the line
/// that closes the group (when one exists).
pub open spec fn group_len(ls: Seq<Seq<char>>) -> int
    decreases ls.len(),
{
    if ls.len() == 0 {
        0
    } else if !is_cont(ls[0]) {
        1
    } else {
        1 + group_len(ls.skip(1))
    }
}

/// Basic facts about `group_len`: it stays within the sequence, every
/// line before the last of the group continues, and the last line of the
/// group still continues only when the group ran off the end of input.
pub proof fn lemma_group_len(ls: Seq<Seq<char>>)
    requires
        ls.len() > 0,
    ensures
        1 <= group_len(ls) <= ls.len(),
        forall|k: int| 0 <= k < group_len(ls) - 1 ==> is_cont(ls[k]),
        is_cont(ls[group_len(ls) - 1]) ==> group_len(ls) == ls.len(),
    decreases ls.len(),
{
    if !is_cont(ls[0]) {
    } else if ls.len() == 1 {
        assert(ls.skip(1).len() == 0);
        assert(group_len(ls.skip(1)) == 0);
    } else {
        lemma_group_len(ls.skip(1));
        assert forall|k: int| 1 <= k < group_len(ls) - 1 implies is_cont(ls[k]) by {
            assert(ls[k] == ls.skip(1)[k - 1]);
        }
    }
}

/// The first `g` physical lines of `ls` joined into one logical line:
/// each continuation backslash is removed and the remainders are
/// concatenated directly.
pub open spec fn join_group(ls: Seq<Seq<char>>, g: int) -> Seq<char>
    decreases g,
{
    if g <= 1 {
        ls[0]
    } else {
        ls[0].drop_last() + join_group(ls.skip(1), g - 1)
    }
}

/// The physical lines `ls`, whose first line carries physical number
/// `phys`, resolved into logical lines; `Err` carries the physical line
/// number of an unterminated continuation.
pub open spec fn scan_lines(ls: Seq<Seq<char>>, phys: int) -> Result<Seq<LogicalLineV>, int>
    decreases ls.len(),
    via scan_lines_decreases
{
    if ls.len() == 0 {
        Ok(Seq::empty())
    } else {
        let g = group_len(ls);
        if is_cont(ls[g - 1]) {
            Err(phys + ls.len() - 1)
        } else {
            match scan_lines(ls.skip(g), phys + g) {
                Ok(rest) => Ok(
                    seq![LogicalLineV { start_line: phys, text: join_group(ls, g) }] + rest,
                ),
                Err(e) => Err(e),
            }
        }
    }
}

#[via_fn]
proof fn scan_lines_decreases(ls: Seq<Seq<char>>, phys: int) {
    if ls.len() > 0 {
        lemma_group_len(ls);
    }
}

/// The logical lines of raw text `t`, or the physical line number of an
/// unterminated continuation.
pub open spec fn spec_scan(t: Seq<char>) -> Result<Seq<LogicalLineV>, int> {
    scan_lines(phys_lines(t), 1)
}

/// The classification of logical line `s`, tried in order: recipe,
/// blank, comment, rule header, assignment, directive.
pub open spec fn spec_classify(s: Seq<char>) -> Kind {
    if s.len() > 0 && s[0] == '\t' {
        Kind::Recipe
    } else if first_non_ws(s) == -1 {
        Kind::Blank
    } else if s[first_non_ws(s)] == '#' {
        Kind::Comment
    } else if rule_header_shape(s) {
        Kind::RuleHeader
    } else if first_unescaped(s, '=') >= 0 {
        Kind::Assignment
    } else if directive_shape(s) {
        Kind::Directive
    } else {
        Kind::Unknown
    }
}

/// A rule header has a colon before any unescaped `=`.
pub open spec fn rule_header_shape(s: Seq<char>) -> bool {
    let ci = first_unescaped(s, ':');
    let ei = first_unescaped(s, '=');
    ci >= 0 && (ei == -1 || ci < ei)
}

/// A directive's first token is the keyword `include`.
pub open spec fn directive_shape(s: Seq<char>) -> bool {
    split_ws(s).len() > 0 && split_ws(s)[0] == "include"@
}

/// Splits raw text into physical lines.
pub fn split_physical(s: &str) -> (r: Vec<String>)
    ensures
        r.deep_view() == phys_lines(s@),
{
    let mut out: Vec<String> = Vec::new();
    let mut pos: usize = 0;
    let n = s.unicode_len();
    assert(s@.skip(0) =~= s@);
    assert(out.deep_view() + phys_lines(s@) =~= phys_lines(s@));
    while pos < n
        invariant
            pos <= n,
            n == s@.len(),
            phys_lines(s@) == out.deep_view() + phys_lines(s@.skip(pos as int)),
        decreases n - pos,
    {
        let ghost rem = s@.skip(pos as int);
        proof {
            lemma_first_index(rem, '\n');
        }
        match find_char_at(s, '\n', pos) {
            Some(j) => {
                let piece = s.substring_char(pos, j);
                let ghost old_deep = out.deep_view();
                out.push(piece.to_owned());
                proof {
                    assert(out.deep_view() =~= old_deep.push(piece@));
                    assert(rem.take(j - pos) =~= s@.subrange(pos as int, j as int));
                    assert(rem.skip(j - pos + 1) =~= s@.skip(j + 1));
                    assert(phys_lines(rem) == seq![piece@] + phys_lines(s@.skip(j + 1)));
                    assert(phys_lines(s@) =~= out.deep_view() + phys_lines(s@.skip(j + 1)));
                }
                pos = j + 1;
            },
            None => {
                let piece = s.substring_char(pos, n);
                let ghost old_deep = out.deep_view();
                out.push(piece.to_owned());
                proof {
                    assert(out.deep_view() =~= old_deep.push(piece@));
                    assert(rem =~= s@.subrange(pos as int, n as int));
                    assert(phys_lines(rem) == seq![piece@]);
                    assert(s@.skip(n as int) =~= Seq::<char>::empty());
                    assert(phys_lines(s@) =~= out.deep_view() + phys_lines(s@.skip(n as int)));
                }
                pos = n;
            },
        }
    }
    proof {
        assert(s@.skip(pos as int) =~= Seq::<char>::empty());
        assert(phys_lines(s@) =~= out.deep_view());
    }
    out
}

/// Length of the continuation group starting at `idx` in `lines`.
fn group_len_vec(lines: &Vec<String>, idx: usize) -> (g: usize)
    requires
        idx <= lines@.len(),
    ensures
        g == group_len(lines.deep_view().skip(idx as int)),
        idx + g <= lines@.len(),
    decreases lines@.len() - idx,
{
    let ghost ls = lines.deep_view().skip(idx as int);
    if idx >= lines.len() {
        assert(ls =~= Seq::<Seq<char>>::empty());
        0
    } else {
        assert(ls[0] == lines.deep_view()[idx as int]);
        if !ends_in_continuation(lines[idx].as_str()) {
            1
        } else {
            assert(ls.skip(1) =~= lines.deep_view().skip(idx + 1));
            let g = group_len_vec(lines, idx + 1);
            g + 1
        }
    }
}

/// Joins the `g`-line continuation group starting at `idx` in `lines`.
fn join_group_vec(lines: &Vec<String>, idx: usize, g: usize) -> (r: String)
    requires
        1 <= g,
        idx + g <= lines@.len(),
        forall|k: int| 0 <= k < g - 1 ==> is_cont(
            #[trigger] lines.deep_view().skip(idx as int)[k],
        ),
    ensures
        r@ == join_group(lines.deep_view().skip(idx as int), g as int),
    decreases g,
{
    let ghost ls = lines.deep_view().skip(idx as int);
    let total = lines.len();
    assert(ls[0] == lines.deep_view()[idx as int]);
    if g <= 1 {
        lines[idx].clone()
    } else {
        assert(idx + 1 <= total);
        let first: &str = lines[idx].as_str();
        let n = first.unicode_len();
        assert(is_cont(lines.deep_view().skip(idx as int)[0]));
        assert(is_cont(first@));
        assert(n >= 1) by {
            if first@.len() == 0 {
                assert(crate::text::trailing_backslashes(first@) == 0);
            }
        }
        let mut acc = first.substring_char(0, n - 1).to_owned();
        assert(acc@ =~= ls[0].drop_last());
        assert(ls.skip(1) =~= lines.deep_view().skip(idx as int + 1));
        assert forall|k: int| 0 <= k < g - 2 implies is_cont(
            #[trigger] lines.deep_view().skip(idx as int + 1)[k],
        ) by {
            assert(lines.deep_view().skip(idx as int + 1)[k] == lines.deep_view().skip(
                idx as int,
            )[k + 1]);
        }
        let rest = join_group_vec(lines, idx + 1, g - 1);
        assert(lines.deep_view().skip(idx as int + 1) =~= lines.deep_view().skip(
            (idx + 1) as int,
        ));
        acc.append(rest.as_str());
        acc
    }
}

/// Resolves raw text into logical lines; `Err` carries the physical
/// line number of an unterminated continuation.
pub fn scan_text(s: &str) -> (r: Result<Vec<LogicalLine>, usize>)
    ensures
        match r {
            Ok(v) => spec_scan(s@) == Ok::<Seq<LogicalLineV>, int>(v.deep_view()),
            Err(e) => spec_scan(s@) == Err::<Seq<LogicalLineV>, int>(e as int),
        },
{
    let lines = split_physical(s);
    let ghost deep = lines.deep_view();
    let n = lines.len();
    let mut out: Vec<LogicalLine> = Vec::new();
    let mut idx: usize = 0;
    assert(deep.skip(0) =~= deep);
    assert(out.deep_view() + Seq::<LogicalLineV>::empty() =~= out.deep_view());
    while idx < n
        invariant
            idx <= n,
            n == lines@.len(),
            deep == lines.deep_view(),
            deep == phys_lines(s@),
            (scan_lines(deep.skip(idx as int), idx as int + 1) matches Ok(rest) ==> scan_lines(
                deep,
                1,
            ) == Ok::<Seq<LogicalLineV>, int>(out.deep_view() + rest)),
            (scan_lines(deep.skip(idx as int), idx as int + 1) matches Err(e) ==> scan_lines(
                deep,
                1,
            ) == Err::<Seq<LogicalLineV>, int>(e)),
        decreases n - idx,
    {
        let ghost ls = deep.skip(idx as int);
        proof {
            lemma_group_len(ls);
        }
        let g = group_len_vec(&lines, idx);
        assert(g >= 1);
        assert(ls[g - 1] == deep[idx + g - 1]);
        if ends_in_continuation(lines[idx + g - 1].as_str()) {
            proof {
                assert(deep[idx + g - 1] == lines@[idx + g - 1]@);
                assert(is_cont(ls[g - 1]));
                assert(scan_lines(ls, idx as int + 1) == Err::<Seq<LogicalLineV>, int>(
                    idx as int + 1 + ls.len() - 1,
                ));
                assert(idx as int + ls.len() == n);
                assert(scan_lines(deep, 1) == Err::<Seq<LogicalLineV>, int>(n as int));
                assert(deep == phys_lines(s@));
                assert(spec_scan(s@) == scan_lines(deep, 1));
            }
            return Err(n);
        }
        assert(ls == lines.deep_view().skip(idx as int));
        let joined = join_group_vec(&lines, idx, g);
        let ghost old_deep = out.deep_view();
        out.push(LogicalLine { start_line: idx + 1, text: joined });
        proof {
            assert(out.deep_view() =~= old_deep.push(
                LogicalLineV { start_line: idx as int + 1, text: join_group(ls, g as int) },
            ));
            assert(ls.skip(g as int) =~= deep.skip(idx + g));
            match scan_lines(deep.skip(idx + g), idx + g + 1) {
                Ok(rest) => {
                    assert(scan_lines(ls, idx as int + 1) == Ok::<Seq<LogicalLineV>, int>(
                        seq![
                            LogicalLineV {
                                start_line: idx as int + 1,
                                text: join_group(ls, g as int),
                            },
                        ] + rest,
                    ));
                    assert(old_deep + (seq![
                        LogicalLineV {
                            start_line: idx as int + 1,
                            text: join_group(ls, g as int),
                        },
                    ] + rest) =~= out.deep_view() + rest);
                },
                Err(_) => {},
            }
        }
        idx = idx + g;
    }
    proof {
        assert(deep.skip(idx as int) =~= Seq::<Seq<char>>::empty());
        assert(out.deep_view() + Seq::<LogicalLineV>::empty() =~= out.deep_view());
    }
    Ok(out)
}

/// Classifies one logical line by its surface shape.
pub fn classify(s: &str) -> (k: Kind)
    ensures
        k == spec_classify(s@),
{
    let n = s.unicode_len();
    if n > 0 && s.get_char(0) == '\t' {
        return Kind::Recipe;
    }
    assert(s@.skip(0) =~= s@);
    let f = match first_non_ws_at(s, 0) {
        None => {
            return Kind::Blank;
        },
        Some(f) => f,
    };
    if s.get_char(f) == '#' {
        return Kind::Comment;
    }
    let ci = find_unescaped_at(s, ':', 0);
    let ei = find_unescaped_at(s, '=', 0);
    match (ci, ei) {
        (Some(c), Some(e)) => {
            if c < e {
                return Kind::RuleHeader;
            } else {
                return Kind::Assignment;
            }
        },
        (Some(_), None) => {
            return Kind::RuleHeader;
        },
        (None, Some(_)) => {
            return Kind::Assignment;
        },
        (None, None) => {},
    }
    let toks = split_ws_str(s);
    if toks.len() > 0 {
        let kw: String = "include".to_owned();
        proof {
            assert(toks.deep_view()[0] == toks@[0]@);
        }
        if toks[0].eq(&kw) {
            return Kind::Directive;
        }
    }
    Kind::Unknown
}

} // verus!
