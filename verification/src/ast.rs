//! The parser: classified logical lines become a flat, ordered syntax
//! tree.
//!
//! A rule header opens an accumulator; following recipe lines append to
//! its command list (blank and comment lines in between do not close
//! it); any other line kind flushes the accumulator as a finished `Rule`
//! node before being handled itself. A recipe line with no open rule, an
//! empty target list, a malformed assignment, an unterminated
//! continuation, or an unclassifiable line each abort the parse with a
//! single line-numbered error string.

use vstd::prelude::*;

use crate::scan::{
    classify, scan_text, spec_classify, spec_scan, Kind, LogicalLineV,
};
use crate::text::{
    dec_digits, first_unescaped, render_usize, split_ws, split_ws_str, trim, trim_substring,
    find_unescaped_at,
};

verus! {

/// Mathematical view of a node body.
pub ghost enum OreV {
    /// A rule: targets, prerequisites, commands.
    Ru { ts: Seq<Seq<char>>, ps: Seq<Seq<char>>, cs: Seq<Seq<char>> },
    /// A macro assignment: name and value.
    Mc { n: Seq<char>, v: Seq<char> },
    /// A directive: keyword and arguments.
    In { n: Seq<char>, args: Seq<Seq<char>> },
    /// A standalone comment.
    Cm { t: Seq<char> },
}

/// Mathematical view of a syntax node.
pub ghost struct GemV {
    /// 1-based physical line where the construct begins.
    pub l: int,
    /// The node body.
    pub n: OreV,
}

/// The body of one syntax node.
#[derive(Debug, PartialEq)]
pub enum Ore {
    /// A rule: targets, prerequisites, and tab-indented commands, each in
    /// textual order; duplicates are preserved.
    Ru { ts: Vec<String>, ps: Vec<String>, cs: Vec<String> },
    /// A macro assignment: name and value.
    Mc { n: String, v: String },
    /// A directive such as `include`, with its arguments.
    In { n: String, args: Vec<String> },
    /// A standalone comment.
    Cm { t: String },
}

/// One syntax node ("gem") of the tree.
#[derive(Debug, PartialEq)]
pub struct Gem {
    /// 1-based physical line where the construct begins.
    pub l: usize,
    /// The node body.
    pub n: Ore,
}

/// The result of a successful parse: a flat node sequence in source
/// order.
#[derive(Debug, PartialEq)]
pub struct ParseResult {
    /// The nodes, in strictly non-decreasing line order.
    pub ns: Vec<Gem>,
}

impl View for Ore {
    type V = OreV;

    open spec fn view(&self) -> OreV {
        match self {
            Ore::Ru { ts, ps, cs } => OreV::Ru {
                ts: ts.deep_view(),
                ps: ps.deep_view(),
                cs: cs.deep_view(),
            },
            Ore::Mc { n, v } => OreV::Mc { n: n@, v: v@ },
            Ore::In { n, args } => OreV::In { n: n@, args: args.deep_view() },
            Ore::Cm { t } => OreV::Cm { t: t@ },
        }
    }
}

impl View for Gem {
    type V = GemV;

    open spec fn view(&self) -> GemV {
        GemV { l: self.l as int, n: self.n@ }
    }
}

impl DeepView for Gem {
    type V = GemV;

    open spec fn deep_view(&self) -> GemV {
        self.view()
    }
}

impl View for ParseResult {
    type V = Seq<GemV>;

    open spec fn view(&self) -> Seq<GemV> {
        self.ns.deep_view()
    }
}

/// Why a parse failed.
#[derive(Clone, Copy, Debug, PartialEq, Eq)]
pub enum ErrKind {
    /// The final physical line ends in an unescaped backslash.
    UnterminatedContinuation,
    /// A tab-indented line appeared with no open rule.
    RecipeOutsideRule,
    /// A rule header with an empty target list.
    MalformedHeader,
    /// An assignment whose left-hand side is not one name.
    MalformedAssignment,
    /// An assignment with nothing after the operator.
    MissingValue,
    /// A line that fits no construct of the grammar.
    UnknownLine,
}

/// The human-readable cause for each parse failure.
pub open spec fn err_text(k: ErrKind) -> Seq<char> {
    match k {
        ErrKind::UnterminatedContinuation => "unterminated line continuation"@,
        ErrKind::RecipeOutsideRule => "recipe line outside a rule"@,
        ErrKind::MalformedHeader => "malformed rule header"@,
        ErrKind::MalformedAssignment => "malformed macro assignment"@,
        ErrKind::MissingValue => "assignment missing a right-hand side"@,
        ErrKind::UnknownLine => "malformed line"@,
    }
}

/// The single error string for a failed parse: the path, the 1-based
/// physical line, and the cause.
pub open spec fn spec_error(path: Seq<char>, line: int, k: ErrKind) -> Seq<char> {
    "error: "@ + path + ":"@ + dec_digits(line as nat) + " "@ + err_text(k)
}

fn err_str(k: ErrKind) -> (r: &'static str)
    ensures
        r@ == err_text(k),
{
    match k {
        ErrKind::UnterminatedContinuation => "unterminated line continuation",
        ErrKind::RecipeOutsideRule => "recipe line outside a rule",
        ErrKind::MalformedHeader => "malformed rule header",
        ErrKind::MalformedAssignment => "malformed macro assignment",
        ErrKind::MissingValue => "assignment missing a right-hand side",
        ErrKind::UnknownLine => "malformed line",
    }
}

/// Builds the line-numbered error string for a failed parse.
fn error_string(path: &str, line: usize, k: ErrKind) -> (r: String)
    ensures
        r@ == spec_error(path@, line as int, k),
{
    let mut s: String = "error: ".to_owned();
    s.append(path);
    s.append(":");
    let d = render_usize(line);
    s.append(d.as_str());
    s.append(" ");
    s.append(err_str(k));
    proof {
        assert(s@ =~= spec_error(path@, line as int, k));
    }
    s
}

/// Mathematical view of the open-rule accumulator.
pub ghost struct RuleAccV {
    /// Line of the rule header.
    pub l: int,
    /// Targets.
    pub ts: Seq<Seq<char>>,
    /// Prerequisites.
    pub ps: Seq<Seq<char>>,
    /// Commands collected so far.
    pub cs: Seq<Seq<char>>,
}

/// The open-rule accumulator: a rule header waiting for recipe lines.
pub struct RuleAcc {
    /// Line of the rule header.
    pub l: usize,
    /// Targets.
    pub ts: Vec<String>,
    /// Prerequisites.
    pub ps: Vec<String>,
    /// Commands collected so far.
    pub cs: Vec<String>,
}

impl View for RuleAcc {
    type V = RuleAccV;

    open spec fn view(&self) -> RuleAccV {
        RuleAccV {
            l: self.l as int,
            ts: self.ts.deep_view(),
            ps: self.ps.deep_view(),
            cs: self.cs.deep_view(),
        }
    }
}

/// View of an optional accumulator.
pub open spec fn acc_view(a: Option<RuleAcc>) -> Option<RuleAccV> {
    match a {
        Option::Some(x) => Option::Some(x@),
        Option::None => Option::None,
    }
}

/// The node emitted when an open rule closes; an absent accumulator
/// emits nothing.
pub open spec fn flush_acc(acc: Option<RuleAccV>) -> Seq<GemV> {
    match acc {
        Option::None => Seq::empty(),
        Option::Some(a) => seq![GemV { l: a.l, n: OreV::Ru { ts: a.ts, ps: a.ps, cs: a.cs } }],
    }
}

/// Parses a rule header `targets : prerequisites [; command]` into a
/// fresh accumulator; meaningful when the line has rule-header shape.
pub open spec fn parse_header(l: int, s: Seq<char>) -> Result<RuleAccV, ErrKind> {
    let ci = first_unescaped(s, ':');
    let head = s.take(ci);
    let rest = s.skip(ci + 1);
    let ts = split_ws(head);
    if ts.len() == 0 {
        Err(ErrKind::MalformedHeader)
    } else {
        let si = first_unescaped(rest, ';');
        if si == -1 {
            Ok(RuleAccV { l, ts, ps: split_ws(rest), cs: Seq::empty() })
        } else {
            let cmd = trim(rest.skip(si + 1));
            let ps = split_ws(rest.take(si));
            if cmd.len() == 0 {
                Ok(RuleAccV { l, ts, ps, cs: Seq::empty() })
            } else {
                Ok(RuleAccV { l, ts, ps, cs: seq![cmd] })
            }
        }
    }
}

/// Parses a macro assignment `name op= value` into a node; meaningful
/// when the line has assignment shape. The recognized operator forms are
/// `=`, `?=`, `+=` and `!=`.
pub open spec fn parse_assign(l: int, s: Seq<char>) -> Result<GemV, ErrKind> {
    let ei = first_unescaped(s, '=');
    let before = s.take(ei);
    let after = s.skip(ei + 1);
    let name_part = if before.len() > 0 && (before.last() == '?' || before.last() == '+'
        || before.last() == '!') {
        before.drop_last()
    } else {
        before
    };
    let name = trim(name_part);
    let value = trim(after);
    if split_ws(name_part).len() != 1 || name.len() == 0 {
        Err(ErrKind::MalformedAssignment)
    } else if value.len() == 0 {
        Err(ErrKind::MissingValue)
    } else {
        Ok(GemV { l, n: OreV::Mc { n: name, v: value } })
    }
}

/// Parses a directive line into a node; meaningful when the line has
/// directive shape (its first token is the keyword).
pub open spec fn parse_directive(l: int, s: Seq<char>) -> GemV {
    let toks = split_ws(s);
    GemV { l, n: OreV::In { n: toks[0], args: toks.skip(1) } }
}

/// One parser step: the accumulator and one logical line become the next
/// accumulator and the nodes emitted by this line, or a line-numbered
/// error.
pub open spec fn parse_step(acc: Option<RuleAccV>, ll: LogicalLineV) -> Result<
    (Option<RuleAccV>, Seq<GemV>),
    (int, ErrKind),
> {
    match spec_classify(ll.text) {
        Kind::Blank => Ok((acc, Seq::empty())),
        Kind::Comment => Ok((acc, Seq::empty())),
        Kind::Recipe => match acc {
            Option::None => Err((ll.start_line, ErrKind::RecipeOutsideRule)),
            Option::Some(a) => Ok(
                (
                    Option::Some(
                        RuleAccV { l: a.l, ts: a.ts, ps: a.ps, cs: a.cs.push(ll.text.skip(1)) },
                    ),
                    Seq::empty(),
                ),
            ),
        },
        Kind::RuleHeader => match parse_header(ll.start_line, ll.text) {
            Err(k) => Err((ll.start_line, k)),
            Ok(a2) => Ok((Option::Some(a2), flush_acc(acc))),
        },
        Kind::Assignment => match parse_assign(ll.start_line, ll.text) {
            Err(k) => Err((ll.start_line, k)),
            Ok(g) => Ok((Option::None, flush_acc(acc).push(g))),
        },
        Kind::Directive => Ok(
            (Option::None, flush_acc(acc).push(parse_directive(ll.start_line, ll.text))),
        ),
        Kind::Unknown => Err((ll.start_line, ErrKind::UnknownLine)),
    }
}

/// Folds the parser over the logical lines: the emitted nodes in order,
/// with any still-open rule flushed at end of input, or the first error.
pub open spec fn parse_fold(acc: Option<RuleAccV>, lls: Seq<LogicalLineV>) -> Result<
    Seq<GemV>,
    (int, ErrKind),
>
    decreases lls.len(),
{
    if lls.len() == 0 {
        Ok(flush_acc(acc))
    } else {
        match parse_step(acc, lls[0]) {
            Err(e) => Err(e),
            Ok(pair) => match parse_fold(pair.0, lls.skip(1)) {
                Err(e) => Err(e),
                Ok(rest) => Ok(pair.1 + rest),
            },
        }
    }
}

/// The parse of raw text `t`: its node sequence, or the line and cause
/// of the first error.
pub open spec fn spec_parse(t: Seq<char>) -> Result<Seq<GemV>, (int, ErrKind)> {
    match spec_scan(t) {
        Err(line) => Err((line, ErrKind::UnterminatedContinuation)),
        Ok(lls) => parse_fold(Option::None, lls),
    }
}

/// Parses a rule header line into a fresh accumulator.
fn parse_header_exec(l: usize, s: &str) -> (r: Result<RuleAcc, ErrKind>)
    requires
        crate::scan::rule_header_shape(s@),
    ensures
        match r {
            Ok(a) => parse_header(l as int, s@) == Ok::<RuleAccV, ErrKind>(a@) && a.l == l,
            Err(k) => parse_header(l as int, s@) == Err::<RuleAccV, ErrKind>(k),
        },
{
    let n = s.unicode_len();
    assert(s@.skip(0) =~= s@);
    let ci = match find_unescaped_at(s, ':', 0) {
        Option::Some(c) => c,
        Option::None => {
            proof {
                assert(false);
            }
            0
        },
    };
    let head = s.substring_char(0, ci);
    assert(head@ =~= s@.take(ci as int));
    let ts = split_ws_str(head);
    if ts.len() == 0 {
        assert(split_ws(s@.take(ci as int)).len() == 0);
        return Err(ErrKind::MalformedHeader);
    }
    let rest = s.substring_char(ci + 1, n);
    assert(rest@ =~= s@.skip(ci + 1));
    let rn = rest.unicode_len();
    assert(rest@.skip(0) =~= rest@);
    match find_unescaped_at(rest, ';', 0) {
        Option::None => {
            let ps = split_ws_str(rest);
            let cs: Vec<String> = Vec::new();
            let a = RuleAcc { l, ts, ps, cs };
            proof {
                assert(a@.cs =~= Seq::<Seq<char>>::empty());
            }
            Ok(a)
        },
        Option::Some(si) => {
            let before = rest.substring_char(0, si);
            assert(before@ =~= rest@.take(si as int));
            let ps = split_ws_str(before);
            let cmd = trim_substring(rest, si + 1, rn);
            assert(rest@.subrange(si + 1, rn as int) =~= rest@.skip(si + 1));
            if cmd.unicode_len() == 0 {
                let cs: Vec<String> = Vec::new();
                let a = RuleAcc { l, ts, ps, cs };
                proof {
                    assert(a@.cs =~= Seq::<Seq<char>>::empty());
                }
                Ok(a)
            } else {
                let mut cs: Vec<String> = Vec::new();
                let ghost cmdv = cmd@;
                cs.push(cmd);
                let a = RuleAcc { l, ts, ps, cs };
                proof {
                    assert(a@.cs =~= seq![cmdv]);
                }
                Ok(a)
            }
        },
    }
}

/// Parses a macro assignment line into a node.
fn parse_assign_exec(l: usize, s: &str) -> (r: Result<Gem, ErrKind>)
    requires
        spec_classify(s@) matches Kind::Assignment,
    ensures
        match r {
            Ok(g) => parse_assign(l as int, s@) == Ok::<GemV, ErrKind>(g@) && g.l == l,
            Err(k) => parse_assign(l as int, s@) == Err::<GemV, ErrKind>(k),
        },
{
    let n = s.unicode_len();
    assert(s@.skip(0) =~= s@);
    let ei = match find_unescaped_at(s, '=', 0) {
        Option::Some(e) => e,
        Option::None => {
            proof {
                assert(first_unescaped(s@, '=') == -1);
                assert(false);
            }
            0
        },
    };
    let before = s.substring_char(0, ei);
    assert(before@ =~= s@.take(ei as int));
    let bn = before.unicode_len();
    let name_end: usize = if bn > 0 {
        let last = before.get_char(bn - 1);
        assert(before@.last() == before@[bn - 1]);
        if last == '?' || last == '+' || last == '!' {
            bn - 1
        } else {
            bn
        }
    } else {
        0
    };
    let name_part = before.substring_char(0, name_end);
    proof {
        if name_end < bn {
            assert(name_part@ =~= before@.drop_last());
        } else {
            assert(name_part@ =~= before@);
        }
    }
    let toks = split_ws_str(name_part);
    let name = trim_substring(name_part, 0, name_end);
    assert(name_part@.subrange(0, name_end as int) =~= name_part@);
    let value = trim_substring(s, ei + 1, n);
    assert(s@.subrange(ei + 1, n as int) =~= s@.skip(ei + 1));
    if toks.len() != 1 || name.unicode_len() == 0 {
        Err(ErrKind::MalformedAssignment)
    } else if value.unicode_len() == 0 {
        Err(ErrKind::MissingValue)
    } else {
        Ok(Gem { l, n: Ore::Mc { n: name, v: value } })
    }
}

/// Parses a directive line into a node.
fn parse_directive_exec(l: usize, s: &str) -> (g: Gem)
    requires
        crate::scan::directive_shape(s@),
    ensures
        g@ == parse_directive(l as int, s@),
        g.l == l,
{
    let toks = split_ws_str(s);
    let mut rest: Vec<String> = Vec::new();
    let mut i: usize = 1;
    let tn = toks.len();
    assert(toks.deep_view().len() > 0);
    while i < tn
        invariant
            1 <= i <= tn,
            tn == toks@.len(),
            rest.deep_view() =~= toks.deep_view().subrange(1, i as int),
        decreases tn - i,
    {
        let ghost old_deep = rest.deep_view();
        rest.push(toks[i].clone());
        proof {
            assert(rest.deep_view() =~= old_deep.push(toks.deep_view()[i as int]));
            assert(rest.deep_view() =~= toks.deep_view().subrange(1, i + 1));
        }
        i = i + 1;
    }
    let name = toks[0].clone();
    let g = Gem { l, n: Ore::In { n: name, args: rest } };
    proof {
        assert(toks.deep_view().subrange(1, tn as int) =~= toks.deep_view().skip(1));
        assert(g@ == parse_directive(l as int, s@));
    }
    g
}

/// Turns a finished accumulator into its `Rule` node.
fn close_acc(a: RuleAcc) -> (g: Gem)
    ensures
        seq![g@] == flush_acc(Option::Some(a@)),
{
    Gem { l: a.l, n: Ore::Ru { ts: a.ts, ps: a.ps, cs: a.cs } }
}

/// Parses makefile text into its syntax tree. On any structural
/// violation the parse aborts with a single error string naming `path`,
/// the offending 1-based physical line, and the cause.
pub fn parse_posix(path: &str, text: &str) -> (r: Result<ParseResult, String>)
    ensures
        match r {
            Ok(p) => spec_parse(text@) == Ok::<Seq<GemV>, (int, ErrKind)>(p@),
            Err(s) => spec_parse(text@) matches Err(e) && s@ == spec_error(path@, e.0, e.1),
        },
{
    let lls = match scan_text(text) {
        Err(line) => {
            return Err(error_string(path, line, ErrKind::UnterminatedContinuation));
        },
        Ok(v) => v,
    };
    let ghost llsv = lls.deep_view();
    let mut ns: Vec<Gem> = Vec::new();
    let mut acc: Option<RuleAcc> = None;
    let mut i: usize = 0;
    let n = lls.len();
    assert(llsv.skip(0) =~= llsv);
    while i < n
        invariant
            i <= n,
            n == lls@.len(),
            llsv == lls.deep_view(),
            spec_scan(text@) == Ok::<Seq<LogicalLineV>, int>(llsv),
            (parse_fold(acc_view(acc), llsv.skip(i as int)) matches Ok(rest) ==> parse_fold(
                Option::None,
                llsv,
            ) == Ok::<Seq<GemV>, (int, ErrKind)>(ns.deep_view() + rest)),
            (parse_fold(acc_view(acc), llsv.skip(i as int)) matches Err(e) ==> parse_fold(
                Option::None,
                llsv,
            ) == Err::<Seq<GemV>, (int, ErrKind)>(e)),
        decreases n - i,
    {
        let ghost rem = llsv.skip(i as int);
        let ghost acc0 = acc_view(acc);
        let ghost old_deep = ns.deep_view();
        let ghost ll0 = rem[0];
        proof {
            assert(ll0 == lls@[i as int]@);
            assert(rem.skip(1) =~= llsv.skip(i as int + 1));
        }
        let line_no = lls[i].start_line;
        let k = classify(lls[i].text.as_str());
        assert(lls[i as int]@.text == lls[i as int].text@);
        assert(ll0.start_line == line_no as int);
        // The step this line takes, shared by every non-error arm below.
        let ghost step = parse_step(acc0, ll0);
        match k {
            Kind::Blank => {},
            Kind::Comment => {},
            Kind::Recipe => {
                match acc {
                    None => {
                        proof {
                            assert(parse_fold(acc0, rem) == Err::<Seq<GemV>, (int, ErrKind)>(
                                (ll0.start_line, ErrKind::RecipeOutsideRule),
                            ));
                        }
                        return Err(error_string(path, line_no, ErrKind::RecipeOutsideRule));
                    },
                    Some(mut a) => {
                        let text_ref: &str = lls[i].text.as_str();
                        let tlen = text_ref.unicode_len();
                        assert(ll0.text.len() > 0 && ll0.text[0] == '\t');
                        let cmd = text_ref.substring_char(1, tlen);
                        let ghost old_cs = a.cs.deep_view();
                        a.cs.push(cmd.to_owned());
                        proof {
                            assert(a.cs.deep_view() =~= old_cs.push(ll0.text.skip(1)));
                        }
                        acc = Some(a);
                        proof {
                            assert(step == Ok::<(Option<RuleAccV>, Seq<GemV>), (int, ErrKind)>(
                                (acc_view(acc), Seq::<GemV>::empty()),
                            ));
                        }
                    },
                }
            },
            Kind::RuleHeader => {
                match parse_header_exec(line_no, lls[i].text.as_str()) {
                    Err(kind) => {
                        proof {
                            assert(parse_fold(acc0, rem) == Err::<Seq<GemV>, (int, ErrKind)>(
                                (ll0.start_line, kind),
                            ));
                        }
                        return Err(error_string(path, line_no, kind));
                    },
                    Ok(a2) => {
                        match acc {
                            None => {},
                            Some(a) => {
                                let g = close_acc(a);
                                ns.push(g);
                            },
                        }
                        proof {
                            assert(ns.deep_view() =~= old_deep + flush_acc(acc0));
                        }
                        acc = Some(a2);
                        proof {
                            assert(step == Ok::<(Option<RuleAccV>, Seq<GemV>), (int, ErrKind)>(
                                (acc_view(acc), flush_acc(acc0)),
                            ));
                        }
                    },
                }
            },
            Kind::Assignment => {
                match parse_assign_exec(line_no, lls[i].text.as_str()) {
                    Err(kind) => {
                        proof {
                            assert(parse_fold(acc0, rem) == Err::<Seq<GemV>, (int, ErrKind)>(
                                (ll0.start_line, kind),
                            ));
                        }
                        return Err(error_string(path, line_no, kind));
                    },
                    Ok(g) => {
                        let ghost gv = g@;
                        match acc {
                            None => {},
                            Some(a) => {
                                let fg = close_acc(a);
                                ns.push(fg);
                            },
                        }
                        ns.push(g);
                        proof {
                            assert(ns.deep_view() =~= old_deep + flush_acc(acc0).push(gv));
                        }
                        acc = None;
                        proof {
                            assert(step == Ok::<(Option<RuleAccV>, Seq<GemV>), (int, ErrKind)>(
                                (acc_view(acc), flush_acc(acc0).push(gv)),
                            ));
                        }
                    },
                }
            },
            Kind::Directive => {
                let g = parse_directive_exec(line_no, lls[i].text.as_str());
                let ghost gv = g@;
                match acc {
                    None => {},
                    Some(a) => {
                        let fg = close_acc(a);
                        ns.push(fg);
                    },
                }
                ns.push(g);
                proof {
                    assert(ns.deep_view() =~= old_deep + flush_acc(acc0).push(gv));
                }
                acc = None;
                proof {
                    assert(step == Ok::<(Option<RuleAccV>, Seq<GemV>), (int, ErrKind)>(
                        (acc_view(acc), flush_acc(acc0).push(gv)),
                    ));
                }
            },
            Kind::Unknown => {
                proof {
                    assert(parse_fold(acc0, rem) == Err::<Seq<GemV>, (int, ErrKind)>(
                        (ll0.start_line, ErrKind::UnknownLine),
                    ));
                }
                return Err(error_string(path, line_no, ErrKind::UnknownLine));
            },
        }
        proof {
            // Re-establish the invariant: one unfolding of `parse_fold` on
            // `rem`, plus associativity of sequence concatenation.
            match step {
                Ok(pair) => {
                    assert(ns.deep_view() =~= old_deep + pair.1);
                    match parse_fold(pair.0, llsv.skip(i as int + 1)) {
                        Ok(rest2) => {
                            assert(parse_fold(acc0, rem) == Ok::<Seq<GemV>, (int, ErrKind)>(
                                pair.1 + rest2,
                            ));
                            assert(old_deep + (pair.1 + rest2) =~= ns.deep_view() + rest2);
                        },
                        Err(_) => {},
                    }
                },
                Err(_) => {
                    assert(false);
                },
            }
        }
        i = i + 1;
    }
    proof {
        assert(llsv.skip(i as int) =~= Seq::<LogicalLineV>::empty());
    }
    let ghost accf = acc_view(acc);
    let ghost pre_flush_deep = ns.deep_view();
    match acc {
        None => {},
        Some(a) => {
            let g = close_acc(a);
            ns.push(g);
        },
    }
    proof {
        assert(parse_fold(accf, llsv.skip(i as int)) == Ok::<Seq<GemV>, (int, ErrKind)>(
            flush_acc(accf),
        ));
        assert(ns.deep_view() =~= pre_flush_deep + flush_acc(accf));
    }
    let p = ParseResult { ns };
    Ok(p)
}

} // verus!
