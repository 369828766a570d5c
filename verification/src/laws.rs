//! Laws: properties of the parser and the lint engine, stated over the
//! spec-level model and proved once and for all.

use vstd::prelude::*;

use crate::ast::{parse_fold, spec_parse, GemV, RuleAccV};
use crate::scan::{
    group_len, join_group, lemma_group_len, phys_lines, scan_lines, spec_classify, spec_scan,
    Kind, LogicalLineV,
};
use crate::text::{is_cont, trailing_backslashes};
use crate::warnings::{
    makefile_precedence_text, spec_late_posix, spec_lint, spec_lint_gems, spec_precedence,
    ub_late_posix_text, WarningV,
};

verus! {

/// Law: linting is deterministic. The warnings are a function of the
/// file metadata and the raw text alone, so repeated invocations on
/// identical inputs yield identical warning sequences, and `lint`'s own
/// contract ties every call's result to this function.
pub proof fn lemma_lint_deterministic(
    md1: crate::inspect::MetadataV,
    md2: crate::inspect::MetadataV,
    t1: Seq<char>,
    t2: Seq<char>,
)
    requires
        md1 == md2,
        t1 == t2,
    ensures
        spec_lint(md1, t1) == spec_lint(md2, t2),
{
}

/// How many warnings in `ws` carry policy text `p`.
pub open spec fn count_policy(ws: Seq<WarningV>, p: Seq<char>) -> nat
    decreases ws.len(),
{
    if ws.len() == 0 {
        0
    } else {
        (if ws[0].policy == p {
            1nat
        } else {
            0nat
        }) + count_policy(ws.skip(1), p)
    }
}

/// Counting distributes over concatenation.
pub proof fn lemma_count_policy_append(a: Seq<WarningV>, b: Seq<WarningV>, p: Seq<char>)
    ensures
        count_policy(a + b, p) == count_policy(a, p) + count_policy(b, p),
    decreases a.len(),
{
    if a.len() == 0 {
        assert(a + b =~= b);
    } else {
        assert((a + b)[0] == a[0]);
        assert((a + b).skip(1) =~= a.skip(1) + b);
        lemma_count_policy_append(a.skip(1), b, p);
    }
}

/// Every warning of the late-marker policy carries that policy's text.
pub proof fn lemma_late_posix_all_marked(path: Seq<char>, gems: Seq<GemV>, i: int)
    ensures
        forall|k: int| 0 <= k < spec_late_posix(path, gems, i).len() ==> (#[trigger] spec_late_posix(
            path,
            gems,
            i,
        )[k]).policy == ub_late_posix_text(),
    decreases gems.len() - i,
{
    if i < 0 || i >= gems.len() {
    } else {
        lemma_late_posix_all_marked(path, gems, i + 1);
        let here = spec_late_posix(path, gems, i);
        let rest = spec_late_posix(path, gems, i + 1);
        assert forall|k: int| 0 <= k < here.len() implies (#[trigger] here[k]).policy
            == ub_late_posix_text() by {
            if crate::warnings::is_late_posix(gems, i) {
                if k > 0 {
                    assert(here[k] == rest[k - 1]);
                }
            } else {
                assert(here[k] == rest[k]);
            }
        }
    }
}

/// A sequence whose warnings all carry policy `p` counts zero for any
/// other policy `q`.
pub proof fn lemma_count_policy_none(ws: Seq<WarningV>, p: Seq<char>, q: Seq<char>)
    requires
        forall|k: int| 0 <= k < ws.len() ==> (#[trigger] ws[k]).policy == p,
        p != q,
    ensures
        count_policy(ws, q) == 0,
    decreases ws.len(),
{
    if ws.len() == 0 {
    } else {
        assert(ws[0].policy == p);
        assert forall|k: int| 0 <= k < ws.skip(1).len() implies (#[trigger] ws.skip(1)[k]).policy
            == p by {
            assert(ws.skip(1)[k] == ws[k + 1]);
        }
        lemma_count_policy_none(ws.skip(1), p, q);
    }
}

/// The two policy texts differ.
pub proof fn lemma_policy_texts_differ()
    ensures
        ub_late_posix_text() != makefile_precedence_text(),
{
    reveal_strlit(
        "UB_LATE_POSIX_MARKER: a .POSIX: special target rule must be either the first non-comment line, or absent",
    );
    reveal_strlit("MAKEFILE_PRECEDENCE: lowercase Makefile to makefile for launch speed");
    assert(ub_late_posix_text().len() != makefile_precedence_text().len());
}

/// Law: the makefile precedence advisory fires on the filename alone.
/// For any text that parses, a file named exactly `Makefile` gets
/// exactly one precedence warning, placed last, at file level (line 0),
/// regardless of content; any other filename gets none.
pub proof fn lemma_makefile_precedence(md: crate::inspect::MetadataV, text: Seq<char>)
    requires
        spec_parse(text) is Ok,
    ensures
        spec_lint(md, text) is Ok,
        md.filename == "Makefile"@ ==> {
            let ws = spec_lint(md, text)->Ok_0;
            &&& count_policy(ws, makefile_precedence_text()) == 1
            &&& ws.len() >= 1
            &&& ws.last().policy == makefile_precedence_text()
            &&& ws.last().line == 0
            &&& ws.last().path == md.path
        },
        md.filename != "Makefile"@ ==> count_policy(
            spec_lint(md, text)->Ok_0,
            makefile_precedence_text(),
        ) == 0,
{
    let gems = spec_parse(text)->Ok_0;
    let lp = spec_late_posix(md.path, gems, 0);
    let prec = spec_precedence(md, gems);
    let ws = spec_lint_gems(md, gems);
    lemma_late_posix_all_marked(md.path, gems, 0);
    lemma_policy_texts_differ();
    lemma_count_policy_none(lp, ub_late_posix_text(), makefile_precedence_text());
    lemma_count_policy_append(lp, prec, makefile_precedence_text());
    if md.filename == "Makefile"@ {
        assert(prec.skip(1) =~= Seq::<WarningV>::empty());
        assert(count_policy(Seq::<WarningV>::empty(), makefile_precedence_text()) == 0);
        assert(count_policy(prec, makefile_precedence_text()) == 1);
        assert(ws.last() == prec[0]);
    } else {
        assert(count_policy(prec, makefile_precedence_text()) == 0);
    }
}

/// A continuation group whose first physical line starts with a tab
/// joins into a logical line that starts with the same tab.
proof fn lemma_join_group_first_tab(ls: Seq<Seq<char>>, g: int)
    requires
        1 <= g <= ls.len(),
        ls[0].len() > 0,
        ls[0][0] == '\t',
        forall|k: int| 0 <= k < g - 1 ==> is_cont(#[trigger] ls[k]),
    ensures
        join_group(ls, g).len() > 0,
        join_group(ls, g)[0] == '\t',
    decreases g,
{
    if g <= 1 {
    } else {
        assert(is_cont(ls[0]));
        assert(ls[0].last() == '\\') by {
            if ls[0].last() != '\\' {
                assert(trailing_backslashes(ls[0]) == 0);
            }
        }
        assert(ls[0].len() >= 2) by {
            if ls[0].len() == 1 {
                assert(ls[0].last() == ls[0][0]);
            }
        }
        let tail = join_group(ls.skip(1), g - 1);
        assert(ls[0].drop_last().len() >= 1);
        assert(ls[0].drop_last()[0] == '\t');
        assert((ls[0].drop_last() + tail)[0] == '\t');
    }
}

/// Trailing backslashes across a concatenation: the right part decides,
/// except when it consists of backslashes alone, where the runs add up.
pub proof fn lemma_tb_append(a: Seq<char>, b: Seq<char>)
    ensures
        trailing_backslashes(a + b) == if trailing_backslashes(b) == b.len() {
            trailing_backslashes(b) + trailing_backslashes(a)
        } else {
            trailing_backslashes(b)
        },
    decreases b.len(),
{
    if b.len() == 0 {
        assert(a + b =~= a);
    } else if b.last() != '\\' {
        assert((a + b).last() == b.last());
    } else {
        assert((a + b).last() == b.last());
        assert((a + b).drop_last() =~= a + b.drop_last());
        lemma_tb_append(a, b.drop_last());
    }
}

/// First occurrence of `c` across a concatenation whose left part is
/// free of `c`.
pub proof fn lemma_first_index_append(s1: Seq<char>, s2: Seq<char>, c: char)
    requires
        crate::text::first_index(s1, c) == -1,
    ensures
        crate::text::first_index(s1 + s2, c) == if crate::text::first_index(s2, c) == -1 {
            -1
        } else {
            s1.len() + crate::text::first_index(s2, c)
        },
    decreases s1.len(),
{
    if s1.len() == 0 {
        assert(s1 + s2 =~= s2);
    } else {
        assert((s1 + s2)[0] == s1[0]);
        assert((s1 + s2).skip(1) =~= s1.skip(1) + s2);
        crate::scan::lemma_first_index(s1.skip(1), c);
        crate::scan::lemma_first_index(s2, c);
        lemma_first_index_append(s1.skip(1), s2, c);
    }
}

/// Law: continuation idempotence. For any newline-free line texts `a`
/// and `b`, neither of which ends in an unescaped backslash (an even
/// trailing backslash run, zero included), the two-line text
/// `a\‹newline›b‹newline›` parses exactly as the one-line text
/// `ab‹newline›`: the backslash and newline vanish and the single
/// logical line `ab` stands at line 1.
pub proof fn lemma_continuation_idempotent(a: Seq<char>, b: Seq<char>)
    requires
        forall|j: int| 0 <= j < a.len() ==> a[j] != '\n',
        forall|j: int| 0 <= j < b.len() ==> b[j] != '\n',
        trailing_backslashes(a) % 2 == 0,
        trailing_backslashes(b) % 2 == 0,
    ensures
        spec_parse(a + seq!['\\', '\n'] + b + seq!['\n']) == spec_parse(a + b + seq!['\n']),
{
    let bs = seq!['\\'];
    let nl = seq!['\n'];
    let abs = a + bs;
    let t1 = a + seq!['\\', '\n'] + b + seq!['\n'];
    let t2 = a + b + seq!['\n'];
    let joined = a + b;
    // Newline positions in both texts.
    crate::scan::lemma_first_index(a, '\n');
    crate::scan::lemma_first_index(b, '\n');
    assert(crate::text::first_index(a, '\n') == -1);
    assert(crate::text::first_index(b, '\n') == -1);
    assert(crate::text::first_index(bs, '\n') == -1) by {
        assert(bs.skip(1) =~= Seq::<char>::empty());
        assert(crate::text::first_index(Seq::<char>::empty(), '\n') == -1);
    }
    lemma_first_index_append(a, bs, '\n');
    assert(crate::text::first_index(abs, '\n') == -1);
    // Physical lines of t1: [a + '\', b].
    let s2 = nl + (b + nl);
    assert(crate::text::first_index(s2, '\n') == 0);
    lemma_first_index_append(abs, s2, '\n');
    assert(t1 =~= abs + s2);
    assert(crate::text::first_index(t1, '\n') == abs.len());
    assert(t1.take(a.len() as int + 1) =~= abs);
    assert(t1.skip(a.len() as int + 2) =~= b + nl);
    assert(crate::text::first_index(nl, '\n') == 0);
    lemma_first_index_append(b, nl, '\n');
    assert(crate::text::first_index(b + nl, '\n') == b.len());
    assert((b + nl).take(b.len() as int) =~= b);
    assert((b + nl).skip(b.len() as int + 1) =~= Seq::<char>::empty());
    assert(phys_lines(Seq::<char>::empty()) =~= Seq::<Seq<char>>::empty());
    assert(phys_lines(b + nl) =~= seq![b]);
    assert(t1.len() > 0);
    let ls1 = phys_lines(t1);
    assert(ls1 =~= seq![abs, b]);
    // Physical lines of t2: [a + b].
    lemma_first_index_append(a, b, '\n');
    assert(crate::text::first_index(joined, '\n') == -1);
    lemma_first_index_append(joined, nl, '\n');
    assert(t2 =~= joined + nl);
    assert(crate::text::first_index(t2, '\n') == joined.len());
    assert(t2.take(joined.len() as int) =~= joined);
    assert(t2.skip(joined.len() as int + 1) =~= Seq::<char>::empty());
    let ls2 = phys_lines(t2);
    assert(ls2 =~= seq![joined]);
    // The first line of t1 continues; b closes the group.
    assert(trailing_backslashes(bs) == 1) by {
        assert(bs.drop_last() =~= Seq::<char>::empty());
        assert(trailing_backslashes(Seq::<char>::empty()) == 0);
    }
    lemma_tb_append(a, bs);
    assert(trailing_backslashes(abs) == 1 + trailing_backslashes(a));
    assert(is_cont(abs));
    assert(!is_cont(b));
    lemma_tb_append(a, b);
    assert(!is_cont(joined));
    // Scan of t1: one logical line, `ab` at line 1.
    assert(group_len(seq![b]) == 1);
    assert(ls1.skip(1) =~= seq![b]);
    assert(group_len(ls1) == 2);
    assert(ls1[1] == b);
    assert(join_group(ls1.skip(1), 1) == b);
    assert(abs.drop_last() =~= a);
    assert(join_group(ls1, 2) =~= joined);
    assert(ls1.skip(2) =~= Seq::<Seq<char>>::empty());
    assert(scan_lines(Seq::<Seq<char>>::empty(), 3) == Ok::<Seq<LogicalLineV>, int>(
        Seq::<LogicalLineV>::empty(),
    ));
    let one = seq![LogicalLineV { start_line: 1, text: joined }];
    assert(scan_lines(ls1, 1) == Ok::<Seq<LogicalLineV>, int>(
        seq![LogicalLineV { start_line: 1, text: join_group(ls1, 2) }]
            + Seq::<LogicalLineV>::empty(),
    ));
    assert(seq![LogicalLineV { start_line: 1, text: join_group(ls1, 2) }]
        + Seq::<LogicalLineV>::empty() =~= one);
    // Scan of t2: the same logical line.
    assert(group_len(ls2) == 1);
    assert(join_group(ls2, 1) == joined);
    assert(ls2.skip(1) =~= Seq::<Seq<char>>::empty());
    assert(scan_lines(Seq::<Seq<char>>::empty(), 2) == Ok::<Seq<LogicalLineV>, int>(
        Seq::<LogicalLineV>::empty(),
    ));
    assert(scan_lines(ls2, 1) == Ok::<Seq<LogicalLineV>, int>(
        seq![LogicalLineV { start_line: 1, text: join_group(ls2, 1) }]
            + Seq::<LogicalLineV>::empty(),
    ));
    assert(seq![LogicalLineV { start_line: 1, text: join_group(ls2, 1) }]
        + Seq::<LogicalLineV>::empty() =~= one);
    assert(spec_scan(t1) == spec_scan(t2));
}

/// Law: malformed input produces an error, not warnings. Text whose
/// first character is a tab opens with a recipe line before any rule
/// header, so its parse (and hence any lint of it) fails with an error.
pub proof fn lemma_recipe_first_errors(text: Seq<char>)
    requires
        text.len() > 0,
        text[0] == '\t',
    ensures
        spec_parse(text) is Err,
{
    let ls = phys_lines(text);
    crate::scan::lemma_first_index(text, '\n');
    let fi = crate::text::first_index(text, '\n');
    assert(ls.len() > 0);
    assert(ls[0].len() > 0 && ls[0][0] == '\t') by {
        if fi == -1 {
            assert(ls[0] == text);
        } else {
            assert(fi >= 1);
            assert(ls[0] == text.take(fi));
            assert(text.take(fi)[0] == text[0]);
        }
    }
    match scan_lines(ls, 1) {
        Err(_) => {},
        Ok(lls) => {
            lemma_group_len(ls);
            let g = group_len(ls);
            if !is_cont(ls[g - 1]) {
                lemma_join_group_first_tab(ls, g);
                let joined = join_group(ls, g);
                assert(spec_classify(joined) is Recipe);
                match scan_lines(ls.skip(g), 1 + g) {
                    Ok(rest) => {
                        let head = LogicalLineV { start_line: 1, text: joined };
                        assert(lls == seq![head] + rest);
                        assert(lls[0] == head);
                        assert(parse_fold(Option::None, lls) is Err);
                    },
                    Err(_) => {},
                }
            }
        },
    }
}

/// Logical lines carry strictly increasing start lines, none before the
/// physical position of the text they came from.
pub proof fn lemma_scan_lines_ordered(ls: Seq<Seq<char>>, phys: int)
    ensures
        scan_lines(ls, phys) matches Ok(lls) ==> {
            &&& forall|k: int| 0 <= k < lls.len() ==> (#[trigger] lls[k]).start_line >= phys
            &&& forall|k: int, m: int|
                0 <= k < m < lls.len() ==> (#[trigger] lls[k]).start_line
                    < (#[trigger] lls[m]).start_line
        },
    decreases ls.len(),
{
    if ls.len() == 0 {
    } else {
        lemma_group_len(ls);
        let g = group_len(ls);
        if is_cont(ls[g - 1]) {
        } else {
            lemma_scan_lines_ordered(ls.skip(g), phys + g);
            match scan_lines(ls.skip(g), phys + g) {
                Ok(rest) => {
                    let lls = seq![LogicalLineV { start_line: phys, text: join_group(ls, g) }]
                        + rest;
                    assert forall|k: int| 0 <= k < lls.len() implies (#[trigger] lls[k]).start_line
                        >= phys by {
                        if k > 0 {
                            assert(lls[k] == rest[k - 1]);
                        }
                    }
                    assert forall|k: int, m: int|
                        0 <= k < m < lls.len() implies (#[trigger] lls[k]).start_line
                        < (#[trigger] lls[m]).start_line by {
                        assert(lls[m] == rest[m - 1]);
                        if k > 0 {
                            assert(lls[k] == rest[k - 1]);
                        }
                    }
                },
                Err(_) => {},
            }
        }
    }
}

/// The line that the next emitted node may not precede: the open rule's
/// header line, or the lower bound on the remaining input.
pub open spec fn acc_line(acc: Option<RuleAccV>, lo: int) -> int {
    match acc {
        Option::Some(a) => a.l,
        Option::None => lo,
    }
}

/// Concatenating a bounded, ordered prefix with an ordered suffix that
/// starts at or after the prefix's upper bound keeps the whole ordered.
proof fn lemma_concat_ordered(a: Seq<GemV>, b: Seq<GemV>, lo: int, cut: int)
    requires
        lo <= cut,
        forall|x: int| 0 <= x < a.len() ==> lo <= (#[trigger] a[x]).l <= cut,
        forall|x: int, y: int| 0 <= x < y < a.len() ==> (#[trigger] a[x]).l <= (#[trigger] a[y]).l,
        forall|x: int| 0 <= x < b.len() ==> (#[trigger] b[x]).l >= cut,
        forall|x: int, y: int| 0 <= x < y < b.len() ==> (#[trigger] b[x]).l <= (#[trigger] b[y]).l,
    ensures
        forall|x: int| 0 <= x < (a + b).len() ==> (#[trigger] (a + b)[x]).l >= lo,
        forall|x: int, y: int|
            0 <= x < y < (a + b).len() ==> (#[trigger] (a + b)[x]).l <= (#[trigger] (a + b)[y]).l,
{
    assert forall|x: int| 0 <= x < (a + b).len() implies (#[trigger] (a + b)[x]).l >= lo by {
        if x < a.len() {
            assert((a + b)[x] == a[x]);
        } else {
            assert((a + b)[x] == b[x - a.len()]);
        }
    }
    assert forall|x: int, y: int|
        0 <= x < y < (a + b).len() implies (#[trigger] (a + b)[x]).l <= (#[trigger] (a + b)[y]).l by {
        if x < a.len() {
            assert((a + b)[x] == a[x]);
        } else {
            assert((a + b)[x] == b[x - a.len()]);
        }
        if y < a.len() {
            assert((a + b)[y] == a[y]);
        } else {
            assert((a + b)[y] == b[y - a.len()]);
        }
    }
}

/// Nodes emitted by the fold stand in non-decreasing line order, none
/// before the open accumulator's own header line.
pub proof fn lemma_parse_fold_ordered(acc: Option<RuleAccV>, lls: Seq<LogicalLineV>, lo: int)
    requires
        acc matches Option::Some(a) ==> a.l <= lo,
        forall|k: int| 0 <= k < lls.len() ==> (#[trigger] lls[k]).start_line >= lo,
        forall|k: int, m: int|
            0 <= k < m < lls.len() ==> (#[trigger] lls[k]).start_line
                < (#[trigger] lls[m]).start_line,
    ensures
        parse_fold(acc, lls) matches Ok(gems) ==> {
            &&& forall|x: int| 0 <= x < gems.len() ==> (#[trigger] gems[x]).l >= acc_line(acc, lo)
            &&& forall|x: int, y: int|
                0 <= x < y < gems.len() ==> (#[trigger] gems[x]).l <= (#[trigger] gems[y]).l
        },
    decreases lls.len(),
{
    if lls.len() == 0 {
    } else {
        let ll0 = lls[0];
        assert(ll0.start_line >= lo);
        let lo2 = ll0.start_line;
        assert forall|k: int| 0 <= k < lls.skip(1).len() implies (#[trigger] lls.skip(
            1,
        )[k]).start_line >= lo2 by {
            assert(lls.skip(1)[k] == lls[k + 1]);
        }
        assert forall|k: int, m: int|
            0 <= k < m < lls.skip(1).len() implies (#[trigger] lls.skip(1)[k]).start_line
            < (#[trigger] lls.skip(1)[m]).start_line by {
            assert(lls.skip(1)[k] == lls[k + 1]);
            assert(lls.skip(1)[m] == lls[m + 1]);
        }
        match crate::ast::parse_step(acc, ll0) {
            Err(_) => {},
            Ok(pair) => {
                let acc1 = pair.0;
                let emitted = pair.1;
                // In every non-error step the new accumulator's line is
                // at most the next lower bound, and the emitted nodes sit
                // between the old and the new accumulator lines.
                assert(acc_line(acc, lo) <= acc_line(acc1, lo2) && (acc1
                    matches Option::Some(a1) ==> a1.l <= lo2) && (forall|x: int|
                    0 <= x < emitted.len() ==> acc_line(acc, lo) <= (#[trigger] emitted[x]).l
                        <= acc_line(acc1, lo2)) && (forall|x: int, y: int|
                    0 <= x < y < emitted.len() ==> (#[trigger] emitted[x]).l
                        <= (#[trigger] emitted[y]).l)) by {
                    match spec_classify(ll0.text) {
                        Kind::Blank => {},
                        Kind::Comment => {},
                        Kind::Recipe => {},
                        Kind::RuleHeader => {},
                        Kind::Assignment => {},
                        Kind::Directive => {},
                        Kind::Unknown => {},
                    }
                }
                lemma_parse_fold_ordered(acc1, lls.skip(1), lo2);
                match parse_fold(acc1, lls.skip(1)) {
                    Ok(rest) => {
                        lemma_concat_ordered(
                            emitted,
                            rest,
                            acc_line(acc, lo),
                            acc_line(acc1, lo2),
                        );
                    },
                    Err(_) => {},
                }
            },
        }
    }
}

/// Law: line fidelity. Every node of a successful parse carries a
/// 1-based line number — the physical line where its construct begins —
/// and the nodes appear in non-decreasing line order matching their
/// appearance in the source.
pub proof fn lemma_line_fidelity(text: Seq<char>)
    ensures
        spec_parse(text) matches Ok(gems) ==> {
            &&& forall|x: int| 0 <= x < gems.len() ==> (#[trigger] gems[x]).l >= 1
            &&& forall|x: int, y: int|
                0 <= x < y < gems.len() ==> (#[trigger] gems[x]).l <= (#[trigger] gems[y]).l
        },
{
    match spec_scan(text) {
        Err(_) => {},
        Ok(lls) => {
            lemma_scan_lines_ordered(phys_lines(text), 1);
            lemma_parse_fold_ordered(Option::None, lls, 1);
        },
    }
}

} // verus!
