//! warnings generates makefile recommendations.
//!
//! The lint engine holds a fixed, ordered registry of pure policies.
//! Each policy reads the file metadata and the syntax tree and returns
//! zero or more warnings; the engine concatenates the results in
//! registry order, with no deduplication and no re-sorting. The registry
//! order is: late `.POSIX` marker detector, then makefile filename
//! precedence advisory.

use vstd::prelude::*;

use crate::ast::{parse_posix, spec_error, spec_parse, Gem, GemV, Ore, OreV};
use crate::inspect::{Metadata, MetadataV};

verus! {

/// Mathematical view of a `Warning`.
pub ghost struct WarningV {
    /// The offending file path.
    pub path: Seq<char>,
    /// The 1-based line of the finding; 0 for file-level findings.
    pub line: int,
    /// The policy identifier and rationale.
    pub policy: Seq<char>,
}

/// Warning models a linter recommendation.
#[derive(Debug, PartialEq)]
pub struct Warning {
    /// path denotes an offending file path.
    pub path: String,

    /// line denotes the location of the relevant code section to enhance.
    pub line: usize,

    /// policy denotes the nature of the recommendation.
    pub policy: String,
}

impl View for Warning {
    type V = WarningV;

    open spec fn view(&self) -> WarningV {
        WarningV { path: self.path@, line: self.line as int, policy: self.policy@ }
    }
}

impl DeepView for Warning {
    type V = WarningV;

    open spec fn deep_view(&self) -> WarningV {
        self.view()
    }
}

impl Warning {
    /// new constructs a Warning.
    pub fn new() -> (w: Warning)
        ensures
            w@.path == Seq::<char>::empty(),
            w@.line == 0,
            w@.policy == Seq::<char>::empty(),
    {
        Warning { path: String::new(), line: 0, policy: String::new() }
    }

    /// render produces the console form of a Warning, of the exact shape
    /// `warning: <path>:<line> <policy>`.
    pub fn render(&self) -> (r: String)
        ensures
            r@ == spec_render(self@),
    {
        let mut s: String = "warning: ".to_owned();
        s.append(self.path.as_str());
        s.append(":");
        let d = crate::text::render_usize(self.line);
        s.append(d.as_str());
        s.append(" ");
        s.append(self.policy.as_str());
        proof {
            assert(s@ =~= spec_render(self@));
        }
        s
    }
}

impl Default for Warning {
    /// default generates a basic Warning.
    fn default() -> (w: Warning)
        ensures
            w@.path == Seq::<char>::empty(),
            w@.line == 0,
            w@.policy == Seq::<char>::empty(),
    {
        Warning::new()
    }
}

/// The console form of a warning.
pub open spec fn spec_render(w: WarningV) -> Seq<char> {
    "warning: "@ + w.path + ":"@ + crate::text::dec_digits(w.line as nat) + " "@ + w.policy
}

/// The identifier and rationale of the late `.POSIX` marker policy.
pub open spec fn ub_late_posix_text() -> Seq<char> {
    "UB_LATE_POSIX_MARKER: a .POSIX: special target rule must be either the first non-comment line, or absent"@
}

/// The identifier and rationale of the makefile precedence policy.
pub open spec fn makefile_precedence_text() -> Seq<char> {
    "MAKEFILE_PRECEDENCE: lowercase Makefile to makefile for launch speed"@
}

/// The identifier and rationale of the late `.POSIX` marker policy.
pub fn ub_late_posix_marker() -> (r: &'static str)
    ensures
        r@ == ub_late_posix_text(),
{
    "UB_LATE_POSIX_MARKER: a .POSIX: special target rule must be either the first non-comment line, or absent"
}

/// The identifier and rationale of the makefile precedence policy.
pub fn makefile_precedence() -> (r: &'static str)
    ensures
        r@ == makefile_precedence_text(),
{
    "MAKEFILE_PRECEDENCE: lowercase Makefile to makefile for launch speed"
}

/// Node `i` is a rule whose target list is exactly `[".POSIX"]` and
/// which is not the very first node of the tree.
pub open spec fn is_late_posix(gems: Seq<GemV>, i: int) -> bool {
    i > 0 && (gems[i].n matches OreV::Ru { ts, ps, cs } && ts.len() == 1 && ts[0] == ".POSIX"@)
}

/// The warnings of the late `.POSIX` marker policy for the nodes from
/// position `i` on, in node order.
pub open spec fn spec_late_posix(path: Seq<char>, gems: Seq<GemV>, i: int) -> Seq<WarningV>
    decreases gems.len() - i,
{
    if i < 0 || i >= gems.len() {
        Seq::empty()
    } else {
        let here = if is_late_posix(gems, i) {
            seq![WarningV { path, line: gems[i].l, policy: ub_late_posix_text() }]
        } else {
            Seq::<WarningV>::empty()
        };
        here + spec_late_posix(path, gems, i + 1)
    }
}

/// The warnings of the makefile precedence policy: exactly one warning
/// at line 0 when the filename is exactly `Makefile`, none otherwise.
pub open spec fn spec_precedence(md: MetadataV, gems: Seq<GemV>) -> Seq<WarningV> {
    if md.filename == "Makefile"@ {
        seq![WarningV { path: md.path, line: 0, policy: makefile_precedence_text() }]
    } else {
        Seq::empty()
    }
}

/// All warnings for a parsed tree: each policy's output, concatenated in
/// registry order.
pub open spec fn spec_lint_gems(md: MetadataV, gems: Seq<GemV>) -> Seq<WarningV> {
    spec_late_posix(md.path, gems, 0) + spec_precedence(md, gems)
}

/// The lint result for raw text: the warnings of every policy in
/// registry order, or the parser's single error string.
pub open spec fn spec_lint(md: MetadataV, text: Seq<char>) -> Result<Seq<WarningV>, Seq<char>> {
    match spec_parse(text) {
        Ok(gems) => Ok(spec_lint_gems(md, gems)),
        Err(e) => Err(spec_error(md.path, e.0, e.1)),
    }
}

/// check_ub_late_posix_marker reports UB_LATE_POSIX_MARKER violations:
/// one warning, at the node's own line, for every `.POSIX` rule that is
/// not the first node of the tree.
pub fn check_ub_late_posix_marker(metadata: &Metadata, gems: &[Gem]) -> (r: Vec<Warning>)
    ensures
        r.deep_view() == spec_late_posix(metadata@.path, gems.deep_view(), 0),
{
    let ghost deep = gems.deep_view();
    let ghost pathv = metadata@.path;
    let posix: String = ".POSIX".to_owned();
    let mut out: Vec<Warning> = Vec::new();
    let mut i: usize = 0;
    let n = gems.len();
    assert(out.deep_view() + spec_late_posix(pathv, deep, 0) =~= spec_late_posix(
        pathv,
        deep,
        0,
    ));
    while i < n
        invariant
            i <= n,
            n == gems@.len(),
            deep == gems.deep_view(),
            pathv == metadata@.path,
            posix@ == ".POSIX"@,
            spec_late_posix(pathv, deep, 0) == out.deep_view() + spec_late_posix(
                pathv,
                deep,
                i as int,
            ),
        decreases n - i,
    {
        let late: bool = if i == 0 {
            false
        } else {
            match &gems[i].n {
                Ore::Ru { ts, ps, cs } => ts.len() == 1 && ts[0].eq(&posix),
                _ => false,
            }
        };
        proof {
            assert(deep[i as int] == gems@[i as int]@);
        }
        assert(late == is_late_posix(deep, i as int));
        if late {
            let w = Warning {
                path: metadata.path.clone(),
                line: gems[i].l,
                policy: ub_late_posix_marker().to_owned(),
            };
            let ghost old_deep = out.deep_view();
            let ghost wv = w@;
            out.push(w);
            proof {
                assert(out.deep_view() =~= old_deep.push(wv));
                assert(seq![wv] + spec_late_posix(pathv, deep, i as int + 1) =~= spec_late_posix(
                    pathv,
                    deep,
                    i as int,
                ));
                assert(spec_late_posix(pathv, deep, 0) =~= out.deep_view() + spec_late_posix(
                    pathv,
                    deep,
                    i as int + 1,
                ));
            }
        } else {
            proof {
                assert(Seq::<WarningV>::empty() + spec_late_posix(pathv, deep, i as int + 1)
                    =~= spec_late_posix(pathv, deep, i as int));
            }
        }
        i = i + 1;
    }
    proof {
        assert(spec_late_posix(pathv, deep, i as int) =~= Seq::<WarningV>::empty());
        assert(spec_late_posix(pathv, deep, 0) =~= out.deep_view());
    }
    out
}

/// check_makefile_precedence reports MAKEFILE_PRECEDENCE violations: one
/// file-level warning at line 0 when the filename is exactly `Makefile`.
pub fn check_makefile_precedence(metadata: &Metadata, gems: &[Gem]) -> (r: Vec<Warning>)
    ensures
        r.deep_view() == spec_precedence(metadata@, gems.deep_view()),
{
    let canonical: String = "Makefile".to_owned();
    if metadata.filename.eq(&canonical) {
        let w = Warning {
            path: metadata.path.clone(),
            line: 0,
            policy: makefile_precedence().to_owned(),
        };
        let ghost wv = w@;
        let mut out: Vec<Warning> = Vec::new();
        out.push(w);
        proof {
            assert(out.deep_view() =~= seq![wv]);
        }
        out
    } else {
        let out: Vec<Warning> = Vec::new();
        proof {
            assert(out.deep_view() =~= Seq::<WarningV>::empty());
        }
        out
    }
}

/// lint generates warnings for a makefile: the text is parsed and every
/// registered policy runs over the tree, in registry order. A parse
/// failure is returned as the parser's single error string, and no
/// warnings are reported for such a file.
pub fn lint(metadata: Metadata, makefile: &str) -> (r: Result<Vec<Warning>, String>)
    ensures
        match r {
            Ok(ws) => spec_lint(metadata@, makefile@) == Ok::<Seq<WarningV>, Seq<char>>(
                ws.deep_view(),
            ),
            Err(s) => spec_lint(metadata@, makefile@) == Err::<Seq<WarningV>, Seq<char>>(s@),
        },
{
    let parsed = match parse_posix(metadata.path.as_str(), makefile) {
        Ok(p) => p,
        Err(e) => {
            return Err(e);
        },
    };
    let gems = parsed.ns;
    let gs: &[Gem] = gems.as_slice();
    assert(gs.deep_view() =~= gems.deep_view());
    let mut warnings: Vec<Warning> = check_ub_late_posix_marker(&metadata, gs);
    let ghost first = warnings.deep_view();
    let mut second: Vec<Warning> = check_makefile_precedence(&metadata, gs);
    let ghost secondv = second.deep_view();
    warnings.append(&mut second);
    proof {
        assert(warnings.deep_view() =~= first + secondv);
    }
    Ok(warnings)
}

/// mock_md constructs simulated Metadata for a hypothetical path: the
/// path doubles as the filename, and the file counts as a hand-written
/// makefile.
pub fn mock_md(pth: &str) -> (md: Metadata)
    ensures
        md@.path == pth@,
        md@.filename == pth@,
        md@.is_makefile,
        md@.build_system == "make"@,
        !md@.is_machine_generated,
{
    Metadata {
        path: pth.to_owned(),
        filename: pth.to_owned(),
        is_makefile: true,
        build_system: "make".to_owned(),
        is_machine_generated: false,
    }
}

} // verus!
