use unmake::ast::{Gem, Ore};
use unmake::warnings::{
    check_makefile_precedence, check_ub_late_posix_marker, lint, makefile_precedence, mock_md,
    ub_late_posix_marker, Warning,
};

#[test]
pub fn test_line_numbers() {
    assert_eq!(
        lint(mock_md("-"), "PKG=curl\n.POSIX:\n").unwrap(),
        vec![Warning {
            path: "-".to_string(),
            line: 2,
            policy: ub_late_posix_marker().to_string(),
        },]
    );
}

#[test]
pub fn test_ub_warnings() {
    assert_eq!(
        lint(mock_md("-"), "PKG=curl\n.POSIX:\n")
            .unwrap()
            .into_iter()
            .map(|e| e.policy)
            .collect::<Vec<String>>(),
        vec![ub_late_posix_marker()]
    );

    assert_eq!(
        lint(mock_md("-"), "PKG=curl\n.POSIX:\n.POSIX:\n")
            .unwrap()
            .into_iter()
            .map(|e| e.policy)
            .collect::<Vec<String>>(),
        vec![ub_late_posix_marker(), ub_late_posix_marker()]
    );

    assert_eq!(
        lint(mock_md("-"), "# strict posix\n.POSIX:\nPKG=curl\n")
            .unwrap()
            .into_iter()
            .map(|e| e.policy)
            .collect::<Vec<String>>(),
        Vec::<String>::new()
    );

    assert_eq!(
        lint(mock_md("-"), ".POSIX:\nPKG=curl\n")
            .unwrap()
            .into_iter()
            .map(|e| e.policy)
            .collect::<Vec<String>>(),
        Vec::<String>::new()
    );

    assert_eq!(
        lint(mock_md("-"), "PKG=curl\n")
            .unwrap()
            .into_iter()
            .map(|e| e.policy)
            .collect::<Vec<String>>(),
        Vec::<String>::new()
    );

    assert_eq!(
        lint(mock_md("-"), "\n")
            .unwrap()
            .into_iter()
            .map(|e| e.policy)
            .collect::<Vec<String>>(),
        Vec::<String>::new()
    );

    assert_eq!(
        lint(mock_md("-"), "")
            .unwrap()
            .into_iter()
            .map(|e| e.policy)
            .collect::<Vec<String>>(),
        Vec::<String>::new()
    );
}

#[test]
pub fn test_makefile_precedence() {
    assert_eq!(
        lint(mock_md("Makefile"), ".POSIX:\nPKG=curl\n")
            .unwrap()
            .into_iter()
            .map(|e| e.policy)
            .collect::<Vec<String>>(),
        vec![makefile_precedence()]
    );

    assert_eq!(
        lint(mock_md("makefile"), ".POSIX:\nPKG=curl\n")
            .unwrap()
            .into_iter()
            .map(|e| e.policy)
            .collect::<Vec<String>>(),
        Vec::<String>::new()
    );

    assert_eq!(
        lint(mock_md("foo.mk"), ".POSIX:\nPKG=curl\n")
            .unwrap()
            .into_iter()
            .map(|e| e.policy)
            .collect::<Vec<String>>(),
        Vec::<String>::new()
    );

    assert_eq!(
        lint(mock_md("foo.Makefile"), ".POSIX:\nPKG=curl\n")
            .unwrap()
            .into_iter()
            .map(|e| e.policy)
            .collect::<Vec<String>>(),
        Vec::<String>::new()
    );

    assert_eq!(
        lint(mock_md("foo.makefile"), ".POSIX:\nPKG=curl\n")
            .unwrap()
            .into_iter()
            .map(|e| e.policy)
            .collect::<Vec<String>>(),
        Vec::<String>::new()
    );
}

#[test]
fn test_double_late_marker_lines() {
    let ws = lint(mock_md("-"), "PKG=curl\n.POSIX:\n.POSIX:\n").unwrap();
    assert_eq!(ws.len(), 2);
    assert_eq!(ws[0].line, 2);
    assert_eq!(ws[1].line, 3);
}

#[test]
fn test_precedence_is_file_level() {
    let ws = lint(mock_md("Makefile"), "PKG=curl\n").unwrap();
    assert_eq!(ws.len(), 1);
    assert_eq!(ws[0].line, 0);
    assert_eq!(ws[0].path, "Makefile");
    assert_eq!(ws[0].policy, makefile_precedence());
}

#[test]
fn test_precedence_after_marker_warnings() {
    let ws = lint(mock_md("Makefile"), "PKG=curl\n.POSIX:\n").unwrap();
    assert_eq!(ws.len(), 2);
    assert_eq!(ws[0].policy, ub_late_posix_marker());
    assert_eq!(ws[1].policy, makefile_precedence());
}

#[test]
fn test_empty_and_blank_inputs_are_clean() {
    assert_eq!(lint(mock_md("-"), "").unwrap(), Vec::<Warning>::new());
    assert_eq!(lint(mock_md("-"), "\n").unwrap(), Vec::<Warning>::new());
}

#[test]
fn test_recipe_without_rule_is_an_error() {
    let r = lint(mock_md("-"), "\techo hi\n");
    assert_eq!(r.unwrap_err(), "error: -:1 recipe line outside a rule");
}

#[test]
fn test_lint_is_deterministic() {
    let a = lint(mock_md("Makefile"), "PKG=curl\n.POSIX:\n");
    let b = lint(mock_md("Makefile"), "PKG=curl\n.POSIX:\n");
    assert_eq!(a, b);
}

#[test]
fn test_late_marker_multi_digit_line() {
    let mut text = String::new();
    for _ in 0..11 {
        text.push_str("# filler\n");
    }
    text.push_str("PKG=curl\n.POSIX:\n");
    let ws = lint(mock_md("-"), &text).unwrap();
    assert_eq!(ws.len(), 1);
    assert_eq!(ws[0].line, 13);
}

#[test]
fn test_warning_new_and_default() {
    let w = Warning::new();
    assert_eq!(w.path, "");
    assert_eq!(w.line, 0);
    assert_eq!(w.policy, "");
    assert_eq!(Warning::default(), Warning::new());
}

#[test]
fn test_warning_render() {
    let w = Warning {
        path: "dir/Makefile".to_string(),
        line: 42,
        policy: ub_late_posix_marker().to_string(),
    };
    assert_eq!(
        w.render(),
        format!("warning: dir/Makefile:42 {}", ub_late_posix_marker())
    );
}

#[test]
fn test_policies_in_isolation() {
    let md = mock_md("-");
    let gems = vec![
        Gem { l: 1, n: Ore::Cm { t: "note".to_string() } },
        Gem {
            l: 2,
            n: Ore::Ru { ts: vec![".POSIX".to_string()], ps: vec![], cs: vec![] },
        },
    ];
    let ws = check_ub_late_posix_marker(&md, &gems);
    assert_eq!(ws.len(), 1);
    assert_eq!(ws[0].line, 2);
    assert_eq!(check_makefile_precedence(&md, &gems), Vec::<Warning>::new());
}
