use unmake::ast::{Gem, Ore};
use unmake::parse_posix;

#[test]
fn test_empty_input_parses_to_no_nodes() {
    assert_eq!(parse_posix("-", "").unwrap().ns, Vec::<Gem>::new());
    assert_eq!(parse_posix("-", "\n").unwrap().ns, Vec::<Gem>::new());
}

#[test]
fn test_assignment_node() {
    let p = parse_posix("-", "PKG=curl\n").unwrap();
    assert_eq!(
        p.ns,
        vec![Gem { l: 1, n: Ore::Mc { n: "PKG".to_string(), v: "curl".to_string() } }]
    );
}

#[test]
fn test_assignment_operators() {
    let p = parse_posix("-", "A = 1\nB ?= 2\nC += 3\nD != 4\n").unwrap();
    assert_eq!(p.ns.len(), 4);
    assert_eq!(p.ns[0].n, Ore::Mc { n: "A".to_string(), v: "1".to_string() });
    assert_eq!(p.ns[1].n, Ore::Mc { n: "B".to_string(), v: "2".to_string() });
    assert_eq!(p.ns[2].n, Ore::Mc { n: "C".to_string(), v: "3".to_string() });
    assert_eq!(p.ns[3].n, Ore::Mc { n: "D".to_string(), v: "4".to_string() });
}

#[test]
fn test_rule_with_recipes() {
    let p = parse_posix("-", "all: one two\n\tcc -o all one.o\n\techo done\n").unwrap();
    assert_eq!(
        p.ns,
        vec![Gem {
            l: 1,
            n: Ore::Ru {
                ts: vec!["all".to_string()],
                ps: vec!["one".to_string(), "two".to_string()],
                cs: vec!["cc -o all one.o".to_string(), "echo done".to_string()],
            },
        }]
    );
}

#[test]
fn test_rule_with_inline_command() {
    let p = parse_posix("-", "all: dep ; echo hi\n").unwrap();
    assert_eq!(
        p.ns,
        vec![Gem {
            l: 1,
            n: Ore::Ru {
                ts: vec!["all".to_string()],
                ps: vec!["dep".to_string()],
                cs: vec!["echo hi".to_string()],
            },
        }]
    );
}

#[test]
fn test_comment_and_blank_keep_rule_open() {
    let p = parse_posix("-", "a: b\n# note\n\n\tcmd\n").unwrap();
    assert_eq!(
        p.ns,
        vec![Gem {
            l: 1,
            n: Ore::Ru {
                ts: vec!["a".to_string()],
                ps: vec!["b".to_string()],
                cs: vec!["cmd".to_string()],
            },
        }]
    );
}

#[test]
fn test_directive_node() {
    let p = parse_posix("-", "include foo.mk bar.mk\n").unwrap();
    assert_eq!(
        p.ns,
        vec![Gem {
            l: 1,
            n: Ore::In {
                n: "include".to_string(),
                args: vec!["foo.mk".to_string(), "bar.mk".to_string()],
            },
        }]
    );
}

#[test]
fn test_escaped_whitespace_stays_in_token() {
    let p = parse_posix("-", "a\\ b: c\n").unwrap();
    assert_eq!(
        p.ns,
        vec![Gem {
            l: 1,
            n: Ore::Ru {
                ts: vec!["a\\ b".to_string()],
                ps: vec!["c".to_string()],
                cs: vec![],
            },
        }]
    );
}

#[test]
fn test_continuation_joins_into_one_node() {
    let joined = parse_posix("-", "PKG=cu\\\nrl\n").unwrap();
    let plain = parse_posix("-", "PKG=curl\n").unwrap();
    assert_eq!(joined, plain);
    assert_eq!(joined.ns[0].l, 1);
}

#[test]
fn test_line_numbers_after_continuation() {
    let p = parse_posix("-", "A = 1\\\n2\nB = 3\n").unwrap();
    assert_eq!(p.ns.len(), 2);
    assert_eq!(p.ns[0].l, 1);
    assert_eq!(p.ns[0].n, Ore::Mc { n: "A".to_string(), v: "12".to_string() });
    assert_eq!(p.ns[1].l, 3);
    assert_eq!(p.ns[1].n, Ore::Mc { n: "B".to_string(), v: "3".to_string() });
}

#[test]
fn test_line_numbers_skip_comments_and_blanks() {
    let p = parse_posix("-", "# hdr\n\nfoo: bar\n\tcmd1\n\tcmd2\n\nX = y\n").unwrap();
    assert_eq!(p.ns.len(), 2);
    assert_eq!(p.ns[0].l, 3);
    assert_eq!(p.ns[1].l, 7);
}

#[test]
fn test_special_target_is_an_ordinary_rule() {
    let p = parse_posix("-", ".POSIX:\n").unwrap();
    assert_eq!(
        p.ns,
        vec![Gem {
            l: 1,
            n: Ore::Ru { ts: vec![".POSIX".to_string()], ps: vec![], cs: vec![] },
        }]
    );
}

#[test]
fn test_unterminated_continuation_is_an_error() {
    assert_eq!(
        parse_posix("-", "X = 1\\").unwrap_err(),
        "error: -:1 unterminated line continuation"
    );
    assert_eq!(
        parse_posix("-", "X = 1\\\n").unwrap_err(),
        "error: -:1 unterminated line continuation"
    );
    assert_eq!(
        parse_posix("-", "A = 1\nX = 1\\\n").unwrap_err(),
        "error: -:2 unterminated line continuation"
    );
}

#[test]
fn test_recipe_outside_rule_is_an_error() {
    assert_eq!(
        parse_posix("-", "\techo hi\n").unwrap_err(),
        "error: -:1 recipe line outside a rule"
    );
    assert_eq!(
        parse_posix("-", "A = 1\n\n\techo hi\n").unwrap_err(),
        "error: -:3 recipe line outside a rule"
    );
}

#[test]
fn test_malformed_header_is_an_error() {
    assert_eq!(
        parse_posix("-", ": foo\n").unwrap_err(),
        "error: -:1 malformed rule header"
    );
}

#[test]
fn test_malformed_assignment_is_an_error() {
    assert_eq!(
        parse_posix("-", "= y\n").unwrap_err(),
        "error: -:1 malformed macro assignment"
    );
    assert_eq!(
        parse_posix("-", "two names = y\n").unwrap_err(),
        "error: -:1 malformed macro assignment"
    );
}

#[test]
fn test_missing_value_is_an_error() {
    assert_eq!(
        parse_posix("-", "X =\n").unwrap_err(),
        "error: -:1 assignment missing a right-hand side"
    );
}

#[test]
fn test_unclassifiable_line_is_an_error() {
    assert_eq!(parse_posix("-", "foo bar\n").unwrap_err(), "error: -:1 malformed line");
}

#[test]
fn test_space_indented_command_is_not_a_recipe() {
    // A space-indented line under a rule is not a recipe line; here it
    // has no colon and no assignment either, so the parse fails.
    assert!(parse_posix("-", "a: b\n    echo hi\n").is_err());
}
