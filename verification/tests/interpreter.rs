use glitter_lang::ast::{CompleteStyle, Delimiter, Expression, Name, Separator, Style, Tree};
use glitter_lang::interpreter::{Interpreter, InterpreterErr};
use glitter_lang::parser::parse;
use glitter_lang::{glitter, Error, Stats};

const NAMES: [Name; 13] = [
    Name::Branch,
    Name::Remote,
    Name::Ahead,
    Name::Behind,
    Name::Conflict,
    Name::Added,
    Name::Untracked,
    Name::Modified,
    Name::Unstaged,
    Name::Deleted,
    Name::DeletedStaged,
    Name::Renamed,
    Name::Stashed,
];

fn lone(name: Name) -> Expression {
    Expression::Named {
        name,
        sub: Tree::new(),
    }
}

fn sample() -> Stats {
    Stats {
        untracked: 1,
        added_staged: 2,
        modified: 3,
        modified_staged: 4,
        renamed: 5,
        deleted: 6,
        deleted_staged: 7,
        ahead: 8,
        behind: 9,
        conflicts: 10,
        stashes: 11,
        branch: "master".to_string(),
        remote: "origin/master".to_string(),
    }
}

fn render(stats: Stats, format: &str, allow_color: bool, bash_prompt: bool) -> String {
    let mut out = String::new();
    glitter(stats, format, allow_color, bash_prompt, &mut out).unwrap();
    out
}

fn plain(stats: Stats, format: &str) -> String {
    render(stats, format, false, false)
}

#[test]
fn empty_stats_empty_result() {
    for name in NAMES {
        for color in [false, true] {
            for bash in [false, true] {
                let mut interpreter = Interpreter::new(Stats::default(), color, bash);
                let mut output = String::new();
                let r = interpreter.evaluate(&Tree(vec![lone(name)]), &mut output);
                assert!(r.is_ok());
                assert!(output.is_empty(), "{:?} printed {:?}", name, output);
            }
        }
    }
}

#[test]
fn empty_group_empty_result() {
    for name in NAMES {
        for d in [
            Delimiter::Angle,
            Delimiter::Square,
            Delimiter::Curly,
            Delimiter::Parens,
        ] {
            let exp = Expression::Group {
                d,
                sub: Tree(vec![lone(name)]),
            };
            let mut interpreter = Interpreter::new(Stats::default(), false, false);
            let mut output = String::new();
            let r = interpreter.evaluate(&Tree(vec![exp]), &mut output);
            assert!(r.is_ok());
            assert!(output.is_empty(), "{:?} printed {:?}", name, output);
        }
    }
}

#[test]
fn empty_format_empty_result() {
    let styles = [
        vec![Style::Bold],
        vec![Style::Reset],
        vec![Style::Fg(glitter_lang::ast::Color::RGB(1, 2, 3)), Style::Underline],
        vec![Style::Bg(glitter_lang::ast::Color::Cyan), Style::Italic, Style::Bold],
    ];
    for name in NAMES {
        for style in &styles {
            for bash in [false, true] {
                let exp = Expression::Format {
                    style: CompleteStyle::from_iter(style),
                    sub: Tree(vec![lone(name)]),
                };
                let mut interpreter = Interpreter::new(Stats::default(), true, bash);
                let mut output = String::new();
                let r = interpreter.evaluate(&Tree(vec![exp]), &mut output);
                assert!(r.is_ok());
                assert!(output.is_empty(), "{:?} printed {:?}", name, output);
            }
        }
    }
}

#[test]
fn prefix_override() {
    let arrow = Tree(vec![Expression::Named {
        name: Name::Ahead,
        sub: Tree(vec![Expression::Literal("↑".to_string())]),
    }]);
    let mut three = Stats::default();
    three.ahead = 3;

    let mut out = String::new();
    Interpreter::new(three.clone(), false, false)
        .evaluate(&arrow, &mut out)
        .unwrap();
    assert_eq!(out, "↑3");

    let mut out = String::new();
    Interpreter::new(Stats::default(), false, false)
        .evaluate(&arrow, &mut out)
        .unwrap();
    assert_eq!(out, "");

    let mut out = String::new();
    Interpreter::new(three, false, false)
        .evaluate(&Tree(vec![lone(Name::Ahead)]), &mut out)
        .unwrap();
    assert_eq!(out, "+3");
}

#[test]
fn every_name_prints_its_field_behind_its_prefix() {
    assert_eq!(plain(sample(), "b"), "master");
    assert_eq!(plain(sample(), "B"), "origin/master");
    assert_eq!(plain(sample(), "+"), "+8");
    assert_eq!(plain(sample(), "-"), "-9");
    assert_eq!(plain(sample(), "u"), "U10");
    assert_eq!(plain(sample(), "A"), "A2");
    assert_eq!(plain(sample(), "a"), "?1");
    assert_eq!(plain(sample(), "M"), "M4");
    assert_eq!(plain(sample(), "m"), "M3");
    assert_eq!(plain(sample(), "d"), "D6");
    assert_eq!(plain(sample(), "D"), "D7");
    assert_eq!(plain(sample(), "R"), "R5");
    assert_eq!(plain(sample(), "h"), "H11");
    assert_eq!(plain(sample(), "\\'"), "'");
}

#[test]
fn counts_are_printed_in_full() {
    let mut stats = Stats::default();
    stats.stashes = 65535;
    stats.ahead = 100;
    stats.behind = 9;
    assert_eq!(plain(stats, "h+-"), "H65535+100-9");
}

#[test]
fn a_prompt_like_format() {
    let mut stats = Stats::default();
    stats.branch = "master".to_string();
    stats.ahead = 1;
    stats.modified_staged = 1;
    stats.deleted = 3;
    stats.stashes = 5;
    assert_eq!(
        plain(stats, "<b\\(+-)>[MARD':'maud]{h('@')}':'"),
        "<master(+1)>[M1:D3]{@5}:"
    );
}

#[test]
fn groups_vanish_with_their_content() {
    assert_eq!(plain(Stats::default(), "[]<>{}\\()"), "");
    assert_eq!(plain(Stats::default(), "[<{\\(b+)}>]'x'"), "x");
    assert_eq!(plain(sample(), "[<{\\(b)}>]"), "[<{(master)}>]");
    assert_eq!(plain(Stats::default(), "[b]'x'[+]"), "x");
    assert_eq!(plain(Stats::default(), "['']"), "[]");
    assert_eq!(plain(Stats::default(), "[\\']"), "[']");
}

#[test]
fn separators_stand_only_between_what_prints() {
    let mut stats = Stats::default();
    stats.branch = "master".to_string();
    assert_eq!(plain(stats.clone(), ",b"), "master");
    assert_eq!(plain(stats.clone(), "b,"), "master");
    assert_eq!(plain(stats.clone(), "b,+"), "master");
    assert_eq!(plain(stats.clone(), "b,+,b"), "master,master");
    assert_eq!(plain(stats.clone(), "b, |b"), "master, |master");
    assert_eq!(plain(stats.clone(), "b,b,+'x'"), "master,masterx");
    assert_eq!(plain(stats.clone(), "[b:+]:[+]:b"), "[master]:master");
    assert_eq!(plain(stats.clone(), "+,-"), "");
    stats.ahead = 2;
    stats.behind = 1;
    assert_eq!(plain(stats.clone(), "b,+"), "master,+2");
    assert_eq!(plain(stats.clone(), "b@+.-;b_b"), "master@+2.-1;master_master");
    assert_eq!(plain(stats, "+(-,-)"), "-1,-12");
}

#[test]
fn a_sub_tree_that_prints_nothing_leaves_the_prefix() {
    let mut stats = Stats::default();
    stats.ahead = 3;
    assert_eq!(plain(stats.clone(), "+(-)"), "+3");
    assert_eq!(plain(stats.clone(), "+()"), "+3");
    assert_eq!(plain(stats.clone(), "+('')"), "3");
    assert_eq!(plain(stats, "[+([-])]"), "[+3]");
}

#[test]
fn colour_wraps_what_prints_in_resets() {
    let mut stats = Stats::default();
    stats.branch = "master".to_string();
    assert_eq!(render(stats.clone(), "b", true, false), "\x1B[0mmaster\x1B[0m");
    assert_eq!(
        render(stats.clone(), "b", true, true),
        "\u{01}\x1B[0m\u{02}master\u{01}\x1B[0m\u{02}"
    );
    assert_eq!(render(stats.clone(), "+", true, false), "");
    assert_eq!(render(stats, "+", true, true), "");
}

#[test]
fn formats_switch_styles_on_and_back() {
    let mut stats = Stats::default();
    stats.branch = "master".to_string();
    stats.remote = "origin".to_string();
    assert_eq!(
        render(stats.clone(), "#r(b)", true, false),
        "\x1B[0m\x1B[31mmaster\x1B[0m\x1B[0m\x1B[0m"
    );
    assert_eq!(
        render(stats.clone(), "#r(b)", true, true),
        "\u{01}\x1B[0m\u{02}\u{01}\x1B[31m\u{02}master\u{01}\x1B[0m\x1B[0m\u{02}\u{01}\x1B[0m\u{02}"
    );
    assert_eq!(
        render(stats.clone(), "#*(b#r(B))", true, false),
        "\x1B[0m\x1B[1mmaster\x1B[31m\x1B[1morigin\x1B[0m\x1B[1m\x1B[0m\x1B[0m\x1B[0m"
    );
    assert_eq!(
        render(stats.clone(), "#*r(#~(b))", true, false),
        "\x1B[0m\x1B[31m\x1B[1m\x1B[0mmaster\x1B[31m\x1B[1m\x1B[0m\x1B[0m\x1B[0m"
    );
    assert_eq!(
        render(stats.clone(), "#*(#*(b))", true, false),
        "\x1B[0m\x1B[1m\x1B[1mmaster\x1B[0m\x1B[0m\x1B[0m"
    );
    assert_eq!(
        render(stats, "[#g_(+)b]#[1,2,3]{4,5,6}i()", true, false),
        "\x1B[0m[master]\x1B[0m"
    );
}

#[test]
fn without_colour_no_escape_is_written() {
    let bold_a = Tree(vec![Expression::Format {
        style: CompleteStyle {
            bold: true,
            ..Default::default()
        },
        sub: Tree(vec![Expression::Literal("a".to_string())]),
    }]);
    for bash in [false, true] {
        let mut interpreter = Interpreter::new(Stats::default(), false, bash);
        let mut w = String::new();
        assert!(interpreter.evaluate(&bold_a, &mut w).is_ok());
        assert_eq!(w, "a");
    }
    let mut stats = Stats::default();
    stats.branch = "master".to_string();
    stats.remote = "origin".to_string();
    stats.ahead = 2;
    for bash in [false, true] {
        assert_eq!(render(stats.clone(), "#*r(#~(b))", false, bash), "master");
        assert_eq!(render(stats.clone(), "#*(#*(b))", false, bash), "master");
        assert_eq!(
            render(stats.clone(), "[#g_(+)b]#[1,2,3]{4,5,6}i()", false, bash),
            "[+2master]"
        );
        assert_eq!(
            render(stats.clone(), "#r(b,#*(-),B)':'#~(+(#b('^')))", false, bash),
            "master,origin:^2"
        );
        assert_eq!(render(stats.clone(), "#r(-)", false, bash), "");
        assert_eq!(render(stats.clone(), "<#r(-)>b", false, bash), "master");
        assert_eq!(
            render(stats.clone(), "#r('\u{1b}[1m')", false, bash),
            "\u{1b}[1m"
        );
    }
}

#[test]
fn quote_takes_no_sub_tree() {
    let mut stats = Stats::default();
    stats.branch = "master".to_string();
    let mut out = "kept".to_string();
    let r = glitter(stats, "b'x'\\'(b)'y'", false, false, &mut out);
    assert_eq!(out, "keptmasterx");
    match r {
        Err(Error::InterpreterError(InterpreterErr::UnexpectedArgs { exp })) => assert_eq!(
            exp,
            Expression::Named {
                name: Name::Quote,
                sub: Tree(vec![lone(Name::Branch)]),
            }
        ),
        other => panic!("{:?}", other),
    }
}

#[test]
fn a_rejected_format_writes_nothing() {
    let mut out = "kept".to_string();
    let r = glitter(sample(), "b[", true, false, &mut out);
    assert_eq!(out, "kept");
    assert!(matches!(r, Err(Error::ParseError(_))));
}

#[test]
fn an_interpreter_can_be_used_again() {
    let mut interpreter = Interpreter::new(sample(), true, false);
    let tree = parse("[+]b,").unwrap();
    let mut first = String::new();
    interpreter.evaluate(&tree, &mut first).unwrap();
    let mut second = String::new();
    interpreter.evaluate(&tree, &mut second).unwrap();
    assert_eq!(first, "\x1B[0m[+8]master\x1B[0m");
    assert_eq!(first, second);

    let bad = parse("b,\\'(b)").unwrap();
    let mut third = String::new();
    assert!(interpreter.evaluate(&bad, &mut third).is_err());
    assert_eq!(third, "\x1B[0mmaster");
    let mut fourth = String::new();
    interpreter.evaluate(&tree, &mut fourth).unwrap();
    assert_eq!(fourth, first);
}

#[test]
fn a_lone_separator_prints_nothing() {
    let tree = Tree(vec![Expression::Separator(Separator::Bar)]);
    let mut out = String::new();
    Interpreter::new(sample(), false, false)
        .evaluate(&tree, &mut out)
        .unwrap();
    assert_eq!(out, "");
    let fresh = Interpreter::default();
    assert_eq!(fresh, Interpreter::new(Stats::default(), false, false));
}
