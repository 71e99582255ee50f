use glitter_lang::parser::error::{OtherKind, ParseErrorKind, Rule};
use glitter_lang::parser::pretty::{rfind_chars, Painted, PrettyPrinter};
use glitter_lang::parser::{parse, Frame, ParseError};
use glitter_lang::{glitter, Error, Stats};

fn chars(s: &str) -> Vec<char> {
    s.chars().collect()
}

#[test]
fn last_occurrence() {
    assert_eq!(rfind_chars(&chars("abcabc"), &chars("bc")), Some(4));
    assert_eq!(rfind_chars(&chars("abcabc"), &chars("ab")), Some(3));
    assert_eq!(rfind_chars(&chars("abcabc"), &chars("abcabc")), Some(0));
    assert_eq!(rfind_chars(&chars("abcabc"), &chars("")), Some(6));
    assert_eq!(rfind_chars(&chars("abcabc"), &chars("x")), None);
    assert_eq!(rfind_chars(&chars("ab"), &chars("abc")), None);
    assert_eq!(rfind_chars(&chars(""), &chars("")), Some(0));
    assert_eq!(rfind_chars(&chars("日本日"), &chars("日")), Some(2));
}

#[test]
fn unclosed_group_without_colour() {
    let e = parse("[").unwrap_err();
    assert_eq!(
        e.to_string(),
        "error: unable to parse group\n │\n │    [\n │    ^ reached end without finding matching ]\n │\n = in group: ["
    );
    assert_eq!(e.pretty_print(false).pretty_print(), e.to_string());
}

#[test]
fn unclosed_group_with_colour() {
    let e = parse("b[").unwrap_err();
    let bar = "\x1B[1m│\x1B[0m";
    let expect = format!(
        "\x1B[1;31merror\x1B[0m: unable to parse group\n {bar}\n {bar}    [\n {bar}    \x1B[1;31m^\x1B[0m reached end without finding matching \x1B[1m]\x1B[0m\n {bar}\n = in group: \x1B[2m\x1B[0m\x1B[1;31m[\x1B[0m\x1B[2m\x1B[0m",
        bar = bar
    );
    assert_eq!(e.pretty_print(true).pretty_print(), expect);
}

#[test]
fn failure_inside_nested_rules() {
    let e = parse("'日本'<b[#r(bx)]>").unwrap_err();
    assert_eq!(e.kind, ParseErrorKind::UnrecognizedName);
    assert_eq!(e.rest, "x)]>");
    assert_eq!(
        e.context,
        Some(Frame {
            rest: "bx)]>".to_string(),
            rule: Rule::Expression
        })
    );
    assert_eq!(
        e.top,
        Some(Frame {
            rest: "<b[#r(bx)]>".to_string(),
            rule: Rule::Group
        })
    );
    assert_eq!(
        e.to_string(),
        "error: unable to parse expression\n │\n │    bx)]>\n │     ^ not recognized as a valid expression\n │\n = in group: <b[#r(bx)]>"
    );
    let bar = "\x1B[1m│\x1B[0m";
    let expect = format!(
        "\x1B[1;31merror\x1B[0m: unable to parse expression\n {bar}\n {bar}    bx)]>\n {bar}     \x1B[1;31m^\x1B[0m not recognized as a valid expression\n {bar}\n = in group: \x1B[2m<b[#r(\x1B[0mb\x1B[1;31mx\x1B[0m\x1B[2m)]>\x1B[0m",
        bar = bar
    );
    assert_eq!(e.pretty_print(true).pretty_print(), expect);
}

#[test]
fn trailing_input_has_no_rule() {
    let e = parse("b)").unwrap_err();
    assert_eq!(
        e.to_string(),
        "error: unable to parse\n │    \n │    )\n │    ^ improper close delimiter\n │\n"
    );
    let e = parse("bx").unwrap_err();
    assert_eq!(
        e.to_string(),
        "error: unable to parse\n │    \n │    x\n │    ^ not recognized as a valid expression\n │\n"
    );
    let e = parse("b日").unwrap_err();
    assert_eq!(
        e.to_string(),
        "error: unable to parse\n │    \n │    日\n │    ^ not recognized as a valid expression\n │\n"
    );
}

fn caret_line(format: &str) -> String {
    let text = parse(format).unwrap_err().to_string();
    text.lines().nth(3).unwrap().to_string()
}

fn expected_line(spaces: usize, rest: &str) -> String {
    format!(" │    {}{}", " ".repeat(spaces), rest)
}

#[test]
fn messages_by_kind() {
    assert_eq!(
        caret_line("'abc"),
        expected_line(1, "^^^ missing closing quote (')")
    );
    assert_eq!(caret_line("'"), expected_line(1, " missing closing quote (')"));
    assert_eq!(
        caret_line("#z(x)"),
        expected_line(1, "^ found \"z\" which is not a style")
    );
    assert_eq!(
        caret_line("#日(x)"),
        expected_line(1, "^ found \"\" which is not a style")
    );
    assert_eq!(
        caret_line("#r"),
        expected_line(2, "^ expected \"(\" here, found \"\"")
    );
    assert_eq!(
        caret_line("#rx"),
        expected_line(2, "^ expected \"(\" here, found \"x\"")
    );
    assert_eq!(
        caret_line("#[1,2](x)"),
        expected_line(2, "^^^ RGB must be in the form \"0,0,0\"")
    );
    assert_eq!(
        caret_line("#[1234567,2,3](x)"),
        expected_line(2, "^^^^^ RGB must be in the form \"0,0,0\"")
    );
    assert_eq!(
        caret_line("#[](x)"),
        expected_line(2, "^ RGB must be in the form \"0,0,0\"")
    );
    assert_eq!(
        caret_line("#[1,2"),
        expected_line(2, "^ RGB must be in the form \"0,0,0\"")
    );
    assert_eq!(
        caret_line("#{1,2,3(b)"),
        expected_line(7, "^ reached end without finding matching }")
    );
    assert_eq!(
        caret_line("b(+"),
        expected_line(1, "^ reached end without finding matching )")
    );
}

#[test]
fn other_kinds_are_named() {
    for (kind, name) in [
        (OtherKind::Tag, "Tag"),
        (OtherKind::Many0, "Many0"),
        (OtherKind::Many1, "Many1"),
    ] {
        let e = ParseError {
            rest: "x".to_string(),
            kind: ParseErrorKind::Other(kind),
            context: None,
            top: None,
        };
        assert_eq!(
            e.to_string(),
            format!("error: unable to parse\n │    \n │    x\n │    ^ {}\n │\n", name)
        );
    }
}

#[test]
fn layout_takes_the_fragments_as_they_are() {
    let printer = PrettyPrinter {
        error: ParseError {
            rest: "c".to_string(),
            kind: ParseErrorKind::MissingChar('x'),
            context: Some(Frame {
                rest: "abc".to_string(),
                rule: Rule::Format,
            }),
            top: Some(Frame {
                rest: "_abc".to_string(),
                rule: Rule::Literal,
            }),
        },
        use_color: false,
    };
    let p = Painted {
        error_word: "E".to_string(),
        bar: "|".to_string(),
        caret: "~".to_string(),
        first: "1".to_string(),
        second: "2".to_string(),
        pre: "<".to_string(),
        er: "!".to_string(),
        post: ">".to_string(),
    };
    assert_eq!(
        printer.layout(&p),
        "E: unable to parse format\n |\n |    abc\n |      ~ expected \"1\" here, found \"2\"\n |\n = in string: <ab!>"
    );
    assert_eq!(
        printer.painted(),
        Painted {
            error_word: "error".to_string(),
            bar: "│".to_string(),
            caret: "^".to_string(),
            first: "x".to_string(),
            second: "c".to_string(),
            pre: "_".to_string(),
            er: "c".to_string(),
            post: "".to_string(),
        }
    );
}

#[test]
fn errors_for_a_reader() {
    let mut out = String::new();
    let e = glitter(Stats::default(), "[", true, false, &mut out).unwrap_err();
    assert_eq!(
        e.pretty_print(false),
        "error: unable to parse group\n │\n │    [\n │    ^ reached end without finding matching ]\n │\n = in group: ["
    );
    assert_eq!(e.to_string(), e.pretty_print(false));
    let e = glitter(Stats::default(), "\\'(b)", true, false, &mut out).unwrap_err();
    assert_eq!(
        e.pretty_print(true),
        "UnexpectedArgs { exp: Named { name: Quote, sub: Tree([Named { name: Branch, sub: Tree([]) }]) } }"
    );
    assert_eq!(e.to_string(), e.pretty_print(false));
    assert!(matches!(e, Error::InterpreterError(_)));
}
