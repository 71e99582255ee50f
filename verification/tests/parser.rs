use glitter_lang::ast::{Color, CompleteStyle, Delimiter, Expression, Name, Separator, Style, Tree};
use glitter_lang::parser::error::{OtherKind, ParseErrorKind, Rule, Stop};
use glitter_lang::parser::{
    expression, expression_tree, format_expression, group_expression, literal_expression,
    named_expression, parse, separator_expression, Frame,
};

#[test]
fn separator() {
    let test = "  , |  ::";
    let expect = Tree(vec![
        Expression::Separator(Separator::Space),
        Expression::Separator(Separator::Space),
        Expression::Separator(Separator::Comma),
        Expression::Separator(Separator::Space),
        Expression::Separator(Separator::Bar),
        Expression::Separator(Separator::Space),
        Expression::Separator(Separator::Space),
        Expression::Separator(Separator::Colon),
        Expression::Separator(Separator::Colon),
    ]);
    let parse = parse(test).unwrap();
    assert!(parse == expect, "{:?} != {:?}", parse, expect);
}

#[test]
fn parser_japanese_text() {
    let test = "'日本語は綺麗なのです'['試験'#*('テスト')]";
    let expect = Tree(vec![
        Expression::Literal("日本語は綺麗なのです".to_string()),
        Expression::Group {
            d: Delimiter::Square,
            sub: Tree(vec![
                Expression::Literal("試験".to_string()),
                Expression::Format {
                    style: CompleteStyle::from_iter(&[Style::Bold]),
                    sub: Tree(vec![Expression::Literal("テスト".to_string())]),
                },
            ]),
        },
    ]);
    let parse = expression_tree(test).unwrap().1;
    assert!(parse == expect, "{:#?} != {:#?}", parse, expect);
}

#[test]
fn parser_named_expression_no_args() {
    let test = "h";
    let expect = Expression::Named {
        name: Name::Stashed,
        sub: Tree::new(),
    };
    let parse = named_expression(test).unwrap().1;
    assert!(parse == expect, "{:?} != {:?}", parse, expect);
}

#[test]
fn parser_named_expression_empty_args() {
    let test = "b()";
    let expect = Expression::Named {
        name: Name::Branch,
        sub: Tree::new(),
    };
    let parse = match named_expression(test) {
        Ok((_, exp)) => exp,
        fail => panic!("Failed to parse with result {:?}", fail),
    };
    assert!(parse == expect, "{:?} != {:?}", parse, expect);
}

#[test]
fn parser_named_expression_1_arg() {
    let test = "b(+)";
    let expect = Expression::Named {
        name: Name::Branch,
        sub: Tree(vec![Expression::Named {
            name: Name::Ahead,
            sub: Tree::new(),
        }]),
    };
    let parse = match named_expression(test) {
        Ok((_, exp)) => exp,
        fail => panic!("Failed to parse with result {:?}", fail),
    };
    assert!(parse == expect, "{:?} != {:?}", parse, expect);
}

#[test]
fn parser_named_expression_2_arg() {
    let test = "b(+-)";
    let expect = Expression::Named {
        name: Name::Branch,
        sub: Tree(vec![
            Expression::Named {
                name: Name::Ahead,
                sub: Tree::new(),
            },
            Expression::Named {
                name: Name::Behind,
                sub: Tree::new(),
            },
        ]),
    };
    let parse = match named_expression(test) {
        Ok((_, exp)) => exp,
        fail => panic!("Failed to parse with result {:?}", fail),
    };
    assert!(parse == expect, "{:?} != {:?}", parse, expect);
}

#[test]
fn parser_format_rgb() {
    let test = "#[42,0,0]{0,0,42}(bB)";
    let expect = Expression::Format {
        style: CompleteStyle::from_iter(&vec![
            Style::Fg(Color::RGB(42, 0, 0)),
            Style::Bg(Color::RGB(0, 0, 42)),
        ]),
        sub: Tree(vec![
            Expression::Named {
                name: Name::Branch,
                sub: Tree::new(),
            },
            Expression::Named {
                name: Name::Remote,
                sub: Tree::new(),
            },
        ]),
    };
    let parse = match format_expression(test) {
        Ok((_, exp)) => exp,
        fail => panic!("Failed to parse with result {:?}", fail),
    };
    assert!(parse == expect, "{:?} != {:?}", parse, expect);
}

#[test]
fn parser_empty_group_expression() {
    let test = "{}\\()[]<>";
    let expect = Tree(vec![
        Expression::Group {
            d: Delimiter::Curly,
            sub: Tree::new(),
        },
        Expression::Group {
            d: Delimiter::Parens,
            sub: Tree::new(),
        },
        Expression::Group {
            d: Delimiter::Square,
            sub: Tree::new(),
        },
        Expression::Group {
            d: Delimiter::Angle,
            sub: Tree::new(),
        },
    ]);
    let parse = match expression_tree(test) {
        Ok((_, exp)) => exp,
        fail => panic!("Failed to parse with result {:?}", fail),
    };
    assert!(parse == expect, "{:?} != {:?}", parse, expect);
}

#[test]
fn parser_disp() {
    let expect = "\\('quoted literal'#*(bB))";
    let parse = match expression_tree(expect) {
        Ok((_, exp)) => exp,
        fail => panic!("Failed to parse with result {:?}", fail),
    };
    assert!(
        parse.to_string() == expect,
        "{} == {}\n\tparsed {:?}",
        parse.to_string(),
        expect,
        parse
    );

    let expect = "#b(bB)";
    let parse = expression_tree(expect).unwrap().1;
    assert!(
        parse.to_string() == expect,
        "{} == {}\n\tparsed {:?}",
        parse.to_string(),
        expect,
        parse
    );
}

fn named(name: Name) -> Expression {
    Expression::Named {
        name,
        sub: Tree::new(),
    }
}

#[test]
fn unclosed_group_is_a_missing_delimiter() {
    let e = parse("[").unwrap_err();
    assert_eq!(e.kind, ParseErrorKind::MissingDelimiter(']'));
    assert_eq!(e.rest, "[");
    let frame = Some(Frame {
        rest: "[".to_string(),
        rule: Rule::Group,
    });
    assert_eq!(e.context, frame);
    assert_eq!(e.top, frame);
}

#[test]
fn unknown_style_is_unrecognized() {
    let e = parse("#z(x)").unwrap_err();
    assert_eq!(e.kind(), ParseErrorKind::UnrecognizedStyle);
    assert_eq!(e.rest, "z(x)");
    assert_eq!(
        e.top,
        Some(Frame {
            rest: "#z(x)".to_string(),
            rule: Rule::Format
        })
    );
}

#[test]
fn two_channels_are_an_invalid_rgb() {
    let e = parse("#[1,2](x)").unwrap_err();
    assert_eq!(e.kind, ParseErrorKind::InvalidRGB);
    assert_eq!(e.rest, "1,2](x)");
}

#[test]
fn channel_above_255_is_an_invalid_rgb() {
    let e = parse("#[1,256,3](x)").unwrap_err();
    assert_eq!(e.kind, ParseErrorKind::InvalidRGB);
    let e = parse("#{1,2,99999999999999999999999}(x)").unwrap_err();
    assert_eq!(e.kind, ParseErrorKind::InvalidRGB);
    let ok = parse("#[255,000,0007](b)").unwrap();
    assert_eq!(
        ok,
        Tree(vec![Expression::Format {
            style: CompleteStyle::from(Style::Fg(Color::RGB(255, 0, 7))),
            sub: Tree(vec![named(Name::Branch)]),
        }])
    );
}

#[test]
fn rgb_without_closing_bracket() {
    let e = parse("#[1,2,3(x)").unwrap_err();
    assert_eq!(e.kind, ParseErrorKind::MissingDelimiter(']'));
    assert_eq!(e.rest, "(x)");
}

#[test]
fn unclosed_literal() {
    let e = parse("b'abc").unwrap_err();
    assert_eq!(e.kind, ParseErrorKind::UnclosedString);
    assert_eq!(e.rest, "abc");
    assert_eq!(
        e.context,
        Some(Frame {
            rest: "'abc".to_string(),
            rule: Rule::Literal
        })
    );
}

#[test]
fn trailing_input_is_an_error() {
    let e = parse("bx").unwrap_err();
    assert_eq!(e.kind, ParseErrorKind::Other(OtherKind::Eof));
    assert_eq!(e.rest, "x");
    assert_eq!(e.context, None);
    let e = parse("b)").unwrap_err();
    assert_eq!(e.kind, ParseErrorKind::Other(OtherKind::Eof));
}

#[test]
fn format_needs_a_sub_tree() {
    let e = parse("#*x").unwrap_err();
    assert_eq!(e.kind, ParseErrorKind::MissingChar('('));
    assert_eq!(e.rest, "x");
    let e = parse("#*").unwrap_err();
    assert_eq!(e.kind, ParseErrorKind::MissingChar('('));
    assert_eq!(e.rest, "");
    let e = parse("#(b)").unwrap_err();
    assert_eq!(e.kind, ParseErrorKind::UnrecognizedStyle);
    assert_eq!(e.rest, "(b)");
}

#[test]
fn unclosed_sub_tree() {
    let e = parse("b(+").unwrap_err();
    assert_eq!(e.kind, ParseErrorKind::MissingDelimiter(')'));
    assert_eq!(e.rest, "(+");
    assert_eq!(
        e.context,
        Some(Frame {
            rest: "b(+".to_string(),
            rule: Rule::Expression
        })
    );
}

#[test]
fn stray_character_in_a_group() {
    let e = parse("<bx>").unwrap_err();
    assert_eq!(e.kind, ParseErrorKind::UnrecognizedName);
    assert_eq!(e.rest, "x>");
    assert_eq!(
        e.context,
        Some(Frame {
            rest: "bx>".to_string(),
            rule: Rule::Expression
        })
    );
    assert_eq!(
        e.top,
        Some(Frame {
            rest: "<bx>".to_string(),
            rule: Rule::Group
        })
    );
}

#[test]
fn nested_groups_of_one_kind() {
    let tree = parse("[[b][[]]]'x'").unwrap();
    let square = |sub: Vec<Expression>| Expression::Group {
        d: Delimiter::Square,
        sub: Tree(sub),
    };
    assert_eq!(
        tree,
        Tree(vec![
            square(vec![
                square(vec![named(Name::Branch)]),
                square(vec![square(vec![])])
            ]),
            Expression::Literal("x".to_string()),
        ])
    );
    let e = parse("[[b]").unwrap_err();
    assert_eq!(e.kind, ParseErrorKind::MissingDelimiter(']'));
    assert_eq!(e.rest, "[[b]");
}

#[test]
fn brackets_inside_a_literal_do_not_close_a_group() {
    let tree = parse("[']'b'[']").unwrap();
    assert_eq!(
        tree,
        Tree(vec![Expression::Group {
            d: Delimiter::Square,
            sub: Tree(vec![
                Expression::Literal("]".to_string()),
                named(Name::Branch),
                Expression::Literal("[".to_string()),
            ]),
        }])
    );
}

#[test]
fn quote_name_and_parens_group() {
    let tree = parse("\\'\\(\\')").unwrap();
    assert_eq!(
        tree,
        Tree(vec![
            named(Name::Quote),
            Expression::Group {
                d: Delimiter::Parens,
                sub: Tree(vec![named(Name::Quote)]),
            },
        ])
    );
}

#[test]
fn sub_parsers_hand_back_the_rest() {
    let (rest, e) = expression("b'x'").unwrap();
    assert_eq!(rest, "'x'");
    assert_eq!(e, named(Name::Branch));
    let (rest, e) = literal_expression("'日本'語").unwrap();
    assert_eq!(rest, "語");
    assert_eq!(e, Expression::Literal("日本".to_string()));
    let (rest, e) = separator_expression("::").unwrap();
    assert_eq!(rest, ":");
    assert_eq!(e, Expression::Separator(Separator::Colon));
    let (rest, e) = group_expression("<>b").unwrap();
    assert_eq!(rest, "b");
    assert_eq!(
        e,
        Expression::Group {
            d: Delimiter::Angle,
            sub: Tree::new()
        }
    );
    let (rest, tree) = expression_tree("b)b").unwrap();
    assert_eq!(rest, ")b");
    assert_eq!(tree, Tree(vec![named(Name::Branch)]));
}

#[test]
fn sub_parsers_tell_errors_from_failures() {
    match format_expression("b") {
        Err(Stop::Error(e)) => assert_eq!(e.kind, ParseErrorKind::Other(OtherKind::Tag)),
        other => panic!("{:?}", other),
    }
    match group_expression("b") {
        Err(Stop::Error(e)) => assert_eq!(e.kind, ParseErrorKind::Other(OtherKind::Tag)),
        other => panic!("{:?}", other),
    }
    match literal_expression("b") {
        Err(Stop::Error(e)) => assert_eq!(e.kind, ParseErrorKind::MissingChar('\'')),
        other => panic!("{:?}", other),
    }
    match named_expression("x") {
        Err(Stop::Error(e)) => assert_eq!(e.kind, ParseErrorKind::UnrecognizedName),
        other => panic!("{:?}", other),
    }
    match expression("<") {
        Err(Stop::Failure(e)) => assert_eq!(e.kind, ParseErrorKind::MissingDelimiter('>')),
        other => panic!("{:?}", other),
    }
    match separator_expression("b") {
        Err(Stop::Error(e)) => assert_eq!(e.rest, "b"),
        other => panic!("{:?}", other),
    }
}

#[test]
fn styles_fold_from_left_to_right() {
    let tree = parse("#r*g~_i()").unwrap();
    assert_eq!(
        tree,
        Tree(vec![Expression::Format {
            style: CompleteStyle {
                fg: None,
                bg: None,
                bold: false,
                italics: true,
                underline: true,
            },
            sub: Tree::new(),
        }])
    );
}

#[test]
fn text_of_a_tree_parses_to_the_tree() {
    let tree = Tree(vec![
        Expression::Literal("日本語 [>".to_string()),
        Expression::Separator(Separator::Underscore),
        Expression::Format {
            style: CompleteStyle::from_iter(&[
                Style::Bg(Color::RGB(0, 10, 255)),
                Style::Underline,
                Style::Fg(Color::Black),
            ]),
            sub: Tree(vec![
                Expression::Named {
                    name: Name::Quote,
                    sub: Tree::new(),
                },
                Expression::Group {
                    d: Delimiter::Parens,
                    sub: Tree(vec![Expression::Named {
                        name: Name::Stashed,
                        sub: Tree(vec![Expression::Literal("@".to_string())]),
                    }]),
                },
            ]),
        },
        Expression::Format {
            style: CompleteStyle::from_iter(&[Style::Bold, Style::Reset]),
            sub: Tree::new(),
        },
        Expression::Group {
            d: Delimiter::Curly,
            sub: Tree(vec![named(Name::DeletedStaged)]),
        },
    ]);
    let text = tree.to_string();
    assert_eq!(text, "'日本語 [>'_#k{0,10,255}_(\\'\\(h('@')))#~(){D}");
    assert_eq!(parse(&text), Ok(tree));
}
