use glitter_lang::ast::{Color, CompleteStyle, Delimiter, Name, Separator, Style};
use glitter_lang::color::Difference;
use glitter_lang::parser::{format_expression, named_expression, separator_expression};

fn style(fg: Option<Color>, bg: Option<Color>, bold: bool, italics: bool, underline: bool) -> CompleteStyle {
    CompleteStyle {
        fg,
        bg,
        bold,
        italics,
        underline,
    }
}

fn written(style: &CompleteStyle, bash_prompt: bool) -> String {
    let mut out = String::new();
    style.write_to(&mut out, bash_prompt);
    out
}

fn difference(prev: &CompleteStyle, next: &CompleteStyle, bash_prompt: bool) -> String {
    let mut out = String::new();
    next.write_difference(&mut out, prev, bash_prompt);
    out
}

#[test]
fn fold_of_tokens() {
    let complete = CompleteStyle::from_iter(&[Style::Fg(Color::Green), Style::Bold]);
    assert_eq!(
        complete,
        CompleteStyle {
            fg: Some(Color::Green),
            bold: true,
            ..Default::default()
        }
    );
    let reset_to_default = CompleteStyle::from_iter(&[Style::Bg(Color::Red), Style::Reset]);
    assert_eq!(reset_to_default, CompleteStyle::default());
    let green = CompleteStyle::from_iter(&[Style::Fg(Color::Green)]);
    let green_repeat = CompleteStyle::from_iter(&vec![Style::Fg(Color::Green); 10]);
    assert_eq!(green, green_repeat);
    let later_wins = CompleteStyle::from_iter(&[
        Style::Fg(Color::Green),
        Style::Italic,
        Style::Fg(Color::Blue),
        Style::Underline,
    ]);
    assert_eq!(later_wins, style(Some(Color::Blue), None, false, true, true));
    assert_eq!(CompleteStyle::from_iter(&[]), CompleteStyle::default());
    assert_eq!(
        CompleteStyle::from(Style::Bg(Color::White)),
        style(None, Some(Color::White), false, false, false)
    );
    let mut extended = CompleteStyle::from(Style::Bold);
    extended.extend(&[Style::Italic, Style::Fg(Color::Red)]);
    assert_eq!(extended, style(Some(Color::Red), None, true, true, false));
    assert!(CompleteStyle::default().is_plain());
    assert!(!extended.is_plain());
}

#[test]
fn combination_of_styles() {
    let mut ctx = style(Some(Color::Red), None, true, false, false);
    ctx.add_assign(style(Some(Color::Blue), Some(Color::Black), false, true, false));
    assert_eq!(ctx, style(Some(Color::Blue), Some(Color::Black), true, true, false));
    ctx.add_assign(style(None, None, false, false, true));
    assert_eq!(ctx, style(Some(Color::Blue), Some(Color::Black), true, true, true));
    ctx.add_assign(CompleteStyle::default());
    assert_eq!(ctx, CompleteStyle::default());
}

#[test]
fn escapes_of_styles() {
    assert_eq!(written(&CompleteStyle::default(), false), "\x1B[0m");
    assert_eq!(written(&CompleteStyle::default(), true), "\u{01}\x1B[0m\u{02}");
    let codes = [
        (Color::Black, "30", "40"),
        (Color::Red, "31", "41"),
        (Color::Green, "32", "42"),
        (Color::Yellow, "33", "43"),
        (Color::Blue, "34", "44"),
        (Color::Magenta, "35", "45"),
        (Color::Cyan, "36", "46"),
        (Color::White, "37", "47"),
        (Color::RGB(0, 10, 255), "38;2;0;10;255", "48;2;0;10;255"),
    ];
    for (color, fg, bg) in codes {
        assert_eq!(
            written(&style(Some(color), None, false, false, false), false),
            format!("\x1B[{}m", fg)
        );
        assert_eq!(
            written(&style(None, Some(color), false, false, false), false),
            format!("\x1B[{}m", bg)
        );
    }
    let all = style(Some(Color::RGB(1, 2, 3)), Some(Color::Black), true, true, true);
    assert_eq!(
        written(&all, false),
        "\x1B[38;2;1;2;3m\x1B[40m\x1B[1m\x1B[3m\x1B[4m"
    );
    assert_eq!(
        written(&all, true),
        "\u{01}\x1B[38;2;1;2;3m\x1B[40m\x1B[1m\x1B[3m\x1B[4m\u{02}"
    );
    let mut out = String::new();
    all.write_escapes(&mut out);
    assert_eq!(out, written(&all, false));
    let mut out = "x".to_string();
    Color::Cyan.write_to(&mut out, true);
    assert_eq!(out, "x\x1B[46m");
    Color::RGB(9, 8, 7).write_to(&mut out, false);
    assert_eq!(out, "x\x1B[46m\x1B[38;2;9;8;7m");
}

#[test]
fn minimal_style_diff() {
    let bold = style(None, None, true, false, false);
    let bold_red = style(Some(Color::Red), None, true, false, false);
    let red = style(Some(Color::Red), None, false, false, false);
    assert_eq!(difference(&bold, &bold_red, false), "\x1B[31m");
    assert_eq!(difference(&bold_red, &red, false), "\x1B[0m\x1B[31m");
    assert_eq!(difference(&bold_red, &red, true), "\u{01}\x1B[0m\x1B[31m\u{02}");
    assert_eq!(difference(&bold, &bold_red, true), "\u{01}\x1B[31m\u{02}");
    assert_eq!(difference(&red, &red, true), "");
    assert_eq!(difference(&bold, &CompleteStyle::default(), false), "\x1B[0m\x1B[0m");
}

#[test]
fn difference_between_styles() {
    let bold = style(None, None, true, false, false);
    let red = style(Some(Color::Red), None, false, false, false);
    let blue_on_red = style(Some(Color::Blue), Some(Color::Red), false, true, false);
    assert_eq!(Difference::between(&bold, &bold), Difference::Same);
    assert_eq!(Difference::between(&bold, &red), Difference::Reset);
    assert_eq!(Difference::between(&blue_on_red, &red), Difference::Reset);
    assert_eq!(
        Difference::between(&red, &blue_on_red),
        Difference::Add(blue_on_red)
    );
    assert_eq!(
        Difference::between(&CompleteStyle::default(), &bold),
        Difference::Add(bold)
    );
    let red_underlined = style(Some(Color::Red), None, false, false, true);
    assert_eq!(
        Difference::between(&red, &red_underlined),
        Difference::Add(style(None, None, false, false, true))
    );
}

#[test]
fn tags_are_read_as_they_are_written() {
    let names = [
        (Name::Stashed, "h"),
        (Name::Branch, "b"),
        (Name::Remote, "B"),
        (Name::Ahead, "+"),
        (Name::Behind, "-"),
        (Name::Conflict, "u"),
        (Name::Added, "A"),
        (Name::Untracked, "a"),
        (Name::Modified, "M"),
        (Name::Unstaged, "m"),
        (Name::Deleted, "d"),
        (Name::DeletedStaged, "D"),
        (Name::Renamed, "R"),
        (Name::Quote, "\\'"),
    ];
    for (name, tag) in names {
        assert_eq!(name.to_string(), tag);
        let (rest, e) = named_expression(tag).unwrap();
        assert_eq!(rest, "");
        assert_eq!(e.to_string(), tag);
        if tag.len() == 1 {
            assert_eq!(Name::from_char(tag.chars().next().unwrap()), Some(name));
        }
    }
    assert_eq!(Name::from_char('\\'), None);
    assert_eq!(Name::from_char('x'), None);

    let separators = [
        (Separator::At, "@"),
        (Separator::Bar, "|"),
        (Separator::Dot, "."),
        (Separator::Comma, ","),
        (Separator::Space, " "),
        (Separator::Colon, ":"),
        (Separator::Semicolon, ";"),
        (Separator::Underscore, "_"),
    ];
    for (sep, glyph) in separators {
        assert_eq!(sep.as_str(), glyph);
        assert_eq!(sep.to_string(), glyph);
        assert_eq!(Separator::from_char(glyph.chars().next().unwrap()), Some(sep));
        assert_eq!(separator_expression(glyph).unwrap().1.to_string(), glyph);
    }
    assert_eq!(Separator::from_char('b'), None);

    let styles = [
        (Style::Reset, "~"),
        (Style::Bold, "*"),
        (Style::Underline, "_"),
        (Style::Italic, "i"),
        (Style::Fg(Color::Red), "r"),
        (Style::Bg(Color::Red), "R"),
        (Style::Fg(Color::Green), "g"),
        (Style::Bg(Color::Green), "G"),
        (Style::Fg(Color::Yellow), "y"),
        (Style::Bg(Color::Yellow), "Y"),
        (Style::Fg(Color::Blue), "b"),
        (Style::Bg(Color::Blue), "B"),
        (Style::Fg(Color::Magenta), "m"),
        (Style::Bg(Color::Magenta), "M"),
        (Style::Fg(Color::Cyan), "c"),
        (Style::Bg(Color::Cyan), "C"),
        (Style::Fg(Color::White), "w"),
        (Style::Bg(Color::White), "W"),
        (Style::Fg(Color::Black), "k"),
        (Style::Bg(Color::Black), "K"),
        (Style::Fg(Color::RGB(0, 9, 255)), "[0,9,255]"),
        (Style::Bg(Color::RGB(100, 20, 3)), "{100,20,3}"),
    ];
    for (style, text) in styles {
        assert_eq!(style.to_string(), text);
        if text.len() == 1 {
            assert_eq!(Style::from_char(text.chars().next().unwrap()), Some(style));
        }
        let complete = CompleteStyle::from(style);
        assert_eq!(complete.to_string(), text);
        let format = format!("#{}()", text);
        assert_eq!(format_expression(&format).unwrap().1.to_string(), format);
    }
    assert_eq!(Style::from_char('['), None);
    assert_eq!(
        style(Some(Color::Red), Some(Color::Blue), true, true, true).to_string(),
        "rB*i_"
    );
}

#[test]
fn brackets_of_groups() {
    let brackets = [
        (Delimiter::Angle, "<", ">"),
        (Delimiter::Square, "[", "]"),
        (Delimiter::Curly, "{", "}"),
        (Delimiter::Parens, "(", ")"),
    ];
    for (d, left, right) in brackets {
        assert_eq!(d.left(), left);
        assert_eq!(d.right(), right);
    }
}
