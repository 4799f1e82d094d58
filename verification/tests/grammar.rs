use css_cascade::css::{
    alpha_string, alphanum_string, class_string, complete, declaration, declarations, hexcolor, identifier,
    keyword, length_unit, number, parse_complete, parse_stylesheet, rule, selector, space, star,
    star_string, string, stylesheet, unit, v2s, value, word, ws_sym,
};
use css_cascade::css::{
    ByteClass, Declaration, IncompleteParse, Rule, Selector, SimpleSelector, Stylesheet,
    SyntaxError, Unit, Value,
};

fn fails_at(position: usize) -> SyntaxError {
    SyntaxError { position }
}

fn as_f32(numeral: &str) -> f32 {
    numeral.parse::<f64>().unwrap() as f32
}

#[test]
fn hex_colors_are_stored_in_lower_case() {
    let stored = Value::HexColor("#aabbcc".to_string());
    assert_eq!(hexcolor(b"#AABBCC", 0), Ok((Value::HexColor("#aabbcc".to_string()), 7)));
    assert_eq!(hexcolor(b"#aabbcc", 0).unwrap().0, stored);
    assert_eq!(hexcolor(b"#AaBbCc", 0).unwrap().0, stored);
    assert_eq!(hexcolor(b"#09AFaf;", 0), Ok((Value::HexColor("#09afaf".to_string()), 7)));
}

#[test]
fn hex_colors_have_exactly_six_digits() {
    assert_eq!(hexcolor(b"#abc", 0), Err(fails_at(1)));
    assert_eq!(hexcolor(b"#abcde;", 0), Err(fails_at(1)));
    assert_eq!(hexcolor(b"#aabbccd", 0), Err(fails_at(1)));
    assert_eq!(hexcolor(b"#aabbccdd", 0), Err(fails_at(1)));
    assert_eq!(hexcolor(b"#", 0), Err(fails_at(1)));
    assert_eq!(hexcolor(b"#gggggg", 0), Err(fails_at(1)));
    assert_eq!(hexcolor(b"aabbcc", 0), Err(fails_at(0)));
    assert_eq!(hexcolor(b"", 0), Err(fails_at(0)));
}

#[test]
fn a_malformed_color_is_no_other_value() {
    assert_eq!(value(b"#abc;", 0), (Value::Keyword(String::new()), 0));
    assert_eq!(value(b"#aabbccdd;", 0), (Value::Keyword(String::new()), 0));
    assert_eq!(declaration(b"color:#abc;", 0), Err(fails_at(6)));
    assert_eq!(declaration(b"color:#aabbccdd;", 0), Err(fails_at(6)));
}

#[test]
fn a_length_takes_the_unit_px_only() {
    assert_eq!(length_unit(b"1em", 0), Err(fails_at(1)));
    assert_eq!(length_unit(b"1PX", 0), Err(fails_at(1)));
    assert_eq!(length_unit(b"1p", 0), Err(fails_at(1)));
    assert_eq!(length_unit(b"12", 0), Err(fails_at(2)));
    assert_eq!(length_unit(b"1 px", 0), Err(fails_at(1)));
    assert_eq!(length_unit(b"px", 0), Err(fails_at(0)));
    assert_eq!(value(b"1em;", 0), (Value::Keyword(String::new()), 0));
    assert_eq!(declaration(b"width:1em;", 0), Err(fails_at(6)));
    assert_eq!(unit(b"em", 0), Err(fails_at(0)));
    assert_eq!(unit(b"xpx", 1), Ok((Unit::Px, 3)));
}

#[test]
fn numbers_follow_the_decimal_grammar() {
    assert_eq!(number(b"0", 0), Ok(("0".to_string(), 1)));
    assert_eq!(number(b"42px", 0), Ok(("42".to_string(), 2)));
    assert_eq!(number(b"-1.5e+3px", 0), Ok(("-1.5e+3".to_string(), 7)));
    assert_eq!(number(b"2E-2", 0), Ok(("2E-2".to_string(), 4)));
    assert_eq!(number(b"7e5", 0), Ok(("7e5".to_string(), 3)));
    assert_eq!(number(b"01", 0), Ok(("0".to_string(), 1)));
    assert_eq!(number(b"1.", 0), Ok(("1".to_string(), 1)));
    assert_eq!(number(b"1.e3", 0), Ok(("1".to_string(), 1)));
    assert_eq!(number(b"1e", 0), Ok(("1".to_string(), 1)));
    assert_eq!(number(b"1e+", 0), Ok(("1".to_string(), 1)));
    assert_eq!(number(b"3.25.1", 0), Ok(("3.25".to_string(), 4)));
    assert_eq!(number(b".5", 0), Err(fails_at(0)));
    assert_eq!(number(b"-", 0), Err(fails_at(1)));
    assert_eq!(number(b"-x", 0), Err(fails_at(1)));
    assert_eq!(number(b"+1", 0), Err(fails_at(0)));
    assert_eq!(number(b"", 0), Err(fails_at(0)));
    assert_eq!(number(b"ab12", 2), Ok(("12".to_string(), 4)));
}

#[test]
fn a_numeral_converts_to_the_float_it_names() {
    assert_eq!(as_f32(&number(b"-1.5e+3px", 0).unwrap().0), -1500.0);
    assert_eq!(as_f32(&number(b"2E-2", 0).unwrap().0), 0.02);
    assert_eq!(as_f32(&length_unit(b"18px", 0).unwrap().0.to_px()), 18.0);
    assert_eq!(as_f32(&Value::Keyword("red".to_string()).to_px()), 0.0);
    assert_eq!(Value::Keyword("red".to_string()).to_px(), "0");
    assert_eq!(Value::HexColor("#000000".to_string()).to_px(), "0");
    assert_eq!(Value::Length("2.5".to_string(), Unit::Px).to_px(), "2.5");
}

#[test]
fn keywords_are_runs_of_letters() {
    assert_eq!(keyword(b"red;", 0), (Value::Keyword("red".to_string()), 3));
    assert_eq!(keyword(b"  Red1", 0), (Value::Keyword("Red".to_string()), 5));
    assert_eq!(keyword(b"dark-red", 0), (Value::Keyword("dark".to_string()), 4));
    assert_eq!(keyword(b" 12", 0), (Value::Keyword(String::new()), 1));
    assert_eq!(keyword(b"", 0), (Value::Keyword(String::new()), 0));
}

#[test]
fn a_value_is_a_color_else_a_length_else_a_keyword() {
    assert_eq!(value(b"#ff00aa;", 0), (Value::HexColor("#ff00aa".to_string()), 7));
    assert_eq!(value(b"1.5px;", 0), (Value::Length("1.5".to_string(), Unit::Px), 5));
    assert_eq!(value(b"red;", 0), (Value::Keyword("red".to_string()), 3));
    assert_eq!(value(b"px", 0), (Value::Keyword("px".to_string()), 2));
    assert_eq!(value(b";", 0), (Value::Keyword(String::new()), 0));
}

#[test]
fn white_space_is_space_tab_return_and_line_feed() {
    assert_eq!(space(b" \t\r\nx ", 0), 4);
    assert_eq!(space(b"x", 0), 0);
    assert_eq!(space(b"  ", 2), 2);
    assert_eq!(space(b"\x0b ", 0), 0);
    assert_eq!(ws_sym(b" \n{\t x", 0, b'{'), Ok((b'{', 5)));
    assert_eq!(ws_sym(b"  }", 0, b'{'), Err(fails_at(2)));
    assert_eq!(ws_sym(b"  ", 0, b'{'), Err(fails_at(2)));
}

#[test]
fn byte_classes_are_the_ascii_ones() {
    for term in 0..=255u8 {
        let letter = term.is_ascii_uppercase() || term.is_ascii_lowercase();
        let digit = (b'0'..=b'9').contains(&term);
        assert_eq!(ByteClass::Alpha.contains(term), letter);
        assert_eq!(ByteClass::Alphanum.contains(term), letter || digit);
        assert_eq!(ByteClass::Name.contains(term), letter || digit || term == b'-');
        assert_eq!(ByteClass::Digit.contains(term), digit);
        assert_eq!(
            ByteClass::HexDigit.contains(term),
            digit || (b'a'..=b'f').contains(&term) || (b'A'..=b'F').contains(&term)
        );
        assert_eq!(
            ByteClass::Space.contains(term),
            term == b' ' || term == b'\t' || term == b'\r' || term == b'\n'
        );
        assert_eq!(star(term), term == b'*');
    }
}

#[test]
fn words_are_not_empty() {
    assert_eq!(alpha_string(b"ab1", 0), Ok(("ab".to_string(), 2)));
    assert_eq!(alpha_string(b"1ab", 0), Err(fails_at(0)));
    assert_eq!(alphanum_string(b"h3 {", 0), Ok(("h3".to_string(), 2)));
    assert_eq!(alphanum_string(b"-a", 0), Err(fails_at(0)));
    assert_eq!(word(b"12ab", ByteClass::Digit, 0), Ok(("12".to_string(), 2)));
    assert_eq!(star_string(b"*x", 0), Ok(("*".to_string(), 1)));
    assert_eq!(star_string(b"x*", 0), Err(fails_at(0)));
    assert_eq!(class_string(b".cool{", 0), Ok((".cool".to_string(), 5)));
    assert_eq!(class_string(b".-", 0), Err(fails_at(1)));
    assert_eq!(class_string(b"cool", 0), Err(fails_at(0)));
}

#[test]
fn identifiers_start_with_a_letter() {
    assert_eq!(identifier(b"  border-top-1: x", 0), Ok(("border-top-1".to_string(), 14)));
    assert_eq!(identifier(b"a", 0), Ok(("a".to_string(), 1)));
    assert_eq!(identifier(b"-a", 0), Err(fails_at(0)));
    assert_eq!(identifier(b" 1a", 0), Err(fails_at(1)));
    assert_eq!(identifier(b"", 0), Err(fails_at(0)));
}

#[test]
fn a_selector_names_one_thing() {
    let read = selector(b" \n div.cool", 0).unwrap();
    assert_eq!(
        read,
        (
            Selector::Simple(SimpleSelector {
                tag_name: Some("div".to_string()),
                id: None,
                class: vec![]
            }),
            6
        )
    );
    assert_eq!(read.0.specificity(), (0, 0, 1));
    let class = selector(b".a1.b", 0).unwrap();
    assert_eq!(
        class,
        (
            Selector::Simple(SimpleSelector {
                tag_name: None,
                id: None,
                class: vec![".a1".to_string()]
            }),
            3
        )
    );
    assert_eq!(class.0.specificity(), (0, 1, 0));
    assert_eq!(selector(b"*{", 0).unwrap().0.specificity(), (0, 0, 1));
    assert_eq!(selector(b"#id", 0), Err(fails_at(0)));
    assert_eq!(selector(b". x", 0), Err(fails_at(0)));
    assert_eq!(selector(b"", 0), Err(fails_at(0)));
    assert_eq!(selector(b"a b", 1).unwrap().1, 3);
}

#[test]
fn specificity_counts_what_a_selector_names() {
    let full = Selector::Simple(SimpleSelector {
        tag_name: Some("p".to_string()),
        id: Some("main".to_string()),
        class: vec![".a".to_string(), ".b".to_string()],
    });
    assert_eq!(full.specificity(), (1, 2, 1));
    let empty = Selector::Simple(SimpleSelector { tag_name: None, id: None, class: vec![] });
    assert_eq!(empty.specificity(), (0, 0, 0));
    assert!((0, 1, 0) > (0, 0, 1));
    assert!((1, 0, 0) > (0, 9, 1));
}

#[test]
fn declarations_take_white_space_around_their_parts() {
    let read = declaration(b" \n color \t: red ;\n}", 0);
    assert_eq!(
        read,
        Ok((
            Declaration { name: "color".to_string(), value: Value::Keyword("red".to_string()) },
            18
        ))
    );
    assert_eq!(declaration(b"color red;", 0), Err(fails_at(6)));
    assert_eq!(declaration(b"color: red", 0), Err(fails_at(10)));
    assert_eq!(declaration(b"color: red}", 0), Err(fails_at(10)));
    assert_eq!(declaration(b": red;", 0), Err(fails_at(0)));
    assert_eq!(
        declaration(b"color:;", 0),
        Ok((Declaration { name: "color".to_string(), value: Value::Keyword(String::new()) }, 7))
    );
    let (list, end) = declarations(b"a:b; c:1px; d e", 0);
    assert_eq!(list.len(), 2);
    assert_eq!(list[1].value, Value::Length("1".to_string(), Unit::Px));
    assert_eq!(end, 12);
}

#[test]
fn rules_need_their_braces() {
    assert_eq!(rule(b"div color: red; }", 0), Err(fails_at(4)));
    assert_eq!(rule(b"div { color: red;", 0), Err(fails_at(17)));
    assert_eq!(rule(b"div { color red; }", 0), Err(fails_at(6)));
    assert_eq!(rule(b"{ color: red; }", 0), Err(fails_at(0)));
    let (empty, end) = rule(b"p{}", 0).unwrap();
    assert_eq!(empty.selectors.len(), 1);
    assert_eq!(empty.declarations.len(), 0);
    assert_eq!(end, 3);
}

#[test]
fn a_stylesheet_stops_at_what_is_no_rule() {
    let source = "div { color: red; } p { color blue; } b { color: green; }";
    let (sheet, end) = stylesheet(source.as_bytes(), 0);
    assert_eq!(sheet.rules.len(), 1);
    assert_eq!(end, 20);
    assert_eq!(parse_stylesheet(source), sheet);
    assert_eq!(
        parse_complete(source),
        Err(IncompleteParse { position: 20, cause: fails_at(24) })
    );
    assert_eq!(stylesheet(b"", 0), (Stylesheet { rules: vec![] }, 0));
    assert_eq!(stylesheet(b"???", 0), (Stylesheet { rules: vec![] }, 0));
    assert_eq!(parse_stylesheet("???"), Stylesheet { rules: vec![] });
}

#[test]
fn a_complete_parse_reads_to_the_end() {
    let source = "\n div { color: red; }\n\n.cool { width: 2px; } \n";
    let sheet = parse_complete(source).unwrap();
    assert_eq!(sheet.rules.len(), 2);
    assert_eq!(sheet, parse_stylesheet(source));
    assert_eq!(parse_complete(""), Ok(Stylesheet { rules: vec![] }));
    assert_eq!(parse_complete(" \n"), Ok(Stylesheet { rules: vec![] }));
    assert_eq!(
        parse_complete("div { } x"),
        Err(IncompleteParse { position: 8, cause: fails_at(9) })
    );
    assert_eq!(parse_complete("div"), Err(IncompleteParse { position: 0, cause: fails_at(3) }));
    assert_eq!(parse_complete("?"), Err(IncompleteParse { position: 0, cause: fails_at(0) }));
    assert_eq!(
        complete(b"a { } \xff"),
        Err(IncompleteParse { position: 6, cause: fails_at(6) })
    );
    assert_eq!(complete(b"a { }").map(|sheet| sheet.rules.len()), Ok(1));
}

#[test]
fn a_stylesheet_keeps_source_order() {
    let sheet = parse_stylesheet("div { border-width:1px; } .cool { color: red; }");
    assert_eq!(
        sheet,
        Stylesheet {
            rules: vec![
                Rule {
                    selectors: vec![Selector::Simple(SimpleSelector {
                        tag_name: Some("div".to_string()),
                        id: None,
                        class: vec![]
                    })],
                    declarations: vec![Declaration {
                        name: "border-width".to_string(),
                        value: Value::Length("1".to_string(), Unit::Px)
                    }],
                },
                Rule {
                    selectors: vec![Selector::Simple(SimpleSelector {
                        tag_name: None,
                        id: None,
                        class: vec![".cool".to_string()]
                    })],
                    declarations: vec![Declaration {
                        name: "color".to_string(),
                        value: Value::Keyword("red".to_string())
                    }],
                },
            ]
        }
    );
    assert_eq!(as_f32(&sheet.rules[0].declarations[0].value.to_px()), 1.0);
}

#[test]
fn bytes_become_the_text_they_encode() {
    assert_eq!(v2s(&vec![100, 105, 118]), "div");
    assert_eq!(v2s(&vec![0xc3, 0xa9, 0xe2, 0x82, 0xac]), "\u{e9}\u{20ac}");
    assert_eq!(v2s(&vec![]), "");
}

#[test]
fn quoted_strings_unescape() {
    assert_eq!(string(b"\"abc\" x", 0), Ok(("abc".to_string(), 5)));
    assert_eq!(string(b"\"\"", 0), Ok((String::new(), 2)));
    assert_eq!(
        string(b"\"a\\n\\t\\r\\b\\f\\\\\\/\\\"z\"", 0),
        Ok(("a\n\t\r\u{8}\u{c}\\/\"z".to_string(), 20))
    );
    assert_eq!(string("\"caf\u{e9}\"".as_bytes(), 0), Ok(("caf\u{e9}".to_string(), 7)));
    assert_eq!(string(b"abc", 0), Err(fails_at(0)));
    assert_eq!(string(b"\"abc", 0), Err(fails_at(4)));
    assert_eq!(string(b"\"a\\xb\"", 0), Err(fails_at(2)));
    assert_eq!(string(b"\"a\\", 0), Err(fails_at(2)));
    assert_eq!(string(b"\"\xff\"", 0), Err(fails_at(0)));
    assert_eq!(string(b"x\"\xc3\"", 1), Err(fails_at(1)));
}

#[test]
fn a_value_keeps_its_parts_when_cloned() {
    let values = vec![
        Value::Keyword("red".to_string()),
        Value::Length("1.5".to_string(), Unit::Px),
        Value::HexColor("#00ff00".to_string()),
        Value::ColorValue(css_cascade::css::Color { r: 1, g: 2, b: 3, a: 4 }),
    ];
    for value in &values {
        assert_eq!(&value.clone(), value);
    }
}
