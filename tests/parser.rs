use sgmlish::marked_sections::MarkedSectionStatus;
use sgmlish::{
    Data, EntityError, MarkedSectionHandling, NameNormalization, ParseError, Parser, ParserConfig, SgmlEvent,
    Text,
};

fn events(input: &str) -> Vec<SgmlEvent<'_>> {
    Parser::new().parse(input).unwrap().into_vec()
}

#[test]
fn parse_start_and_end_tags() {
    let evs = events("<A HREF=\"x&#33;\" CHECKED>link</A>");
    assert_eq!(
        evs,
        vec![
            SgmlEvent::OpenStartTag("A".into()),
            SgmlEvent::Attribute("HREF".into(), Some(Data::CData("x!".into()))),
            SgmlEvent::Attribute("CHECKED".into(), None),
            SgmlEvent::CloseStartTag,
            SgmlEvent::Character(Data::CData("link".into())),
            SgmlEvent::EndTag("A".into()),
        ]
    );
}

#[test]
fn parse_empty_tags_and_xml_close() {
    let evs = events("<></><br/><p a='1' b=2>");
    assert_eq!(
        evs,
        vec![
            SgmlEvent::OpenStartTag("".into()),
            SgmlEvent::CloseStartTag,
            SgmlEvent::EndTag("".into()),
            SgmlEvent::OpenStartTag("br".into()),
            SgmlEvent::XmlCloseEmptyElement,
            SgmlEvent::OpenStartTag("p".into()),
            SgmlEvent::Attribute("a".into(), Some(Data::CData("1".into()))),
            SgmlEvent::Attribute("b".into(), Some(Data::CData("2".into()))),
            SgmlEvent::CloseStartTag,
        ]
    );
}

#[test]
fn parse_trims_and_drops_blank_text() {
    let evs = events("<a>\n  hello world \n</a>\n \t");
    assert_eq!(
        evs,
        vec![
            SgmlEvent::OpenStartTag("a".into()),
            SgmlEvent::CloseStartTag,
            SgmlEvent::Character(Data::CData("hello world".into())),
            SgmlEvent::EndTag("a".into()),
        ]
    );
    let evs = Parser::builder().trim_whitespace(false).parse(" x ").unwrap().into_vec();
    assert_eq!(evs, vec![SgmlEvent::Character(Data::CData(" x ".into()))]);
}

#[test]
fn parse_normalizes_names() {
    let evs = Parser::builder().lowercase_names().parse("<Foo BaR=x></FOO>").unwrap().into_vec();
    assert_eq!(
        evs,
        vec![
            SgmlEvent::OpenStartTag("foo".into()),
            SgmlEvent::Attribute("bar".into(), Some(Data::CData("x".into()))),
            SgmlEvent::CloseStartTag,
            SgmlEvent::EndTag("foo".into()),
        ]
    );
    let evs = Parser::builder().uppercase_names().parse("<foo>").unwrap().into_vec();
    assert_eq!(evs[0], SgmlEvent::OpenStartTag("FOO".into()));
}

#[test]
fn normalize_keeps_unchanged_names_borrowed() {
    let n = NameNormalization::ToLowercase.normalize(Text::Borrowed("abc"));
    assert!(n.is_borrowed());
    let n = NameNormalization::ToLowercase.normalize(Text::Borrowed("aBc"));
    assert_eq!(n.as_str(), "abc");
    let n = NameNormalization::ToUppercase.normalize(Text::Borrowed("aBc"));
    assert_eq!(n.as_str(), "ABC");
    let n = NameNormalization::Unchanged.normalize(Text::Borrowed("aBc"));
    assert_eq!(n.as_str(), "aBc");
}

#[test]
fn parse_comments_declarations_and_instructions() {
    let evs = events("<!DOCTYPE html><!-- note --><?pi x><p>");
    assert_eq!(
        evs,
        vec![
            SgmlEvent::MarkupDeclaration("<!DOCTYPE html>".into()),
            SgmlEvent::ProcessingInstruction("<?pi x>".into()),
            SgmlEvent::OpenStartTag("p".into()),
            SgmlEvent::CloseStartTag,
        ]
    );
    let evs = Parser::builder()
        .ignore_markup_declarations(true)
        .ignore_processing_instructions(true)
        .parse("<!DOCTYPE html><?pi x><p>")
        .unwrap()
        .into_vec();
    assert_eq!(
        evs,
        vec![SgmlEvent::OpenStartTag("p".into()), SgmlEvent::CloseStartTag]
    );
}

#[test]
fn parse_declaration_with_parameter_entities() {
    let evs = Parser::builder()
        .expand_parameter_entities(|n| if n == "x" { Some("y".to_string()) } else { None })
        .parse("<!ENTITY %x;>")
        .unwrap()
        .into_vec();
    assert_eq!(evs, vec![SgmlEvent::MarkupDeclaration("<!ENTITY y>".into())]);
    let err = Parser::new().parse("<!ENTITY %x;>").unwrap_err();
    assert!(matches!(err, ParseError::Entity(e) if e.entity == "x"));
}

#[test]
fn parse_entities_in_content() {
    let evs = Parser::builder()
        .expand_entities(|n| if n == "amp" { Some("&".to_string()) } else { None })
        .parse("a &amp; b")
        .unwrap()
        .into_vec();
    assert_eq!(evs, vec![SgmlEvent::Character(Data::CData("a & b".into()))]);
    assert!(matches!(Parser::new().parse("a &amp; b"), Err(ParseError::Entity(_))));
    let evs = events("x &#38; y");
    assert_eq!(evs, vec![SgmlEvent::Character(Data::CData("x & y".into()))]);
}

#[test]
fn parse_marked_sections() {
    let evs = events("<![CDATA[ <a> &x; ]]>");
    assert_eq!(evs, vec![SgmlEvent::Character(Data::CData("<a> &x;".into()))]);
    let evs = events("<![RCDATA[a&#33;]]>");
    assert_eq!(evs, vec![SgmlEvent::Character(Data::CData("a!".into()))]);
    assert!(matches!(Parser::new().parse("<![IGNORE[x]]>"), Err(ParseError::Syntax(_))));
    assert!(matches!(Parser::new().parse("<![CDATA CDATA[x]]>"), Err(ParseError::Syntax(_))));

    let evs = Parser::builder()
        .expand_marked_sections()
        .parse("<![IGNORE[x]]><![INCLUDE[<b>y]]><![CDATA IGNORE[z]]>")
        .unwrap()
        .into_vec();
    assert_eq!(
        evs,
        vec![
            SgmlEvent::OpenStartTag("b".into()),
            SgmlEvent::CloseStartTag,
            SgmlEvent::Character(Data::CData("y".into())),
        ]
    );

    let evs = Parser::builder()
        .marked_section_handling(MarkedSectionHandling::KeepUnmodified)
        .parse("<![CDATA[x]]>")
        .unwrap()
        .into_vec();
    assert_eq!(
        evs,
        vec![SgmlEvent::MarkedSection {
            status_keywords: "CDATA".into(),
            section: "x".into(),
        }]
    );
}

#[test]
fn parse_keywords_by_mode() {
    let strict = MarkedSectionHandling::AcceptOnlyCharacterData;
    assert_eq!(strict.parse_keywords("CDATA"), Some(MarkedSectionStatus::CData));
    assert_eq!(strict.parse_keywords("rcdata"), Some(MarkedSectionStatus::RcData));
    assert_eq!(strict.parse_keywords("IGNORE"), None);
    assert_eq!(strict.parse_keywords("CDATA CDATA"), None);
    let all = MarkedSectionHandling::ExpandAll;
    assert_eq!(all.parse_keywords("CDATA CDATA"), Some(MarkedSectionStatus::CData));
    assert_eq!(all.parse_keywords("INCLUDE IGNORE"), Some(MarkedSectionStatus::Ignore));
    assert_eq!(all.parse_keywords("TEMP RCDATA"), Some(MarkedSectionStatus::RcData));
    assert_eq!(all.parse_keywords(""), Some(MarkedSectionStatus::Include));
    assert_eq!(all.parse_keywords("BOGUS"), None);
}

#[test]
fn parse_errors() {
    assert!(matches!(Parser::new().parse("<a"), Err(ParseError::Syntax(_))));
    assert!(matches!(Parser::new().parse("<a b=>"), Err(ParseError::Syntax(_))));
    assert!(matches!(Parser::new().parse("</a"), Err(ParseError::Syntax(_))));
    assert!(matches!(Parser::new().parse("<!-- open"), Err(ParseError::Syntax(_))));
    assert!(matches!(Parser::new().parse("<a b=\"x>"), Err(ParseError::Syntax(_))));
}

#[test]
fn stray_less_than_is_text() {
    let evs = events("a < b");
    assert_eq!(evs, vec![SgmlEvent::Character(Data::CData("a < b".into()))]);
}

#[test]
fn config_trim_and_rcdata() {
    let config: ParserConfig = Parser::builder().into_config();
    assert_eq!(config.trim(" \t x \n"), "x");
    assert_eq!(config.trim("\u{0c}x"), "\u{0c}x");
    let untrimmed = Parser::builder().trim_whitespace(false).into_config();
    assert_eq!(untrimmed.trim(" x "), " x ");
    assert_eq!(config.parse_rcdata("a&#33;"), Ok(Data::CData("a!".into())));
    assert!(config.parse_rcdata("&x;").is_err());
    assert_eq!(config.parse_markup_declaration_text("a &b;"), Ok("a &b;".into()));
}

#[test]
fn option_defaults() {
    assert_eq!(NameNormalization::default(), NameNormalization::Unchanged);
    assert_eq!(
        MarkedSectionHandling::default(),
        MarkedSectionHandling::AcceptOnlyCharacterData
    );
}

#[test]
fn entity_error_positions_are_input_byte_ranges() {
    let err = Parser::new().parse("  &foo;").unwrap_err();
    assert_eq!(
        err,
        ParseError::Entity(EntityError {
            entity: "foo".into(),
            position: 2..7,
        })
    );
    let err = Parser::new().parse("<a b=\"x&y;\">").unwrap_err();
    assert_eq!(
        err,
        ParseError::Entity(EntityError {
            entity: "y".into(),
            position: 7..10,
        })
    );
    let err = Parser::new().parse("é <!X %p;>").unwrap_err();
    assert_eq!(
        err,
        ParseError::Entity(EntityError {
            entity: "p".into(),
            position: 7..10,
        })
    );
    let err = Parser::new().parse("<![ %k; [x]]>").unwrap_err();
    assert_eq!(
        err,
        ParseError::Entity(EntityError {
            entity: "k".into(),
            position: 4..7,
        })
    );
}

#[test]
fn syntax_error_positions_lie_in_input() {
    for input in ["<a", "<a b=>", "</a", "<!-- open", "<a b=\"x>", "<![CDATA[x"] {
        match Parser::new().parse(input) {
            Err(ParseError::Syntax(k)) => assert!(k <= input.chars().count()),
            other => panic!("unexpected result for {:?}: {:?}", input, other),
        }
    }
}

#[test]
fn rcdata_without_ampersand_is_borrowed() {
    let config: ParserConfig = Parser::builder().into_config();
    let input = "plain";
    match config.parse_rcdata(input) {
        Ok(Data::CData(Text::Borrowed(s))) => assert!(std::ptr::eq(s, input)),
        other => panic!("unexpected result: {:?}", other),
    }
}

#[test]
fn parsed_events_convert_to_owned() {
    let fragment = Parser::new().parse("<a href='x'>t</a>").unwrap().into_owned();
    for i in 0..fragment.len() {
        match fragment.get(i).unwrap() {
            SgmlEvent::OpenStartTag(n) | SgmlEvent::EndTag(n) => assert!(!n.is_borrowed()),
            SgmlEvent::Attribute(n, v) => {
                assert!(!n.is_borrowed());
                assert!(matches!(v, Some(Data::CData(Text::Owned(_)))));
            }
            SgmlEvent::Character(d) => assert!(matches!(d, Data::CData(Text::Owned(_)))),
            _ => {}
        }
    }
}

#[test]
fn parse_borrows_unchanged_text_from_input() {
    let input = "<a href='x'>text &#33;</a><?pi>";
    let events = Parser::new().parse(input).unwrap().into_vec();
    let inside = |s: &str| {
        let start = input.as_ptr() as usize;
        let p = s.as_ptr() as usize;
        p >= start && p + s.len() <= start + input.len()
    };
    match &events[0] {
        SgmlEvent::OpenStartTag(Text::Borrowed(n)) => assert!(inside(n)),
        other => panic!("unexpected event: {:?}", other),
    }
    match &events[1] {
        SgmlEvent::Attribute(Text::Borrowed(n), Some(Data::CData(Text::Borrowed(v)))) => {
            assert!(inside(n) && inside(v));
        }
        other => panic!("unexpected event: {:?}", other),
    }
    assert!(matches!(&events[3], SgmlEvent::Character(Data::CData(Text::Owned(t))) if t == "text !"));
    match &events[5] {
        SgmlEvent::ProcessingInstruction(Text::Borrowed(p)) => assert!(inside(p)),
        other => panic!("unexpected event: {:?}", other),
    }
}
