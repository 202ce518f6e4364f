use sgmlish::data::{is_blank, is_sgml_whitespace};
use sgmlish::{Data, SgmlEvent, SgmlFragment, Text};

#[test]
fn test_is_sgml_whitespace() {
    assert!(is_sgml_whitespace(' '));
    assert!(is_sgml_whitespace('\t'));
    assert!(is_sgml_whitespace('\r'));
    assert!(is_sgml_whitespace('\n'));
    assert!(!is_sgml_whitespace('a'));
    assert!(!is_sgml_whitespace('\u{0c}'));
    assert!(!is_sgml_whitespace('\u{a0}'));
}

#[test]
fn test_event_display() {
    assert_eq!(
        SgmlEvent::MarkupDeclaration("<?DOCTYPE HTML?>".into()).to_string(),
        "<?DOCTYPE HTML?>"
    );
    assert_eq!(
        SgmlEvent::ProcessingInstruction("<?IS10744 FSIDR myurl>".into()).to_string(),
        "<?IS10744 FSIDR myurl>"
    );

    assert_eq!(SgmlEvent::OpenStartTag("foo".into()).to_string(), "<foo");
    assert_eq!(
        SgmlEvent::Attribute("foo".into(), Some(Data::RcData("bar".into()))).to_string(),
        "foo=\"bar\""
    );
    assert_eq!(SgmlEvent::Attribute("foo".into(), None).to_string(), "foo");
    assert_eq!(SgmlEvent::CloseStartTag.to_string(), ">");
    assert_eq!(SgmlEvent::XmlCloseEmptyElement.to_string(), "/>");
    assert_eq!(SgmlEvent::EndTag("foo".into()).to_string(), "</foo>");
    assert_eq!(SgmlEvent::EndTag("".into()).to_string(), "</>");

    assert_eq!(SgmlEvent::Character(Data::RcData("hello".into())).to_string(), "hello");
}

#[test]
fn test_display_attribute() {
    assert_eq!(SgmlEvent::Attribute("key".into(), None).to_string(), "key");
    assert_eq!(
        SgmlEvent::Attribute("key".into(), Some(Data::CData("value".into()))).to_string(),
        "key=\"value\""
    );
    assert_eq!(
        SgmlEvent::Attribute("key".into(), Some(Data::CData("va'lue".into()))).to_string(),
        "key=\"va'lue\""
    );
    assert_eq!(
        SgmlEvent::Attribute("key".into(), Some(Data::CData("va\"lue".into()))).to_string(),
        "key='va\"lue'"
    );
    assert_eq!(
        SgmlEvent::Attribute("key".into(), Some(Data::CData("va\"lu'e".into()))).to_string(),
        "key=\"va&#34;lu'e\""
    );
    assert_eq!(
        SgmlEvent::Attribute("key".into(), Some(Data::RcData("va\"lu'e".into()))).to_string(),
        "key=\"va&#34;lu'e\""
    );

    assert_eq!(
        SgmlEvent::Attribute("key".into(), Some(Data::RcData("a&o".into()))).to_string(),
        "key=\"a&o\""
    );
    assert_eq!(
        SgmlEvent::Attribute("key".into(), Some(Data::CData("a&o".into()))).to_string(),
        "key=\"a&#38;o\""
    );

    assert_eq!(
        SgmlEvent::Attribute("key".into(), Some(Data::RcData("a&o\"".into()))).to_string(),
        "key='a&o\"'"
    );
    assert_eq!(
        SgmlEvent::Attribute("key".into(), Some(Data::CData("a&o\"".into()))).to_string(),
        "key=\"a&#38;o&#34;\""
    );
    assert_eq!(
        SgmlEvent::Attribute("key".into(), Some(Data::RcData("a&o'".into()))).to_string(),
        "key=\"a&o'\""
    );
    assert_eq!(
        SgmlEvent::Attribute("key".into(), Some(Data::CData("a&o'".into()))).to_string(),
        "key=\"a&#38;o'\""
    );
}

#[test]
fn display_of_final_and_unresolved_data() {
    let fin = SgmlEvent::Attribute("k".into(), Some(Data::CData("x & \"y\"".into())));
    assert_eq!(fin.to_string(), "k=\"x &#38; &#34;y&#34;\"");
    let raw = SgmlEvent::Attribute("k".into(), Some(Data::RcData("x & \"y\"".into())));
    assert_eq!(raw.to_string(), "k='x & \"y\"'");
    assert_eq!(SgmlEvent::Character(Data::CData("a&b".into())).to_string(), "a&#38;b");
    assert_eq!(SgmlEvent::Character(Data::RcData("a&b".into())).to_string(), "a&b");
}

#[test]
fn marked_section_display() {
    let ev = SgmlEvent::MarkedSection {
        status_keywords: "CDATA".into(),
        section: "x<y".into(),
    };
    assert_eq!(ev.to_string(), "<![CDATA[x<y]]>");
}

#[test]
fn blank_text() {
    assert!(is_blank(""));
    assert!(is_blank(" \t\r\n"));
    assert!(!is_blank(" \u{0c} "));
    assert!(!is_blank(" a "));
}

#[test]
fn owned_conversion_keeps_events() {
    let events = vec![
        SgmlEvent::OpenStartTag(Text::Borrowed("a")),
        SgmlEvent::Attribute("href".into(), Some(Data::CData("x".into()))),
        SgmlEvent::CloseStartTag,
        SgmlEvent::Character(Data::RcData("text".into())),
        SgmlEvent::EndTag("a".into()),
    ];
    let fragment = SgmlFragment::from_events(events);
    let owned = fragment.into_owned();
    assert_eq!(owned.len(), 5);
    assert_eq!(owned.get(0), Some(&SgmlEvent::OpenStartTag("a".into())));
    assert!(matches!(owned.get(0), Some(SgmlEvent::OpenStartTag(Text::Owned(_)))));
    assert_eq!(
        owned.get(1),
        Some(&SgmlEvent::Attribute("href".into(), Some(Data::CData("x".into()))))
    );
    assert_eq!(owned.get(4), Some(&SgmlEvent::EndTag("a".into())));
    assert_eq!(owned.get(5), None);
}
