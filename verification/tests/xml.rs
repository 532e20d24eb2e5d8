use minisvg::xml::{StyleParser, XmlEvent, XmlParser};

#[test]
fn skips_xml_declaration_doctype_and_comments() {
    let svg = br#"<?xml version="1.0"?>
<!DOCTYPE svg PUBLIC "-//W3C//DTD SVG 1.1//EN" "http://www.w3.org/Graphics/SVG/1.1/DTD/svg11.dtd">
<!-- ignored -->
<svg><path d="M0 0L1 1"/></svg>"#;
    let mut parser = XmlParser::new(svg);

    assert_eq!(parser.next(), XmlEvent::StartTag(b"svg"));
    assert_eq!(parser.next(), XmlEvent::StartTag(b"path"));
    assert_eq!(parser.next(), XmlEvent::Attribute(b"d", b"M0 0L1 1"));
    assert_eq!(parser.next(), XmlEvent::EndTag(b"path"));
    assert_eq!(parser.next(), XmlEvent::EndTag(b"svg"));
    assert_eq!(parser.next(), XmlEvent::Eof);
}

#[test]
fn self_closing_element_ends_with_its_own_name() {
    let mut parser = XmlParser::new(br#"<g><rect x="1" y="2"/></g>"#);
    assert_eq!(parser.next(), XmlEvent::StartTag(b"g"));
    assert_eq!(parser.next(), XmlEvent::StartTag(b"rect"));
    assert_eq!(parser.next(), XmlEvent::Attribute(b"x", b"1"));
    assert_eq!(parser.next(), XmlEvent::Attribute(b"y", b"2"));
    assert_eq!(parser.next(), XmlEvent::EndTag(b"rect"));
    assert_eq!(parser.next(), XmlEvent::EndTag(b"g"));
    assert_eq!(parser.next(), XmlEvent::Eof);
}

#[test]
fn eof_repeats_once_reached() {
    let mut parser = XmlParser::new(b"<a></a>  ");
    assert_eq!(parser.next(), XmlEvent::StartTag(b"a"));
    assert_eq!(parser.next(), XmlEvent::EndTag(b"a"));
    for _ in 0..3 {
        let pos = parser.pos;
        assert_eq!(parser.next(), XmlEvent::Eof);
        assert_eq!(parser.pos, pos.max(9));
    }
}

#[test]
fn every_event_but_eof_moves_forward() {
    let data = br#"<?x?><svg a="1"><!-- c --><p/>text</svg>"#;
    let mut parser = XmlParser::new(data);
    loop {
        let before = parser.pos;
        let e = parser.next();
        if e == XmlEvent::Eof {
            break;
        }
        assert!(parser.pos > before);
    }
}

#[test]
fn text_content_is_skipped() {
    let mut parser = XmlParser::new(b"<t>hello <b>world</b></t>");
    assert_eq!(parser.next(), XmlEvent::StartTag(b"t"));
    assert_eq!(parser.next(), XmlEvent::StartTag(b"b"));
    assert_eq!(parser.next(), XmlEvent::EndTag(b"b"));
    assert_eq!(parser.next(), XmlEvent::EndTag(b"t"));
    assert_eq!(parser.next(), XmlEvent::Eof);
}

#[test]
fn unterminated_input_ends_cleanly() {
    let mut parser = XmlParser::new(b"</a");
    assert_eq!(parser.next(), XmlEvent::EndTag(b"a"));
    assert_eq!(parser.next(), XmlEvent::Eof);

    let mut parser = XmlParser::new(b"<");
    assert_eq!(parser.next(), XmlEvent::Eof);

    let mut parser = XmlParser::new(br#"<a k="unclosed"#);
    assert_eq!(parser.next(), XmlEvent::StartTag(b"a"));
    assert_eq!(parser.next(), XmlEvent::Attribute(b"k", b"unclosed"));
    assert_eq!(parser.next(), XmlEvent::Eof);
}

#[test]
fn attribute_without_room_for_its_value_stops_the_tokenizer() {
    let mut parser = XmlParser::new(b"<svg width");
    assert_eq!(parser.try_next(), Some(XmlEvent::StartTag(b"svg")));
    assert_eq!(parser.try_next(), None);

    let mut parser = XmlParser::new(b"<svg width=");
    assert_eq!(parser.try_next(), Some(XmlEvent::StartTag(b"svg")));
    assert_eq!(parser.try_next(), None);
}

#[test]
fn comments_may_hold_markup() {
    let mut parser = XmlParser::new(b"<!-- <a> -- > --><b/>");
    assert_eq!(parser.next(), XmlEvent::StartTag(b"b"));
    assert_eq!(parser.next(), XmlEvent::EndTag(b"b"));
    assert_eq!(parser.next(), XmlEvent::Eof);
}

#[test]
fn style_declarations_are_split_and_trimmed() {
    let mut style = StyleParser::new(b"fill: #f00; stroke : none ;stroke-width:2");
    assert_eq!(style.next_kv(), Some((&b"fill"[..], &b"#f00"[..])));
    assert_eq!(style.next_kv(), Some((&b"stroke"[..], &b"none"[..])));
    assert_eq!(style.next_kv(), Some((&b"stroke-width"[..], &b"2"[..])));
    assert_eq!(style.next_kv(), None);
    assert_eq!(style.next_kv(), None);
}

#[test]
fn style_without_colon_is_a_key_with_empty_value() {
    let mut style = StyleParser::new(b"  bare  ");
    assert_eq!(style.next_kv(), Some((&b"bare"[..], &b""[..])));
    assert_eq!(style.next_kv(), None);

    let mut style = StyleParser::new(b" \t\n ");
    assert_eq!(style.next_kv(), None);
}

#[test]
fn remembered_tag_is_a_bare_name() {
    let doc = br#"<rect/><g
 x="1"/>"#;
    let mut parser = XmlParser::new(doc);
    assert_eq!(parser.next(), XmlEvent::StartTag(b"rect"));
    assert_eq!(parser.current_tag, b"rect");
    assert!(parser.in_tag);
    assert_eq!(parser.next(), XmlEvent::EndTag(b"rect"));
    assert_eq!(parser.next(), XmlEvent::StartTag(b"g"));
    assert_eq!(parser.next(), XmlEvent::Attribute(b"x", b"1"));
    assert!(parser.in_tag);
    assert_eq!(parser.next(), XmlEvent::EndTag(b"g"));
    assert_eq!(parser.next(), XmlEvent::Eof);
}
