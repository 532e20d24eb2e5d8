use minisvg::svg::{style_declarations, RenderAction, SvgWalker};
use minisvg::xml::{XmlEvent, XmlParser};

fn actions(doc: &[u8]) -> Vec<RenderAction<'_>> {
    let mut parser = XmlParser::new(doc);
    let mut walker = SvgWalker::new(doc);
    let mut out = Vec::new();
    loop {
        let e = parser.next();
        if e == XmlEvent::Eof {
            break;
        }
        out.extend(walker.on_event(e));
    }
    out
}

#[test]
fn elements_push_and_pop_states_and_paths_draw_at_their_end() {
    let doc = br#"<svg viewBox="0 0 8 8" fill="red"><g><path d="M0 0" style="fill:#fff; stroke:none"/></g><rect d="M1 1"/></svg>"#;
    assert_eq!(
        actions(doc),
        vec![
            RenderAction::PushState,
            RenderAction::ViewBox(b"0 0 8 8"),
            RenderAction::Style(b"fill", b"red"),
            RenderAction::PushState,
            RenderAction::PushState,
            RenderAction::Style(b"d", b"M0 0"),
            RenderAction::Style(b"fill", b"#fff"),
            RenderAction::Style(b"stroke", b"none"),
            RenderAction::DrawPath(b"M0 0"),
            RenderAction::PopState,
            RenderAction::PopState,
            RenderAction::PushState,
            RenderAction::Style(b"d", b"M1 1"),
            RenderAction::PopState,
            RenderAction::PopState,
        ]
    );
}

#[test]
fn pushes_and_pops_balance() {
    let doc = br#"<svg><g><g/><path d="M0 0 1 1"></path></g></svg>"#;
    let acts = actions(doc);
    let pushes = acts.iter().filter(|a| **a == RenderAction::PushState).count();
    let pops = acts.iter().filter(|a| **a == RenderAction::PopState).count();
    assert_eq!(pushes, 4);
    assert_eq!(pops, 4);
}

#[test]
fn view_box_counts_only_on_the_svg_element() {
    let doc = br#"<g viewBox="1 2 3 4"/>"#;
    assert_eq!(
        actions(doc),
        vec![
            RenderAction::PushState,
            RenderAction::Style(b"viewBox", b"1 2 3 4"),
            RenderAction::PopState,
        ]
    );
}

#[test]
fn style_values_list_their_declarations() {
    assert_eq!(
        style_declarations(b"a:1;b : 2 ; c"),
        vec![(&b"a"[..], &b"1"[..]), (&b"b"[..], &b"2"[..]), (&b"c"[..], &b""[..])]
    );
    assert!(style_declarations(b"   ").is_empty());
}
