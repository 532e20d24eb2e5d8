//! What a renderer does for each event of an SVG document: enter and leave
//! elements, apply attributes and style declarations, and draw paths.
use vstd::prelude::*;
use crate::keywords::{is_d, is_path, is_style, is_svg, is_view_box, kw_d, kw_path, kw_style, kw_svg, kw_view_box};
use crate::bytes::{
    find_byte, is_ws, lemma_find_byte, lemma_skip_ws, lemma_trim_end, skip_ws, COLON, SEMICOLON,
};
use crate::xml::{lemma_next_kv_advances, spec_next_kv, SpecXmlEvent, StyleParser, XmlEvent};

verus! {

/// The `key: value` declarations of a `style` value from `pos` on, in order.
pub open spec fn style_pairs(d: Seq<u8>, pos: int) -> Seq<(Seq<u8>, Seq<u8>)>
    decreases d.len() - pos,
{
    if pos < 0 || pos > d.len() {
        Seq::empty()
    } else {
        let (kv, p) = spec_next_kv(d, pos);
        proof {
            lemma_next_kv_advances(d, pos);
        }
        match kv {
            None => Seq::empty(),
            Some(pair) => seq![pair] + style_pairs(d, p),
        }
    }
}

/// The bytes neither start nor end with whitespace.
pub open spec fn trimmed(s: Seq<u8>) -> bool {
    s.len() > 0 ==> !is_ws(s[0]) && !is_ws(s.last())
}

/// The keys and values of `style` declarations carry no surrounding
/// whitespace.
pub proof fn lemma_style_pairs_trimmed(d: Seq<u8>, pos: int)
    ensures
        forall|i: int|
            0 <= i < style_pairs(d, pos).len() ==> trimmed(#[trigger] style_pairs(d, pos)[i].0)
                && trimmed(style_pairs(d, pos)[i].1),
    decreases d.len() - pos,
{
    if !(pos < 0 || pos > d.len()) {
        let (kv, q) = spec_next_kv(d, pos);
        lemma_next_kv_advances(d, pos);
        if let Some(pair) = kv {
            let p = skip_ws(d, pos);
            lemma_skip_ws(d, pos);
            let k = find_byte(d, p, COLON);
            lemma_find_byte(d, p, COLON);
            lemma_trim_end(d, p, k);
            let after_colon = if k < d.len() {
                k + 1
            } else {
                k
            };
            lemma_skip_ws(d, after_colon);
            let vs = skip_ws(d, after_colon);
            lemma_find_byte(d, vs, SEMICOLON);
            let v = find_byte(d, vs, SEMICOLON);
            lemma_trim_end(d, vs, v);
            assert(trimmed(pair.0));
            assert(trimmed(pair.1));
            lemma_style_pairs_trimmed(d, q);
            let all = style_pairs(d, pos);
            let rest = style_pairs(d, q);
            assert forall|i: int| 0 <= i < all.len() implies trimmed(#[trigger] all[i].0) && trimmed(
                all[i].1,
            ) by {
                if i > 0 {
                    assert(all[i] == rest[i - 1]);
                }
            }
        }
    }
}

pub open spec fn pair_view(p: (&[u8], &[u8])) -> (Seq<u8>, Seq<u8>) {
    (p.0@, p.1@)
}

/// All declarations of a `style` attribute value, as `style_pairs` lists them.
pub fn style_declarations<'a>(val: &'a [u8]) -> (r: Vec<(&'a [u8], &'a [u8])>)
    ensures
        r@.map_values(|p: (&'a [u8], &'a [u8])| pair_view(p)) == style_pairs(val@, 0),
{
    let ghost d = val@;
    let mut parser = StyleParser::new(val);
    let mut out: Vec<(&'a [u8], &'a [u8])> = Vec::new();
    loop
        invariant
            d == val@,
            parser.bytes() == d,
            0 <= parser.position() <= d.len(),
            style_pairs(d, 0) == out@.map_values(|p: (&'a [u8], &'a [u8])| pair_view(p))
                + style_pairs(d, parser.position()),
        decreases d.len() - parser.position(),
    {
        let ghost before = out@.map_values(|p: (&'a [u8], &'a [u8])| pair_view(p));
        let ghost pos = parser.position();
        proof {
            lemma_next_kv_advances(d, pos);
        }
        match parser.next_kv() {
            None => {
                assert(before + style_pairs(d, pos) =~= before);
                return out;
            },
            Some(kv) => {
                out.push(kv);
                proof {
                    assert(out@.map_values(|p: (&'a [u8], &'a [u8])| pair_view(p)) =~= before.push(
                        pair_view(kv),
                    ));
                    assert(before + style_pairs(d, pos) =~= out@.map_values(
                        |p: (&'a [u8], &'a [u8])| pair_view(p),
                    ) + style_pairs(d, parser.position()));
                }
            },
        }
    }
}

/// A step of rendering.
#[derive(Debug, PartialEq, Clone, Copy)]
pub enum RenderAction<'a> {
    /// Enter an element: its state starts as a copy of its parent's.
    PushState,
    /// Leave an element.
    PopState,
    /// The root `svg` element's `viewBox`.
    ViewBox(&'a [u8]),
    /// A presentation attribute or style declaration `key: value`.
    Style(&'a [u8], &'a [u8]),
    /// Fill and stroke the path with this `d`, in the current state.
    DrawPath(&'a [u8]),
}

pub ghost enum SpecRenderAction {
    PushState,
    PopState,
    ViewBox(Seq<u8>),
    Style(Seq<u8>, Seq<u8>),
    DrawPath(Seq<u8>),
}

impl<'a> View for RenderAction<'a> {
    type V = SpecRenderAction;

    open spec fn view(&self) -> SpecRenderAction {
        match *self {
            RenderAction::PushState => SpecRenderAction::PushState,
            RenderAction::PopState => SpecRenderAction::PopState,
            RenderAction::ViewBox(v) => SpecRenderAction::ViewBox(v@),
            RenderAction::Style(k, v) => SpecRenderAction::Style(k@, v@),
            RenderAction::DrawPath(d) => SpecRenderAction::DrawPath(d@),
        }
    }
}

pub open spec fn actions_view<'a>(a: Seq<RenderAction<'a>>) -> Seq<SpecRenderAction> {
    a.map_values(|x: RenderAction<'a>| x@)
}

/// What the walker remembers between events: the last start tag, and the `d`
/// attribute seen on the current `path` element, if any.
pub ghost struct WalkerState {
    pub tag: Seq<u8>,
    pub path_data: Option<Seq<u8>>,
}

/// The actions for one event and the walker's state afterwards.
///
/// A start tag enters an element (and forgets any path data). An attribute of
/// the `svg` element named `viewBox` sets the view box; a `style` attribute
/// applies each of its declarations; any other attribute is applied as a
/// style property; a `path`'s `d` is also kept for its end tag. An end tag
/// draws the kept path data when it closes a `path`, then leaves the element.
/// `Eof` does nothing.
pub open spec fn spec_on_event(st: WalkerState, e: SpecXmlEvent) -> (Seq<SpecRenderAction>, WalkerState) {
    match e {
        SpecXmlEvent::StartTag(t) => (
            seq![SpecRenderAction::PushState],
            WalkerState { tag: t, path_data: None },
        ),
        SpecXmlEvent::Attribute(k, v) => {
            let acts = if st.tag == kw_svg() && k == kw_view_box() {
                seq![SpecRenderAction::ViewBox(v)]
            } else if k == kw_style() {
                style_pairs(v, 0).map_values(
                    |p: (Seq<u8>, Seq<u8>)| SpecRenderAction::Style(p.0, p.1),
                )
            } else {
                seq![SpecRenderAction::Style(k, v)]
            };
            let pd = if st.tag == kw_path() && k == kw_d() {
                Some(v)
            } else {
                st.path_data
            };
            (acts, WalkerState { tag: st.tag, path_data: pd })
        },
        SpecXmlEvent::EndTag(t) => {
            let acts = if t == kw_path() && st.path_data is Some {
                seq![
                    SpecRenderAction::DrawPath(st.path_data.unwrap()),
                    SpecRenderAction::PopState,
                ]
            } else {
                seq![SpecRenderAction::PopState]
            };
            (acts, st)
        },
        SpecXmlEvent::Eof => (Seq::empty(), st),
    }
}

/// Turns tokenizer events into render actions.
pub struct SvgWalker<'a> {
    pub current_tag: &'a [u8],
    pub current_d: Option<&'a [u8]>,
}

impl<'a> SvgWalker<'a> {
    pub open spec fn state(&self) -> WalkerState {
        WalkerState {
            tag: self.current_tag@,
            path_data: match self.current_d {
                Some(d) => Some(d@),
                None => None,
            },
        }
    }

    /// Before the first element: no tag, no path data.
    pub fn new(data: &'a [u8]) -> (w: Self)
        ensures
            w.state() == (WalkerState { tag: Seq::empty(), path_data: None }),
    {
        let w = SvgWalker { current_tag: vstd::slice::slice_subrange(data, 0, 0), current_d: None };
        assert(w.state().tag =~= Seq::<u8>::empty());
        w
    }

    /// The actions for one event, as `spec_on_event` describes them.
    pub fn on_event(&mut self, e: XmlEvent<'a>) -> (acts: Vec<RenderAction<'a>>)
        ensures
            (actions_view(acts@), final(self).state()) == spec_on_event(old(self).state(), e@),
    {
        let mut acts: Vec<RenderAction<'a>> = Vec::new();
        match e {
            XmlEvent::StartTag(t) => {
                self.current_tag = t;
                acts.push(RenderAction::PushState);
                self.current_d = None;
                assert(actions_view(acts@) =~= seq![SpecRenderAction::PushState]);
            },
            XmlEvent::Attribute(k, v) => {
                if is_svg(self.current_tag) && is_view_box(k) {
                    acts.push(RenderAction::ViewBox(v));
                    assert(actions_view(acts@) =~= seq![SpecRenderAction::ViewBox(v@)]);
                } else if is_style(k) {
                    let pairs = style_declarations(v);
                    let mut i: usize = 0;
                    while i < pairs.len()
                        invariant
                            i <= pairs@.len(),
                            acts@.len() == i,
                            forall|j: int|
                                0 <= j < i ==> #[trigger] acts@[j] == RenderAction::Style(
                                    pairs@[j].0,
                                    pairs@[j].1,
                                ),
                        decreases pairs@.len() - i,
                    {
                        let (sk, sv) = pairs[i];
                        acts.push(RenderAction::Style(sk, sv));
                        i = i + 1;
                    }
                    proof {
                        let m = pairs@.map_values(|p: (&'a [u8], &'a [u8])| pair_view(p));
                        assert(m == style_pairs(v@, 0));
                        assert(actions_view(acts@) =~= style_pairs(v@, 0).map_values(
                            |p: (Seq<u8>, Seq<u8>)| SpecRenderAction::Style(p.0, p.1),
                        )) by {
                            assert forall|j: int| 0 <= j < acts@.len() implies actions_view(
                                acts@,
                            )[j] == style_pairs(v@, 0).map_values(
                                |p: (Seq<u8>, Seq<u8>)| SpecRenderAction::Style(p.0, p.1),
                            )[j] by {
                                assert(acts@[j] == RenderAction::Style(pairs@[j].0, pairs@[j].1));
                                assert(m[j] == pair_view(pairs@[j]));
                            }
                        }
                    }
                } else {
                    acts.push(RenderAction::Style(k, v));
                    assert(actions_view(acts@) =~= seq![SpecRenderAction::Style(k@, v@)]);
                }
                if is_path(self.current_tag) && is_d(k) {
                    self.current_d = Some(v);
                }
            },
            XmlEvent::EndTag(t) => {
                if is_path(t) {
                    if let Some(d) = self.current_d {
                        acts.push(RenderAction::DrawPath(d));
                    }
                }
                acts.push(RenderAction::PopState);
                assert(actions_view(acts@) =~= spec_on_event(old(self).state(), e@).0);
            },
            XmlEvent::Eof => {
                assert(actions_view(acts@) =~= Seq::<SpecRenderAction>::empty());
            },
        }
        acts
    }
}

/// Every element enters exactly one state and leaves exactly one: a start tag
/// yields just a push, an end tag ends with the one pop it yields, and no
/// other event pushes or pops.
pub proof fn lemma_states_balance(st: WalkerState, e: SpecXmlEvent)
    ensures
        ({
            let acts = spec_on_event(st, e).0;
            &&& (e is StartTag ==> acts == seq![SpecRenderAction::PushState])
            &&& (e is EndTag ==> acts.len() >= 1 && acts.last() == SpecRenderAction::PopState
                && forall|i: int| 0 <= i < acts.len() - 1 ==> acts[i] is DrawPath)
            &&& (!(e is StartTag) && !(e is EndTag) ==> forall|i: int|
                0 <= i < acts.len() ==> !(#[trigger] acts[i] is PushState) && !(acts[i] is PopState))
        }),
{
    match e {
        SpecXmlEvent::Attribute(k, v) => {
            let acts = spec_on_event(st, e).0;
            if !(st.tag == kw_svg() && k == kw_view_box()) && k == kw_style() {
                assert forall|i: int| 0 <= i < acts.len() implies !(
                #[trigger] acts[i] is PushState) && !(acts[i] is PopState) by {
                    assert(acts[i] is Style);
                }
            }
        },
        _ => {},
    }
}

/// Only the end tag of a `path` draws, and only the `d` kept for it.
pub proof fn lemma_draws_only_paths(st: WalkerState, e: SpecXmlEvent, i: int)
    requires
        0 <= i < spec_on_event(st, e).0.len(),
        spec_on_event(st, e).0[i] is DrawPath,
    ensures
        e == SpecXmlEvent::EndTag(kw_path()),
        st.path_data == Some(spec_on_event(st, e).0[i]->DrawPath_0),
{
    match e {
        SpecXmlEvent::Attribute(k, v) => {
            let acts = spec_on_event(st, e).0;
            if !(st.tag == kw_svg() && k == kw_view_box()) && k == kw_style() {
                assert(acts[i] is Style);
            }
        },
        _ => {},
    }
}

} // verus!
