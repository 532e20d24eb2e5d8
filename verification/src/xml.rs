//! A streaming XML tokenizer that yields start tags, attributes and end tags
//! as slices of the input, and the lexer for `style` attribute values.
use vstd::prelude::*;
use crate::bytes::{
    find_byte, find_byte_from, is_ascii_whitespace, is_ws, lemma_find_byte, lemma_skip_past_seq,
    lemma_skip_ws, matches_at, skip_past_byte, skip_past_seq, skip_ws, trim_end,
    trim_end_from, BANG, COLON, DASH, EQ, GT, LT, QMARK, QUOTE, SEMICOLON, SLASH,
};

verus! {

/// What the tokenizer reports next.
#[derive(Debug, PartialEq)]
pub enum XmlEvent<'a> {
    StartTag(&'a [u8]),
    EndTag(&'a [u8]),
    Attribute(&'a [u8], &'a [u8]),
    Eof,
}

/// An event with its slices taken as byte sequences.
pub ghost enum SpecXmlEvent {
    StartTag(Seq<u8>),
    EndTag(Seq<u8>),
    Attribute(Seq<u8>, Seq<u8>),
    Eof,
}

impl<'a> View for XmlEvent<'a> {
    type V = SpecXmlEvent;

    open spec fn view(&self) -> SpecXmlEvent {
        match *self {
            XmlEvent::StartTag(t) => SpecXmlEvent::StartTag(t@),
            XmlEvent::EndTag(t) => SpecXmlEvent::EndTag(t@),
            XmlEvent::Attribute(k, v) => SpecXmlEvent::Attribute(k@, v@),
            XmlEvent::Eof => SpecXmlEvent::Eof,
        }
    }
}

/// The tokenizer's state: where it stands, whether it is inside a start tag,
/// and the name of the last start tag.
pub ghost struct XmlCursor {
    pub pos: int,
    pub in_tag: bool,
    pub current_tag: Seq<u8>,
}

/// A byte that can stand in a tag name: not whitespace, `>` or `/`.
pub open spec fn name_byte(c: u8) -> bool {
    !is_ws(c) && c != GT && c != SLASH
}

/// Every byte can stand in a tag name.
pub open spec fn tag_clean(t: Seq<u8>) -> bool {
    forall|i: int| 0 <= i < t.len() ==> name_byte(#[trigger] t[i])
}

/// No byte of `t` is `b`.
pub open spec fn lacks(t: Seq<u8>, b: u8) -> bool {
    forall|i: int| 0 <= i < t.len() ==> #[trigger] t[i] != b
}

/// The end of a tag name that starts at `p`: it runs up to whitespace, `>`, `/`
/// or the end of the input.
pub open spec fn tag_name_end(d: Seq<u8>, p: int) -> int
    decreases d.len() - p,
{
    if 0 <= p < d.len() && name_byte(d[p]) {
        tag_name_end(d, p + 1)
    } else {
        p
    }
}

pub proof fn lemma_tag_name_end(d: Seq<u8>, p: int)
    requires
        0 <= p,
    ensures
        p <= tag_name_end(d, p),
        p <= d.len() ==> tag_name_end(d, p) <= d.len(),
        forall|i: int| p <= i < tag_name_end(d, p) ==> name_byte(#[trigger] d[i]),
    decreases d.len() - p,
{
    if 0 <= p < d.len() && name_byte(d[p]) {
        lemma_tag_name_end(d, p + 1);
    }
}

/// `?>`, which ends a processing instruction.
pub open spec fn pi_close() -> Seq<u8> {
    seq![QMARK, GT]
}

/// `-->`, which ends a comment.
pub open spec fn comment_close() -> Seq<u8> {
    seq![DASH, DASH, GT]
}

/// Where the tokenizer resumes after a `<!` markup declaration whose body
/// starts at `r`: past `-->` for a comment, past the next `>` otherwise.
pub open spec fn after_declaration(d: Seq<u8>, r: int) -> int {
    if r + 2 <= d.len() && d[r] == DASH && d[r + 1] == DASH {
        skip_past_seq(d, r + 2, comment_close())
    } else {
        skip_past_byte(d, r, GT)
    }
}

/// The next event of the tokenizer over `d` in state (`pos`, `in_tag`, `cur`),
/// with the state after it; `None` where an attribute has no room for its
/// `="` after the key (on such input the tokenizer cannot go on).
///
/// Whitespace is skipped first. Inside a start tag, `>` closes the tag, `/>`
/// closes it and ends the element (an end tag named like the last start tag),
/// and anything else but `/` starts an attribute `key="value"`. Outside, `<?`
/// processing instructions, `<!--` comments and other `<!` declarations are
/// skipped, `</name>` is an end tag, `<name` a start tag; any other byte is
/// skipped.
pub open spec fn spec_next(d: Seq<u8>, pos: int, in_tag: bool, cur: Seq<u8>) -> Option<
    (SpecXmlEvent, XmlCursor),
>
    decreases d.len() - pos,
{
    if pos < 0 {
        None
    } else {
        let p = skip_ws(d, pos);
        proof {
            lemma_skip_ws(d, pos);
        }
        if p >= d.len() {
            Some((SpecXmlEvent::Eof, XmlCursor { pos: p, in_tag, current_tag: cur }))
        } else if in_tag && d[p] == GT {
            spec_next(d, p + 1, false, cur)
        } else if in_tag && d[p] == SLASH && p + 1 < d.len() && d[p + 1] == GT {
            Some((SpecXmlEvent::EndTag(cur), XmlCursor { pos: p + 2, in_tag: false, current_tag: cur }))
        } else if in_tag && d[p] != SLASH {
            let k = find_byte(d, p, EQ);
            if k + 2 > d.len() {
                None
            } else {
                let v = find_byte(d, k + 2, QUOTE);
                Some(
                    (
                        SpecXmlEvent::Attribute(d.subrange(p, k), d.subrange(k + 2, v)),
                        XmlCursor { pos: v + 1, in_tag: true, current_tag: cur },
                    ),
                )
            }
        } else if d[p] == LT {
            let q = p + 1;
            if q >= d.len() {
                Some((SpecXmlEvent::Eof, XmlCursor { pos: q, in_tag, current_tag: cur }))
            } else if d[q] == QMARK {
                proof {
                    lemma_skip_past_seq(d, q + 1, pi_close());
                }
                spec_next(d, skip_past_seq(d, q + 1, pi_close()), in_tag, cur)
            } else if d[q] == BANG {
                proof {
                    lemma_after_declaration(d, q + 1);
                }
                spec_next(d, after_declaration(d, q + 1), in_tag, cur)
            } else if d[q] == SLASH {
                let e = find_byte(d, q + 1, GT);
                Some(
                    (
                        SpecXmlEvent::EndTag(d.subrange(q + 1, e)),
                        XmlCursor { pos: e + 1, in_tag, current_tag: cur },
                    ),
                )
            } else {
                let e = tag_name_end(d, q);
                Some(
                    (
                        SpecXmlEvent::StartTag(d.subrange(q, e)),
                        XmlCursor { pos: e, in_tag: true, current_tag: d.subrange(q, e) },
                    ),
                )
            }
        } else {
            spec_next(d, p + 1, in_tag, cur)
        }
    }
}

pub proof fn lemma_after_declaration(d: Seq<u8>, r: int)
    requires
        0 <= r <= d.len(),
    ensures
        r <= after_declaration(d, r) <= d.len(),
{
    if r + 2 <= d.len() && d[r] == DASH && d[r + 1] == DASH {
        lemma_skip_past_seq(d, r + 2, comment_close());
    } else {
        lemma_find_byte(d, r, GT);
    }
}

/// A tokenizer over a byte buffer.
#[derive(Debug)]
pub struct XmlParser<'a> {
    pub data: &'a [u8],
    pub pos: usize,
    pub in_tag: bool,
    pub current_tag: &'a [u8],
}

impl<'a> XmlParser<'a> {
    /// The state is in range: the position is at most one past the end, and the
    /// buffer leaves room in `usize` for the few bytes the tokenizer looks ahead.
    pub open spec fn wf(&self) -> bool {
        &&& self.pos <= self.data@.len() + 1
        &&& self.data@.len() + 8 <= usize::MAX
        &&& tag_clean(self.current_tag@)
    }

    pub open spec fn cursor(&self) -> XmlCursor {
        XmlCursor { pos: self.pos as int, in_tag: self.in_tag, current_tag: self.current_tag@ }
    }

    /// What the next call of `next` gives back, with the state after it.
    pub open spec fn spec_advance(&self) -> Option<(SpecXmlEvent, XmlCursor)> {
        spec_next(self.data@, self.pos as int, self.in_tag, self.current_tag@)
    }

    pub fn new(data: &'a [u8]) -> (p: Self)
        requires
            data@.len() + 8 <= usize::MAX,
        ensures
            p.data@ == data@,
            p.pos == 0,
            !p.in_tag,
            p.current_tag@ == Seq::<u8>::empty(),
            p.wf(),
    {
        let empty = vstd::slice::slice_subrange(data, 0, 0);
        XmlParser { data, pos: 0, in_tag: false, current_tag: empty }
    }

    fn skip_whitespace(&mut self)
        requires
            old(self).wf(),
        ensures
            final(self).data == old(self).data,
            final(self).in_tag == old(self).in_tag,
            final(self).current_tag == old(self).current_tag,
            final(self).pos == skip_ws(old(self).data@, old(self).pos as int),
            final(self).wf(),
    {
        let ghost target = skip_ws(self.data@, self.pos as int);
        proof {
            lemma_skip_ws(self.data@, self.pos as int);
        }
        while self.pos < self.data.len() && is_ascii_whitespace(self.data[self.pos])
            invariant
                self.data == old(self).data,
                self.in_tag == old(self).in_tag,
                self.current_tag == old(self).current_tag,
                self.wf(),
                skip_ws(self.data@, self.pos as int) == target,
            decreases self.data@.len() - self.pos,
        {
            self.pos = self.pos + 1;
        }
    }

    fn skip_until_byte(&mut self, target: u8)
        requires
            old(self).wf(),
            old(self).pos <= old(self).data@.len(),
        ensures
            final(self).data == old(self).data,
            final(self).in_tag == old(self).in_tag,
            final(self).current_tag == old(self).current_tag,
            final(self).pos == skip_past_byte(old(self).data@, old(self).pos as int, target),
            final(self).wf(),
    {
        let ghost p0 = self.pos as int;
        proof {
            lemma_find_byte(self.data@, p0, target);
        }
        while self.pos < self.data.len()
            invariant
                self.data == old(self).data,
                self.in_tag == old(self).in_tag,
                self.current_tag == old(self).current_tag,
                self.wf(),
                p0 == old(self).pos,
                p0 <= self.pos <= self.data@.len(),
                find_byte(self.data@, self.pos as int, target) == find_byte(
                    self.data@,
                    p0,
                    target,
                ),
            decreases self.data@.len() - self.pos,
        {
            let ghost before = self.pos as int;
            let c = self.data[self.pos];
            self.pos = self.pos + 1;
            if c == target {
                assert(find_byte(self.data@, before, target) == before);
                assert(skip_past_byte(self.data@, p0, target) == before + 1);
                return;
            }
        }
    }

    fn skip_until_sequence(&mut self, seq: &[u8])
        requires
            old(self).wf(),
            old(self).pos <= old(self).data@.len(),
            seq@.len() <= 3,
        ensures
            final(self).data == old(self).data,
            final(self).in_tag == old(self).in_tag,
            final(self).current_tag == old(self).current_tag,
            seq@.len() == 0 ==> final(self).pos == old(self).pos,
            seq@.len() > 0 ==> final(self).pos == skip_past_seq(
                old(self).data@,
                old(self).pos as int,
                seq@,
            ),
            final(self).wf(),
    {
        if seq.len() == 0 {
            return;
        }
        let ghost target = skip_past_seq(self.data@, self.pos as int, seq@);
        while self.pos + seq.len() <= self.data.len()
            invariant
                self.data == old(self).data,
                self.in_tag == old(self).in_tag,
                self.current_tag == old(self).current_tag,
                self.wf(),
                self.pos <= self.data@.len(),
                0 < seq@.len() <= 3,
                target == skip_past_seq(old(self).data@, old(self).pos as int, seq@),
                skip_past_seq(self.data@, self.pos as int, seq@) == target,
            decreases self.data@.len() - self.pos,
        {
            if matches_at(self.data, self.pos, seq) {
                assert(skip_past_seq(self.data@, self.pos as int, seq@) == self.pos + seq@.len());
                self.pos = self.pos + seq.len();
                return;
            }
            self.pos = self.pos + 1;
        }
        self.pos = self.data.len();
    }

    /// The next event; see `spec_next` for the grammar.
    pub fn next(&mut self) -> (e: XmlEvent<'a>)
        requires
            old(self).wf(),
            old(self).spec_advance() is Some,
        ensures
            final(self).data == old(self).data,
            final(self).wf(),
            old(self).spec_advance() == Some((e@, final(self).cursor())),
    {
        match self.try_next() {
            Some(e) => e,
            None => XmlEvent::Eof,
        }
    }

    /// The next event, or `None` where an attribute key is not followed by
    /// room for `="` (the input on which `next` cannot go on).
    pub fn try_next(&mut self) -> (r: Option<XmlEvent<'a>>)
        requires
            old(self).wf(),
        ensures
            final(self).data == old(self).data,
            final(self).wf(),
            r is None <==> old(self).spec_advance() is None,
            r matches Some(e) ==> old(self).spec_advance() == Some((e@, final(self).cursor())),
        decreases old(self).data@.len() - old(self).pos,
    {
        let ghost d = self.data@;
        self.skip_whitespace();
        proof {
            lemma_skip_ws(d, old(self).pos as int);
        }
        if self.pos >= self.data.len() {
            return Some(XmlEvent::Eof);
        }
        if self.in_tag {
            let c = self.data[self.pos];
            if c == GT {
                self.pos = self.pos + 1;
                self.in_tag = false;
                return self.try_next();
            } else if c == SLASH {
                if self.pos + 1 < self.data.len() && self.data[self.pos + 1] == GT {
                    self.pos = self.pos + 2;
                    self.in_tag = false;
                    return Some(XmlEvent::EndTag(self.current_tag));
                }
            } else {
                let key_start = self.pos;
                let k = find_byte_from(self.data, self.pos, EQ);
                if k + 2 > self.data.len() {
                    return None;
                }
                self.pos = k;
                let key = vstd::slice::slice_subrange(self.data, key_start, k);
                self.pos = self.pos + 1;
                self.pos = self.pos + 1;
                let val_start = self.pos;
                let v = find_byte_from(self.data, val_start, QUOTE);
                self.pos = v;
                let val = vstd::slice::slice_subrange(self.data, val_start, v);
                self.pos = self.pos + 1;
                return Some(XmlEvent::Attribute(key, val));
            }
        }
        if self.data[self.pos] == LT {
            self.pos = self.pos + 1;
            if self.pos >= self.data.len() {
                return Some(XmlEvent::Eof);
            }
            if self.data[self.pos] == QMARK {
                self.pos = self.pos + 1;
                let close: [u8; 2] = [QMARK, GT];
                let close = close.as_slice();
                assert(close@ =~= pi_close());
                proof {
                    lemma_skip_past_seq(d, self.pos as int, pi_close());
                }
                self.skip_until_sequence(close);
                return self.try_next();
            }
            if self.data[self.pos] == BANG {
                self.pos = self.pos + 1;
                if self.pos + 2 <= self.data.len() && self.data[self.pos] == DASH && self.data[
                    self.pos + 1
                ] == DASH {
                    self.pos = self.pos + 2;
                    let close: [u8; 3] = [DASH, DASH, GT];
                    let close = close.as_slice();
                    assert(close@ =~= comment_close());
                    proof {
                        lemma_skip_past_seq(d, self.pos as int, comment_close());
                    }
                    self.skip_until_sequence(close);
                } else {
                    proof {
                        lemma_find_byte(d, self.pos as int, GT);
                    }
                    self.skip_until_byte(GT);
                }
                return self.try_next();
            }
            if self.data[self.pos] == SLASH {
                self.pos = self.pos + 1;
                let start = self.pos;
                let e = find_byte_from(self.data, start, GT);
                self.pos = e;
                let tag = vstd::slice::slice_subrange(self.data, start, e);
                self.pos = self.pos + 1;
                return Some(XmlEvent::EndTag(tag));
            }
            let start = self.pos;
            while self.pos < self.data.len() && !is_ascii_whitespace(self.data[self.pos])
                && self.data[self.pos] != GT && self.data[self.pos] != SLASH
                invariant
                    self.data@ == d,
                    start <= self.pos <= d.len(),
                    d.len() + 8 <= usize::MAX,
                    tag_name_end(d, self.pos as int) == tag_name_end(d, start as int),
                decreases d.len() - self.pos,
            {
                self.pos = self.pos + 1;
            }
            let tag = vstd::slice::slice_subrange(self.data, start, self.pos);
            proof {
                lemma_tag_name_end(d, start as int);
                assert forall|i: int| 0 <= i < tag@.len() implies name_byte(#[trigger] tag@[i]) by {
                    assert(tag@[i] == d[start + i]);
                }
            }
            self.in_tag = true;
            self.current_tag = tag;
            return Some(XmlEvent::StartTag(tag));
        }
        self.pos = self.pos + 1;
        self.try_next()
    }
}

/// Each event other than `Eof` moves the tokenizer forward, so a loop that
/// reads events until `Eof` ends.
pub proof fn lemma_next_advances(d: Seq<u8>, pos: int, in_tag: bool, cur: Seq<u8>)
    requires
        0 <= pos,
        spec_next(d, pos, in_tag, cur) is Some,
    ensures
        pos <= spec_next(d, pos, in_tag, cur).unwrap().1.pos,
        spec_next(d, pos, in_tag, cur).unwrap().0 != SpecXmlEvent::Eof ==> pos < spec_next(
            d,
            pos,
            in_tag,
            cur,
        ).unwrap().1.pos,
    decreases d.len() - pos,
{
    let p = skip_ws(d, pos);
    lemma_skip_ws(d, pos);
    if p >= d.len() {
    } else if in_tag && d[p] == GT {
        lemma_next_advances(d, p + 1, false, cur);
    } else if in_tag && d[p] == SLASH && p + 1 < d.len() && d[p + 1] == GT {
    } else if in_tag && d[p] != SLASH {
        lemma_find_byte(d, p, EQ);
        let k = find_byte(d, p, EQ);
        lemma_find_byte(d, k + 2, QUOTE);
    } else if d[p] == LT {
        let q = p + 1;
        if q >= d.len() {
        } else if d[q] == QMARK {
            lemma_skip_past_seq(d, q + 1, pi_close());
            lemma_next_advances(d, skip_past_seq(d, q + 1, pi_close()), in_tag, cur);
        } else if d[q] == BANG {
            lemma_after_declaration(d, q + 1);
            lemma_next_advances(d, after_declaration(d, q + 1), in_tag, cur);
        } else if d[q] == SLASH {
            lemma_find_byte(d, q + 1, GT);
        } else {
            lemma_tag_name_end(d, q);
        }
    } else {
        lemma_next_advances(d, p + 1, in_tag, cur);
    }
}

/// What the tokenizer's events look like, from a state whose remembered tag
/// is a tag name: a start tag is a tag name, the bytes just before the new
/// position and right after a `<`, and it becomes the remembered tag inside a
/// start tag; an attribute comes only
/// inside a start tag, its key without `=` and its value without `"`; an end
/// tag holds no `>`. The remembered tag stays a tag name.
pub proof fn lemma_event_shapes(d: Seq<u8>, pos: int, in_tag: bool, cur: Seq<u8>)
    requires
        tag_clean(cur),
        spec_next(d, pos, in_tag, cur) is Some,
    ensures
        ({
            let (e, c) = spec_next(d, pos, in_tag, cur).unwrap();
            &&& tag_clean(c.current_tag)
            &&& (e matches SpecXmlEvent::StartTag(t) ==> {
                &&& tag_clean(t)
                &&& c.in_tag
                &&& c.current_tag == t
                &&& 1 <= c.pos - t.len() && c.pos <= d.len()
                &&& d[c.pos - t.len() - 1] == LT
                &&& d.subrange(c.pos - t.len(), c.pos) == t
            })
            &&& (e matches SpecXmlEvent::Attribute(k, v) ==> in_tag && c.in_tag && lacks(k, EQ)
                && lacks(v, QUOTE))
            &&& (e matches SpecXmlEvent::EndTag(t) ==> lacks(t, GT))
        }),
    decreases d.len() - pos,
{
    let p = skip_ws(d, pos);
    lemma_skip_ws(d, pos);
    if p >= d.len() {
    } else if in_tag && d[p] == GT {
        lemma_event_shapes(d, p + 1, false, cur);
    } else if in_tag && d[p] == SLASH && p + 1 < d.len() && d[p + 1] == GT {
        assert forall|i: int| 0 <= i < cur.len() implies #[trigger] cur[i] != GT by {
            assert(name_byte(cur[i]));
        }
    } else if in_tag && d[p] != SLASH {
        lemma_find_byte(d, p, EQ);
        let k = find_byte(d, p, EQ);
        lemma_find_byte(d, k + 2, QUOTE);
        let v = find_byte(d, k + 2, QUOTE);
        assert(lacks(d.subrange(p, k), EQ)) by {
            assert forall|i: int| 0 <= i < k - p implies #[trigger] d.subrange(p, k)[i] != EQ by {
                assert(d.subrange(p, k)[i] == d[p + i]);
            }
        }
        assert(lacks(d.subrange(k + 2, v), QUOTE)) by {
            assert forall|i: int| 0 <= i < v - (k + 2) implies #[trigger] d.subrange(k + 2, v)[i]
                != QUOTE by {
                assert(d.subrange(k + 2, v)[i] == d[k + 2 + i]);
            }
        }
    } else if d[p] == LT {
        let q = p + 1;
        if q >= d.len() {
        } else if d[q] == QMARK {
            lemma_skip_past_seq(d, q + 1, pi_close());
            lemma_event_shapes(d, skip_past_seq(d, q + 1, pi_close()), in_tag, cur);
        } else if d[q] == BANG {
            lemma_after_declaration(d, q + 1);
            lemma_event_shapes(d, after_declaration(d, q + 1), in_tag, cur);
        } else if d[q] == SLASH {
            lemma_find_byte(d, q + 1, GT);
            let e = find_byte(d, q + 1, GT);
            assert(lacks(d.subrange(q + 1, e), GT)) by {
                assert forall|i: int| 0 <= i < e - (q + 1) implies #[trigger] d.subrange(q + 1, e)[i]
                    != GT by {
                    assert(d.subrange(q + 1, e)[i] == d[q + 1 + i]);
                }
            }
        } else {
            lemma_tag_name_end(d, q);
            let e = tag_name_end(d, q);
            let t = d.subrange(q, e);
            assert(tag_clean(t)) by {
                assert forall|i: int| 0 <= i < t.len() implies name_byte(#[trigger] t[i]) by {
                    assert(t[i] == d[q + i]);
                }
            }
        }
    } else {
        lemma_event_shapes(d, p + 1, in_tag, cur);
    }
}

proof fn lemma_eof_at_end(d: Seq<u8>, pos: int, in_tag: bool, cur: Seq<u8>)
    requires
        0 <= pos,
        spec_next(d, pos, in_tag, cur) matches Some((SpecXmlEvent::Eof, c)),
    ensures
        spec_next(d, pos, in_tag, cur).unwrap().1.pos >= d.len(),
    decreases d.len() - pos,
{
    let p = skip_ws(d, pos);
    lemma_skip_ws(d, pos);
    if p >= d.len() {
    } else if in_tag && d[p] == GT {
        lemma_eof_at_end(d, p + 1, false, cur);
    } else if in_tag && d[p] == SLASH && p + 1 < d.len() && d[p + 1] == GT {
    } else if in_tag && d[p] != SLASH {
    } else if d[p] == LT {
        let q = p + 1;
        if q >= d.len() {
        } else if d[q] == QMARK {
            lemma_skip_past_seq(d, q + 1, pi_close());
            lemma_eof_at_end(d, skip_past_seq(d, q + 1, pi_close()), in_tag, cur);
        } else if d[q] == BANG {
            lemma_after_declaration(d, q + 1);
            lemma_eof_at_end(d, after_declaration(d, q + 1), in_tag, cur);
        }
    } else {
        lemma_eof_at_end(d, p + 1, in_tag, cur);
    }
}

/// Once the tokenizer reports `Eof` it keeps reporting `Eof` and stays where it is.
pub proof fn lemma_eof_is_final(d: Seq<u8>, pos: int, in_tag: bool, cur: Seq<u8>)
    requires
        0 <= pos,
        spec_next(d, pos, in_tag, cur) matches Some((SpecXmlEvent::Eof, c)),
    ensures
        ({
            let c = spec_next(d, pos, in_tag, cur).unwrap().1;
            spec_next(d, c.pos, c.in_tag, c.current_tag) == Some((SpecXmlEvent::Eof, c))
        }),
{
    lemma_eof_at_end(d, pos, in_tag, cur);
    lemma_next_advances(d, pos, in_tag, cur);
}

/// The `key: value` pair that a style lexer over `d` at `pos` reads next, with
/// the position after it. Leading whitespace is skipped; the key runs to the
/// next `:`, the value (after whitespace) to the next `;`, and both lose
/// trailing whitespace. `None` once only whitespace is left.
pub open spec fn spec_next_kv(d: Seq<u8>, pos: int) -> (Option<(Seq<u8>, Seq<u8>)>, int) {
    let p = skip_ws(d, pos);
    if p >= d.len() {
        (None, p)
    } else {
        let k = find_byte(d, p, COLON);
        let key_end = trim_end(d, p, k);
        let after_colon = if k < d.len() {
            k + 1
        } else {
            k
        };
        let vs = skip_ws(d, after_colon);
        let v = find_byte(d, vs, SEMICOLON);
        let val_end = trim_end(d, vs, v);
        let after_semicolon = if v < d.len() {
            v + 1
        } else {
            v
        };
        (Some((d.subrange(p, key_end), d.subrange(vs, val_end))), after_semicolon)
    }
}

/// A lexer for `style` attribute values such as `fill: #f00; stroke: none`.
pub struct StyleParser<'a> {
    data: &'a [u8],
    pos: usize,
}

impl<'a> StyleParser<'a> {
    #[verifier::type_invariant]
    spec fn inv(self) -> bool {
        self.pos <= self.data@.len()
    }

    /// The bytes being lexed.
    pub closed spec fn bytes(&self) -> Seq<u8> {
        self.data@
    }

    /// How far the lexer has read.
    pub closed spec fn position(&self) -> int {
        self.pos as int
    }

    pub fn new(data: &'a [u8]) -> (p: Self)
        ensures
            p.bytes() == data@,
            p.position() == 0,
    {
        Self { data, pos: 0 }
    }

    fn skip_whitespace(&mut self)
        ensures
            final(self).bytes() == old(self).bytes(),
            final(self).position() == skip_ws(old(self).bytes(), old(self).position()),
    {
        proof {
            use_type_invariant(&*self);
        }
        let ghost target = skip_ws(self.data@, self.pos as int);
        let mut pos = self.pos;
        while pos < self.data.len() && is_ascii_whitespace(self.data[pos])
            invariant
                pos <= self.data@.len(),
                skip_ws(self.data@, pos as int) == target,
            decreases self.data@.len() - pos,
        {
            pos = pos + 1;
        }
        self.pos = pos;
    }

    /// The next `key: value` pair, as `spec_next_kv` describes it.
    pub fn next_kv(&mut self) -> (r: Option<(&'a [u8], &'a [u8])>)
        ensures
            final(self).bytes() == old(self).bytes(),
            final(self).position() == spec_next_kv(old(self).bytes(), old(self).position()).1,
            r is None <==> spec_next_kv(old(self).bytes(), old(self).position()).0 is None,
            r matches Some((k, v)) ==> spec_next_kv(old(self).bytes(), old(self).position()).0
                == Some((k@, v@)),
    {
        proof {
            use_type_invariant(&*self);
        }
        self.skip_whitespace();
        proof {
            use_type_invariant(&*self);
            lemma_skip_ws(self.data@, old(self).pos as int);
        }
        let data = self.data;
        if self.pos >= data.len() {
            return None;
        }
        let key_start = self.pos;
        let k = find_byte_from(data, key_start, COLON);
        let key_end = trim_end_from(data, key_start, k);
        let key = vstd::slice::slice_subrange(data, key_start, key_end);
        let mut pos = k;
        if pos < data.len() {
            pos = pos + 1;
        }
        self.pos = pos;
        self.skip_whitespace();
        proof {
            use_type_invariant(&*self);
        }
        let val_start = self.pos;
        let v = find_byte_from(data, val_start, SEMICOLON);
        let val_end = trim_end_from(data, val_start, v);
        let val = vstd::slice::slice_subrange(data, val_start, val_end);
        let mut pos = v;
        if pos < data.len() {
            pos = pos + 1;
        }
        self.pos = pos;
        Some((key, val))
    }
}

/// Each pair read moves the style lexer forward, so reading pairs until
/// `None` ends; at `None` the lexer stands at the end of its input.
pub proof fn lemma_next_kv_advances(d: Seq<u8>, pos: int)
    requires
        0 <= pos <= d.len(),
    ensures
        spec_next_kv(d, pos).0 is Some ==> pos < spec_next_kv(d, pos).1 <= d.len(),
        spec_next_kv(d, pos).0 is None ==> spec_next_kv(d, pos).1 == d.len(),
        spec_next_kv(d, pos).0 is None <==> (forall|i: int| pos <= i < d.len() ==> is_ws(
            #[trigger] d[i],
        )),
{
    let p = skip_ws(d, pos);
    lemma_skip_ws(d, pos);
    if p < d.len() {
        let k = find_byte(d, p, COLON);
        lemma_find_byte(d, p, COLON);
        let after_colon = if k < d.len() {
            k + 1
        } else {
            k
        };
        lemma_skip_ws(d, after_colon);
        let vs = skip_ws(d, after_colon);
        lemma_find_byte(d, vs, SEMICOLON);
        assert(!is_ws(d[p]));
    }
}

/// Whether the tokenizer gets from state (`pos`, `in_tag`, `cur`) to `Eof`
/// without reaching input on which it cannot go on.
pub open spec fn tokenizes(d: Seq<u8>, pos: int, in_tag: bool, cur: Seq<u8>) -> bool
    decreases d.len() + 1 - pos,
{
    match spec_next(d, pos, in_tag, cur) {
        None => false,
        Some((SpecXmlEvent::Eof, _)) => true,
        Some((_, c)) => if pos < c.pos <= d.len() + 1 {
            tokenizes(d, c.pos, c.in_tag, c.current_tag)
        } else {
            false
        },
    }
}

/// Whether a whole document tokenizes, from its start to `Eof`.
pub open spec fn document_tokenizes(d: Seq<u8>) -> bool {
    tokenizes(d, 0, false, Seq::empty())
}

impl<'a> XmlParser<'a> {
    /// Whether the tokenizer, from where it stands, reaches `Eof`.
    pub open spec fn reaches_eof(&self) -> bool {
        tokenizes(self.data@, self.pos as int, self.in_tag, self.current_tag@)
    }
}

} // verus!
