//! Affine transforms `[a, b, c, d, e, f]` (the matrix `[a c e; b d f; 0 0 1]`)
//! and `transform` attribute values: the lexer, the list of transform
//! functions with the number tokens each one takes, and the matrix they make.
use vstd::prelude::*;
use crate::scalar::{number_or_default, parsed_number, Scalar};
use crate::bytes::{
    is_alpha, is_ascii_alphabetic, is_ascii_whitespace, lemma_skip_past_byte, lemma_skip_seps,
    skip_past_byte, skip_past_byte_from, skip_seps, COMMA, LPAREN, RPAREN,
};
use crate::keywords::{
    is_matrix, is_rotate, is_scale, is_skew_x, is_skew_y, is_translate, kw_matrix, kw_rotate,
    kw_scale, kw_skew_x, kw_skew_y, kw_translate,
};
use crate::number::scan_number;
use crate::path::{lemma_next_number_bounds, spec_next_number};

verus! {

/// The end of the run of ASCII letters that starts at `p`.
pub open spec fn alpha_end(d: Seq<u8>, p: int) -> int
    decreases d.len() - p,
{
    if 0 <= p < d.len() && is_alpha(d[p]) {
        alpha_end(d, p + 1)
    } else {
        p
    }
}

pub proof fn lemma_alpha_end(d: Seq<u8>, p: int)
    requires
        0 <= p <= d.len(),
    ensures
        p <= alpha_end(d, p) <= d.len(),
    decreases d.len() - p,
{
    if p < d.len() && is_alpha(d[p]) {
        lemma_alpha_end(d, p + 1);
    }
}

/// The transform function name after the separators at `pos` (a run of
/// letters), with where the lexer stands afterwards.
pub open spec fn spec_next_command(d: Seq<u8>, pos: int) -> (Option<Seq<u8>>, int) {
    let p = skip_seps(d, pos);
    let e = alpha_end(d, p);
    if e == p {
        (None, p)
    } else {
        (Some(d.subrange(p, e)), e)
    }
}

/// A lexer over a `transform` attribute value.
pub struct TransformParser<'a> {
    pub data: &'a [u8],
    pub pos: usize,
}

impl<'a> TransformParser<'a> {
    pub open spec fn wf(&self) -> bool {
        self.pos <= self.data@.len()
    }

    pub fn new(data: &'a [u8]) -> (p: Self)
        ensures
            p.data@ == data@,
            p.pos == 0,
            p.wf(),
    {
        Self { data, pos: 0 }
    }

    fn skip_whitespace_and_commas(&mut self)
        requires
            old(self).wf(),
        ensures
            final(self).data == old(self).data,
            final(self).pos == skip_seps(old(self).data@, old(self).pos as int),
            final(self).wf(),
    {
        proof {
            lemma_skip_seps(self.data@, self.pos as int);
        }
        let ghost target = skip_seps(self.data@, self.pos as int);
        while self.pos < self.data.len()
            invariant_except_break
                self.data == old(self).data,
                self.wf(),
                skip_seps(self.data@, self.pos as int) == target,
            ensures
                self.data == old(self).data,
                self.wf(),
                self.pos == target,
            decreases self.data@.len() - self.pos,
        {
            let c = self.data[self.pos];
            if is_ascii_whitespace(c) || c == COMMA {
                self.pos = self.pos + 1;
            } else {
                break;
            }
        }
    }

    /// Moves past the next `target` byte, or to the end.
    fn skip_until(&mut self, target: u8)
        requires
            old(self).wf(),
        ensures
            final(self).data == old(self).data,
            final(self).pos == skip_past_byte(old(self).data@, old(self).pos as int, target),
            final(self).wf(),
    {
        self.pos = skip_past_byte_from(self.data, self.pos, target);
    }

    /// The next transform function name, as `spec_next_command` describes it.
    pub fn next_command(&mut self) -> (r: Option<&'a [u8]>)
        requires
            old(self).wf(),
        ensures
            final(self).data == old(self).data,
            final(self).wf(),
            final(self).pos == spec_next_command(old(self).data@, old(self).pos as int).1,
            r is None <==> spec_next_command(old(self).data@, old(self).pos as int).0 is None,
            r matches Some(b) ==> spec_next_command(old(self).data@, old(self).pos as int).0
                == Some(b@),
    {
        self.skip_whitespace_and_commas();
        let start = self.pos;
        let ghost d = self.data@;
        proof {
            lemma_alpha_end(d, start as int);
        }
        while self.pos < self.data.len() && is_ascii_alphabetic(self.data[self.pos])
            invariant
                self.data@ == d,
                self.data == old(self).data,
                start <= self.pos <= d.len(),
                alpha_end(d, self.pos as int) == alpha_end(d, start as int),
            decreases d.len() - self.pos,
        {
            self.pos = self.pos + 1;
        }
        if start == self.pos {
            None
        } else {
            Some(vstd::slice::slice_subrange(self.data, start, self.pos))
        }
    }

    /// The bytes of the next number, as `spec_next_number` describes them.
    pub fn next_number_bytes(&mut self) -> (r: Option<&'a [u8]>)
        requires
            old(self).wf(),
        ensures
            final(self).data == old(self).data,
            final(self).wf(),
            final(self).pos == spec_next_number(old(self).data@, old(self).pos as int).1,
            r is None <==> spec_next_number(old(self).data@, old(self).pos as int).0 is None,
            r matches Some(b) ==> spec_next_number(old(self).data@, old(self).pos as int).0 == Some(
                b@,
            ),
    {
        self.skip_whitespace_and_commas();
        if self.pos >= self.data.len() {
            return None;
        }
        let start = self.pos;
        let end = scan_number(self.data, start);
        if end == start {
            return None;
        }
        self.pos = end;
        Some(vstd::slice::slice_subrange(self.data, start, end))
    }
}

/// The transform functions that are understood.
#[derive(Debug, PartialEq, Eq, Structural, Clone, Copy)]
pub enum TransformKind {
    Matrix,
    Translate,
    Scale,
    Rotate,
    SkewX,
    SkewY,
    /// Any other name: the function stands for the identity.
    Other,
}

pub open spec fn spec_transform_kind(name: Seq<u8>) -> TransformKind {
    if name == kw_matrix() {
        TransformKind::Matrix
    } else if name == kw_translate() {
        TransformKind::Translate
    } else if name == kw_scale() {
        TransformKind::Scale
    } else if name == kw_rotate() {
        TransformKind::Rotate
    } else if name == kw_skew_x() {
        TransformKind::SkewX
    } else if name == kw_skew_y() {
        TransformKind::SkewY
    } else {
        TransformKind::Other
    }
}

/// How many numbers a transform function reads: `matrix(a b c d e f)`,
/// `translate(tx ty)`, `scale(sx sy)`, `rotate(angle cx cy)`, `skewX(angle)`,
/// `skewY(angle)`; none for an unknown name.
pub open spec fn spec_arity(kind: TransformKind) -> nat {
    match kind {
        TransformKind::Matrix => 6,
        TransformKind::Translate => 2,
        TransformKind::Scale => 2,
        TransformKind::Rotate => 3,
        TransformKind::SkewX => 1,
        TransformKind::SkewY => 1,
        TransformKind::Other => 0,
    }
}

pub fn transform_kind(name: &[u8]) -> (k: TransformKind)
    ensures
        k == spec_transform_kind(name@),
{
    if is_matrix(name) {
        TransformKind::Matrix
    } else if is_translate(name) {
        TransformKind::Translate
    } else if is_scale(name) {
        TransformKind::Scale
    } else if is_rotate(name) {
        TransformKind::Rotate
    } else if is_skew_x(name) {
        TransformKind::SkewX
    } else if is_skew_y(name) {
        TransformKind::SkewY
    } else {
        TransformKind::Other
    }
}

pub fn arity(kind: TransformKind) -> (n: usize)
    ensures
        n == spec_arity(kind),
{
    match kind {
        TransformKind::Matrix => 6,
        TransformKind::Translate => 2,
        TransformKind::Scale => 2,
        TransformKind::Rotate => 3,
        TransformKind::SkewX => 1,
        TransformKind::SkewY => 1,
        TransformKind::Other => 0,
    }
}

/// `n` number tokens read in a row from `pos` (each `None` where no token
/// starts), with where the lexer stands afterwards.
pub open spec fn spec_read_numbers(d: Seq<u8>, pos: int, n: nat) -> (Seq<Option<Seq<u8>>>, int)
    decreases n,
{
    if n == 0 {
        (Seq::empty(), pos)
    } else {
        let (t, p1) = spec_next_number(d, pos);
        let (rest, p2) = spec_read_numbers(d, p1, (n - 1) as nat);
        (seq![t] + rest, p2)
    }
}

pub proof fn lemma_read_numbers(d: Seq<u8>, pos: int, n: nat)
    requires
        0 <= pos <= d.len(),
    ensures
        pos <= spec_read_numbers(d, pos, n).1 <= d.len(),
        spec_read_numbers(d, pos, n).0.len() == n,
    decreases n,
{
    if n > 0 {
        lemma_next_number_bounds(d, pos);
        lemma_read_numbers(d, spec_next_number(d, pos).1, (n - 1) as nat);
    }
}

/// A transform function with the number tokens it read.
pub struct TransformOp<'a> {
    pub kind: TransformKind,
    pub args: Vec<Option<&'a [u8]>>,
}

pub ghost struct SpecTransformOp {
    pub kind: TransformKind,
    pub args: Seq<Option<Seq<u8>>>,
}

pub open spec fn token_view(t: Option<&[u8]>) -> Option<Seq<u8>> {
    match t {
        Some(b) => Some(b@),
        None => None,
    }
}

impl<'a> View for TransformOp<'a> {
    type V = SpecTransformOp;

    open spec fn view(&self) -> SpecTransformOp {
        SpecTransformOp { kind: self.kind, args: self.args@.map_values(|t: Option<&'a [u8]>| token_view(t)) }
    }
}

/// Where the lexer stands after the transform function read at `p1` with name
/// kind `kind`: past `(`, the numbers it takes, and `)`.
pub open spec fn after_function(d: Seq<u8>, p1: int, kind: TransformKind) -> int {
    let p2 = skip_past_byte(d, p1, LPAREN);
    let p3 = spec_read_numbers(d, p2, spec_arity(kind)).1;
    skip_past_byte(d, p3, RPAREN)
}

/// The transform functions of a `transform` value from `pos` on: each name is
/// followed (after the next `(`) by as many number tokens as it takes, and
/// the lexer then moves past the next `)`. The list ends where no name comes.
pub open spec fn spec_transform_ops(d: Seq<u8>, pos: int) -> Seq<SpecTransformOp>
    decreases d.len() - pos,
{
    if pos < 0 || pos > d.len() {
        Seq::empty()
    } else {
        let (c, p1) = spec_next_command(d, pos);
        match c {
            None => Seq::empty(),
            Some(name) => {
                let kind = spec_transform_kind(name);
                let p2 = skip_past_byte(d, p1, LPAREN);
                let args = spec_read_numbers(d, p2, spec_arity(kind)).0;
                proof {
                    lemma_after_function(d, pos, kind);
                }
                seq![SpecTransformOp { kind, args }] + spec_transform_ops(
                    d,
                    after_function(d, p1, kind),
                )
            },
        }
    }
}

pub proof fn lemma_after_function(d: Seq<u8>, pos: int, kind: TransformKind)
    requires
        0 <= pos <= d.len(),
    ensures
        spec_next_command(d, pos).0 is Some ==> pos < after_function(
            d,
            spec_next_command(d, pos).1,
            kind,
        ) <= d.len(),
        pos <= spec_next_command(d, pos).1 <= d.len(),
{
    lemma_skip_seps(d, pos);
    let p = skip_seps(d, pos);
    lemma_alpha_end(d, p);
    let p1 = spec_next_command(d, pos).1;
    lemma_skip_past_byte(d, p1, LPAREN);
    let p2 = skip_past_byte(d, p1, LPAREN);
    lemma_read_numbers(d, p2, spec_arity(kind));
    let p3 = spec_read_numbers(d, p2, spec_arity(kind)).1;
    lemma_skip_past_byte(d, p3, RPAREN);
}

impl<'a> TransformParser<'a> {
    /// Reads `n` number tokens in a row.
    fn read_numbers(&mut self, n: usize) -> (args: Vec<Option<&'a [u8]>>)
        requires
            old(self).wf(),
        ensures
            final(self).data == old(self).data,
            final(self).wf(),
            args@.map_values(|t: Option<&'a [u8]>| token_view(t)) == spec_read_numbers(
                old(self).data@,
                old(self).pos as int,
                n as nat,
            ).0,
            final(self).pos == spec_read_numbers(old(self).data@, old(self).pos as int, n as nat).1,
    {
        let ghost d = self.data@;
        let ghost p0 = self.pos as int;
        let mut args: Vec<Option<&'a [u8]>> = Vec::new();
        let mut i: usize = 0;
        while i < n
            invariant
                self.data == old(self).data,
                self.data@ == d,
                self.wf(),
                p0 == old(self).pos,
                i <= n,
                args@.len() == i,
                spec_read_numbers(d, p0, n as nat) == (
                    args@.map_values(|t: Option<&'a [u8]>| token_view(t)) + spec_read_numbers(
                        d,
                        self.pos as int,
                        (n - i) as nat,
                    ).0,
                    spec_read_numbers(d, self.pos as int, (n - i) as nat).1,
                ),
            decreases n - i,
        {
            let ghost before = args@.map_values(|t: Option<&'a [u8]>| token_view(t));
            let ghost pos_before = self.pos as int;
            let t = self.next_number_bytes();
            args.push(t);
            i = i + 1;
            proof {
                let rest_before = spec_read_numbers(d, pos_before, (n - i + 1) as nat);
                let rest_after = spec_read_numbers(d, self.pos as int, (n - i) as nat);
                assert(rest_before.0 == seq![token_view(t)] + rest_after.0);
                assert(args@.map_values(|t: Option<&'a [u8]>| token_view(t)) =~= before.push(
                    token_view(t),
                ));
                assert(before + rest_before.0 =~= args@.map_values(
                    |t: Option<&'a [u8]>| token_view(t),
                ) + rest_after.0);
            }
        }
        proof {
            assert(spec_read_numbers(d, self.pos as int, 0).0 =~= Seq::<Option<Seq<u8>>>::empty());
            assert(args@.map_values(|t: Option<&'a [u8]>| token_view(t)) + Seq::<
                Option<Seq<u8>>,
            >::empty() =~= args@.map_values(|t: Option<&'a [u8]>| token_view(t)));
        }
        args
    }
}

pub open spec fn ops_view<'a>(ops: Seq<TransformOp<'a>>) -> Seq<SpecTransformOp> {
    ops.map_values(|o: TransformOp<'a>| o@)
}

/// The transform functions of a `transform` attribute value, in order, each
/// with the number tokens it takes (see `spec_transform_ops`).
pub fn parse_transform_ops<'a>(data: &'a [u8]) -> (ops: Vec<TransformOp<'a>>)
    ensures
        ops_view(ops@) == spec_transform_ops(data@, 0),
{
    let ghost d = data@;
    let mut parser = TransformParser::new(data);
    let mut ops: Vec<TransformOp<'a>> = Vec::new();
    loop
        invariant
            d == data@,
            parser.data@ == d,
            parser.wf(),
            spec_transform_ops(d, 0) == ops_view(ops@) + spec_transform_ops(
                d,
                parser.pos as int,
            ),
        decreases d.len() - parser.pos,
    {
        let ghost pos_before = parser.pos as int;
        let ghost before = ops_view(ops@);
        proof {
            lemma_after_function(d, pos_before, TransformKind::Other);
        }
        match parser.next_command() {
            None => {
                assert(spec_transform_ops(d, pos_before) =~= Seq::<SpecTransformOp>::empty());
                assert(ops_view(ops@) + spec_transform_ops(d, pos_before) =~= ops_view(ops@));
                return ops;
            },
            Some(name) => {
                let kind = transform_kind(name);
                proof {
                    lemma_after_function(d, pos_before, kind);
                }
                parser.skip_until(LPAREN);
                let args = parser.read_numbers(arity(kind));
                parser.skip_until(RPAREN);
                let op = TransformOp { kind, args };
                ops.push(op);
                proof {
                    assert(ops_view(ops@) =~= before.push(op@));
                    assert(before + spec_transform_ops(d, pos_before) =~= ops_view(ops@)
                        + spec_transform_ops(d, parser.pos as int));
                }
            },
        }
    }
}

/// The matrix whose six entries are those of `t`.
pub open spec fn matrix_of<S>(t: Seq<S>) -> [S; 6] {
    choose|m: [S; 6]| m@ == t
}

/// An array is the matrix of its entries.
pub proof fn lemma_matrix_of<S>(m: [S; 6])
    ensures
        matrix_of(m@) == m,
{
    broadcast use vstd::array::group_array_axioms;

    let c = matrix_of(m@);
    assert(exists|n: [S; 6]| n@ == m@);
    assert(c@ == m@);
    assert(c =~= m);
}

/// The identity matrix.
pub open spec fn spec_identity<S: Scalar>() -> Seq<S> {
    seq![S::spec_one(), S::spec_zero(), S::spec_zero(), S::spec_one(), S::spec_zero(), S::spec_zero()]
}

/// The product `parent * child` of two matrices `[a, b, c, d, e, f]`.
pub open spec fn spec_multiply<S: Scalar>(p: Seq<S>, c: Seq<S>) -> Seq<S> {
    seq![
        p[0].spec_times(c[0]).spec_plus(p[2].spec_times(c[1])),
        p[1].spec_times(c[0]).spec_plus(p[3].spec_times(c[1])),
        p[0].spec_times(c[2]).spec_plus(p[2].spec_times(c[3])),
        p[1].spec_times(c[2]).spec_plus(p[3].spec_times(c[3])),
        p[0].spec_times(c[4]).spec_plus(p[2].spec_times(c[5])).spec_plus(p[4]),
        p[1].spec_times(c[4]).spec_plus(p[3].spec_times(c[5])).spec_plus(p[5]),
    ]
}

pub open spec fn spec_translate<S: Scalar>(tx: S, ty: S) -> Seq<S> {
    seq![S::spec_one(), S::spec_zero(), S::spec_zero(), S::spec_one(), tx, ty]
}

pub open spec fn spec_scale<S: Scalar>(sx: S, sy: S) -> Seq<S> {
    seq![sx, S::spec_zero(), S::spec_zero(), sy, S::spec_zero(), S::spec_zero()]
}

pub open spec fn spec_rotate<S: Scalar>(degrees: S) -> Seq<S> {
    let rad = degrees.spec_to_radians();
    seq![rad.spec_cos(), rad.spec_sin(), rad.spec_sin().spec_negate(), rad.spec_cos(), S::spec_zero(), S::spec_zero()]
}

pub open spec fn spec_skew_x<S: Scalar>(degrees: S) -> Seq<S> {
    seq![S::spec_one(), S::spec_zero(), degrees.spec_to_radians().spec_tan(), S::spec_one(), S::spec_zero(), S::spec_zero()]
}

pub open spec fn spec_skew_y<S: Scalar>(degrees: S) -> Seq<S> {
    seq![S::spec_one(), degrees.spec_to_radians().spec_tan(), S::spec_zero(), S::spec_one(), S::spec_zero(), S::spec_zero()]
}

/// The identity transform.
pub fn identity_transform<S: Scalar>() -> (t: [S; 6])
    ensures
        t@ == spec_identity::<S>(),
{
    let t = [S::one(), S::zero(), S::zero(), S::one(), S::zero(), S::zero()];
    assert(t@ =~= spec_identity::<S>());
    t
}

/// The product `parent * child`: `child` applied first, then `parent`.
pub fn multiply_transforms<S: Scalar>(parent: &[S; 6], child: &[S; 6]) -> (t: [S; 6])
    ensures
        t@ == spec_multiply(parent@, child@),
{
    let t = [
        parent[0].times(child[0]).plus(parent[2].times(child[1])),
        parent[1].times(child[0]).plus(parent[3].times(child[1])),
        parent[0].times(child[2]).plus(parent[2].times(child[3])),
        parent[1].times(child[2]).plus(parent[3].times(child[3])),
        parent[0].times(child[4]).plus(parent[2].times(child[5])).plus(parent[4]),
        parent[1].times(child[4]).plus(parent[3].times(child[5])).plus(parent[5]),
    ];
    assert(t@ =~= spec_multiply(parent@, child@));
    t
}

pub fn make_translate<S: Scalar>(tx: S, ty: S) -> (t: [S; 6])
    ensures
        t@ == spec_translate(tx, ty),
{
    let t = [S::one(), S::zero(), S::zero(), S::one(), tx, ty];
    assert(t@ =~= spec_translate(tx, ty));
    t
}

pub fn make_scale<S: Scalar>(sx: S, sy: S) -> (t: [S; 6])
    ensures
        t@ == spec_scale(sx, sy),
{
    let t = [sx, S::zero(), S::zero(), sy, S::zero(), S::zero()];
    assert(t@ =~= spec_scale(sx, sy));
    t
}

/// Rotation by `degrees` about the origin.
pub fn make_rotate<S: Scalar>(degrees: S) -> (t: [S; 6])
    ensures
        t@ == spec_rotate(degrees),
{
    let rad = degrees.to_radians();
    let sin = rad.sin();
    let cos = rad.cos();
    let t = [cos, sin, sin.negate(), cos, S::zero(), S::zero()];
    assert(t@ =~= spec_rotate(degrees));
    t
}

/// Skew along x by `degrees`.
pub fn make_skew_x<S: Scalar>(degrees: S) -> (t: [S; 6])
    ensures
        t@ == spec_skew_x(degrees),
{
    let rad = degrees.to_radians();
    let t = [S::one(), S::zero(), rad.tan(), S::one(), S::zero(), S::zero()];
    assert(t@ =~= spec_skew_x(degrees));
    t
}

/// Skew along y by `degrees`.
pub fn make_skew_y<S: Scalar>(degrees: S) -> (t: [S; 6])
    ensures
        t@ == spec_skew_y(degrees),
{
    let rad = degrees.to_radians();
    let t = [S::one(), rad.tan(), S::zero(), S::one(), S::zero(), S::zero()];
    assert(t@ =~= spec_skew_y(degrees));
    t
}

impl<'a> TransformParser<'a> {
    /// The next number, read from the token `next_number_bytes` gives.
    pub fn next_number<S: Scalar>(&mut self) -> (r: Option<S>)
        requires
            old(self).wf(),
        ensures
            final(self).data == old(self).data,
            final(self).wf(),
            final(self).pos == spec_next_number(old(self).data@, old(self).pos as int).1,
            r == parsed_number::<S>(spec_next_number(old(self).data@, old(self).pos as int).0),
    {
        match self.next_number_bytes() {
            Some(b) => S::parse(b),
            None => None,
        }
    }
}

/// The number of a token, or `default` where there is no token or it does not parse.
fn number_or<S: Scalar>(token: Option<&[u8]>, default: S) -> (v: S)
    ensures
        v == number_or_default(token_view(token), default),
{
    match token {
        Some(b) => match S::parse(b) {
            Some(v) => v,
            None => default,
        },
        None => default,
    }
}

/// The matrix of one transform function with its number tokens. Missing
/// numbers default to the identity's (`scale`'s second factor to its first);
/// `rotate` turns about `(cx, cy)` when both read as numbers, about the origin
/// otherwise; an unknown function is the identity.
pub open spec fn spec_transform_of_op<S: Scalar>(op: SpecTransformOp) -> Seq<S> {
    let a = op.args;
    match op.kind {
        TransformKind::Matrix => seq![
            number_or_default(a[0], S::spec_one()),
            number_or_default(a[1], S::spec_zero()),
            number_or_default(a[2], S::spec_zero()),
            number_or_default(a[3], S::spec_one()),
            number_or_default(a[4], S::spec_zero()),
            number_or_default(a[5], S::spec_zero()),
        ],
        TransformKind::Translate => spec_translate(
            number_or_default(a[0], S::spec_zero()),
            number_or_default(a[1], S::spec_zero()),
        ),
        TransformKind::Scale => {
            let sx = number_or_default(a[0], S::spec_one());
            spec_scale(sx, number_or_default(a[1], sx))
        },
        TransformKind::Rotate => {
            let angle = number_or_default(a[0], S::spec_zero());
            match (parsed_number::<S>(a[1]), parsed_number::<S>(a[2])) {
                (Some(x), Some(y)) => spec_multiply(
                    spec_multiply(spec_translate(x, y), spec_rotate(angle)),
                    spec_translate(x.spec_negate(), y.spec_negate()),
                ),
                _ => spec_rotate(angle),
            }
        },
        TransformKind::SkewX => spec_skew_x(number_or_default(a[0], S::spec_zero())),
        TransformKind::SkewY => spec_skew_y(number_or_default(a[0], S::spec_zero())),
        TransformKind::Other => spec_identity(),
    }
}

/// `skewX(a)` shears along x: it keeps the x axis (`(1, 0)` goes to
/// `(1, 0)`) and sends the y axis `(0, 1)` to `(tan a, 1)`, with no
/// translation; `skewY(a)` shears along y: `(1, 0)` goes to `(1, tan a)` and
/// `(0, 1)` stays. The two differ wherever `tan a` is not 0.
pub proof fn lemma_skew_matrices<S: Scalar>(degrees: S)
    ensures
        ({
            let x = spec_skew_x(degrees);
            let tan = degrees.spec_to_radians().spec_tan();
            &&& x.len() == 6
            &&& x[0] == S::spec_one() && x[1] == S::spec_zero()
            &&& x[2] == tan && x[3] == S::spec_one()
            &&& x[4] == S::spec_zero() && x[5] == S::spec_zero()
        }),
        ({
            let y = spec_skew_y(degrees);
            let tan = degrees.spec_to_radians().spec_tan();
            &&& y.len() == 6
            &&& y[0] == S::spec_one() && y[1] == tan
            &&& y[2] == S::spec_zero() && y[3] == S::spec_one()
            &&& y[4] == S::spec_zero() && y[5] == S::spec_zero()
        }),
        degrees.spec_to_radians().spec_tan() != S::spec_zero() ==> spec_skew_x(degrees)
            != spec_skew_y(degrees),
{
    if degrees.spec_to_radians().spec_tan() != S::spec_zero() {
        assert(spec_skew_x(degrees)[1] != spec_skew_y(degrees)[1]);
    }
}

/// `rotate(a)` turns by `a` degrees: `(1, 0)` goes to `(cos a, sin a)` and
/// `(0, 1)` to `(-sin a, cos a)`; `translate(tx ty)` moves by `(tx, ty)`
/// and `scale(sx sy)` scales x by `sx` and y by `sy`.
pub proof fn lemma_basic_matrices<S: Scalar>(degrees: S, tx: S, ty: S, sx: S, sy: S)
    ensures
        ({
            let r = spec_rotate(degrees);
            let rad = degrees.spec_to_radians();
            &&& r.len() == 6
            &&& r[0] == rad.spec_cos() && r[1] == rad.spec_sin()
            &&& r[2] == rad.spec_sin().spec_negate() && r[3] == rad.spec_cos()
            &&& r[4] == S::spec_zero() && r[5] == S::spec_zero()
        }),
        ({
            let t = spec_translate(tx, ty);
            &&& t.len() == 6
            &&& t[0] == S::spec_one() && t[1] == S::spec_zero()
            &&& t[2] == S::spec_zero() && t[3] == S::spec_one()
            &&& t[4] == tx && t[5] == ty
        }),
        ({
            let c = spec_scale(sx, sy);
            &&& c.len() == 6
            &&& c[0] == sx && c[1] == S::spec_zero()
            &&& c[2] == S::spec_zero() && c[3] == sy
            &&& c[4] == S::spec_zero() && c[5] == S::spec_zero()
        }),
{
}

/// A transform function's matrix is the one its name asks for, built from its
/// numbers: `skewX(a)` and `skewY(a)` shear along x and along y by `tan a`,
/// `rotate(a)` turns by `a` (about the origin when no centre is given),
/// `translate` moves and `scale` scales, each by its numbers.
pub proof fn lemma_transform_of_op_matrix<S: Scalar>(op: SpecTransformOp)
    requires
        op.args.len() == spec_arity(op.kind),
    ensures
        ({
            let m = spec_transform_of_op::<S>(op);
            let a0 = number_or_default(op.args[0], S::spec_zero());
            let tan = a0.spec_to_radians().spec_tan();
            &&& op.kind == TransformKind::SkewX ==> m.len() == 6 && m[0] == S::spec_one() && m[1]
                == S::spec_zero() && m[2] == tan && m[3] == S::spec_one() && m[4] == S::spec_zero()
                && m[5] == S::spec_zero()
            &&& op.kind == TransformKind::SkewY ==> m.len() == 6 && m[0] == S::spec_one() && m[1]
                == tan && m[2] == S::spec_zero() && m[3] == S::spec_one() && m[4] == S::spec_zero()
                && m[5] == S::spec_zero()
            &&& op.kind == TransformKind::Translate ==> m.len() == 6 && m[4] == a0 && m[5]
                == number_or_default(op.args[1], S::spec_zero())
            &&& op.kind == TransformKind::Rotate && (parsed_number::<S>(op.args[1]) is None
                || parsed_number::<S>(op.args[2]) is None) ==> m.len() == 6 && m[0]
                == a0.spec_to_radians().spec_cos() && m[1] == a0.spec_to_radians().spec_sin()
                && m[2] == a0.spec_to_radians().spec_sin().spec_negate() && m[3]
                == a0.spec_to_radians().spec_cos()
        }),
{
}

/// The product `parent * child` applies `child` first and `parent` after:
/// its linear part is the parent's linear part times the child's (the images
/// of the axes, `(a, b)` and `(c, d)`, are the parent's images of the
/// child's), and its translation is the parent's image of the child's
/// translation.
pub proof fn lemma_multiply_order<S: Scalar>(p: Seq<S>, c: Seq<S>)
    ensures
        ({
            let r = spec_multiply(p, c);
            &&& r.len() == 6
            &&& r[0] == p[0].spec_times(c[0]).spec_plus(p[2].spec_times(c[1]))
            &&& r[1] == p[1].spec_times(c[0]).spec_plus(p[3].spec_times(c[1]))
            &&& r[2] == p[0].spec_times(c[2]).spec_plus(p[2].spec_times(c[3]))
            &&& r[3] == p[1].spec_times(c[2]).spec_plus(p[3].spec_times(c[3]))
            &&& r[4] == p[0].spec_times(c[4]).spec_plus(p[2].spec_times(c[5])).spec_plus(p[4])
            &&& r[5] == p[1].spec_times(c[4]).spec_plus(p[3].spec_times(c[5])).spec_plus(p[5])
        }),
{
}

/// The identity matrix is `[1, 0, 0, 1, 0, 0]`.
pub proof fn lemma_identity_entries<S: Scalar>()
    ensures
        spec_identity::<S>().len() == 6,
        spec_identity::<S>()[0] == S::spec_one() && spec_identity::<S>()[3] == S::spec_one(),
        spec_identity::<S>()[1] == S::spec_zero() && spec_identity::<S>()[2] == S::spec_zero(),
        spec_identity::<S>()[4] == S::spec_zero() && spec_identity::<S>()[5] == S::spec_zero(),
{
}

/// `scale(sx)` with one factor scales both axes by it; `matrix(...)` takes
/// its six numbers as `[a, b, c, d, e, f]` in that order; `rotate(a cx cy)`
/// turns about `(cx, cy)`: move `(cx, cy)` to the origin, turn, move back.
pub proof fn lemma_transform_of_op_more<S: Scalar>(op: SpecTransformOp)
    requires
        op.args.len() == spec_arity(op.kind),
    ensures
        ({
            let m = spec_transform_of_op::<S>(op);
            let sx = number_or_default(op.args[0], S::spec_one());
            &&& op.kind == TransformKind::Scale ==> m.len() == 6 && m[0] == sx && m[3]
                == number_or_default(op.args[1], sx) && m[1] == S::spec_zero() && m[2]
                == S::spec_zero()
            &&& op.kind == TransformKind::Matrix ==> m.len() == 6 && m[0] == number_or_default(
                op.args[0],
                S::spec_one(),
            ) && m[1] == number_or_default(op.args[1], S::spec_zero()) && m[2]
                == number_or_default(op.args[2], S::spec_zero()) && m[3] == number_or_default(
                op.args[3],
                S::spec_one(),
            ) && m[4] == number_or_default(op.args[4], S::spec_zero()) && m[5]
                == number_or_default(op.args[5], S::spec_zero())
            &&& (op.kind == TransformKind::Rotate && parsed_number::<S>(op.args[1]) is Some
                && parsed_number::<S>(op.args[2]) is Some) ==> m == spec_multiply(
                spec_multiply(
                    spec_translate(
                        parsed_number::<S>(op.args[1])->Some_0,
                        parsed_number::<S>(op.args[2])->Some_0,
                    ),
                    spec_rotate(number_or_default(op.args[0], S::spec_zero())),
                ),
                spec_translate(
                    parsed_number::<S>(op.args[1])->Some_0.spec_negate(),
                    parsed_number::<S>(op.args[2])->Some_0.spec_negate(),
                ),
            )
            &&& op.kind == TransformKind::Other ==> m == spec_identity::<S>()
        }),
{
}

/// A list's matrix grows from the right: the matrix of its first `n`
/// functions is that of the first `n - 1` times the `n`-th's, so the first
/// function listed is applied last to a point.
pub proof fn lemma_transform_list_order<S: Scalar>(ops: Seq<SpecTransformOp>, n: nat)
    requires
        0 < n <= ops.len(),
    ensures
        spec_ops_product::<S>(ops, n) == spec_multiply(
            spec_ops_product::<S>(ops, (n - 1) as nat),
            spec_transform_of_op::<S>(ops[n - 1]),
        ),
        spec_ops_product::<S>(ops, 0) == spec_identity::<S>(),
{
}

/// The product, left to right, of the matrices of the first `n` functions:
/// the identity, times the first, times the second, and so on.
pub open spec fn spec_ops_product<S: Scalar>(ops: Seq<SpecTransformOp>, n: nat) -> Seq<S>
    decreases n,
{
    if n == 0 {
        spec_identity()
    } else {
        spec_multiply(
            spec_ops_product::<S>(ops, (n - 1) as nat),
            spec_transform_of_op::<S>(ops[n - 1]),
        )
    }
}

/// The matrix of a `transform` attribute value.
pub open spec fn spec_parse_transform<S: Scalar>(d: Seq<u8>) -> Seq<S> {
    spec_ops_product::<S>(spec_transform_ops(d, 0), spec_transform_ops(d, 0).len())
}

pub fn transform_of_op<S: Scalar>(op: &TransformOp) -> (t: [S; 6])
    requires
        op.args@.len() == spec_arity(op.kind),
    ensures
        t@ == spec_transform_of_op::<S>(op@),
{
    let a = &op.args;
    match op.kind {
        TransformKind::Matrix => {
            let t = [
                number_or(a[0], S::one()),
                number_or(a[1], S::zero()),
                number_or(a[2], S::zero()),
                number_or(a[3], S::one()),
                number_or(a[4], S::zero()),
                number_or(a[5], S::zero()),
            ];
            assert(t@ =~= spec_transform_of_op::<S>(op@));
            t
        },
        TransformKind::Translate => {
            let tx = number_or(a[0], S::zero());
            let ty = number_or(a[1], S::zero());
            make_translate(tx, ty)
        },
        TransformKind::Scale => {
            let sx = number_or(a[0], S::one());
            let sy = number_or(a[1], sx);
            make_scale(sx, sy)
        },
        TransformKind::Rotate => {
            let angle = number_or(a[0], S::zero());
            let cx: Option<S> = match a[1] {
                Some(b) => S::parse(b),
                None => None,
            };
            let cy: Option<S> = match a[2] {
                Some(b) => S::parse(b),
                None => None,
            };
            match (cx, cy) {
                (Some(x), Some(y)) => {
                    let t1 = make_translate(x, y);
                    let r = make_rotate(angle);
                    let t2 = make_translate(x.negate(), y.negate());
                    let temp = multiply_transforms(&t1, &r);
                    multiply_transforms(&temp, &t2)
                },
                _ => make_rotate(angle),
            }
        },
        TransformKind::SkewX => {
            let angle = number_or(a[0], S::zero());
            make_skew_x(angle)
        },
        TransformKind::SkewY => {
            let angle = number_or(a[0], S::zero());
            make_skew_y(angle)
        },
        TransformKind::Other => identity_transform(),
    }
}

/// The matrix of a `transform` attribute value: the product, in order, of the
/// matrices of the functions that `spec_transform_ops` lists.
pub fn parse_transform<S: Scalar>(data: &[u8]) -> (t: [S; 6])
    ensures
        t@ == spec_parse_transform::<S>(data@),
{
    let ops = parse_transform_ops(data);
    let mut result: [S; 6] = identity_transform();
    let mut i: usize = 0;
    while i < ops.len()
        invariant
            i <= ops@.len(),
            ops_view(ops@) == spec_transform_ops(data@, 0),
            result@ == spec_ops_product::<S>(ops_view(ops@), i as nat),
        decreases ops@.len() - i,
    {
        proof {
            lemma_ops_arity(data@, 0);
            assert(ops_view(ops@)[i as int] == ops@[i as int]@);
        }
        let local = transform_of_op(&ops[i]);
        result = multiply_transforms(&result, &local);
        i = i + 1;
    }
    result
}

/// Each listed transform function comes with as many number tokens as it takes.
pub proof fn lemma_ops_arity(d: Seq<u8>, pos: int)
    ensures
        forall|i: int|
            0 <= i < spec_transform_ops(d, pos).len() ==> (#[trigger] spec_transform_ops(
                d,
                pos,
            )[i]).args.len() == spec_arity(spec_transform_ops(d, pos)[i].kind),
    decreases d.len() - pos,
{
    if !(pos < 0 || pos > d.len()) {
        let (c, p1) = spec_next_command(d, pos);
        if let Some(name) = c {
            let kind = spec_transform_kind(name);
            let p2 = skip_past_byte(d, p1, LPAREN);
            lemma_after_function(d, pos, kind);
            lemma_skip_past_byte(d, p1, LPAREN);
            lemma_read_numbers(d, p2, spec_arity(kind));
            lemma_ops_arity(d, after_function(d, p1, kind));
            let rest = spec_transform_ops(d, after_function(d, p1, kind));
            let all = spec_transform_ops(d, pos);
            assert forall|i: int| 0 <= i < all.len() implies (#[trigger] all[i]).args.len()
                == spec_arity(all[i].kind) by {
                if i > 0 {
                    assert(all[i] == rest[i - 1]);
                }
            }
        }
    }
}

} // verus!
