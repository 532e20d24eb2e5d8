//! Path data (`d` attributes): the lexer, and the command state that decides
//! what each coordinate group of a path draws.
use vstd::prelude::*;
use crate::bytes::{
    is_alpha, is_ascii_alphabetic, is_ascii_lowercase, is_ascii_whitespace, is_lower,
    lemma_skip_seps, skip_seps, to_ascii_uppercase, upper, COMMA,
};
use crate::number::{lemma_number_end, number_end, scan_number};
use crate::scalar::{parsed_number, Scalar};

verus! {

/// A lexeme of path data: a command letter, or the bytes of a number.
#[derive(Debug, PartialEq)]
pub enum PathLexeme<'a> {
    Command(u8),
    Number(&'a [u8]),
}

pub ghost enum SpecPathLexeme {
    Command(u8),
    Number(Seq<u8>),
}

impl<'a> View for PathLexeme<'a> {
    type V = SpecPathLexeme;

    open spec fn view(&self) -> SpecPathLexeme {
        match *self {
            PathLexeme::Command(c) => SpecPathLexeme::Command(c),
            PathLexeme::Number(n) => SpecPathLexeme::Number(n@),
        }
    }
}

/// The number token after the separators at `pos`, and where the lexer
/// stands afterwards; `None` (after the separators) where no token starts.
pub open spec fn spec_next_number(d: Seq<u8>, pos: int) -> (Option<Seq<u8>>, int) {
    let p = skip_seps(d, pos);
    if p >= d.len() {
        (None, p)
    } else {
        let e = number_end(d, p, p, false);
        if e == p {
            (None, p)
        } else {
            (Some(d.subrange(p, e)), e)
        }
    }
}

/// The lexeme after the separators at `pos`: a letter is a command, anything
/// else is read as a number.
pub open spec fn spec_next_lexeme(d: Seq<u8>, pos: int) -> (Option<SpecPathLexeme>, int) {
    let p = skip_seps(d, pos);
    if p >= d.len() {
        (None, p)
    } else if is_alpha(d[p]) {
        (Some(SpecPathLexeme::Command(d[p])), p + 1)
    } else {
        let (n, q) = spec_next_number(d, p);
        match n {
            Some(bytes) => (Some(SpecPathLexeme::Number(bytes)), q),
            None => (None, q),
        }
    }
}

/// A lexer over path data.
pub struct PathParser<'a> {
    pub data: &'a [u8],
    pub pos: usize,
}

impl<'a> PathParser<'a> {
    pub open spec fn wf(&self) -> bool {
        self.pos <= self.data@.len()
    }

    pub fn new(data: &'a [u8]) -> (p: Self)
        ensures
            p.data@ == data@,
            p.pos == 0,
            p.wf(),
    {
        Self { data, pos: 0 }
    }

    /// Skips whitespace and commas.
    fn skip_separators(&mut self)
        requires
            old(self).wf(),
        ensures
            final(self).data == old(self).data,
            final(self).pos == skip_seps(old(self).data@, old(self).pos as int),
            final(self).wf(),
    {
        proof {
            lemma_skip_seps(self.data@, self.pos as int);
        }
        let ghost target = skip_seps(self.data@, self.pos as int);
        while self.pos < self.data.len()
            invariant_except_break
                self.data == old(self).data,
                self.wf(),
                skip_seps(self.data@, self.pos as int) == target,
            ensures
                self.data == old(self).data,
                self.wf(),
                self.pos == target,
            decreases self.data@.len() - self.pos,
        {
            let c = self.data[self.pos];
            if is_ascii_whitespace(c) || c == COMMA {
                self.pos = self.pos + 1;
            } else {
                break;
            }
        }
    }

    /// The bytes of the next number, as `spec_next_number` describes them.
    pub fn next_number_bytes(&mut self) -> (r: Option<&'a [u8]>)
        requires
            old(self).wf(),
        ensures
            final(self).data == old(self).data,
            final(self).wf(),
            final(self).pos == spec_next_number(old(self).data@, old(self).pos as int).1,
            r is None <==> spec_next_number(old(self).data@, old(self).pos as int).0 is None,
            r matches Some(b) ==> spec_next_number(old(self).data@, old(self).pos as int).0 == Some(
                b@,
            ),
    {
        self.skip_separators();
        if self.pos >= self.data.len() {
            return None;
        }
        let start = self.pos;
        let end = scan_number(self.data, start);
        if end == start {
            return None;
        }
        self.pos = end;
        Some(vstd::slice::slice_subrange(self.data, start, end))
    }

    /// The next lexeme, as `spec_next_lexeme` describes it.
    pub fn next_lexeme(&mut self) -> (r: Option<PathLexeme<'a>>)
        requires
            old(self).wf(),
        ensures
            final(self).data == old(self).data,
            final(self).wf(),
            final(self).pos == spec_next_lexeme(old(self).data@, old(self).pos as int).1,
            r is None <==> spec_next_lexeme(old(self).data@, old(self).pos as int).0 is None,
            r matches Some(l) ==> spec_next_lexeme(old(self).data@, old(self).pos as int).0 == Some(
                l@,
            ),
    {
        self.skip_separators();
        proof {
            lemma_skip_seps(self.data@, old(self).pos as int);
        }
        if self.pos >= self.data.len() {
            return None;
        }
        let c = self.data[self.pos];
        if is_ascii_alphabetic(c) {
            self.pos = self.pos + 1;
            return Some(PathLexeme::Command(c));
        }
        proof {
            assert(skip_seps(self.data@, self.pos as int) == self.pos);
        }
        match self.next_number_bytes() {
            Some(b) => Some(PathLexeme::Number(b)),
            None => None,
        }
    }
}

/// Lexing moves forward: a lexeme read leaves the lexer past where it was.
pub proof fn lemma_next_lexeme_advances(d: Seq<u8>, pos: int)
    requires
        0 <= pos <= d.len(),
    ensures
        pos <= spec_next_lexeme(d, pos).1 <= d.len(),
        spec_next_lexeme(d, pos).0 is Some ==> pos < spec_next_lexeme(d, pos).1,
{
    lemma_skip_seps(d, pos);
    let p = skip_seps(d, pos);
    if p < d.len() && !is_alpha(d[p]) {
        lemma_skip_seps(d, p);
        lemma_number_end(d, p, p, false);
    }
}

/// What a coordinate group of path data draws, decided by the active command.
/// `relative` tells whether its coordinates are offsets from the current point;
/// `reflect` whether the first control point is the reflection of the previous
/// curve's last control point (otherwise it is the current point).
#[derive(Debug, PartialEq, Eq, Structural, Clone, Copy)]
pub enum PathStep {
    /// Reads one more number: starts a subpath at the point.
    MoveTo { relative: bool },
    /// Reads one more number: a line to the point.
    LineTo { relative: bool },
    /// A horizontal line to the given x.
    HorizontalTo { relative: bool },
    /// A vertical line to the given y.
    VerticalTo { relative: bool },
    /// Reads five more numbers: a cubic curve (two control points, end point).
    CubicTo { relative: bool },
    /// Reads three more numbers: a smooth cubic curve (second control point, end point).
    SmoothCubicTo { relative: bool, reflect: bool },
    /// Reads three more numbers: a quadratic curve (control point, end point).
    QuadTo { relative: bool },
    /// Reads one more number: a smooth quadratic curve to the end point.
    SmoothQuadTo { relative: bool, reflect: bool },
    /// The active command draws nothing; the number is dropped.
    Skip,
}

/// The path command context: the active command letter and the (upper-case)
/// command of the last drawing step, which smooth curves consult.
#[derive(Debug, Clone, Copy)]
pub struct PathCommandState {
    pub active_cmd: u8,
    pub last_curve_cmd: u8,
}

/// The command letters, upper-case: moveto, lineto, horizontal and vertical
/// lineto, cubic and smooth cubic curveto, quadratic and smooth quadratic
/// curveto, closepath.
pub const CMD_M: u8 = 0x4d;

pub const CMD_L: u8 = 0x4c;

pub const CMD_H: u8 = 0x48;

pub const CMD_V: u8 = 0x56;

pub const CMD_C: u8 = 0x43;

pub const CMD_S: u8 = 0x53;

pub const CMD_Q: u8 = 0x51;

pub const CMD_T: u8 = 0x54;

pub const CMD_Z: u8 = 0x5a;

/// The step a number drawn under `active` makes after a step of kind `last`,
/// with the active command and last step kind afterwards.
///
/// A moveto's first point starts a subpath, and the coordinates after it are
/// lineto coordinates of the same relativity; a lower-case command is
/// relative; a smooth curve reflects the previous control point only after a
/// curve of its own family (`C`/`S`, or `Q`/`T`).
pub open spec fn spec_on_number(active: u8, last: u8) -> (PathStep, u8, u8) {
    let rel = is_lower(active);
    let u = upper(active);
    if u == CMD_M {
        let next = if rel {
            0x6cu8
        } else {
            CMD_L
        };
        (PathStep::MoveTo { relative: rel }, next, CMD_L)
    } else if u == CMD_L {
        (PathStep::LineTo { relative: rel }, active, CMD_L)
    } else if u == CMD_H {
        (PathStep::HorizontalTo { relative: rel }, active, CMD_H)
    } else if u == CMD_V {
        (PathStep::VerticalTo { relative: rel }, active, CMD_V)
    } else if u == CMD_C {
        (PathStep::CubicTo { relative: rel }, active, CMD_C)
    } else if u == CMD_S {
        (
            PathStep::SmoothCubicTo { relative: rel, reflect: last == CMD_C || last == CMD_S },
            active,
            CMD_S,
        )
    } else if u == CMD_Q {
        (PathStep::QuadTo { relative: rel }, active, CMD_Q)
    } else if u == CMD_T {
        (
            PathStep::SmoothQuadTo { relative: rel, reflect: last == CMD_Q || last == CMD_T },
            active,
            CMD_T,
        )
    } else {
        (PathStep::Skip, active, last)
    }
}

/// A close-path command letter.
pub open spec fn is_close(c: u8) -> bool {
    c == CMD_Z || c == 0x7au8
}

impl PathCommandState {
    /// Before any command, numbers are read as a moveto.
    pub fn new() -> (s: Self)
        ensures
            s.active_cmd == CMD_M,
            s.last_curve_cmd == CMD_M,
    {
        PathCommandState { active_cmd: CMD_M, last_curve_cmd: CMD_M }
    }

    /// A command letter: it becomes the active command. Returns whether it
    /// closes the subpath, in which case the last step kind becomes `Z`.
    pub fn on_command(&mut self, c: u8) -> (close: bool)
        ensures
            close == is_close(c),
            final(self).active_cmd == c,
            final(self).last_curve_cmd == if close {
                CMD_Z
            } else {
                old(self).last_curve_cmd
            },
    {
        self.active_cmd = c;
        if c == CMD_Z || c == 0x7a {
            self.last_curve_cmd = CMD_Z;
            true
        } else {
            false
        }
    }

    /// A number where a command's coordinates are expected: what it draws.
    pub fn on_number(&mut self) -> (step: PathStep)
        ensures
            (step, final(self).active_cmd, final(self).last_curve_cmd) == spec_on_number(
                old(self).active_cmd,
                old(self).last_curve_cmd,
            ),
    {
        let active = self.active_cmd;
        let last = self.last_curve_cmd;
        let rel = is_ascii_lowercase(active);
        let u = to_ascii_uppercase(active);
        if u == CMD_M {
            self.active_cmd = if rel {
                0x6c
            } else {
                CMD_L
            };
            self.last_curve_cmd = CMD_L;
            PathStep::MoveTo { relative: rel }
        } else if u == CMD_L {
            self.last_curve_cmd = CMD_L;
            PathStep::LineTo { relative: rel }
        } else if u == CMD_H {
            self.last_curve_cmd = CMD_H;
            PathStep::HorizontalTo { relative: rel }
        } else if u == CMD_V {
            self.last_curve_cmd = CMD_V;
            PathStep::VerticalTo { relative: rel }
        } else if u == CMD_C {
            self.last_curve_cmd = CMD_C;
            PathStep::CubicTo { relative: rel }
        } else if u == CMD_S {
            self.last_curve_cmd = CMD_S;
            PathStep::SmoothCubicTo { relative: rel, reflect: last == CMD_C || last == CMD_S }
        } else if u == CMD_Q {
            self.last_curve_cmd = CMD_Q;
            PathStep::QuadTo { relative: rel }
        } else if u == CMD_T {
            self.last_curve_cmd = CMD_T;
            PathStep::SmoothQuadTo { relative: rel, reflect: last == CMD_Q || last == CMD_T }
        } else {
            PathStep::Skip
        }
    }
}

/// After a moveto, further coordinate groups draw lines with the moveto's
/// relativity, for as long as no other command letter comes.
pub proof fn lemma_moveto_continues_as_lineto(active: u8, last: u8)
    requires
        upper(active) == CMD_M,
    ensures
        ({
            let (step, next, after) = spec_on_number(active, last);
            &&& step == PathStep::MoveTo { relative: is_lower(active) }
            &&& spec_on_number(next, after).0 == PathStep::LineTo { relative: is_lower(active) }
            &&& spec_on_number(next, after).1 == next
        }),
{
}

/// What a coordinate group draws under each command: a lower-case command's
/// coordinates are relative; `C` and `Q` draw curves and are remembered as
/// the last curve; a smooth `S` reflects the last control point only after a
/// `C` or `S`, and a smooth `T` only after a `Q` or `T`; `L`, `H` and `V`
/// draw lines.
pub proof fn lemma_command_steps(active: u8, last: u8)
    ensures
        ({
            let (step, next, after) = spec_on_number(active, last);
            let rel = is_lower(active);
            &&& upper(active) == CMD_L ==> step == PathStep::LineTo { relative: rel } && next == active
            &&& upper(active) == CMD_H ==> step == PathStep::HorizontalTo { relative: rel }
            &&& upper(active) == CMD_V ==> step == PathStep::VerticalTo { relative: rel }
            &&& upper(active) == CMD_C ==> step == PathStep::CubicTo { relative: rel } && after == CMD_C
            &&& upper(active) == CMD_Q ==> step == PathStep::QuadTo { relative: rel } && after == CMD_Q
            &&& upper(active) == CMD_S ==> step == PathStep::SmoothCubicTo {
                relative: rel,
                reflect: last == CMD_C || last == CMD_S,
            } && after == CMD_S
            &&& upper(active) == CMD_T ==> step == PathStep::SmoothQuadTo {
                relative: rel,
                reflect: last == CMD_Q || last == CMD_T,
            } && after == CMD_T
        }),
{
}

/// A token of path data: a command letter, or a number.
#[derive(Debug, Clone, Copy)]
pub enum PathToken<S> {
    Command(u8),
    Number(S),
}

pub proof fn lemma_next_number_bounds(d: Seq<u8>, pos: int)
    requires
        0 <= pos <= d.len(),
    ensures
        pos <= spec_next_number(d, pos).1 <= d.len(),
{
    lemma_skip_seps(d, pos);
    let p = skip_seps(d, pos);
    if p < d.len() {
        lemma_number_end(d, p, p, false);
    }
}

/// The token at `pos`: the lexeme there, with a number lexeme read as its
/// number (`None` where it does not parse).
pub open spec fn spec_next_token<S: Scalar>(d: Seq<u8>, pos: int) -> Option<PathToken<S>> {
    match spec_next_lexeme(d, pos).0 {
        Some(SpecPathLexeme::Command(c)) => Some(PathToken::Command(c)),
        Some(SpecPathLexeme::Number(b)) => match S::spec_parse(b) {
            Some(v) => Some(PathToken::Number(v)),
            None => None,
        },
        None => None,
    }
}

impl<'a> PathParser<'a> {
    /// The next number, read from the token `next_number_bytes` gives.
    pub fn next_number<S: Scalar>(&mut self) -> (r: Option<S>)
        requires
            old(self).wf(),
        ensures
            final(self).data == old(self).data,
            final(self).wf(),
            final(self).pos == spec_next_number(old(self).data@, old(self).pos as int).1,
            old(self).pos <= final(self).pos,
            r == parsed_number::<S>(spec_next_number(old(self).data@, old(self).pos as int).0),
    {
        proof {
            lemma_next_number_bounds(self.data@, self.pos as int);
        }
        match self.next_number_bytes() {
            Some(b) => S::parse(b),
            None => None,
        }
    }

    /// The next token: a command letter, or the number of the next number
    /// lexeme (`None` at the end, or where a number does not parse).
    pub fn next_token<S: Scalar>(&mut self) -> (r: Option<PathToken<S>>)
        requires
            old(self).wf(),
        ensures
            final(self).data == old(self).data,
            final(self).wf(),
            final(self).pos == spec_next_lexeme(old(self).data@, old(self).pos as int).1,
            r == spec_next_token::<S>(old(self).data@, old(self).pos as int),
            r is Some ==> old(self).pos < final(self).pos,
    {
        proof {
            lemma_next_lexeme_advances(self.data@, self.pos as int);
        }
        match self.next_lexeme() {
            Some(PathLexeme::Command(c)) => Some(PathToken::Command(c)),
            Some(PathLexeme::Number(b)) => match S::parse(b) {
                Some(v) => Some(PathToken::Number(v)),
                None => None,
            },
            None => None,
        }
    }
}

} // verus!
