//! Lines of text that commands show, with rates left for the caller to render.
use vstd::prelude::*;
use vstd::string::StringSliceAdditionalSpecFns;
use vstd::utf8::{decode_utf8, encode_utf8, is_char_boundary};

use crate::text::{decimal, decimal_string, push_char};

verus! {

/// A piece of a shown line.
#[derive(Debug)]
pub enum Piece {
    /// Literal text.
    Text(String),
    /// The percentage `part / whole * 100`, rounded to a whole number.
    Percent(u64, u64),
    /// The percentage `part / whole * 100` rounded, followed by `%`, right-aligned in a
    /// column of the given width.
    PercentCell(u64, u64, usize),
}

/// A piece, with text as characters.
pub enum PieceView {
    Text(Seq<char>),
    Percent(u64, u64),
    PercentCell(u64, u64, usize),
}

impl View for Piece {
    type V = PieceView;

    open spec fn view(&self) -> PieceView {
        match self {
            Piece::Text(s) => PieceView::Text(s@),
            Piece::Percent(a, b) => PieceView::Percent(*a, *b),
            Piece::PercentCell(a, b, w) => PieceView::PercentCell(*a, *b, *w),
        }
    }
}

/// A shown line: its pieces in order.
#[derive(Debug)]
pub struct Line {
    pub pieces: Vec<Piece>,
}

impl View for Line {
    type V = Seq<PieceView>;

    open spec fn view(&self) -> Seq<PieceView> {
        self.pieces@.map_values(|p: Piece| p@)
    }
}

/// The view of lines.
pub open spec fn lines_view(lines: Seq<Line>) -> Seq<Seq<PieceView>> {
    lines.map_values(|l: Line| l@)
}

/// A line of plain text.
pub open spec fn tl(s: Seq<char>) -> Seq<PieceView> {
    seq![PieceView::Text(s)]
}

/// A line of plain text.
pub fn text_line(s: String) -> (r: Line)
    ensures
        r@ == tl(s@),
{
    let mut pieces: Vec<Piece> = Vec::new();
    pieces.push(Piece::Text(s));
    let r = Line { pieces };
    assert(r@ =~= tl(s@));
    r
}

/// A line made of text, a percentage and text.
pub fn rate_line(head: String, part: u64, whole: u64, tail: String) -> (r: Line)
    ensures
        r@ == seq![PieceView::Text(head@), PieceView::Percent(part, whole), PieceView::Text(tail@)],
{
    let mut pieces: Vec<Piece> = Vec::new();
    pieces.push(Piece::Text(head));
    pieces.push(Piece::Percent(part, whole));
    pieces.push(Piece::Text(tail));
    let r = Line { pieces };
    assert(r@ =~= seq![PieceView::Text(head@), PieceView::Percent(part, whole), PieceView::Text(tail@)]);
    r
}

/// Appends a line to shown lines.
pub fn push_line(lines: &mut Vec<Line>, l: Line)
    ensures
        lines_view(final(lines)@) == lines_view(old(lines)@).push(l@),
{
    let ghost before = lines@;
    lines.push(l);
    assert(lines_view(lines@) =~= lines_view(before).push(l@));
}

/// Appends a plain text line.
pub fn push_text(lines: &mut Vec<Line>, s: String)
    ensures
        lines_view(final(lines)@) == lines_view(old(lines)@).push(tl(s@)),
{
    let l = text_line(s);
    push_line(lines, l);
}

/// `n` spaces.
pub open spec fn spaces(n: nat) -> Seq<char> {
    Seq::new(n, |i: int| ' ')
}

/// Text left-aligned in a column of width `w` (as `{:<w}`).
pub open spec fn pad_right(s: Seq<char>, w: nat) -> Seq<char> {
    if s.len() < w { s + spaces((w - s.len()) as nat) } else { s }
}

/// Text right-aligned in a column of width `w` (as `{:>w}`).
pub open spec fn pad_left(s: Seq<char>, w: nat) -> Seq<char> {
    if s.len() < w { spaces((w - s.len()) as nat) + s } else { s }
}

/// Appends `n` spaces.
fn push_spaces(s: &mut String, n: usize)
    ensures
        final(s)@ == old(s)@ + spaces(n as nat),
{
    let ghost s0 = s@;
    let mut k: usize = 0;
    while k < n
        invariant
            k <= n,
            s@ == s0 + spaces(k as nat),
        decreases n - k,
    {
        push_char(s, ' ');
        assert(s0 + spaces((k + 1) as nat) =~= (s0 + spaces(k as nat)).push(' '));
        k = k + 1;
    }
}

/// `s` left-aligned in a column of width `w`.
pub fn left_aligned(s: &str, w: usize) -> (r: String)
    ensures
        r@ == pad_right(s@, w as nat),
{
    let n = crate::text::chars_of(s).len();
    let mut r = s.to_owned();
    if n < w {
        push_spaces(&mut r, w - n);
    }
    r
}

/// `s` right-aligned in a column of width `w`.
pub fn right_aligned(s: &str, w: usize) -> (r: String)
    ensures
        r@ == pad_left(s@, w as nat),
{
    let n = crate::text::chars_of(s).len();
    let mut r = String::new();
    if n < w {
        push_spaces(&mut r, w - n);
    }
    let ghost r0 = r@;
    vstd::string::StringExecFns::append(&mut r, s);
    proof {
        if n >= w {
            assert(r0 =~= Seq::<char>::empty());
        }
    }
    r
}

/// The text of the first `n` bytes of `s` (as `&s[..n]`).
pub open spec fn byte_prefix_text(s: Seq<char>, n: int) -> Seq<char> {
    decode_utf8(encode_utf8(s).subrange(0, n))
}

/// `&s[..n]`: defined only where `n` is a character boundary of `s`.
pub fn byte_prefix(s: &str, n: usize) -> (r: String)
    requires
        is_char_boundary(s.spec_bytes(), n as int),
    ensures
        r@ == byte_prefix_text(s@, n as int),
{
    let (a, _b) = s.split_at(n);
    proof {
        vstd::utf8::encode_utf8_decode_utf8(a@);
    }
    a.to_owned()
}

/// Decimal text of a 64-bit count.
pub fn count_text(n: u64) -> (r: String)
    ensures
        r@ == decimal(n as nat),
{
    decimal_string(n)
}

} // verus!
