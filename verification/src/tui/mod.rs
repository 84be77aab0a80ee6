//! Text for the terminal screens: lines made of pieces of text, each with a
//! tone that the drawing code turns into colours.

pub mod review_form;

use vstd::prelude::*;

verus! {

/// How a piece of text is shown.
#[derive(Clone, Copy, Debug, PartialEq, Eq, Structural)]
pub enum Tone {
    /// The terminal's default look.
    Plain,
    /// Dark grey: labels and asides.
    Dim,
    /// Grey: secondary values.
    Muted,
    /// Cyan.
    Accent,
    /// Bold cyan.
    AccentBold,
    /// Green.
    Good,
    /// Yellow.
    Warn,
    /// Bold yellow.
    WarnBold,
    /// Red.
    Bad,
    /// Bold green.
    GoodBold,
    /// Bold grey.
    MutedBold,
    /// The highlighted row: white on blue.
    Selected,
    /// The highlighted row, bold.
    SelectedBold,
    /// The highlighted row, struck through.
    SelectedCrossed,
    /// Dark grey, struck through.
    DimCrossed,
    /// Blue, underlined: a link.
    Link,
    /// A link under the cursor: bold.
    LinkBold,
    /// Grey italic: something suggested rather than chosen.
    MutedItalic,
    /// Grey italic under the cursor: bold.
    MutedItalicBold,
    /// Dark grey italic: a choice the model suggested.
    DimItalic,
    /// A focused confirming button: bold black on green.
    GoodButton,
    /// A focused cancelling button: bold white on red.
    BadButton,
}

/// A run of text in one tone.
#[derive(Clone, Debug)]
pub struct Piece {
    pub text: String,
    pub tone: Tone,
}

pub open spec fn piece_view(p: Piece) -> (Seq<char>, Tone) {
    (p.text@, p.tone)
}

/// A line as values: its pieces in order.
pub open spec fn line_view(l: Vec<Piece>) -> Seq<(Seq<char>, Tone)> {
    l@.map_values(|p: Piece| piece_view(p))
}

/// Lines as values.
pub open spec fn lines_view(ls: Seq<Vec<Piece>>) -> Seq<Seq<(Seq<char>, Tone)>> {
    ls.map_values(|l: Vec<Piece>| line_view(l))
}

/// A line of one piece.
pub fn line1(text: String, tone: Tone) -> (r: Vec<Piece>)
    ensures
        line_view(r) == seq![(text@, tone)],
{
    let ghost t = text@;
    let mut v: Vec<Piece> = Vec::new();
    v.push(Piece { text, tone });
    assert(line_view(v) =~= seq![(t, tone)]);
    v
}

/// A line of two pieces.
pub fn line2(a: String, ta: Tone, b: String, tb: Tone) -> (r: Vec<Piece>)
    ensures
        line_view(r) == seq![(a@, ta), (b@, tb)],
{
    let ghost (x, y) = (a@, b@);
    let mut v: Vec<Piece> = Vec::new();
    v.push(Piece { text: a, tone: ta });
    v.push(Piece { text: b, tone: tb });
    assert(line_view(v) =~= seq![(x, ta), (y, tb)]);
    v
}

/// A line of three pieces.
pub fn line3(a: String, ta: Tone, b: String, tb: Tone, c: String, tc: Tone) -> (r: Vec<Piece>)
    ensures
        line_view(r) == seq![(a@, ta), (b@, tb), (c@, tc)],
{
    let ghost (x, y, z) = (a@, b@, c@);
    let mut v: Vec<Piece> = Vec::new();
    v.push(Piece { text: a, tone: ta });
    v.push(Piece { text: b, tone: tb });
    v.push(Piece { text: c, tone: tc });
    assert(line_view(v) =~= seq![(x, ta), (y, tb), (z, tc)]);
    v
}

/// A line with nothing on it.
pub fn blank_line() -> (r: Vec<Piece>)
    ensures
        line_view(r) == Seq::<(Seq<char>, Tone)>::empty(),
{
    let v: Vec<Piece> = Vec::new();
    assert(line_view(v) =~= Seq::<(Seq<char>, Tone)>::empty());
    v
}

/// Add a line at the end.
pub fn push_line(out: &mut Vec<Vec<Piece>>, l: Vec<Piece>)
    ensures
        lines_view(final(out)@) == lines_view(old(out)@).push(line_view(l)),
        final(out)@.len() == old(out)@.len() + 1,
{
    let ghost lv = line_view(l);
    out.push(l);
    assert(lines_view(out@) =~= lines_view(old(out)@).push(lv));
}

/// Add lines at the end.
pub fn append_lines(out: &mut Vec<Vec<Piece>>, more: Vec<Vec<Piece>>)
    ensures
        lines_view(final(out)@) == lines_view(old(out)@) + lines_view(more@),
{
    let mut more = more;
    let ghost m = more@;
    out.append(&mut more);
    assert(lines_view(out@) =~= lines_view(old(out)@) + lines_view(m));
}

} // verus!
