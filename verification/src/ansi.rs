use vstd::prelude::*;

use crate::text::push_char;
use vstd::utf8::{encode_scalar, encode_utf8};

verus! {

/// A colour as red, green and blue.
pub type Rgb = (u8, u8, u8);

/// The sixteen standard terminal colours, then their bright forms.
pub open spec fn standard_colour(n: int) -> Rgb {
    if n == 0 { (0, 0, 0) }
    else if n == 1 { (205, 0, 0) }
    else if n == 2 { (0, 205, 0) }
    else if n == 3 { (205, 205, 0) }
    else if n == 4 { (0, 0, 238) }
    else if n == 5 { (205, 0, 205) }
    else if n == 6 { (0, 205, 205) }
    else if n == 7 { (229, 229, 229) }
    else if n == 8 { (127, 127, 127) }
    else if n == 9 { (255, 0, 0) }
    else if n == 10 { (0, 255, 0) }
    else if n == 11 { (255, 255, 0) }
    else if n == 12 { (92, 92, 255) }
    else if n == 13 { (255, 0, 255) }
    else if n == 14 { (0, 255, 255) }
    else { (255, 255, 255) }
}

/// One level of the 6×6×6 colour cube: 0, or 95 to 255 in steps of 40.
pub open spec fn cube_level(v: int) -> u8 {
    if v == 0 { 0 } else { (v * 40 + 55) as u8 }
}

/// A colour of the 256-colour palette: the standard colours, a 6×6×6 cube,
/// then 24 shades of grey from 8 in steps of 10.
pub open spec fn colour_8bit(n: u8) -> Rgb {
    if n < 16 {
        standard_colour(n as int)
    } else if n < 232 {
        let m = n - 16;
        (cube_level(m / 36), cube_level((m % 36) / 6), cube_level(m % 6))
    } else {
        let grey = ((n - 232) * 10 + 8) as u8;
        (grey, grey, grey)
    }
}

/// What a control sequence does to the style of the text after it.
#[derive(Debug, Clone, Copy, PartialEq, Eq, Structural)]
pub enum CsiEffect {
    /// Back to the default colours.
    Reset,
    Foreground(u8, u8, u8),
    Background(u8, u8, u8),
    /// Nothing that changes a colour.
    Nothing,
}

/// A parameter that is one number in the range.
pub open spec fn single_in(g: Seq<u16>, lo: int, hi: int) -> bool {
    g.len() == 1 && lo <= g[0] < hi
}

/// The colour that a `38` or `48` sequence selects, from its second group
/// on: `5;n` for a palette colour, `2;r;g;b` for an exact one.
pub open spec fn extended_colour(p: Seq<Seq<u16>>) -> Option<Rgb> {
    if p.len() >= 3 && p[1] == seq![5u16] && p[2].len() == 1 {
        Some(colour_8bit(p[2][0] as u8))
    } else if p.len() >= 5 && p[1] == seq![2u16] && p[2].len() == 1 && p[3].len() == 1 && p[4].len() == 1 {
        Some((p[2][0] as u8, p[3][0] as u8, p[4][0] as u8))
    } else {
        None
    }
}

/// The numbers of a control sequence that must fit in a byte to make a
/// colour, and do not.
pub open spec fn csi_out_of_range(p: Seq<Seq<u16>>) -> bool {
    &&& p.len() >= 1
    &&& (p[0] == seq![38u16] || p[0] == seq![48u16])
    &&& {
        ||| p.len() >= 3 && p[1] == seq![5u16] && p[2].len() == 1 && p[2][0] > 255
        ||| !(p.len() >= 3 && p[1] == seq![5u16] && p[2].len() == 1) && p.len() >= 5 && p[1] == seq![2u16]
            && p[2].len() == 1 && p[3].len() == 1 && p[4].len() == 1
            && (p[2][0] > 255 || p[3][0] > 255 || p[4][0] > 255)
    }
}

/// What the parameter groups of a control sequence do: `0` resets, `30`–`37`
/// and `90`–`97` set a standard or bright foreground, `40`–`47` and
/// `100`–`107` a background, `38` and `48` an extended colour; anything else
/// does nothing.
pub open spec fn spec_csi_effect(p: Seq<Seq<u16>>) -> CsiEffect {
    if p.len() == 0 {
        CsiEffect::Nothing
    } else if p[0] == seq![0u16] {
        CsiEffect::Reset
    } else if p[0] == seq![38u16] || p[0] == seq![48u16] {
        match extended_colour(p) {
            Some(c) => if p[0] == seq![48u16] {
                CsiEffect::Background(c.0, c.1, c.2)
            } else {
                CsiEffect::Foreground(c.0, c.1, c.2)
            },
            None => CsiEffect::Nothing,
        }
    } else if single_in(p[0], 30, 38) {
        let c = standard_colour(p[0][0] - 30);
        CsiEffect::Foreground(c.0, c.1, c.2)
    } else if single_in(p[0], 90, 98) {
        let c = standard_colour(p[0][0] - 90 + 8);
        CsiEffect::Foreground(c.0, c.1, c.2)
    } else if single_in(p[0], 40, 48) {
        let c = standard_colour(p[0][0] - 40);
        CsiEffect::Background(c.0, c.1, c.2)
    } else if single_in(p[0], 100, 108) {
        let c = standard_colour(p[0][0] - 100 + 8);
        CsiEffect::Background(c.0, c.1, c.2)
    } else {
        CsiEffect::Nothing
    }
}

/// One of the sixteen standard colours.
pub fn color_standard(n: u8) -> (c: Rgb)
    requires
        n <= 15,
    ensures
        c == standard_colour(n as int),
{
    if n == 0 { (0, 0, 0) }
    else if n == 1 { (205, 0, 0) }
    else if n == 2 { (0, 205, 0) }
    else if n == 3 { (205, 205, 0) }
    else if n == 4 { (0, 0, 238) }
    else if n == 5 { (205, 0, 205) }
    else if n == 6 { (0, 205, 205) }
    else if n == 7 { (229, 229, 229) }
    else if n == 8 { (127, 127, 127) }
    else if n == 9 { (255, 0, 0) }
    else if n == 10 { (0, 255, 0) }
    else if n == 11 { (255, 255, 0) }
    else if n == 12 { (92, 92, 255) }
    else if n == 13 { (255, 0, 255) }
    else if n == 14 { (0, 255, 255) }
    else { (255, 255, 255) }
}

fn cube_level_exec(v: u8) -> (l: u8)
    requires
        v < 6,
    ensures
        l == cube_level(v as int),
{
    if v == 0 { 0 } else { v * 40 + 55 }
}

/// A colour of the 256-colour palette.
pub fn color_8bit(n: u8) -> (c: Rgb)
    ensures
        c == colour_8bit(n),
{
    if n < 16 {
        color_standard(n)
    } else if n < 232 {
        let m = n - 16;
        (cube_level_exec(m / 36), cube_level_exec((m % 36) / 6), cube_level_exec(m % 6))
    } else {
        let grey = (n - 232) * 10 + 8;
        (grey, grey, grey)
    }
}

fn is_single(g: &Vec<u16>, v: u16) -> (r: bool)
    ensures
        r == (g@ == seq![v]),
{
    let r = g.len() == 1 && g[0] == v;
    proof {
        if g@.len() == 1 && g@[0] == v {
            assert(g@ =~= seq![v]);
        }
    }
    r
}

/// Whether a control sequence holds numbers that must fit in a byte to
/// make a colour, and do not.
pub fn csi_params_out_of_range(params: &Vec<Vec<u16>>) -> (r: bool)
    ensures
        r == csi_out_of_range(params@.map_values(|g: Vec<u16>| g@)),
{
    let ghost p = params@.map_values(|g: Vec<u16>| g@);
    let n = params.len();
    if n == 0 {
        return false;
    }
    assert(p[0] == params@[0]@);
    if !(is_single(&params[0], 38) || is_single(&params[0], 48)) {
        return false;
    }
    if n >= 3 {
        assert(p[1] == params@[1]@ && p[2] == params@[2]@);
    }
    if n >= 5 {
        assert(p[3] == params@[3]@ && p[4] == params@[4]@);
    }
    if n >= 3 && is_single(&params[1], 5) && params[2].len() == 1 {
        params[2][0] > 255
    } else if n >= 5 && is_single(&params[1], 2) && params[2].len() == 1 && params[3].len() == 1
        && params[4].len() == 1 {
        params[2][0] > 255 || params[3][0] > 255 || params[4][0] > 255
    } else {
        false
    }
}

/// What the parameter groups of a control sequence do to the colours.
pub fn csi_effect(params: &Vec<Vec<u16>>) -> (e: CsiEffect)
    requires
        !csi_out_of_range(params@.map_values(|g: Vec<u16>| g@)),
    ensures
        e == spec_csi_effect(params@.map_values(|g: Vec<u16>| g@)),
{
    let ghost p = params@.map_values(|g: Vec<u16>| g@);
    if params.len() == 0 {
        return CsiEffect::Nothing;
    }
    assert(p[0] == params@[0]@);
    let first = &params[0];
    if is_single(first, 0) {
        return CsiEffect::Reset;
    }
    let fg_ext = is_single(first, 38);
    let bg_ext = is_single(first, 48);
    if fg_ext || bg_ext {
        let n = params.len();
        let colour: Option<Rgb> = if n >= 3 && is_single(&params[1], 5) && params[2].len() == 1 {
            assert(p[1] == params@[1]@ && p[2] == params@[2]@);
            Some(color_8bit(params[2][0] as u8))
        } else if n >= 5 && is_single(&params[1], 2) && params[2].len() == 1 && params[3].len() == 1
            && params[4].len() == 1 {
            assert(p[1] == params@[1]@ && p[2] == params@[2]@ && p[3] == params@[3]@ && p[4] == params@[4]@);
            Some((params[2][0] as u8, params[3][0] as u8, params[4][0] as u8))
        } else {
            proof {
                if n >= 3 {
                    assert(p[1] == params@[1]@ && p[2] == params@[2]@);
                }
                if n >= 5 {
                    assert(p[3] == params@[3]@ && p[4] == params@[4]@);
                }
            }
            None
        };
        return match colour {
            Some(c) => if bg_ext {
                CsiEffect::Background(c.0, c.1, c.2)
            } else {
                CsiEffect::Foreground(c.0, c.1, c.2)
            },
            None => CsiEffect::Nothing,
        };
    }
    if first.len() == 1 {
        let x = first[0];
        if 30 <= x && x < 38 {
            let c = color_standard((x - 30) as u8);
            return CsiEffect::Foreground(c.0, c.1, c.2);
        } else if 90 <= x && x < 98 {
            let c = color_standard((x - 90 + 8) as u8);
            return CsiEffect::Foreground(c.0, c.1, c.2);
        } else if 40 <= x && x < 48 {
            let c = color_standard((x - 40) as u8);
            return CsiEffect::Background(c.0, c.1, c.2);
        } else if 100 <= x && x < 108 {
            let c = color_standard((x - 100 + 8) as u8);
            return CsiEffect::Background(c.0, c.1, c.2);
        }
    }
    CsiEffect::Nothing
}

/// A run of the text, bytes `start..end`, with its colours; `None` is the
/// default colour.
#[derive(Debug, Clone, Copy)]
pub struct FormattedTextSegment {
    pub start: usize,
    pub end: usize,
    pub fg: Option<Rgb>,
    pub bg: Option<Rgb>,
}

/// Text with colours, in runs.
pub struct MyRichText {
    pub text: String,
    pub segments: Vec<FormattedTextSegment>,
}

/// The number of bytes of a text.
pub open spec fn byte_len(s: Seq<char>) -> nat {
    encode_utf8(s).len()
}

/// Where the runs end: the end of the last, or 0.
pub open spec fn runs_end(segs: Seq<FormattedTextSegment>) -> int {
    if segs.len() == 0 {
        0
    } else {
        segs.last().end as int
    }
}

/// The runs follow one another from byte 0: each starts where the one before
/// it ends, and none ends before it starts.
pub open spec fn runs_tile(segs: Seq<FormattedTextSegment>) -> bool {
    &&& segs.len() > 0 ==> segs[0].start == 0
    &&& forall|i: int| 0 <= i < segs.len() ==> (#[trigger] segs[i]).start <= segs[i].end
    &&& forall|i: int| 0 <= i < segs.len() - 1 ==> (#[trigger] segs[i]).end == segs[i + 1].start
}

/// Builds styled text from what a terminal reader finds: printed
/// characters, control bytes and control sequences. Text printed since the
/// last change of colour becomes a run when the colour changes again, and
/// at the end.
pub struct RichTextPerformer {
    text: String,
    segments: Vec<FormattedTextSegment>,
    current_fg: Option<Rgb>,
    current_bg: Option<Rgb>,
}

proof fn lemma_encode_push(s: Seq<char>, c: char)
    ensures
        encode_utf8(s.push(c)) == encode_utf8(s) + encode_scalar(c as u32),
    decreases s.len(),
{
    let t = s.push(c);
    if s.len() == 0 {
        assert(t.drop_first() =~= Seq::<char>::empty());
        assert(t[0] == c);
        assert(encode_utf8(t) == encode_scalar(c as u32) + encode_utf8(t.drop_first()));
        assert(encode_utf8(t) =~= encode_utf8(s) + encode_scalar(c as u32));
    } else {
        lemma_encode_push(s.drop_first(), c);
        assert(t.drop_first() =~= s.drop_first().push(c));
        assert(t[0] == s[0]);
        assert(encode_utf8(t) == encode_scalar(s[0] as u32) + encode_utf8(t.drop_first()));
        assert(encode_utf8(s) == encode_scalar(s[0] as u32) + encode_utf8(s.drop_first()));
        assert(encode_utf8(t) =~= encode_utf8(s) + encode_scalar(c as u32));
    }
}

impl RichTextPerformer {
    /// The text so far.
    pub closed spec fn text_view(&self) -> Seq<char> {
        self.text@
    }

    /// The runs so far.
    pub closed spec fn runs(&self) -> Seq<FormattedTextSegment> {
        self.segments@
    }

    /// The colours for the text printed next.
    pub closed spec fn colours(&self) -> (Option<Rgb>, Option<Rgb>) {
        (self.current_fg, self.current_bg)
    }

    /// The runs follow one another up to a point of the text, and there
    /// are none while there is no text; the text's length fits in a `usize`.
    pub open spec fn wf(&self) -> bool {
        &&& runs_tile(self.runs())
        &&& runs_end(self.runs()) <= byte_len(self.text_view())
        &&& self.text_view().len() == 0 ==> self.runs().len() == 0
        &&& byte_len(self.text_view()) <= usize::MAX
    }

    /// No text, no runs, default colours.
    pub fn new() -> (p: Self)
        ensures
            p.wf(),
            p.text_view() == Seq::<char>::empty(),
            p.runs() == Seq::<FormattedTextSegment>::empty(),
            p.colours() == (None::<Rgb>, None::<Rgb>),
    {
        RichTextPerformer { text: String::new(), segments: Vec::new(), current_fg: None, current_bg: None }
    }

    /// The number of bytes of the text so far.
    pub fn text_byte_len(&self) -> (n: usize)
        requires
            self.wf(),
        ensures
            n == byte_len(self.text_view()),
    {
        self.text.as_str().len()
    }

    /// Ends the current run at the end of the text, where there is text.
    fn commit_current_text(&mut self)
        requires
            old(self).wf(),
        ensures
            final(self).wf(),
            final(self).text_view() == old(self).text_view(),
            final(self).colours() == old(self).colours(),
            final(self).runs() == if old(self).text_view().len() == 0 {
                old(self).runs()
            } else {
                old(self).runs().push(
                    FormattedTextSegment {
                        start: runs_end(old(self).runs()) as usize,
                        end: byte_len(old(self).text_view()) as usize,
                        fg: old(self).colours().0,
                        bg: old(self).colours().1,
                    },
                )
            },
    {
        let len = self.text.as_str().len();
        if len > 0 {
            let start = if self.segments.len() == 0 {
                0
            } else {
                self.segments[self.segments.len() - 1].end
            };
            self.segments.push(FormattedTextSegment { start, end: len, fg: self.current_fg, bg: self.current_bg });
        } else {
            proof {
                if self.text@.len() > 0 {
                    assert(self.text@ =~= seq![self.text@[0]] + self.text@.drop_first());
                    lemma_encode_push(Seq::<char>::empty(), self.text@[0]);
                    assert(encode_utf8(seq![self.text@[0]]).len() > 0);
                    assert(encode_utf8(self.text@).len() > 0);
                }
            }
        }
    }

    /// Back to the default colours.
    pub fn reset(&mut self)
        requires
            old(self).wf(),
        ensures
            final(self).wf(),
            final(self).text_view() == old(self).text_view(),
            final(self).runs() == committed(old(self).text_view(), old(self).runs(), old(self).colours()),
            final(self).colours() == (None::<Rgb>, None::<Rgb>),
    {
        self.commit_current_text();
        self.current_bg = None;
        self.current_fg = None;
    }

    /// Sets the colour of the text printed next.
    pub fn set_fg(&mut self, color: Rgb)
        requires
            old(self).wf(),
        ensures
            final(self).wf(),
            final(self).text_view() == old(self).text_view(),
            final(self).runs() == committed(old(self).text_view(), old(self).runs(), old(self).colours()),
            final(self).colours() == (Some(color), old(self).colours().1),
    {
        self.commit_current_text();
        self.current_fg = Some(color);
    }

    /// Sets the background colour of the text printed next.
    pub fn set_bg(&mut self, color: Rgb)
        requires
            old(self).wf(),
        ensures
            final(self).wf(),
            final(self).text_view() == old(self).text_view(),
            final(self).runs() == committed(old(self).text_view(), old(self).runs(), old(self).colours()),
            final(self).colours() == (old(self).colours().0, Some(color)),
    {
        self.commit_current_text();
        self.current_bg = Some(color);
    }

    /// A printed character joins the text.
    pub fn print(&mut self, c: char)
        requires
            old(self).wf(),
            byte_len(old(self).text_view().push(c)) <= usize::MAX,
        ensures
            final(self).wf(),
            final(self).text_view() == old(self).text_view().push(c),
            final(self).runs() == old(self).runs(),
            final(self).colours() == old(self).colours(),
    {
        proof {
            lemma_encode_push(self.text@, c);
        }
        push_char(&mut self.text, c);
    }

    /// A control byte: whitespace (space, tab, line feed, form feed or
    /// carriage return) is printed, the rest is dropped.
    pub fn execute(&mut self, byte: u8)
        requires
            old(self).wf(),
            byte_len(old(self).text_view()) + 1 <= usize::MAX,
        ensures
            final(self).wf(),
            final(self).text_view() == if is_ascii_whitespace(byte) {
                old(self).text_view().push(byte as char)
            } else {
                old(self).text_view()
            },
            final(self).runs() == old(self).runs(),
            final(self).colours() == old(self).colours(),
    {
        if byte == 32 || byte == 9 || byte == 10 || byte == 12 || byte == 13 {
            let c = byte as char;
            proof {
                lemma_encode_push(self.text@, c);
                assert(encode_scalar(c as u32).len() == 1);
            }
            self.print(c);
        }
    }

    /// A control sequence with these parameter groups: it may reset the
    /// colours or set one of them.
    pub fn csi_dispatch(&mut self, params: &Vec<Vec<u16>>)
        requires
            old(self).wf(),
            !csi_out_of_range(params@.map_values(|g: Vec<u16>| g@)),
        ensures
            final(self).wf(),
            final(self).text_view() == old(self).text_view(),
            match spec_csi_effect(params@.map_values(|g: Vec<u16>| g@)) {
                CsiEffect::Nothing => final(self).runs() == old(self).runs() && final(self).colours() == old(
                    self,
                ).colours(),
                CsiEffect::Reset => final(self).runs() == committed(
                    old(self).text_view(),
                    old(self).runs(),
                    old(self).colours(),
                ) && final(self).colours() == (None::<Rgb>, None::<Rgb>),
                CsiEffect::Foreground(r, g, b) => final(self).runs() == committed(
                    old(self).text_view(),
                    old(self).runs(),
                    old(self).colours(),
                ) && final(self).colours() == (Some((r, g, b)), old(self).colours().1),
                CsiEffect::Background(r, g, b) => final(self).runs() == committed(
                    old(self).text_view(),
                    old(self).runs(),
                    old(self).colours(),
                ) && final(self).colours() == (old(self).colours().0, Some((r, g, b))),
            },
    {
        match csi_effect(params) {
            CsiEffect::Reset => self.reset(),
            CsiEffect::Foreground(r, g, b) => self.set_fg((r, g, b)),
            CsiEffect::Background(r, g, b) => self.set_bg((r, g, b)),
            CsiEffect::Nothing => {},
        }
    }

    /// The styled text: what was printed since the last change of colour
    /// becomes the last run, and the runs then cover the whole text.
    pub fn consume(self) -> (r: MyRichText)
        requires
            self.wf(),
        ensures
            r.text@ == self.text_view(),
            r.segments@ == committed(self.text_view(), self.runs(), self.colours()),
            runs_tile(r.segments@),
            runs_end(r.segments@) == byte_len(r.text@),
    {
        let mut p = self;
        p.commit_current_text();
        MyRichText { text: p.text, segments: p.segments }
    }
}

/// The runs after the current one is ended at the end of `text`.
pub open spec fn committed(
    text: Seq<char>,
    runs: Seq<FormattedTextSegment>,
    colours: (Option<Rgb>, Option<Rgb>),
) -> Seq<FormattedTextSegment> {
    if text.len() == 0 {
        runs
    } else {
        runs.push(
            FormattedTextSegment {
                start: runs_end(runs) as usize,
                end: byte_len(text) as usize,
                fg: colours.0,
                bg: colours.1,
            },
        )
    }
}

/// Space, tab, line feed, form feed or carriage return.
pub open spec fn is_ascii_whitespace(b: u8) -> bool {
    b == 32 || b == 9 || b == 10 || b == 12 || b == 13
}

} // verus!
