//! Text with colours and emphasis for terminals, as ANSI escape sequences.

use crate::text::{join, owned, push_joined, push_str, rows, string_of};
use vstd::prelude::*;

verus! {

/// The colours of the ANSI palette.
#[derive(Debug, Clone, Copy, PartialEq, Eq, Structural)]
pub enum Color {
    Black,
    Red,
    Green,
    Yellow,
    Blue,
    Magenta,
    Cyan,
    White,
    BrightBlack,
    BrightRed,
    BrightGreen,
    BrightYellow,
    BrightBlue,
    BrightMagenta,
    BrightCyan,
    BrightWhite,
}

/// A text with the styles to show it in.
#[derive(Debug)]
pub struct StyledText {
    pub text: String,
    pub fg_color: Option<Color>,
    pub bg_color: Option<Color>,
    pub bold: bool,
    pub dim: bool,
    pub italic: bool,
    pub underline: bool,
}

/// The number of a colour: 0 to 7 for the plain colours in the order of the
/// palette, 60 to 67 for the bright ones.
pub open spec fn color_number(c: Color) -> nat {
    match c {
        Color::Black => 0,
        Color::Red => 1,
        Color::Green => 2,
        Color::Yellow => 3,
        Color::Blue => 4,
        Color::Magenta => 5,
        Color::Cyan => 6,
        Color::White => 7,
        Color::BrightBlack => 60,
        Color::BrightRed => 61,
        Color::BrightGreen => 62,
        Color::BrightYellow => 63,
        Color::BrightBlue => 64,
        Color::BrightMagenta => 65,
        Color::BrightCyan => 66,
        Color::BrightWhite => 67,
    }
}

/// The code that sets a colour as foreground: 30 and the colour's number.
pub open spec fn fg_code_spec(c: Color) -> Seq<char> {
    crate::text::decimal(30 + color_number(c))
}

/// The code that sets a colour as background: 40 and the colour's number.
pub open spec fn bg_code_spec(c: Color) -> Seq<char> {
    crate::text::decimal(40 + color_number(c))
}

impl Color {
    fn number(&self) -> (r: u64)
        ensures
            r == color_number(*self),
    {
        match self {
            Color::Black => 0,
            Color::Red => 1,
            Color::Green => 2,
            Color::Yellow => 3,
            Color::Blue => 4,
            Color::Magenta => 5,
            Color::Cyan => 6,
            Color::White => 7,
            Color::BrightBlack => 60,
            Color::BrightRed => 61,
            Color::BrightGreen => 62,
            Color::BrightYellow => 63,
            Color::BrightBlue => 64,
            Color::BrightMagenta => 65,
            Color::BrightCyan => 66,
            Color::BrightWhite => 67,
        }
    }

    /// The code that sets the colour as foreground.
    pub fn fg_code(&self) -> (r: Vec<char>)
        ensures
            r@ == fg_code_spec(*self),
    {
        let mut r: Vec<char> = Vec::new();
        crate::text::push_decimal(&mut r, 30 + self.number());
        assert(r@ =~= fg_code_spec(*self));
        r
    }

    /// The code that sets the colour as background.
    pub fn bg_code(&self) -> (r: Vec<char>)
        ensures
            r@ == bg_code_spec(*self),
    {
        let mut r: Vec<char> = Vec::new();
        crate::text::push_decimal(&mut r, 40 + self.number());
        assert(r@ =~= bg_code_spec(*self));
        r
    }
}

/// The codes of the styles of a text: bold, dim, italic, underline,
/// foreground and background, in this order, each where it is set.
pub open spec fn style_codes(s: StyledText) -> Seq<Seq<char>> {
    (if s.bold {
        seq![seq!['1']]
    } else {
        Seq::<Seq<char>>::empty()
    }) + (if s.dim {
        seq![seq!['2']]
    } else {
        Seq::<Seq<char>>::empty()
    }) + (if s.italic {
        seq![seq!['3']]
    } else {
        Seq::<Seq<char>>::empty()
    }) + (if s.underline {
        seq![seq!['4']]
    } else {
        Seq::<Seq<char>>::empty()
    }) + (match s.fg_color {
        Some(c) => seq![fg_code_spec(c)],
        None => Seq::<Seq<char>>::empty(),
    }) + (match s.bg_color {
        Some(c) => seq![bg_code_spec(c)],
        None => Seq::<Seq<char>>::empty(),
    })
}

/// The text as it is written out: as it is where the output is no terminal
/// or no style is set, else between the sequence that switches its styles
/// on and the one that resets them.
pub open spec fn rendered(s: StyledText, terminal: bool) -> Seq<char> {
    if !terminal || style_codes(s).len() == 0 {
        s.text@
    } else {
        seq!['\x1b', '['] + join(style_codes(s), ";"@) + seq!['m'] + s.text@ + seq![
            '\x1b',
            '[',
            '0',
            'm',
        ]
    }
}

fn single(c: char) -> (r: Vec<char>)
    ensures
        r@ == seq![c],
{
    let r = vec![c];
    assert(r@ =~= seq![c]);
    r
}

impl StyledText {
    /// The text without any style.
    pub fn new(text: &str) -> (r: StyledText)
        ensures
            r.text@ == text@,
            r.fg_color is None,
            r.bg_color is None,
            !r.bold,
            !r.dim,
            !r.italic,
            !r.underline,
    {
        StyledText {
            text: owned(text),
            fg_color: None,
            bg_color: None,
            bold: false,
            dim: false,
            italic: false,
            underline: false,
        }
    }

    /// The text with `color` as foreground.
    pub fn fg(self, color: Color) -> (r: StyledText)
        ensures
            r == (StyledText { fg_color: Some(color), ..self }),
    {
        let mut r = self;
        r.fg_color = Some(color);
        r
    }

    /// The text with `color` as background.
    pub fn bg(self, color: Color) -> (r: StyledText)
        ensures
            r == (StyledText { bg_color: Some(color), ..self }),
    {
        let mut r = self;
        r.bg_color = Some(color);
        r
    }

    /// The text in bold.
    pub fn bold(self) -> (r: StyledText)
        ensures
            r == (StyledText { bold: true, ..self }),
    {
        let mut r = self;
        r.bold = true;
        r
    }

    /// The text dimmed.
    pub fn dim(self) -> (r: StyledText)
        ensures
            r == (StyledText { dim: true, ..self }),
    {
        let mut r = self;
        r.dim = true;
        r
    }

    /// The text in italics.
    pub fn italic(self) -> (r: StyledText)
        ensures
            r == (StyledText { italic: true, ..self }),
    {
        let mut r = self;
        r.italic = true;
        r
    }

    /// The text underlined.
    pub fn underline(self) -> (r: StyledText)
        ensures
            r == (StyledText { underline: true, ..self }),
    {
        let mut r = self;
        r.underline = true;
        r
    }

    /// The text as it is written out; `terminal` says whether the output is
    /// a terminal that takes escape sequences.
    pub fn to_string(&self, terminal: bool) -> (r: String)
        ensures
            r@ == rendered(*self, terminal),
    {
        if !terminal {
            return self.text.clone();
        }
        let codes = self.codes();
        if codes.len() == 0 {
            return self.text.clone();
        }
        let mut out: Vec<char> = Vec::new();
        out.push('\x1b');
        out.push('[');
        push_joined(&mut out, &codes, ";");
        out.push('m');
        push_str(&mut out, self.text.as_str());
        out.push('\x1b');
        out.push('[');
        out.push('0');
        out.push('m');
        assert(out@ =~= rendered(*self, terminal));
        string_of(&out)
    }

    /// The codes of the styles that are set.
    fn codes(&self) -> (r: Vec<Vec<char>>)
        ensures
            rows(r@) == style_codes(*self),
    {
        let mut codes: Vec<Vec<char>> = Vec::new();
        assert(rows(codes@) =~= Seq::<Seq<char>>::empty());
        if self.bold {
            let ghost before = rows(codes@);
            codes.push(single('1'));
            assert(rows(codes@) =~= before + seq![seq!['1']]);
        }
        let ghost a = rows(codes@);
        if self.dim {
            codes.push(single('2'));
            assert(rows(codes@) =~= a + seq![seq!['2']]);
        } else {
            assert(rows(codes@) =~= a + Seq::<Seq<char>>::empty());
        }
        let ghost b = rows(codes@);
        if self.italic {
            codes.push(single('3'));
            assert(rows(codes@) =~= b + seq![seq!['3']]);
        } else {
            assert(rows(codes@) =~= b + Seq::<Seq<char>>::empty());
        }
        let ghost c = rows(codes@);
        if self.underline {
            codes.push(single('4'));
            assert(rows(codes@) =~= c + seq![seq!['4']]);
        } else {
            assert(rows(codes@) =~= c + Seq::<Seq<char>>::empty());
        }
        let ghost d = rows(codes@);
        match &self.fg_color {
            Some(col) => {
                codes.push(col.fg_code());
                assert(rows(codes@) =~= d + seq![fg_code_spec(*col)]);
            },
            None => {
                assert(rows(codes@) =~= d + Seq::<Seq<char>>::empty());
            },
        }
        let ghost e = rows(codes@);
        match &self.bg_color {
            Some(col) => {
                codes.push(col.bg_code());
                assert(rows(codes@) =~= e + seq![bg_code_spec(*col)]);
            },
            None => {
                assert(rows(codes@) =~= e + Seq::<Seq<char>>::empty());
            },
        }
        codes
    }
}

/// `text` in red.
pub fn red(text: &str) -> (r: StyledText)
    ensures
        r == (StyledText { fg_color: Some(Color::Red), ..plain(r.text) }),
        r.text@ == text@,
{
    StyledText::new(text).fg(Color::Red)
}

/// `text` in green.
pub fn green(text: &str) -> (r: StyledText)
    ensures
        r == (StyledText { fg_color: Some(Color::Green), ..plain(r.text) }),
        r.text@ == text@,
{
    StyledText::new(text).fg(Color::Green)
}

/// `text` in yellow.
pub fn yellow(text: &str) -> (r: StyledText)
    ensures
        r == (StyledText { fg_color: Some(Color::Yellow), ..plain(r.text) }),
        r.text@ == text@,
{
    StyledText::new(text).fg(Color::Yellow)
}

/// `text` in blue.
pub fn blue(text: &str) -> (r: StyledText)
    ensures
        r == (StyledText { fg_color: Some(Color::Blue), ..plain(r.text) }),
        r.text@ == text@,
{
    StyledText::new(text).fg(Color::Blue)
}

/// `text` in magenta.
pub fn magenta(text: &str) -> (r: StyledText)
    ensures
        r == (StyledText { fg_color: Some(Color::Magenta), ..plain(r.text) }),
        r.text@ == text@,
{
    StyledText::new(text).fg(Color::Magenta)
}

/// `text` in cyan.
pub fn cyan(text: &str) -> (r: StyledText)
    ensures
        r == (StyledText { fg_color: Some(Color::Cyan), ..plain(r.text) }),
        r.text@ == text@,
{
    StyledText::new(text).fg(Color::Cyan)
}

/// `text` in white.
pub fn white(text: &str) -> (r: StyledText)
    ensures
        r == (StyledText { fg_color: Some(Color::White), ..plain(r.text) }),
        r.text@ == text@,
{
    StyledText::new(text).fg(Color::White)
}

/// `text` in bold.
pub fn bold(text: &str) -> (r: StyledText)
    ensures
        r == (StyledText { bold: true, ..plain(r.text) }),
        r.text@ == text@,
{
    StyledText::new(text).bold()
}

/// `text` dimmed.
pub fn dim(text: &str) -> (r: StyledText)
    ensures
        r == (StyledText { dim: true, ..plain(r.text) }),
        r.text@ == text@,
{
    StyledText::new(text).dim()
}

/// `text` in italics.
pub fn italic(text: &str) -> (r: StyledText)
    ensures
        r == (StyledText { italic: true, ..plain(r.text) }),
        r.text@ == text@,
{
    StyledText::new(text).italic()
}

/// `text` underlined.
pub fn underline(text: &str) -> (r: StyledText)
    ensures
        r == (StyledText { underline: true, ..plain(r.text) }),
        r.text@ == text@,
{
    StyledText::new(text).underline()
}

/// The text without any style.
pub open spec fn plain(text: String) -> StyledText {
    StyledText {
        text,
        fg_color: None,
        bg_color: None,
        bold: false,
        dim: false,
        italic: false,
        underline: false,
    }
}

} // verus!
