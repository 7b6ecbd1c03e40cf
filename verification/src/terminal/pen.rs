//! The SGR state a printed character is drawn with.
use vstd::prelude::*;
use crate::terminal::style::{
    plain_style, Color, Style, BLINK, BOLD, DIM, ITALIC, REVERSE, STRIKE, UNDERLINE,
};

verus! {

/// What one SGR code other than an extended colour does to `style`.
pub open spec fn sgr_one(style: Style, code: u16) -> Style {
    if code == 0 {
        plain_style()
    } else if code == 1 {
        Style { attrs: style.attrs | BOLD, ..style }
    } else if code == 2 {
        Style { attrs: style.attrs | DIM, ..style }
    } else if code == 3 {
        Style { attrs: style.attrs | ITALIC, ..style }
    } else if code == 4 {
        Style { attrs: style.attrs | UNDERLINE, ..style }
    } else if code == 5 || code == 6 {
        Style { attrs: style.attrs | BLINK, ..style }
    } else if code == 7 {
        Style { attrs: style.attrs | REVERSE, ..style }
    } else if code == 9 {
        Style { attrs: style.attrs | STRIKE, ..style }
    } else if code == 21 || code == 22 {
        Style { attrs: style.attrs & !(BOLD | DIM), ..style }
    } else if code == 23 {
        Style { attrs: style.attrs & !ITALIC, ..style }
    } else if code == 24 {
        Style { attrs: style.attrs & !UNDERLINE, ..style }
    } else if code == 25 {
        Style { attrs: style.attrs & !BLINK, ..style }
    } else if code == 27 {
        Style { attrs: style.attrs & !REVERSE, ..style }
    } else if code == 29 {
        Style { attrs: style.attrs & !STRIKE, ..style }
    } else if 30 <= code <= 37 {
        Style { fg: Color::Indexed((code - 30) as u8), ..style }
    } else if code == 39 {
        Style { fg: Color::Default, ..style }
    } else if 40 <= code <= 47 {
        Style { bg: Color::Indexed((code - 40) as u8), ..style }
    } else if code == 49 {
        Style { bg: Color::Default, ..style }
    } else if 90 <= code <= 97 {
        Style { fg: Color::Indexed((code - 90 + 8) as u8), ..style }
    } else if 100 <= code <= 107 {
        Style { bg: Color::Indexed((code - 100 + 8) as u8), ..style }
    } else {
        style
    }
}

/// The colour of the `5:n` and `2:r:g:b` forms, each number cut to a byte.
pub open spec fn colour_of(args: Seq<u16>) -> Option<Color> {
    if args.len() >= 2 && args[0] == 5 {
        Some(Color::Indexed(args[1] as u8))
    } else if args.len() >= 4 && args[0] == 2 {
        Some(Color::Rgb(args[1] as u8, args[2] as u8, args[3] as u8))
    } else {
        None
    }
}

/// How many of the parameters after a `38` or `48` its sequential form
/// spends.
pub open spec fn spent(rest: Seq<u16>) -> int {
    if rest.len() == 0 {
        0
    } else if rest[0] == 5 {
        if rest.len() < 2 { rest.len() as int } else { 2 }
    } else if rest[0] == 2 {
        if rest.len() < 4 { rest.len() as int } else { 4 }
    } else {
        1
    }
}

/// The first value of each parameter that has one.
pub open spec fn firsts(params: Seq<Seq<u16>>) -> Seq<u16>
    decreases params.len(),
{
    if params.len() == 0 {
        Seq::empty()
    } else {
        let head = if params[0].len() > 0 { seq![params[0][0]] } else { Seq::empty() };
        head + firsts(params.drop_first())
    }
}

/// The code of a parameter: its first value, or zero.
pub open spec fn code_of(param: Seq<u16>) -> u16 {
    if param.len() > 0 { param[0] } else { 0 }
}

/// `style` after the SGR parameters from `index` on.
///
/// A `38` or `48` written with subparameters carries its colour with it and
/// spends nothing after it; written with plain parameters it spends those it
/// reads. Any other code is one change.
pub open spec fn sgr_from(style: Style, params: Seq<Seq<u16>>, index: int) -> Style
    decreases if index < params.len() { params.len() - index } else { 0 },
{
    if index < 0 || index >= params.len() {
        style
    } else {
        let item = params[index];
        let code = code_of(item);
        if code == 38 || code == 48 {
            let (colour, used) = if item.len() > 1 {
                (colour_of(item.skip(1)), 1int)
            } else {
                let rest = firsts(params.skip(index + 1));
                (colour_of(rest), 1 + spent(rest))
            };
            let next = match colour {
                Some(c) => if code == 38 { Style { fg: c, ..style } } else { Style { bg: c, ..style } },
                None => style,
            };
            sgr_from(next, params, index + if used >= 1 { used } else { 1 })
        } else {
            sgr_from(sgr_one(style, code), params, index + 1)
        }
    }
}

/// `style` after a whole `CSI m`: an empty list is `SGR 0`.
pub open spec fn sgr(style: Style, params: Seq<Seq<u16>>) -> Style {
    if params.len() == 0 {
        plain_style()
    } else {
        sgr_from(style, params, 0)
    }
}

/// The SGR state a printed character is drawn with.
#[derive(Debug, Clone, Copy, PartialEq, Eq, Structural)]
pub struct Pen {
    pub style: Style,
}

impl Pen {
    pub fn new() -> (p: Pen)
        ensures
            p.style == plain_style(),
    {
        Pen { style: Style::plain() }
    }

    pub fn style(&self) -> (s: Style)
        ensures
            s == self.style,
    {
        self.style
    }

    pub fn reset(&mut self)
        ensures
            final(self).style == plain_style(),
    {
        self.style = Style::plain();
    }

    /// `CSI m`, its parameters each a list of a value and its subparameters.
    ///
    /// An empty list is `SGR 0`, which is not a nicety: ConPTY opens a pane
    /// with a bare `ESC[m` and treating it as a no-op would leave the pen
    /// wherever it was.
    pub fn apply_sgr(&mut self, params: &Vec<Vec<u16>>)
        ensures
            final(self).style == sgr(old(self).style, params@.map_values(|p: Vec<u16>| p@)),
    {
        let ghost flat = params@.map_values(|p: Vec<u16>| p@);
        if params.len() == 0 {
            self.reset();
            return;
        }
        let mut index: usize = 0;
        while index < params.len()
            invariant
                flat == params@.map_values(|p: Vec<u16>| p@),
                sgr_from(self.style, flat, index as int) == sgr_from(old(self).style, flat, 0),
            decreases params.len() - index,
        {
            let item = &params[index];
            let code: u16 = if item.len() > 0 { item[0] } else { 0 };
            proof {
                assert(item@ == flat[index as int]);
            }
            if code == 38 || code == 48 {
                let colour: Option<Color>;
                let used: usize;
                if item.len() > 1 {
                    colour = Self::extended(item, 1);
                    used = 1;
                    proof {
                        assert(item@.skip(1) =~= item@.subrange(1, item@.len() as int));
                    }
                } else {
                    let rest = Self::firsts_after(params, index + 1);
                    proof {
                        assert(rest@.skip(0) =~= rest@);
                    }
                    colour = Self::extended(&rest, 0);
                    used = 1 + Self::spent(&rest);
                }
                let ghost before = self.style;
                match colour {
                    Some(c) => {
                        if code == 38 {
                            self.style.fg = c;
                        } else {
                            self.style.bg = c;
                        }
                    },
                    None => {},
                }
                let next = if used <= params.len() - index { index + used } else { params.len() };
                proof {
                    assert(sgr_from(self.style, flat, next as int) == sgr_from(self.style, flat, index + used));
                    assert(sgr_from(before, flat, index as int) == sgr_from(self.style, flat, index + used));
                }
                index = next;
            } else {
                self.apply_one(code);
                index = index + 1;
            }
        }
    }

    fn apply_one(&mut self, code: u16)
        ensures
            final(self).style == sgr_one(old(self).style, code),
    {
        if code == 0 {
            self.reset();
        } else if code == 1 {
            self.style.attrs = self.style.attrs | BOLD;
        } else if code == 2 {
            self.style.attrs = self.style.attrs | DIM;
        } else if code == 3 {
            self.style.attrs = self.style.attrs | ITALIC;
        } else if code == 4 {
            self.style.attrs = self.style.attrs | UNDERLINE;
        } else if code == 5 || code == 6 {
            self.style.attrs = self.style.attrs | BLINK;
        } else if code == 7 {
            self.style.attrs = self.style.attrs | REVERSE;
        } else if code == 9 {
            self.style.attrs = self.style.attrs | STRIKE;
        } else if code == 21 || code == 22 {
            self.style.attrs = self.style.attrs & !(BOLD | DIM);
        } else if code == 23 {
            self.style.attrs = self.style.attrs & !ITALIC;
        } else if code == 24 {
            self.style.attrs = self.style.attrs & !UNDERLINE;
        } else if code == 25 {
            self.style.attrs = self.style.attrs & !BLINK;
        } else if code == 27 {
            self.style.attrs = self.style.attrs & !REVERSE;
        } else if code == 29 {
            self.style.attrs = self.style.attrs & !STRIKE;
        } else if 30 <= code && code <= 37 {
            self.style.fg = Color::Indexed((code - 30) as u8);
        } else if code == 39 {
            self.style.fg = Color::Default;
        } else if 40 <= code && code <= 47 {
            self.style.bg = Color::Indexed((code - 40) as u8);
        } else if code == 49 {
            self.style.bg = Color::Default;
        } else if 90 <= code && code <= 97 {
            self.style.fg = Color::Indexed((code - 90 + 8) as u8);
        } else if 100 <= code && code <= 107 {
            self.style.bg = Color::Indexed((code - 100 + 8) as u8);
        }
    }

    /// The colour of the `5:n` and `2:r:g:b` forms starting at `from`.
    fn extended(args: &Vec<u16>, from: usize) -> (c: Option<Color>)
        requires
            from <= args@.len(),
        ensures
            c == colour_of(args@.skip(from as int)),
    {
        let n = args.len() - from;
        if n >= 2 && args[from] == 5 {
            Some(Color::Indexed(args[from + 1] as u8))
        } else if n >= 4 && args[from] == 2 {
            Some(Color::Rgb(args[from + 1] as u8, args[from + 2] as u8, args[from + 3] as u8))
        } else {
            None
        }
    }

    /// How many of `rest` the sequential form spends.
    fn spent(rest: &Vec<u16>) -> (n: usize)
        ensures
            n == spent(rest@),
            n <= 4,
    {
        if rest.len() == 0 {
            0
        } else if rest[0] == 5 {
            if rest.len() < 2 { rest.len() } else { 2 }
        } else if rest[0] == 2 {
            if rest.len() < 4 { rest.len() } else { 4 }
        } else {
            1
        }
    }

    /// The first value of each parameter from `from` on that has one.
    fn firsts_after(params: &Vec<Vec<u16>>, from: usize) -> (rest: Vec<u16>)
        requires
            from <= params@.len(),
        ensures
            rest@ == firsts(params@.map_values(|p: Vec<u16>| p@).skip(from as int)),
    {
        let ghost flat = params@.map_values(|p: Vec<u16>| p@);
        let mut rest: Vec<u16> = Vec::new();
        let mut i: usize = params.len();
        proof {
            assert(flat.skip(i as int) =~= Seq::<Seq<u16>>::empty());
        }
        // Built back to front, so each step is one unfolding of `firsts`.
        let mut acc: Vec<u16> = Vec::new();
        while i > from
            invariant
                from <= i <= params@.len(),
                flat == params@.map_values(|p: Vec<u16>| p@),
                acc@ == firsts(flat.skip(i as int)),
            decreases i,
        {
            i = i - 1;
            let item = &params[i];
            proof {
                assert(flat.skip(i as int).drop_first() =~= flat.skip(i + 1));
                assert(flat.skip(i as int)[0] == item@);
            }
            if item.len() > 0 {
                let mut next: Vec<u16> = Vec::new();
                next.push(item[0]);
                next.append(&mut acc);
                acc = next;
                proof {
                    assert(acc@ =~= seq![item@[0]] + firsts(flat.skip(i + 1)));
                }
            } else {
                proof {
                    assert(firsts(flat.skip(i as int)) =~= Seq::<u16>::empty() + firsts(flat.skip(i + 1)));
                }
            }
        }
        rest.append(&mut acc);
        rest
    }
}

impl Default for Pen {
    fn default() -> (p: Pen)
        ensures
            p.style == plain_style(),
    {
        Pen::new()
    }
}

} // verus!
