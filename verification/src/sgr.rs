//! The SGR attribute state machine: consumes a tokenized parameter list
//! and updates the persistent style state.

use vstd::prelude::*;

use crate::color::Color;
use crate::color::xterm256_spec;

verus! {

/// The persistent SGR style: two colors and eight independent flags.
#[derive(Debug, PartialEq, Eq, Copy, Clone, Structural)]
pub struct StyleState {
    pub fg: Color,
    pub bg: Color,
    pub bold: bool,
    pub faint: bool,
    pub italic: bool,
    pub underline: bool,
    pub blink: bool,
    pub negative: bool,
    pub conceal: bool,
    pub crossout: bool,
}

impl StyleState {
    /// Both colors keep their palette indices in range.
    pub open spec fn wf(self) -> bool {
        self.fg.wf() && self.bg.wf()
    }

    /// The all-default state: colors unset, every flag off.
    pub open spec fn default_spec() -> StyleState {
        StyleState {
            fg: Color::Unset,
            bg: Color::Unset,
            bold: false,
            faint: false,
            italic: false,
            underline: false,
            blink: false,
            negative: false,
            conceal: false,
            crossout: false,
        }
    }

    /// A fresh, all-default style.
    pub fn new() -> (s: StyleState)
        ensures
            s == StyleState::default_spec(),
    {
        StyleState {
            fg: Color::Unset,
            bg: Color::Unset,
            bold: false,
            faint: false,
            italic: false,
            underline: false,
            blink: false,
            negative: false,
            conceal: false,
            crossout: false,
        }
    }

    /// Whether any attribute is active; a state with none renders as
    /// plain text.
    pub fn has_attr(&self) -> (r: bool)
        ensures
            r == (*self != StyleState::default_spec()),
    {
        self.fg != Color::Unset || self.bg != Color::Unset || self.bold || self.faint
            || self.italic || self.underline || self.blink || self.negative || self.conceal
            || self.crossout
    }
}

/// Reads an extended-color introducer at position `i` of the parameter
/// list: `5` takes one following xterm-256 value, `2` takes three channel
/// values. Anything else, or too few remaining parameters, yields no
/// color and consumes nothing beyond what was read.
pub open spec fn ext_color_spec(vals: Seq<u32>, i: int) -> (Color, int) {
    if 0 <= i < vals.len() && vals[i] == 5 {
        if i + 1 < vals.len() {
            (xterm256_spec(vals[i + 1]), i + 2)
        } else {
            (Color::Unset, i)
        }
    } else if 0 <= i < vals.len() && vals[i] == 2 {
        if i + 3 < vals.len() {
            (
                Color::Rgb {
                    r: (vals[i + 1] & 0xff) as u8,
                    g: (vals[i + 2] & 0xff) as u8,
                    b: (vals[i + 3] & 0xff) as u8,
                },
                i + 4,
            )
        } else {
            (Color::Unset, i)
        }
    } else {
        (Color::Unset, i)
    }
}

/// Reads an extended color at position `i` of the parameter list.
fn csi_to_color(i: usize, vals: &Vec<u32>) -> (r: (Color, usize))
    requires
        i <= vals@.len(),
    ensures
        (r.0, r.1 as int) == ext_color_spec(vals@, i as int),
        r.0.wf(),
        i <= r.1 <= vals@.len(),
{
    let n = vals.len();
    if i < n && vals[i] == 5 {
        if n - i > 1 {
            (Color::from_xterm256(vals[i + 1]), i + 2)
        } else {
            (Color::Unset, i)
        }
    } else if i < n && vals[i] == 2 {
        if n - i > 3 {
            let r = vals[i + 1];
            let g = vals[i + 2];
            let b = vals[i + 3];
            proof {
                assert(r & 0xff < 256 && g & 0xff < 256 && b & 0xff < 256) by (bit_vector);
            }
            (
                Color::Rgb { r: (r & 0xff) as u8, g: (g & 0xff) as u8, b: (b & 0xff) as u8 },
                i + 4,
            )
        } else {
            (Color::Unset, i)
        }
    } else {
        (Color::Unset, i)
    }
}

/// The style after processing the parameter list from position `i` on.
/// The cursor moves sequentially; codes 38 and 48 consume the parameters
/// their extended color reads. Unknown codes are ignored.
pub open spec fn apply_sgr(st: StyleState, vals: Seq<u32>, i: int) -> StyleState
    decreases vals.len() - i,
{
    if i < 0 || i >= vals.len() {
        st
    } else {
        let code = vals[i];
        let j = i + 1;
        if code == 0 {
            apply_sgr(StyleState::default_spec(), vals, j)
        } else if code == 1 {
            apply_sgr(
                StyleState { bold: true, fg: st.fg.apply_bold_spec(true), ..st },
                vals,
                j,
            )
        } else if code == 2 {
            apply_sgr(StyleState { faint: true, ..st }, vals, j)
        } else if code == 3 {
            apply_sgr(StyleState { italic: true, ..st }, vals, j)
        } else if code == 4 {
            apply_sgr(StyleState { underline: true, ..st }, vals, j)
        } else if code == 5 {
            apply_sgr(StyleState { blink: true, ..st }, vals, j)
        } else if code == 7 {
            apply_sgr(StyleState { negative: true, ..st }, vals, j)
        } else if code == 8 {
            apply_sgr(StyleState { conceal: true, ..st }, vals, j)
        } else if code == 9 {
            apply_sgr(StyleState { crossout: true, ..st }, vals, j)
        } else if code == 21 {
            apply_sgr(
                StyleState { bold: false, fg: st.fg.apply_bold_spec(false), ..st },
                vals,
                j,
            )
        } else if code == 22 {
            apply_sgr(StyleState { bold: false, faint: false, ..st }, vals, j)
        } else if code == 23 {
            apply_sgr(StyleState { italic: false, ..st }, vals, j)
        } else if code == 24 {
            apply_sgr(StyleState { underline: false, ..st }, vals, j)
        } else if code == 25 {
            apply_sgr(StyleState { blink: false, ..st }, vals, j)
        } else if code == 27 {
            apply_sgr(StyleState { negative: false, ..st }, vals, j)
        } else if code == 28 {
            apply_sgr(StyleState { conceal: false, ..st }, vals, j)
        } else if code == 29 {
            apply_sgr(StyleState { crossout: false, ..st }, vals, j)
        } else if 30 <= code && code <= 37 {
            apply_sgr(
                StyleState {
                    fg: Color::Index { index: (code - 30) as u8, bold: st.bold },
                    ..st
                },
                vals,
                j,
            )
        } else if 40 <= code && code <= 47 {
            apply_sgr(
                StyleState { bg: Color::Index { index: (code - 40) as u8, bold: false }, ..st },
                vals,
                j,
            )
        } else if code == 38 {
            let ck = ext_color_spec(vals, j);
            apply_sgr(StyleState { fg: ck.0, ..st }, vals, ck.1)
        } else if code == 48 {
            let ck = ext_color_spec(vals, j);
            apply_sgr(StyleState { bg: ck.0, ..st }, vals, ck.1)
        } else {
            apply_sgr(st, vals, j)
        }
    }
}

impl StyleState {
    /// Processes a whole tokenized parameter list, updating the style in
    /// place.
    #[verifier::rlimit(60)]
    pub fn apply_codes(&mut self, vals: &Vec<u32>)
        requires
            old(self).wf(),
        ensures
            *final(self) == apply_sgr(*old(self), vals@, 0),
            final(self).wf(),
    {
        let n = vals.len();
        let mut i: usize = 0;
        while i < n
            invariant
                n == vals@.len(),
                i <= n,
                self.wf(),
                apply_sgr(*old(self), vals@, 0) == apply_sgr(*self, vals@, i as int),
            decreases n - i,
        {
            let code = vals[i];
            i = i + 1;
            if code == 0 {
                *self = StyleState::new();
            } else if code == 1 {
                self.bold = true;
                self.fg = self.fg.apply_bold(true);
            } else if code == 2 {
                self.faint = true;
            } else if code == 3 {
                self.italic = true;
            } else if code == 4 {
                self.underline = true;
            } else if code == 5 {
                self.blink = true;
            } else if code == 7 {
                self.negative = true;
            } else if code == 8 {
                self.conceal = true;
            } else if code == 9 {
                self.crossout = true;
            } else if code == 21 {
                self.bold = false;
                self.fg = self.fg.apply_bold(false);
            } else if code == 22 {
                self.bold = false;
                self.faint = false;
            } else if code == 23 {
                self.italic = false;
            } else if code == 24 {
                self.underline = false;
            } else if code == 25 {
                self.blink = false;
            } else if code == 27 {
                self.negative = false;
            } else if code == 28 {
                self.conceal = false;
            } else if code == 29 {
                self.crossout = false;
            } else if 30 <= code && code <= 37 {
                self.fg = Color::Index { index: (code - 30) as u8, bold: self.bold };
            } else if 40 <= code && code <= 47 {
                self.bg = Color::Index { index: (code - 40) as u8, bold: false };
            } else if code == 38 {
                let ck = csi_to_color(i, vals);
                self.fg = ck.0;
                i = ck.1;
            } else if code == 48 {
                let ck = csi_to_color(i, vals);
                self.bg = ck.0;
                i = ck.1;
            }
        }
    }
}

/// Applying the reset parameter wipes every attribute: from any prior
/// state, code 0 yields the all-default state.
pub proof fn lemma_sgr_reset(st: StyleState)
    ensures
        apply_sgr(st, seq![0u32], 0) == StyleState::default_spec(),
{
    assert(apply_sgr(StyleState::default_spec(), seq![0u32], 1) == StyleState::default_spec());
}

/// Selecting palette red and then turning bold on retroactively moves the
/// foreground to the intense palette entry; un-bolding reverts it to the
/// standard entry.
pub proof fn lemma_bold_recolors_index(st: StyleState)
    ensures
        ({
            let s1 = apply_sgr(st, seq![31u32], 0);
            let s2 = apply_sgr(s1, seq![1u32], 0);
            let s3 = apply_sgr(s2, seq![21u32], 0);
            &&& s2.fg == (Color::Index { index: 1u8, bold: true })
            &&& s2.fg.to_rgb_spec() == (Color::Rgb { r: 255u8, g: 0u8, b: 0u8 })
            &&& s3.fg == (Color::Index { index: 1u8, bold: false })
            &&& s3.fg.to_rgb_spec() == (Color::Rgb { r: 205u8, g: 0u8, b: 0u8 })
        }),
{
    let s1 = apply_sgr(st, seq![31u32], 0);
    let s2 = apply_sgr(s1, seq![1u32], 0);
    let s3 = apply_sgr(s2, seq![21u32], 0);
    let f1 = StyleState { fg: Color::Index { index: 1u8, bold: st.bold }, ..st };
    assert(apply_sgr(f1, seq![31u32], 1) == f1);
    assert(s1 == f1);
    let f2 = StyleState { bold: true, fg: Color::Index { index: 1u8, bold: true }, ..s1 };
    assert(apply_sgr(f2, seq![1u32], 1) == f2);
    assert(s2 == f2);
    let f3 = StyleState { bold: false, fg: Color::Index { index: 1u8, bold: false }, ..s2 };
    assert(apply_sgr(f3, seq![21u32], 1) == f3);
    assert(s3 == f3);
}

} // verus!
