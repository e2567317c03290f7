//! The line scanner and HTML emitter: a conversion session that scans
//! input lines character by character, feeds SGR sequences to the state
//! machine, and emits escaped text inside `<div>`/`<span>` markup.

use vstd::prelude::*;
use vstd::string::StringExecFns;

use crate::color::Color;
use crate::color::Gamma;
use crate::color::css_hex_chars;
use crate::color::gamma_correct_spec;
use crate::csi::csi_params;
use crate::csi::parse_csi_values;
use crate::sgr::StyleState;
use crate::sgr::apply_sgr;
use crate::text::dec_str;
use crate::text::push_char;
use crate::text::push_dec;
use crate::text::str_chars;

verus! {

/// The immutable page configuration of a session.
#[verifier::ext_equal]
pub ghost struct PageConfig {
    pub fg: Color,
    pub bg: Color,
    pub gamma: Seq<u8>,
    pub title: Seq<char>,
    pub font_size: Seq<char>,
}

/// The mutable part of a session: style, tag nesting, the row counter and
/// the pending HTML of the current row.
#[verifier::ext_equal]
pub ghost struct RowModel {
    pub style: StyleState,
    pub in_div: bool,
    pub in_span: bool,
    pub num_rows: nat,
    pub line_buf: Seq<char>,
}

/// A row model together with the fragments flushed to the sink so far.
#[verifier::ext_equal]
pub ghost struct EmitState {
    pub row: RowModel,
    pub out: Seq<Seq<char>>,
}

/// Text appended to the pending row.
pub open spec fn add_text_r(s: RowModel, t: Seq<char>) -> RowModel {
    RowModel { line_buf: s.line_buf + t, ..s }
}

/// Opening a row: emits `<div>` and counts the row; a no-op while a row
/// is open.
pub open spec fn start_div_r(s: RowModel) -> RowModel {
    if !s.in_div {
        RowModel { in_div: true, num_rows: s.num_rows + 1, line_buf: s.line_buf + "<div>"@, ..s }
    } else {
        s
    }
}

/// Closing the current span, if one is open.
pub open spec fn end_span_r(s: RowModel) -> RowModel {
    if s.in_span {
        RowModel { in_span: false, line_buf: s.line_buf + "</span>"@, ..s }
    } else {
        s
    }
}

/// Closing the current row: any open span is closed first, then the row's
/// HTML is flushed to the sink as one fragment.
pub open spec fn end_div_m(s: EmitState) -> EmitState {
    let r = end_span_r(s.row);
    if r.in_div {
        EmitState {
            row: RowModel { in_div: false, line_buf: Seq::empty(), ..r },
            out: s.out.push(r.line_buf + "</div>\n"@),
        }
    } else {
        EmitState { row: r, ..s }
    }
}

/// The inline style declarations of the boolean attributes, in their
/// fixed emission order.
#[verifier::opaque]
pub open spec fn style_flags_text(st: StyleState) -> Seq<char> {
    (if st.bold {
        "font-weight:bold;"@
    } else {
        Seq::<char>::empty()
    }) + (if st.faint {
        "opacity:0.5;"@
    } else {
        Seq::<char>::empty()
    }) + (if st.italic {
        "font-style:italic;"@
    } else {
        Seq::<char>::empty()
    }) + (if st.underline {
        "text-decoration:underline;"@
    } else {
        Seq::<char>::empty()
    }) + (if st.crossout {
        "text-decoration:line-through;"@
    } else {
        Seq::<char>::empty()
    })
}

/// The effective foreground and background: unset colors fall back to
/// the page defaults, negative swaps the two, conceal paints the text in
/// the background color.
pub open spec fn effective_colors(cfg: PageConfig, st: StyleState) -> (Color, Color) {
    let f = st.fg.or_default_spec(cfg.fg);
    let b = st.bg.or_default_spec(cfg.bg);
    let fb = if st.negative {
        (b, f)
    } else {
        (f, b)
    };
    if st.conceal {
        (fb.1, fb.1)
    } else {
        fb
    }
}

/// The color declarations for an effective pair `(f, b)`: each is
/// emitted only where it differs from the page default, keeping markup
/// minimal.
#[verifier::opaque]
pub open spec fn color_decls_of(gamma: Seq<u8>, pf: Color, pb: Color, f: Color, b: Color) -> Seq<
    char,
> {
    (if f != pf {
        "color:"@ + css_hex_chars(gamma_correct_spec(gamma, f)) + ";"@
    } else {
        Seq::<char>::empty()
    }) + (if b != pb {
        "background-color:"@ + css_hex_chars(gamma_correct_spec(gamma, b)) + ";"@
    } else {
        Seq::<char>::empty()
    })
}

/// The color declarations of a span under a style.
pub open spec fn color_decls_text(cfg: PageConfig, st: StyleState) -> Seq<char> {
    let fb = effective_colors(cfg, st);
    color_decls_of(cfg.gamma, cfg.fg, cfg.bg, fb.0, fb.1)
}

/// The opening span tag of a non-default style.
#[verifier::opaque]
pub open spec fn span_open_text(cfg: PageConfig, st: StyleState) -> Seq<char> {
    "<span "@ + (if st.blink {
        "class=\"blink\" "@
    } else {
        Seq::<char>::empty()
    }) + "style=\""@ + style_flags_text(st) + color_decls_text(cfg, st) + "\">"@
}

/// One `m`-terminated control sequence applied to a session: the
/// parameters update the style; a fully defaulted result collapses to
/// plain text, any other closes the current span and opens a new one.
#[verifier::opaque]
pub open spec fn convert_csi_r(cfg: PageConfig, s: RowModel, params: Seq<char>) -> RowModel {
    let st = apply_sgr(s.style, csi_params(params), 0);
    let s2 = RowModel { style: st, ..s };
    if st == StyleState::default_spec() {
        end_span_r(s2)
    } else {
        let s3 = end_span_r(s2);
        RowModel { in_span: true, line_buf: s3.line_buf + span_open_text(cfg, st), ..s3 }
    }
}

/// Text appended to the pending row of a session.
pub open spec fn add_text_m(s: EmitState, t: Seq<char>) -> EmitState {
    EmitState { row: add_text_r(s.row, t), ..s }
}

/// Whether a character terminates a CSI sequence.
pub open spec fn is_csi_end_char(c: char) -> bool {
    0x40 <= c as int && c as int <= 0x7e
}

/// The position of the first CSI terminator at or after `i`, or the text
/// length when none remains.
#[verifier::opaque]
pub open spec fn csi_end_from(s: Seq<char>, i: int) -> int
    decreases s.len() - i,
{
    if i < 0 || i >= s.len() {
        s.len() as int
    } else if is_csi_end_char(s[i]) {
        i
    } else {
        csi_end_from(s, i + 1)
    }
}

proof fn lemma_csi_end_bounds(s: Seq<char>, i: int)
    requires
        0 <= i <= s.len(),
    ensures
        i <= csi_end_from(s, i) <= s.len(),
    decreases s.len() - i,
{
    reveal(csi_end_from);
    if i < s.len() && !is_csi_end_char(s[i]) {
        lemma_csi_end_bounds(s, i + 1);
    }
}

/// The position at which scanning resumes after an OSC sequence entered
/// at `i`: just past a BEL, just past a two-character ESC-backslash
/// terminator, or the end of the text.
#[verifier::opaque]
pub open spec fn osc_end_from(s: Seq<char>, i: int) -> int
    decreases s.len() - i,
{
    if i < 0 || i >= s.len() {
        s.len() as int
    } else if s[i] == '\u{7}' {
        i + 1
    } else if s[i] == '\u{1b}' && i + 1 < s.len() && s[i + 1] == '\\' {
        i + 2
    } else {
        osc_end_from(s, i + 1)
    }
}

proof fn lemma_osc_end_bounds(s: Seq<char>, i: int)
    requires
        0 <= i <= s.len(),
    ensures
        i <= osc_end_from(s, i) <= s.len(),
    decreases s.len() - i,
{
    reveal(osc_end_from);
    if i < s.len() && !(s[i] == '\u{7}') && !(s[i] == '\u{1b}' && i + 1 < s.len() && s[i + 1]
        == '\\') {
        lemma_osc_end_bounds(s, i + 1);
    }
}

/// The caret notation of a control character.
pub open spec fn caret_text(c: char) -> Seq<char> {
    seq!['^', (((c as u32) + 64) as u8) as char]
}

/// The scan of one line from position `i` on: entities are escaped, BEL
/// is dropped, CR/LF closes the row (a CR-LF pair as one unit) and opens
/// a new one only when input follows, escape sequences are interpreted or
/// discarded, other control characters print in caret notation, and
/// everything else passes through. An escape left unterminated by the end
/// of the text drops the remainder.
#[verifier::opaque]
pub open spec fn scan_m(cfg: PageConfig, s: EmitState, chars: Seq<char>, i: int) -> EmitState
    decreases (if i < chars.len() {
        chars.len() - i
    } else {
        0
    })
        via scan_m_dec
{
    if i < 0 || i >= chars.len() {
        s
    } else {
        let c = chars[i];
        if c == '&' {
            scan_m(cfg, add_text_m(s, "&amp;"@), chars, i + 1)
        } else if c == '<' {
            scan_m(cfg, add_text_m(s, "&lt;"@), chars, i + 1)
        } else if c == '>' {
            scan_m(cfg, add_text_m(s, "&gt;"@), chars, i + 1)
        } else if c == '\u{7}' {
            scan_m(cfg, s, chars, i + 1)
        } else if c == '\u{a}' || c == '\u{d}' {
            let j = if c == '\u{d}' && i + 1 < chars.len() && chars[i + 1] == '\u{a}' {
                i + 2
            } else {
                i + 1
            };
            let s2 = end_div_m(s);
            if j < chars.len() {
                scan_m(cfg, EmitState { row: start_div_r(s2.row), ..s2 }, chars, j)
            } else {
                s2
            }
        } else if c == '\u{1b}' {
            if i + 1 >= chars.len() {
                s
            } else {
                let c2 = chars[i + 1];
                if c2 == '[' {
                    let t = csi_end_from(chars, i + 2);
                    if t >= chars.len() {
                        s
                    } else {
                        let s2 = if chars[t] == 'm' {
                            EmitState {
                                row: convert_csi_r(cfg, s.row, chars.subrange(i + 2, t)),
                                ..s
                            }
                        } else {
                            s
                        };
                        scan_m(cfg, s2, chars, t + 1)
                    }
                } else if c2 == ']' {
                    scan_m(cfg, s, chars, osc_end_from(chars, i + 2))
                } else if c2 == '(' {
                    scan_m(cfg, s, chars, i + 3)
                } else if c2 == 'c' {
                    let r2 = end_span_r(RowModel { style: StyleState::default_spec(), ..s.row });
                    scan_m(cfg, EmitState { row: r2, ..s }, chars, i + 2)
                } else {
                    scan_m(cfg, s, chars, i + 2)
                }
            }
        } else if c as u32 <= 0x1f && c != '\t' {
            scan_m(cfg, add_text_m(s, caret_text(c)), chars, i + 1)
        } else {
            scan_m(cfg, add_text_m(s, seq![c]), chars, i + 1)
        }
    }
}

#[via_fn]
proof fn scan_m_dec(cfg: PageConfig, s: EmitState, chars: Seq<char>, i: int) {
    if 0 <= i < chars.len() && chars[i] == '\u{1b}' && i + 1 < chars.len() {
        if chars[i + 1] == '[' {
            lemma_csi_end_bounds(chars, i + 2);
        }
        if chars[i + 1] == ']' {
            lemma_osc_end_bounds(chars, i + 2);
        }
    }
}

/// A scan only adds: the row count never decreases, and the fragments
/// already flushed to the sink stay in place and in order, with new ones
/// only appended. Attribute content never unwrites a row.
pub proof fn lemma_scan_appends_in_order(cfg: PageConfig, s: EmitState, chars: Seq<char>, i: int)
    ensures
        s.row.num_rows <= scan_m(cfg, s, chars, i).row.num_rows,
        s.out.len() <= scan_m(cfg, s, chars, i).out.len(),
        forall|k: int|
            0 <= k < s.out.len() ==> scan_m(cfg, s, chars, i).out[k] == s.out[k],
    decreases (if i < chars.len() {
        chars.len() - i
    } else {
        0
    }),
{
    reveal(scan_m);
    if 0 <= i < chars.len() {
        let c = chars[i];
        if c == '&' {
            lemma_scan_appends_in_order(cfg, add_text_m(s, "&amp;"@), chars, i + 1);
        } else if c == '<' {
            lemma_scan_appends_in_order(cfg, add_text_m(s, "&lt;"@), chars, i + 1);
        } else if c == '>' {
            lemma_scan_appends_in_order(cfg, add_text_m(s, "&gt;"@), chars, i + 1);
        } else if c == '\u{7}' {
            lemma_scan_appends_in_order(cfg, s, chars, i + 1);
        } else if c == '\u{a}' || c == '\u{d}' {
            let j = if c == '\u{d}' && i + 1 < chars.len() && chars[i + 1] == '\u{a}' {
                i + 2
            } else {
                i + 1
            };
            let s2 = end_div_m(s);
            assert(s2.out.len() >= s.out.len());
            assert(forall|k: int| 0 <= k < s.out.len() ==> s2.out[k] == s.out[k]);
            if j < chars.len() {
                let s3 = EmitState { row: start_div_r(s2.row), ..s2 };
                lemma_scan_appends_in_order(cfg, s3, chars, j);
                assert(scan_m(cfg, s, chars, i) == scan_m(cfg, s3, chars, j));
                assert forall|k: int| 0 <= k < s.out.len() implies scan_m(
                    cfg, s, chars, i).out[k] == s.out[k] by {
                    assert(scan_m(cfg, s3, chars, j).out[k] == s3.out[k]);
                }
            }
        } else if c == '\u{1b}' {
            if i + 1 < chars.len() {
                let c2 = chars[i + 1];
                if c2 == '[' {
                    lemma_csi_end_bounds(chars, i + 2);
                    let t = csi_end_from(chars, i + 2);
                    if t < chars.len() {
                        let s2 = if chars[t] == 'm' {
                            EmitState {
                                row: convert_csi_r(cfg, s.row, chars.subrange(i + 2, t)),
                                ..s
                            }
                        } else {
                            s
                        };
                        reveal(convert_csi_r);
                        assert(s2.row.num_rows == s.row.num_rows);
                        assert(s2.out == s.out);
                        lemma_scan_appends_in_order(cfg, s2, chars, t + 1);
                    }
                } else if c2 == ']' {
                    lemma_osc_end_bounds(chars, i + 2);
                    lemma_scan_appends_in_order(cfg, s, chars, osc_end_from(chars, i + 2));
                } else if c2 == '(' {
                    lemma_scan_appends_in_order(cfg, s, chars, i + 3);
                } else if c2 == 'c' {
                    let r2 = end_span_r(RowModel { style: StyleState::default_spec(), ..s.row });
                    lemma_scan_appends_in_order(cfg, EmitState { row: r2, ..s }, chars, i + 2);
                } else {
                    lemma_scan_appends_in_order(cfg, s, chars, i + 2);
                }
            }
        } else if c as u32 <= 0x1f && c != '\t' {
            lemma_scan_appends_in_order(cfg, add_text_m(s, caret_text(c)), chars, i + 1);
        } else {
            lemma_scan_appends_in_order(cfg, add_text_m(s, seq![c]), chars, i + 1);
        }
    }
}

/// One whole call of the converter on one line of text: a row is opened
/// if none is open, the line is scanned, and the row is closed and
/// flushed.
pub open spec fn convert_m(cfg: PageConfig, s: EmitState, chars: Seq<char>) -> EmitState {
    end_div_m(scan_m(cfg, EmitState { row: start_div_r(s.row), ..s }, chars, 0))
}

/// Whether a character terminates a CSI sequence.
fn is_csi_end(b: char) -> (r: bool)
    ensures
        r == is_csi_end_char(b),
{
    let u = b as u32;
    0x40 <= u && u <= 0x7e
}

/// Appends the style declarations of the boolean attributes.
#[verifier::rlimit(100)]
fn push_style_flags(s: &mut String, st: &StyleState)
    ensures
        final(s)@ == old(s)@ + style_flags_text(*st),
{
    let ghost b0 = s@;
    if st.bold {
        s.append("font-weight:bold;");
    }
    let ghost b1 = s@;
    if st.faint {
        s.append("opacity:0.5;");
    }
    let ghost b2 = s@;
    if st.italic {
        s.append("font-style:italic;");
    }
    let ghost b3 = s@;
    if st.underline {
        s.append("text-decoration:underline;");
    }
    let ghost b4 = s@;
    if st.crossout {
        s.append("text-decoration:line-through;");
    }
    proof {
        assert(b1 =~= b0 + (if st.bold {
            "font-weight:bold;"@
        } else {
            Seq::<char>::empty()
        }));
        assert(b2 =~= b1 + (if st.faint {
            "opacity:0.5;"@
        } else {
            Seq::<char>::empty()
        }));
        assert(b3 =~= b2 + (if st.italic {
            "font-style:italic;"@
        } else {
            Seq::<char>::empty()
        }));
        assert(b4 =~= b3 + (if st.underline {
            "text-decoration:underline;"@
        } else {
            Seq::<char>::empty()
        }));
        assert(s@ =~= b4 + (if st.crossout {
            "text-decoration:line-through;"@
        } else {
            Seq::<char>::empty()
        }));
        reveal(style_flags_text);
        assert(s@ =~= old(s)@ + style_flags_text(*st));
    }
}

/// Appends the color declarations for an effective color pair.
fn push_color_decls(s: &mut String, gamma: &Gamma, pf: Color, pb: Color, f: Color, b: Color)
    requires
        gamma.wf(),
        f.wf(),
        !(f is Unset),
        b.wf(),
        !(b is Unset),
    ensures
        final(s)@ == old(s)@ + color_decls_of(gamma@, pf, pb, f, b),
{
    let ghost b0 = s@;
    if f != pf {
        s.append("color:");
        let css = f.to_css_color(gamma);
        s.append(css.as_str());
        s.append(";");
    }
    let ghost b1 = s@;
    proof {
        assert(b1 =~= b0 + (if f != pf {
            "color:"@ + css_hex_chars(gamma_correct_spec(gamma@, f)) + ";"@
        } else {
            Seq::<char>::empty()
        }));
    }
    if b != pb {
        s.append("background-color:");
        let css = b.to_css_color(gamma);
        s.append(css.as_str());
        s.append(";");
    }
    proof {
        assert(s@ =~= b1 + (if b != pb {
            "background-color:"@ + css_hex_chars(gamma_correct_spec(gamma@, b)) + ";"@
        } else {
            Seq::<char>::empty()
        }));
        reveal(color_decls_of);
        assert(s@ =~= old(s)@ + color_decls_of(gamma@, pf, pb, f, b));
    }
}

/// The HTML page header: document boilerplate with the title, the
/// gamma-corrected page colors and the font size substituted in.
pub open spec fn header_text(cfg: PageConfig) -> Seq<char> {
    "\n<!DOCTYPE html>\n<html>\n  <head>\n    <meta http-equiv=\"Content-Type\" content=\"text/html; charset=utf-8\">\n    <title>"@
        + cfg.title
        + "</title>\n    <style>\nbody{\n  background-color:"@
        + css_hex_chars(gamma_correct_spec(cfg.gamma, cfg.bg))
        + ";\n  color:"@
        + css_hex_chars(gamma_correct_spec(cfg.gamma, cfg.fg))
        + ";\n}\ndiv{\n  font-size:"@
        + cfg.font_size
        + ";\n  font-family:monospace;\n  white-space:pre;\n  min-height:"@
        + cfg.font_size
        + ";\n}\nspan.blink{\n  animation:         blink-animation 1s infinite;\n  -webkit-animation: blink-animation 1s infinite;\n}\n@keyframes blink-animation {\n  0% { visibility: hidden; }\n  50% { visibility: hidden; }\n}\n@-webkit-keyframes blink-animation {\n  0% { visibility: hidden; }\n  50% { visibility: hidden; }\n}\n    </style>\n  <head>\n<body>\n"@
}

/// The HTML page footer: a comment reporting the row count, then the
/// closing tags.
pub open spec fn footer_text(rows: nat) -> Seq<char> {
    "\n<!-- "@ + dec_str(rows) + " rows -->\n</body>\n</html>\n"@
}

/// The conversion session: page configuration, style state, and the
/// pending HTML of the current row. One instance covers one conversion
/// run; completed rows are handed to the caller's sink vector.
pub struct A2hFilter {
    title: String,
    html_fg_color: Color,
    html_bg_color: Color,
    font_size: String,
    gamma: Gamma,
    style: StyleState,
    in_div: bool,
    in_span: bool,
    num_rows: usize,
    line_buf: String,
}

/// The page configuration a session was built with.
pub closed spec fn config_of(f: &A2hFilter) -> PageConfig {
    PageConfig {
        fg: f.html_fg_color,
        bg: f.html_bg_color,
        gamma: f.gamma@,
        title: f.title@,
        font_size: f.font_size@,
    }
}

/// The mutable state of a session.
pub closed spec fn row_model(f: &A2hFilter) -> RowModel {
    RowModel {
        style: f.style,
        in_div: f.in_div,
        in_span: f.in_span,
        num_rows: f.num_rows as nat,
        line_buf: f.line_buf@,
    }
}

/// The session state together with a sink's contents.
pub open spec fn emit_model(f: &A2hFilter, out: Seq<String>) -> EmitState {
    EmitState { row: row_model(f), out: out.map_values(|s: String| s@) }
}

impl A2hFilter {
    /// The page colors are concrete and well formed, the gamma table is
    /// complete, and the style's palette indices are in range.
    pub closed spec fn wf(&self) -> bool {
        &&& self.html_fg_color.wf()
        &&& !(self.html_fg_color is Unset)
        &&& self.html_bg_color.wf()
        &&& !(self.html_bg_color is Unset)
        &&& self.gamma.wf()
        &&& self.style.wf()
    }

    /// Builds a session. The page colors must be concrete: they are what
    /// unset attribute colors fall back to.
    pub fn new(title: &str, fg_rgb: Color, bg_rgb: Color, font_size: &str, gamma: Gamma) -> (f:
        A2hFilter)
        requires
            fg_rgb.wf(),
            !(fg_rgb is Unset),
            bg_rgb.wf(),
            !(bg_rgb is Unset),
            gamma.wf(),
        ensures
            f.wf(),
            config_of(&f) == (PageConfig {
                fg: fg_rgb,
                bg: bg_rgb,
                gamma: gamma@,
                title: title@,
                font_size: font_size@,
            }),
            row_model(&f) == (RowModel {
                style: StyleState::default_spec(),
                in_div: false,
                in_span: false,
                num_rows: 0nat,
                line_buf: Seq::<char>::empty(),
            }),
    {
        let f = A2hFilter {
            title: String::from_str(title),
            html_fg_color: fg_rgb,
            html_bg_color: bg_rgb,
            font_size: String::from_str(font_size),
            gamma,
            style: StyleState::new(),
            in_div: false,
            in_span: false,
            num_rows: 0,
            line_buf: String::new(),
        };
        proof {
            assert(row_model(&f) =~= (RowModel {
                style: StyleState::default_spec(),
                in_div: false,
                in_span: false,
                num_rows: 0nat,
                line_buf: Seq::<char>::empty(),
            }));
        }
        f
    }

    /// Resets every style attribute to its default; the page
    /// configuration, tag nesting and row count are untouched.
    pub fn reset(&mut self)
        ensures
            row_model(final(self)) == (RowModel {
                style: StyleState::default_spec(),
                ..row_model(old(self))
            }),
            config_of(final(self)) == config_of(old(self)),
            old(self).wf() ==> final(self).wf(),
    {
        self.style = StyleState::new();
    }

    /// Appends text to the pending row.
    fn add_to_line(&mut self, v: &str)
        ensures
            row_model(final(self)) == add_text_r(row_model(old(self)), v@),
            config_of(final(self)) == config_of(old(self)),
            final(self).wf() == old(self).wf(),
    {
        self.line_buf.append(v);
    }

    /// Appends one character to the pending row.
    fn add_char_to_line(&mut self, ch: char)
        ensures
            row_model(final(self)) == add_text_r(row_model(old(self)), seq![ch]),
            config_of(final(self)) == config_of(old(self)),
            final(self).wf() == old(self).wf(),
    {
        push_char(&mut self.line_buf, ch);
        proof {
            assert(self.line_buf@ =~= old(self).line_buf@ + seq![ch]);
        }
    }

    /// Opens a row if none is open.
    fn start_div(&mut self)
        requires
            old(self).num_rows < usize::MAX,
        ensures
            row_model(final(self)) == start_div_r(row_model(old(self))),
            config_of(final(self)) == config_of(old(self)),
            final(self).wf() == old(self).wf(),
    {
        if !self.in_div {
            self.in_div = true;
            self.add_to_line("<div>");
            self.num_rows = self.num_rows + 1;
        }
    }

    /// Closes the current span if one is open.
    fn end_span(&mut self)
        ensures
            row_model(final(self)) == end_span_r(row_model(old(self))),
            config_of(final(self)) == config_of(old(self)),
            final(self).wf() == old(self).wf(),
    {
        if self.in_span {
            self.in_span = false;
            self.add_to_line("</span>");
        }
    }

    /// Hands the pending row text to the sink and clears it.
    fn flush_line(&mut self, sink: &mut Vec<String>)
        ensures
            row_model(final(self)) == (RowModel {
                line_buf: Seq::<char>::empty(),
                ..row_model(old(self))
            }),
            config_of(final(self)) == config_of(old(self)),
            final(self).wf() == old(self).wf(),
            final(sink)@.map_values(|s: String| s@) =~= old(sink)@.map_values(|s: String| s@)
                .push(old(self).line_buf@),
    {
        let mut s = String::new();
        core::mem::swap(&mut s, &mut self.line_buf);
        sink.push(s);
        proof {
            assert(sink@.map_values(|s: String| s@) =~= old(sink)@.map_values(|s: String| s@)
                .push(old(self).line_buf@));
        }
    }

    /// Applies one `m`-terminated control sequence: tokenizes the
    /// parameter text, updates the style, and rewrites the span markup.
    #[verifier::rlimit(100)]
    fn convert_csi(&mut self, params: &Vec<char>)
        requires
            old(self).wf(),
        ensures
            row_model(final(self)) == convert_csi_r(
                config_of(old(self)),
                row_model(old(self)),
                params@,
            ),
            config_of(final(self)) == config_of(old(self)),
            final(self).wf(),
    {
        proof {
            reveal(convert_csi_r);
            reveal(span_open_text);
        }
        let ghost cfg = config_of(old(self));
        let vals = parse_csi_values(params);
        let mut st = self.style;
        st.apply_codes(&vals);
        self.style = st;
        let ghost stg = self.style;
        if !self.style.has_attr() {
            self.end_span();
            proof {
                assert(row_model(self) =~= convert_csi_r(cfg, row_model(old(self)), params@));
            }
            return ;
        }
        self.end_span();
        let ghost buf0 = self.line_buf@;
        self.in_span = true;
        self.add_to_line("<span ");
        if self.style.blink {
            self.add_to_line("class=\"blink\" ");
        }
        self.add_to_line("style=\"");
        push_style_flags(&mut self.line_buf, &st);
        let f0 = self.style.fg.or_default(self.html_fg_color);
        let b0 = self.style.bg.or_default(self.html_bg_color);
        let mut f = f0;
        let mut b = b0;
        if self.style.negative {
            let t = f;
            f = b;
            b = t;
        }
        if self.style.conceal {
            f = b;
        }
        proof {
            assert((f, b) == effective_colors(cfg, stg));
        }
        push_color_decls(&mut self.line_buf, &self.gamma, self.html_fg_color, self.html_bg_color,
            f, b);
        self.add_to_line("\">");
        proof {
            assert(self.line_buf@ =~= buf0 + span_open_text(cfg, stg));
            assert(row_model(self) =~= convert_csi_r(cfg, row_model(old(self)), params@));
        }
    }

    /// Scans one line of text and emits its HTML: a row is opened if none
    /// is open, the characters are dispatched, and the row is closed and
    /// flushed at the end of the call.
    #[verifier::rlimit(100)]
    #[verifier::spinoff_prover]
    fn convert(&mut self, line: &str, sink: &mut Vec<String>)
        requires
            old(self).wf(),
            row_model(old(self)).num_rows + line@.len() + 1 <= usize::MAX,
        ensures
            emit_model(final(self), final(sink)@) == convert_m(
                config_of(old(self)),
                emit_model(old(self), old(sink)@),
                line@,
            ),
            config_of(final(self)) == config_of(old(self)),
            final(self).wf(),
    {
        let ghost cfg = config_of(old(self));
        let chars = str_chars(line);
        let size = chars.len();
        self.start_div();
        let ghost s0 = emit_model(self, sink@);
        proof {
            assert(s0 =~~= (EmitState {
                row: start_div_r(row_model(old(self))),
                out: old(sink)@.map_values(|s: String| s@),
            }));
        }
        let mut i: usize = 0;
        while i < size
            invariant
                chars@ == line@,
                size == chars@.len(),
                size < usize::MAX,
                i <= size,
                self.wf(),
                config_of(self) == cfg,
                row_model(self).num_rows <= s0.row.num_rows + i,
                s0.row.num_rows + size <= usize::MAX,
                scan_m(cfg, emit_model(self, sink@), chars@, i as int) == scan_m(
                    cfg,
                    s0,
                    chars@,
                    0,
                ),
            decreases size - i,
        {
            let ghost pre = emit_model(self, sink@);
            let ch = chars[i];
            if ch == '&' {
                self.add_to_line("&amp;");
                proof {
                    assert(emit_model(self, sink@) =~~= add_text_m(pre, "&amp;"@));
                    reveal(scan_m);
                    assert(scan_m(cfg, emit_model(self, sink@), chars@, i + 1) == scan_m(
                        cfg, pre, chars@, i as int));
                }
                i = i + 1;
            } else if ch == '<' {
                self.add_to_line("&lt;");
                proof {
                    assert(emit_model(self, sink@) =~~= add_text_m(pre, "&lt;"@));
                    reveal(scan_m);
                    assert(scan_m(cfg, emit_model(self, sink@), chars@, i + 1) == scan_m(
                        cfg, pre, chars@, i as int));
                }
                i = i + 1;
            } else if ch == '>' {
                self.add_to_line("&gt;");
                proof {
                    assert(emit_model(self, sink@) =~~= add_text_m(pre, "&gt;"@));
                    reveal(scan_m);
                    assert(scan_m(cfg, emit_model(self, sink@), chars@, i + 1) == scan_m(
                        cfg, pre, chars@, i as int));
                }
                i = i + 1;
            } else if ch == '\u{7}' {
                proof {
                    reveal(scan_m);
                    assert(scan_m(cfg, emit_model(self, sink@), chars@, i + 1) == scan_m(
                        cfg, pre, chars@, i as int));
                }
                i = i + 1;
            } else if ch == '\u{a}' || ch == '\u{d}' {
                let mut j = i + 1;
                if ch == '\u{d}' && j < size && chars[j] == '\u{a}' {
                    j = j + 1;
                }
                self.end_div(sink);
                let ghost s2 = emit_model(self, sink@);
                proof {
                    assert(s2 == end_div_m(pre));
                }
                if j < size {
                    self.start_div();
                    proof {
                        assert(emit_model(self, sink@) =~~= (EmitState {
                            row: start_div_r(s2.row),
                            ..s2
                        }));
                        reveal(scan_m);
                        assert(scan_m(cfg, emit_model(self, sink@), chars@, j as int)
                            == scan_m(cfg, pre, chars@, i as int));
                    }
                } else {
                    proof {
                        reveal(scan_m);
                        assert(scan_m(cfg, emit_model(self, sink@), chars@, j as int)
                            == scan_m(cfg, pre, chars@, i as int));
                    }
                }
                i = j;
            } else if ch == '\u{1b}' {
                if i + 1 >= size {
                    proof {
                        reveal(scan_m);
                        assert(scan_m(cfg, pre, chars@, i as int) == pre);
                        assert(scan_m(cfg, pre, chars@, size as int) == pre);
                    }
                    i = size;
                } else {
                    let c2 = chars[i + 1];
                    if c2 == '[' {
                        let mut j = i + 2;
                        let mut params_vec: Vec<char> = Vec::new();
                        while j < size && !is_csi_end(chars[j])
                            invariant
                                size == chars@.len(),
                                i + 2 <= j <= size,
                                params_vec@ == chars@.subrange(i + 2, j as int),
                                csi_end_from(chars@, i + 2) == csi_end_from(chars@, j as int),
                            decreases size - j,
                        {
                            params_vec.push(chars[j]);
                            proof {
                                assert(chars@.subrange(i + 2, j + 1) =~= chars@.subrange(
                                    i + 2, j as int).push(chars@[j as int]));
                                reveal(csi_end_from);
                            }
                            j = j + 1;
                        }
                        let ghost t = csi_end_from(chars@, i + 2);
                        if j >= size {
                            proof {
                                reveal(csi_end_from);
                                assert(t == size);
                                reveal(scan_m);
                                assert(scan_m(cfg, pre, chars@, i as int) == pre);
                                assert(scan_m(cfg, pre, chars@, size as int) == pre);
                            }
                            i = size;
                        } else {
                            proof {
                                reveal(csi_end_from);
                                assert(t == j);
                            }
                            if chars[j] == 'm' {
                                self.convert_csi(&params_vec);
                                proof {
                                    assert(emit_model(self, sink@) =~~= (EmitState {
                                        row: convert_csi_r(cfg, pre.row, chars@.subrange(
                                            i + 2, t)),
                                        ..pre
                                    }));
                                    reveal(convert_csi_r);
                                    assert(row_model(self).num_rows == pre.row.num_rows);
                                }
                            }
                            proof {
                                reveal(scan_m);
                                assert(scan_m(cfg, emit_model(self, sink@), chars@, j + 1)
                                    == scan_m(cfg, pre, chars@, i as int));
                            }
                            i = j + 1;
                        }
                    } else if c2 == ']' {
                        let mut j = i + 2;
                        let mut done = false;
                        while !done
                            invariant
                                size == chars@.len(),
                                i + 2 <= j <= size,
                                osc_end_from(chars@, i + 2) == (if done {
                                    j as int
                                } else {
                                    osc_end_from(chars@, j as int)
                                }),
                            decreases size - j + (if done {
                                0int
                            } else {
                                1int
                            }),
                        {
                            proof {
                                reveal(osc_end_from);
                            }
                            if j >= size {
                                done = true;
                            } else if chars[j] == '\u{7}' {
                                j = j + 1;
                                done = true;
                            } else if chars[j] == '\u{1b}' && j + 1 < size && chars[j + 1]
                                == '\\' {
                                j = j + 2;
                                done = true;
                            } else {
                                j = j + 1;
                            }
                        }
                        proof {
                            lemma_osc_end_bounds(chars@, i + 2);
                            reveal(scan_m);
                            assert(scan_m(cfg, pre, chars@, j as int) == scan_m(
                                cfg, pre, chars@, i as int));
                        }
                        i = j;
                    } else if c2 == '(' {
                        let ni = if i + 3 >= size {
                            size
                        } else {
                            i + 3
                        };
                        proof {
                            reveal(scan_m);
                            assert(scan_m(cfg, pre, chars@, i + 3) == scan_m(
                                cfg, pre, chars@, i as int));
                            assert(scan_m(cfg, pre, chars@, ni as int) == scan_m(
                                cfg, pre, chars@, i + 3));
                        }
                        i = ni;
                    } else if c2 == 'c' {
                        self.reset();
                        self.end_span();
                        proof {
                            assert(emit_model(self, sink@) =~~= (EmitState {
                                row: end_span_r(RowModel {
                                    style: StyleState::default_spec(),
                                    ..pre.row
                                }),
                                ..pre
                            }));
                            reveal(scan_m);
                            assert(scan_m(cfg, emit_model(self, sink@), chars@, i + 2)
                                == scan_m(cfg, pre, chars@, i as int));
                        }
                        i = i + 2;
                    } else {
                        proof {
                            reveal(scan_m);
                            assert(scan_m(cfg, pre, chars@, i + 2) == scan_m(
                                cfg, pre, chars@, i as int));
                        }
                        i = i + 2;
                    }
                }
            } else {
                let u = ch as u32;
                if u <= 0x1f && ch != '\t' {
                    self.add_to_line("^");
                    let caret_ch = ((u + 64) as u8) as char;
                    self.add_char_to_line(caret_ch);
                    proof {
                        reveal_strlit("^");
                        assert(row_model(self).line_buf =~= pre.row.line_buf + caret_text(ch));
                        assert(emit_model(self, sink@) =~~= add_text_m(pre, caret_text(ch)));
                        reveal(scan_m);
                        assert(scan_m(cfg, emit_model(self, sink@), chars@, i + 1) == scan_m(
                            cfg, pre, chars@, i as int));
                    }
                } else {
                    self.add_char_to_line(ch);
                    proof {
                        assert(emit_model(self, sink@) =~~= add_text_m(pre, seq![ch]));
                        reveal(scan_m);
                        assert(scan_m(cfg, emit_model(self, sink@), chars@, i + 1) == scan_m(
                            cfg, pre, chars@, i as int));
                    }
                }
                i = i + 1;
            }
        }
        proof {
            reveal(scan_m);
            assert(scan_m(cfg, emit_model(self, sink@), chars@, i as int) == emit_model(
                self, sink@));
        }
        self.end_div(sink);
        proof {
            assert(emit_model(self, sink@) =~~= convert_m(
                cfg,
                emit_model(old(self), old(sink)@),
                line@,
            ));
        }
    }

    /// The page header, ready to be written before any row.
    pub fn write_header(&self) -> (s: String)
        requires
            self.wf(),
        ensures
            s@ == header_text(config_of(self)),
    {
        let mut s = String::from_str(
            "\n<!DOCTYPE html>\n<html>\n  <head>\n    <meta http-equiv=\"Content-Type\" content=\"text/html; charset=utf-8\">\n    <title>",
        );
        s.append(self.title.as_str());
        s.append("</title>\n    <style>\nbody{\n  background-color:");
        let bg = self.html_bg_color.to_css_color(&self.gamma);
        s.append(bg.as_str());
        s.append(";\n  color:");
        let fg = self.html_fg_color.to_css_color(&self.gamma);
        s.append(fg.as_str());
        s.append(";\n}\ndiv{\n  font-size:");
        s.append(self.font_size.as_str());
        s.append(";\n  font-family:monospace;\n  white-space:pre;\n  min-height:");
        s.append(self.font_size.as_str());
        s.append(
            ";\n}\nspan.blink{\n  animation:         blink-animation 1s infinite;\n  -webkit-animation: blink-animation 1s infinite;\n}\n@keyframes blink-animation {\n  0% { visibility: hidden; }\n  50% { visibility: hidden; }\n}\n@-webkit-keyframes blink-animation {\n  0% { visibility: hidden; }\n  50% { visibility: hidden; }\n}\n    </style>\n  <head>\n<body>\n",
        );
        proof {
            assert(s@ =~= header_text(config_of(self)));
        }
        s
    }

    /// The page footer, reporting the total row count.
    pub fn write_footer(&self) -> (s: String)
        ensures
            s@ == footer_text(row_model(self).num_rows),
    {
        let mut s = String::from_str("\n<!-- ");
        push_dec(&mut s, self.num_rows);
        s.append(" rows -->\n</body>\n</html>\n");
        proof {
            assert(s@ =~= footer_text(row_model(self).num_rows));
        }
        s
    }

    /// The number of rows opened so far.
    pub fn num_rows(&self) -> (n: usize)
        ensures
            n as nat == row_model(self).num_rows,
    {
        self.num_rows
    }

    /// Converts one input line. Styling state persists across calls; each
    /// call closes and flushes the rows it completes.
    pub fn process(&mut self, s: &str, sink: &mut Vec<String>)
        requires
            old(self).wf(),
            row_model(old(self)).num_rows + s@.len() + 1 <= usize::MAX,
        ensures
            emit_model(final(self), final(sink)@) == convert_m(
                config_of(old(self)),
                emit_model(old(self), old(sink)@),
                s@,
            ),
            config_of(final(self)) == config_of(old(self)),
            final(self).wf(),
    {
        self.convert(s, sink);
    }

    /// Closes the current row, if one is open, and flushes it.
    fn end_div(&mut self, sink: &mut Vec<String>)
        ensures
            emit_model(final(self), final(sink)@) == end_div_m(
                emit_model(old(self), old(sink)@),
            ),
            config_of(final(self)) == config_of(old(self)),
            final(self).wf() == old(self).wf(),
    {
        self.end_span();
        if self.in_div {
            self.in_div = false;
            self.add_to_line("</div>\n");
            self.flush_line(sink);
            proof {
                assert(emit_model(self, sink@) =~~= end_div_m(
                    emit_model(old(self), old(sink)@),
                ));
            }
        } else {
            proof {
                assert(emit_model(self, sink@) =~~= end_div_m(
                    emit_model(old(self), old(sink)@),
                ));
            }
        }
    }
}

} // verus!
