use a2h::A2hFilter;
use a2h::Color;
use a2h::Gamma;
use a2h::parse_csi_values;
use a2h::parse_int;

/// The gamma curve tabulated from the power-law formula.
fn gamma_table(g: f64) -> Gamma {
    let mut levels: Vec<u8> = Vec::new();
    for v in 0..256 {
        let mut x: f64 = ((v as f64) / 255.0).powf(g);
        if x < 0.0 {
            x = 0.0;
        } else if x > 1.0 {
            x = 1.0;
        }
        levels.push((x * 255.0) as i32 as u8);
    }
    Gamma::new(levels).unwrap()
}

fn white() -> Color {
    Color::Rgb { r: 255, g: 255, b: 255 }
}

fn black() -> Color {
    Color::Rgb { r: 0, g: 0, b: 0 }
}

fn session() -> A2hFilter {
    A2hFilter::new("a2h", white(), black(), "9pt", Gamma::identity())
}

#[test]
fn test_to_css_color() {
    assert_eq!("#000000", Color::from_int(0).to_css_color(&gamma_table(1.0)));
    assert_eq!("#000080", Color::from_int(0x80).to_css_color(&gamma_table(1.0)));
    assert_eq!("#0000ff", Color::from_int(0xff).to_css_color(&gamma_table(1.0)));
    assert_eq!("#ffffff", Color::from_int(0xffffff).to_css_color(&gamma_table(1.0)));

    assert_eq!("#0000b4", Color::from_int(0x80).to_css_color(&gamma_table(0.5)));
    assert_eq!("#00005a", Color::from_int(0x80).to_css_color(&gamma_table(1.5)));
}

#[test]
fn test_parse_int() {
    assert_eq!(0, parse_int("0", 999));
    assert_eq!(999, parse_int("", 999));
    assert_eq!(255, parse_int("255", 999));
}

#[test]
fn parse_int_signs_and_bounds() {
    assert_eq!(-12, parse_int("-12", 999));
    assert_eq!(12, parse_int("+12", 999));
    assert_eq!(2147483647, parse_int("2147483647", 999));
    assert_eq!(999, parse_int("2147483648", 999));
    assert_eq!(-2147483648, parse_int("-2147483648", 999));
    assert_eq!(999, parse_int("-2147483649", 999));
    assert_eq!(999, parse_int("1a", 999));
}

#[test]
fn xterm256_full_table() {
    for v in 0..=255u32 {
        let expected = if v < 8 {
            Color::Index { index: v as u8, bold: false }
        } else if v < 16 {
            Color::Index { index: (v - 8) as u8, bold: true }
        } else if v >= 232 {
            let level = ((v - 232) * 10 + 8) as u8;
            Color::Rgb { r: level, g: level, b: level }
        } else {
            let n = v - 16;
            let b = (n % 6) * 255 / 5;
            let g = ((n / 6) % 6) * 255 / 5;
            let r = ((n / 36) % 6) * 255 / 5;
            Color::Rgb { r: r as u8, g: g as u8, b: b as u8 }
        };
        assert_eq!(expected, Color::from_xterm256(v));
    }
}

#[test]
fn xterm256_spot_values() {
    assert_eq!(Color::Rgb { r: 0, g: 0, b: 0 }, Color::from_xterm256(16));
    assert_eq!(Color::Rgb { r: 255, g: 0, b: 0 }, Color::from_xterm256(196));
    assert_eq!(Color::Rgb { r: 8, g: 8, b: 8 }, Color::from_xterm256(232));
    assert_eq!(Color::Rgb { r: 238, g: 238, b: 238 }, Color::from_xterm256(255));
}

#[test]
fn from_hex_round_trips_lowercase() {
    for h in ["cd0000", "4040ee", "ABCDEF", "00FF7f", "ffffff", "000000"] {
        let c = Color::from_hex(h).unwrap();
        let css = c.to_css_color(&Gamma::identity());
        assert_eq!(format!("#{}", h.to_lowercase()), css);
    }
}

#[test]
fn from_hex_rejects_bad_input() {
    let e = Color::from_hex("xyz").unwrap_err();
    assert_eq!("Invalid color 'xyz'; expected RRGGBB", e);
    assert!(Color::from_hex("").is_err());
    assert!(Color::from_hex("12345g").is_err());
    assert!(Color::from_hex("123456789").is_err());
}

#[test]
fn gamma_monotone_against_identity() {
    let flat = gamma_table(1.0);
    let dark = gamma_table(1.5);
    let light = gamma_table(0.5);
    for v in 1..=254u32 {
        let c = Color::Rgb { r: v as u8, g: v as u8, b: v as u8 };
        let base = u8::from_str_radix(&c.to_css_color(&flat)[1..3], 16).unwrap();
        let d = u8::from_str_radix(&c.to_css_color(&dark)[1..3], 16).unwrap();
        let l = u8::from_str_radix(&c.to_css_color(&light)[1..3], 16).unwrap();
        assert!(d <= base, "gamma 1.5 must not brighten level {}", v);
        assert!(l >= base, "gamma 0.5 must not darken level {}", v);
    }
}

#[test]
fn tokenizer_cases() {
    let chars = |s: &str| s.chars().collect::<Vec<char>>();
    assert_eq!(vec![1, 2, 3], parse_csi_values(&chars("1;2;3")));
    assert_eq!(vec![0], parse_csi_values(&chars("")));
    assert_eq!(vec![38, 5, 196], parse_csi_values(&chars("38;5;196")));
    assert_eq!(vec![12], parse_csi_values(&chars("12;34x56")));
    assert_eq!(vec![1], parse_csi_values(&chars("1;")));
}

#[test]
fn sgr_reset_clears_every_attribute() {
    let mut f = session();
    let mut out: Vec<String> = Vec::new();
    f.process("\x1b[1;4;5;7;31;44mstyled\x1b[0mplain", &mut out);
    assert_eq!(1, out.len());
    let row = &out[0];
    assert!(row.contains("</span>plain</div>"), "reset must close the span: {}", row);
    let mut out2: Vec<String> = Vec::new();
    f.process("after", &mut out2);
    assert_eq!("<div>after</div>\n", out2[0]);
}

#[test]
fn bold_recolors_selected_index() {
    let mut f = session();
    let mut out: Vec<String> = Vec::new();
    f.process("\x1b[31mr\x1b[1mA\x1b[21mB", &mut out);
    let row = &out[0];
    let bold_at = row.find("font-weight:bold;").expect("bold span expected");
    let intense = row.find("color:#ff0000;").expect("intense red expected");
    assert!(row[..bold_at].contains("color:#cd0000;"), "standard red first: {}", row);
    assert!(intense > bold_at, "intense red in the bold span: {}", row);
    let tail = &row[intense..];
    assert!(tail.contains("color:#cd0000;"), "un-bold reverts to standard red: {}", row);
}

#[test]
fn plain_line_has_no_span() {
    let mut f = session();
    let mut out: Vec<String> = Vec::new();
    f.process("plain", &mut out);
    assert_eq!(vec!["<div>plain</div>\n".to_string()], out);
    assert_eq!(1, f.num_rows());
}

#[test]
fn red_then_reset() {
    let mut f = session();
    let mut out: Vec<String> = Vec::new();
    f.process("\x1b[31mred\x1b[0m after", &mut out);
    assert_eq!(
        vec!["<div><span style=\"color:#cd0000;\">red</span> after</div>\n".to_string()],
        out
    );
}

#[test]
fn entities_are_escaped() {
    let mut f = session();
    let mut out: Vec<String> = Vec::new();
    f.process("a<b&c>d", &mut out);
    assert_eq!(vec!["<div>a&lt;b&amp;c&gt;d</div>\n".to_string()], out);
}

#[test]
fn negative_swaps_effective_colors() {
    let mut f = session();
    let mut out: Vec<String> = Vec::new();
    f.process("\x1b[7m\x1b[31;44mX", &mut out);
    let row = &out[0];
    let second = row.rfind("<span ").expect("second span expected");
    let span = &row[second..];
    assert!(span.contains("color:#4040ee;"), "foreground shows blue: {}", row);
    assert!(span.contains("background-color:#cd0000;"), "background shows red: {}", row);
}

#[test]
fn three_lines_count_three_rows() {
    let mut f = session();
    let mut out: Vec<String> = Vec::new();
    f.process("\x1b[1ma\nb\nc", &mut out);
    assert_eq!(3, out.len());
    assert_eq!(3, f.num_rows());
    let footer = f.write_footer();
    assert_eq!("\n<!-- 3 rows -->\n</body>\n</html>\n", footer);
}

#[test]
fn crlf_is_one_terminator() {
    let mut f = session();
    let mut out: Vec<String> = Vec::new();
    f.process("a\r\nb", &mut out);
    assert_eq!(vec!["<div>a</div>\n".to_string(), "<div>b</div>\n".to_string()], out);
    assert_eq!(2, f.num_rows());
}

#[test]
fn control_chars_print_in_caret_notation() {
    let mut f = session();
    let mut out: Vec<String> = Vec::new();
    f.process("a\u{1}b\u{7}c", &mut out);
    assert_eq!(vec!["<div>a^Abc</div>\n".to_string()], out);
}

#[test]
fn osc_sequences_are_skipped() {
    let mut f = session();
    let mut out: Vec<String> = Vec::new();
    f.process("\x1b]0;window title\x07text", &mut out);
    assert_eq!(vec!["<div>text</div>\n".to_string()], out);
    let mut f2 = session();
    let mut out2: Vec<String> = Vec::new();
    f2.process("\x1b]0;t\x1b\\more", &mut out2);
    assert_eq!(vec!["<div>more</div>\n".to_string()], out2);
}

#[test]
fn full_reset_escape_closes_span() {
    let mut f = session();
    let mut out: Vec<String> = Vec::new();
    f.process("\x1b[31ma\x1bcb", &mut out);
    assert_eq!(
        vec!["<div><span style=\"color:#cd0000;\">a</span>b</div>\n".to_string()],
        out
    );
}

#[test]
fn non_sgr_and_unterminated_sequences() {
    let mut f = session();
    let mut out: Vec<String> = Vec::new();
    f.process("a\x1b[2Kb", &mut out);
    assert_eq!(vec!["<div>ab</div>\n".to_string()], out);
    let mut f2 = session();
    let mut out2: Vec<String> = Vec::new();
    f2.process("a\x1b[12;3", &mut out2);
    assert_eq!(vec!["<div>a</div>\n".to_string()], out2);
}

#[test]
fn truecolor_and_xterm_sgr() {
    let mut f = session();
    let mut out: Vec<String> = Vec::new();
    f.process("\x1b[38;2;1;2;3mX\x1b[0m\x1b[38;5;196mY", &mut out);
    let row = &out[0];
    assert!(row.contains("color:#010203;"), "truecolor channels: {}", row);
    assert!(row.contains("color:#ff0000;"), "xterm 196 is intense red: {}", row);
}

#[test]
fn empty_line_is_an_empty_row() {
    let mut f = session();
    let mut out: Vec<String> = Vec::new();
    f.process("", &mut out);
    assert_eq!(vec!["<div></div>\n".to_string()], out);
    assert_eq!(1, f.num_rows());
}

#[test]
fn from_hex_channels() {
    assert_eq!(Color::Rgb { r: 0xcd, g: 0, b: 0 }, Color::from_hex("cd0000").unwrap());
    assert_eq!(Color::Rgb { r: 0, g: 0, b: 0xff }, Color::from_hex("ff").unwrap());
}

#[test]
fn charset_and_unknown_escapes_are_discarded() {
    let mut f = session();
    let mut out: Vec<String> = Vec::new();
    f.process("a\x1b(Bb\x1bXc", &mut out);
    assert_eq!(vec!["<div>abc</div>\n".to_string()], out);
}

#[test]
fn escape_at_end_of_input_is_dropped() {
    let mut f = session();
    let mut out: Vec<String> = Vec::new();
    f.process("ab\x1b", &mut out);
    assert_eq!(vec!["<div>ab</div>\n".to_string()], out);
}

#[test]
fn header_carries_configuration() {
    let f = A2hFilter::new(
        "my title",
        Color::from_hex("ffffff").unwrap(),
        Color::from_hex("000000").unwrap(),
        "12pt",
        Gamma::identity(),
    );
    let h = f.write_header();
    assert!(h.contains("<title>my title</title>"));
    assert!(h.contains("background-color:#000000;"));
    assert!(h.contains("color:#ffffff;"));
    assert!(h.contains("font-size:12pt;"));
    assert!(h.starts_with("\n<!DOCTYPE html>"));
    assert!(h.ends_with("<body>\n"));
}

#[test]
fn reset_method_clears_state() {
    let mut f = session();
    let mut out: Vec<String> = Vec::new();
    f.process("\x1b[31;1;4m", &mut out);
    f.reset();
    let mut out2: Vec<String> = Vec::new();
    f.process("plain", &mut out2);
    assert_eq!("<div>plain</div>\n", out2[0]);
}

#[test]
fn style_persists_across_lines() {
    let mut f = session();
    let mut out: Vec<String> = Vec::new();
    f.process("\x1b[31mred", &mut out);
    f.process("\x1b[1mbold red", &mut out);
    assert_eq!(2, out.len());
    assert!(
        out[1].contains("font-weight:bold;") && out[1].contains("color:#ff0000;"),
        "the selected index color persists and turns intense: {}",
        out[1]
    );
}
