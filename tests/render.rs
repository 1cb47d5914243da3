use gpt_cli::render::{escape_line, render_code, split_lines, Rgba, StyledToken};
use syntect::easy::HighlightLines;
use syntect::highlighting::{Color, FontStyle, Style, ThemeSet};
use syntect::parsing::SyntaxSet;
use syntect::util::as_24_bit_terminal_escaped;

fn rgba(c: Color) -> Rgba {
    Rgba { r: c.r, g: c.g, b: c.b, a: c.a }
}

fn to_string(v: Vec<char>) -> String {
    v.into_iter().collect()
}

#[test]
fn escape_matches_syntect() {
    let ps = SyntaxSet::load_defaults_newlines();
    let ts = ThemeSet::load_defaults();
    let syntax = ps.find_syntax_by_extension("rs").unwrap();
    let mut h = HighlightLines::new(syntax, &ts.themes["base16-mocha.dark"]);
    for line in ["fn main() {\n", "    let s = \"x\"; // c\n", "}"] {
        let ranges = h.highlight_line(line, &ps).unwrap();
        let tokens: Vec<StyledToken> = ranges
            .iter()
            .map(|(s, t)| StyledToken { foreground: rgba(s.foreground), background: rgba(s.background), text: t.to_string() })
            .collect();
        assert_eq!(to_string(escape_line(&tokens)), as_24_bit_terminal_escaped(&ranges, false));
    }
}

#[test]
fn translucent_foreground_is_blended() {
    let fg = Color { r: 255, g: 0, b: 0, a: 128 };
    let bg = Color { r: 0, g: 0, b: 255, a: 255 };
    let tokens = vec![StyledToken { foreground: rgba(fg), background: rgba(bg), text: "x".to_string() }];
    let got = to_string(escape_line(&tokens));
    assert_eq!(got, "\x1b[38;2;128;0;127mx");
    let style = Style { foreground: fg, background: bg, font_style: FontStyle::empty() };
    assert_eq!(got, as_24_bit_terminal_escaped(&[(style, "x")], false));
}

#[test]
fn render_joins_lines_with_resets() {
    let c = Rgba { r: 1, g: 22, b: 133, a: 255 };
    let lines = vec![
        vec![StyledToken { foreground: c, background: c, text: "a\n".to_string() }],
        vec![],
    ];
    assert_eq!(to_string(render_code(&lines)), "\x1b[38;2;1;22;133ma\n\x1b[0m\x1b[0m\x1b[0m");
    assert_eq!(to_string(render_code(&vec![])), "");
}

#[test]
fn lines_keep_endings() {
    let s: Vec<char> = "a\nbc\r\n\nd".chars().collect();
    let got: Vec<String> = split_lines(&s).into_iter().map(to_string).collect();
    assert_eq!(got, vec!["a\n", "bc\r\n", "\n", "d"]);
    assert!(split_lines(&vec![]).is_empty());
    let s: Vec<char> = "x\n".chars().collect();
    assert_eq!(split_lines(&s).len(), 1);
}
