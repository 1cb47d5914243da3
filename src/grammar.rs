//! A syntect line highlighter kept together with the grammar set its grammar
//! came from, so that every line is highlighted against that same set.
use vstd::prelude::*;
use syntect::easy::HighlightLines;
use syntect::highlighting::Theme;
use syntect::parsing::SyntaxSet;
use crate::render::{token_text, tokens_model, Rgba, StyledToken};

verus! {

/// A line highlighter and the set its grammar belongs to. Only this module
/// builds one, and only from a grammar found in that set.
pub struct Highlighter<'a> {
    set: &'a SyntaxSet,
    lines: HighlightLines<'a>,
}

/// Relies on `SyntaxSet::find_syntax_by_extension` and `HighlightLines::new`:
/// a fresh highlighter for the grammar that `ps` registers for the extension
/// (compared without regard to ASCII case), if it has one; which extensions it
/// knows depends on the loaded set.
#[verifier::external_body]
pub(crate) fn highlighter_for<'a>(ps: &'a SyntaxSet, extension: &str, theme: &'a Theme) -> Option<Highlighter<'a>> {
    match ps.find_syntax_by_extension(extension) {
        Some(syntax) => Some(Highlighter { set: ps, lines: HighlightLines::new(syntax, theme) }),
        None => None,
    }
}

/// Relies on `HighlightLines::highlight_line`, given the set the grammar came
/// from: the styled pieces of one line, which together make up the line (its
/// documentation says so); the parse state carries over to the next line. A
/// grammar error gives `None`.
#[verifier::external_body]
pub(crate) fn highlight_line(h: &mut Highlighter, line: &str) -> (r: Option<Vec<StyledToken>>)
    ensures
        r matches Some(v) ==> token_text(tokens_model(v@)) == line@,
{
    match h.lines.highlight_line(line, h.set) {
        Ok(v) => Some(v.iter().map(|(s, t)| StyledToken {
            foreground: Rgba { r: s.foreground.r, g: s.foreground.g, b: s.foreground.b, a: s.foreground.a },
            background: Rgba { r: s.background.r, g: s.background.g, b: s.background.b, a: s.background.a },
            text: t.to_string(),
        }).collect()),
        Err(_) => None,
    }
}

} // verus!
