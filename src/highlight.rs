//! The code-block highlighter: finds the fenced blocks of a reply, greys their
//! language tags, renders each body whose language a grammar resolves, splices
//! the results back by literal replacement and removes the fence markers.
use vstd::prelude::*;
use syntect::easy::HighlightLines;
use syntect::highlighting::{Theme, ThemeSet};
use syntect::parsing::{SyntaxReference, SyntaxSet};
use crate::grammar::{highlight_line, highlighter_for, Highlighter};
use crossterm::style::Stylize;
use crate::fence::{code_spans, find_code_spans, span_body, span_tag, SpanModel, lemma_spans_from_start, marker_at};
use crate::render::{fg_prefix, lemma_rendering_is_coloured, is_rendering_of, render_code, split_lines, tokens_model, token_text, lines_of, covers_lines, rendered_code, StyledToken};
use crate::text::{append_chars, chars_of, same_text, shares_no_char, lemma_replaced_inserts, lemma_replaced_keeps_free, contains, fence_marker, lemma_replaced_absent, lemma_stripped_marker_free, occurs_at, replace_chars, replaced, string_of, stripped};

verus! {

/// syntect's loaded grammars, carried through opaquely.
#[verifier::external_type_specification]
#[verifier::external_body]
pub struct ExSyntaxSet(SyntaxSet);

/// One syntect grammar, carried through opaquely.
#[verifier::external_type_specification]
#[verifier::external_body]
pub struct ExSyntaxReference(SyntaxReference);

/// One syntect colour theme, carried through opaquely.
#[verifier::external_type_specification]
#[verifier::external_body]
pub struct ExTheme(Theme);

/// syntect's loaded themes, carried through opaquely.
#[verifier::external_type_specification]
#[verifier::external_body]
pub struct ExThemeSet(ThemeSet);

/// syntect's line highlighter, whose parse state carries across lines.
#[verifier::external_type_specification]
#[verifier::external_body]
pub struct ExHighlightLines<'a>(HighlightLines<'a>);

/// The theme in which code is shown.
pub const THEME_NAME: &'static str = "base16-mocha.dark";

/// Relies on `BTreeMap::get` over `ThemeSet::themes`: the loaded theme of that name.
#[verifier::external_body]
fn theme_named<'a>(ts: &'a ThemeSet, name: &str) -> Option<&'a Theme> {
    ts.themes.get(name)
}

/// `ESC [ 38 ; 5 ; 7 m`: grey foreground.
pub open spec fn grey_on() -> Seq<char> {
    seq!['\x1b', '[', '3', '8', ';', '5', ';', '7', 'm']
}

/// `ESC [ 39 m`: default foreground.
pub open spec fn grey_off() -> Seq<char> {
    seq!['\x1b', '[', '3', '9', 'm']
}

/// `ESC [ m`: what a colour command prints while colour output is turned off.
pub open spec fn bare_csi() -> Seq<char> {
    seq!['\x1b', '[', 'm']
}

/// `styled` is `tag` shown in grey, or with empty escapes where colour is off,
/// or nothing at all where the console takes no escape sequences.
pub open spec fn is_grey_of(tag: Seq<char>, styled: Seq<char>) -> bool {
    ||| styled == grey_on() + tag + grey_off()
    ||| styled == bare_csi() + tag + bare_csi()
    ||| styled.len() == 0
}

/// Relies on crossterm's `Stylize::grey` and the `Display` of the styled text:
/// a grey foreground command, the text, a foreground reset; both commands print
/// as bare `ESC [ m` when the `NO_COLOR` variable turns colour off; and on a
/// Windows console without escape support nothing is printed at all.
#[verifier::external_body]
fn grey(s: &str) -> (r: String)
    ensures
        is_grey_of(s@, r@),
{
    s.grey().to_string()
}

/// The text from offset `from` on, with the tag of each block from the `k`-th
/// on replaced in place, at its own position, by its styled form.
pub open spec fn tags_from(t: Seq<char>, spans: Seq<SpanModel>, styled: Seq<Seq<char>>, k: int, from: int) -> Seq<char>
    decreases spans.len() - k,
{
    if k < spans.len() {
        t.subrange(from, spans[k].start + 3) + styled[k] + tags_from(t, spans, styled, k + 1, spans[k].tag_end)
    } else {
        t.subrange(from, t.len() as int)
    }
}

/// The text with every block's tag styled in place and nothing else changed.
pub open spec fn style_tags(t: Seq<char>, spans: Seq<SpanModel>, styled: Seq<Seq<char>>) -> Seq<char> {
    tags_from(t, spans, styled, 0, 0)
}

/// `m` after the bodies of the first `n` blocks have been replaced, in block
/// order: each body with a rendering, wherever it occurs, by that rendering.
/// Bodies are read from the text `t` as it was before any replacement.
pub open spec fn apply_bodies(
    m: Seq<char>,
    t: Seq<char>,
    spans: Seq<SpanModel>,
    renders: Seq<Option<Seq<char>>>,
    n: nat,
) -> Seq<char>
    decreases n,
{
    if n == 0 {
        m
    } else {
        let k = (n - 1) as int;
        let prev = apply_bodies(m, t, spans, renders, (n - 1) as nat);
        match renders[k] {
            Some(r) => replaced(prev, span_body(t, spans[k]), r),
            None => prev,
        }
    }
}

/// The highlighted form of `t`, given the styled tag and the rendering (or none)
/// of each of its blocks: tags styled in place, rendered bodies substituted
/// wherever their text occurs, fence markers removed.
pub open spec fn highlighted(t: Seq<char>, styled: Seq<Seq<char>>, renders: Seq<Option<Seq<char>>>) -> Seq<char> {
    let sp = code_spans(t);
    stripped(apply_bodies(style_tags(t, sp, styled), t, sp, renders, sp.len()))
}

/// `styled` and `renders` fit the blocks of `t`: one greyed tag per block, and
/// for each block either no rendering or a rendering of its body.
pub open spec fn fits_blocks(t: Seq<char>, styled: Seq<Seq<char>>, renders: Seq<Option<Seq<char>>>) -> bool {
    let spans = code_spans(t);
    &&& styled.len() == spans.len()
    &&& renders.len() == spans.len()
    &&& forall|k: int| 0 <= k < spans.len() ==> is_grey_of(span_tag(t, spans[k]), #[trigger] styled[k])
    &&& forall|k: int| 0 <= k < spans.len() ==> (#[trigger] renders[k] matches Some(x) ==> is_rendering_of(span_body(t, spans[k]), x))
}

/// `out` is a highlighting of `t`, for some grammar lookups and colour setting.
pub open spec fn is_highlighting_of(t: Seq<char>, out: Seq<char>) -> bool {
    exists|styled: Seq<Seq<char>>, renders: Seq<Option<Seq<char>>>|
        fits_blocks(t, styled, renders) && out == #[trigger] highlighted(t, styled, renders)
}

/// The view of each optional rendering.
pub open spec fn renders_model(v: Seq<Option<String>>) -> Seq<Option<Seq<char>>> {
    v.map_values(|o: Option<String>| match o { Some(s) => Some(s@), None => None })
}

/// The view of each string.
pub open spec fn strings_model(v: Seq<String>) -> Seq<Seq<char>> {
    v.map_values(|s: String| s@)
}

fn sub_chars(t: &Vec<char>, a: usize, b: usize) -> (r: Vec<char>)
    requires
        a <= b <= t@.len(),
    ensures
        r@ == t@.subrange(a as int, b as int),
{
    let mut out: Vec<char> = Vec::new();
    let mut i: usize = a;
    while i < b
        invariant
            a <= i <= b <= t@.len(),
            out@ == t@.subrange(a as int, i as int),
        decreases b - i,
    {
        out.push(t[i]);
        assert(out@ =~= t@.subrange(a as int, i + 1));
        i = i + 1;
    }
    out
}

/// Splices the blocks of `text` back: each block's tag is replaced in place by
/// `styled_tags[k]`; then each body with a rendering `renders[k]`, wherever its
/// text occurs, by that rendering; then every fence marker is removed.
pub fn splice_blocks(text: &String, styled_tags: &Vec<String>, renders: &Vec<Option<String>>) -> (r: String)
    requires
        styled_tags@.len() == code_spans(text@).len(),
        renders@.len() == code_spans(text@).len(),
    ensures
        r@ == highlighted(text@, strings_model(styled_tags@), renders_model(renders@)),
{
    let t = chars_of(text.as_str());
    let spans = find_code_spans(&t);
    let ghost sp = code_spans(t@);
    let ghost st = strings_model(styled_tags@);
    let ghost rd = renders_model(renders@);
    assert(spans@.len() == sp.len()) by {
        assert(spans@.map_values(|s: crate::fence::CodeSpan| s@).len() == spans@.len());
    }
    let mut m: Vec<char> = Vec::new();
    let mut from: usize = 0;
    let mut k: usize = 0;
    while k < spans.len()
        invariant
            k <= spans@.len() == sp.len() == styled_tags@.len() == renders@.len(),
            t@ == text@,
            sp == code_spans(t@),
            st == strings_model(styled_tags@),
            spans@.map_values(|s: crate::fence::CodeSpan| s@) == sp,
            from <= t@.len(),
            k == 0 ==> from == 0,
            k > 0 ==> from == sp[k - 1].tag_end,
            m@ + tags_from(t@, sp, st, k as int, from as int) == style_tags(t@, sp, st),
        decreases spans.len() - k,
    {
        let s = spans[k];
        proof {
            assert(s@ == sp[k as int]);
            crate::fence::lemma_code_span_in_text(t@, k as int);
            if k > 0 {
                crate::fence::lemma_code_span_in_text(t@, k - 1);
                crate::fence::lemma_code_spans_ordered(t@, k - 1);
            }
        }
        let before = sub_chars(&t, from, s.start + 3);
        let styled = chars_of(styled_tags[k].as_str());
        assert(styled@ == st[k as int]);
        let ghost old_m = m@;
        append_chars(&mut m, &before);
        append_chars(&mut m, &styled);
        assert(m@ + tags_from(t@, sp, st, k + 1, s.tag_end as int) =~= old_m + tags_from(t@, sp, st, k as int, from as int));
        from = s.tag_end;
        k = k + 1;
    }
    let rest = sub_chars(&t, from, t.len());
    append_chars(&mut m, &rest);
    assert(m@ == style_tags(t@, sp, st));
    let ghost m0 = m@;
    let mut k: usize = 0;
    while k < spans.len()
        invariant
            k <= spans@.len() == sp.len() == renders@.len(),
            t@ == text@,
            sp == code_spans(t@),
            rd == renders_model(renders@),
            spans@.map_values(|s: crate::fence::CodeSpan| s@) == sp,
            m@ == apply_bodies(m0, t@, sp, rd, k as nat),
        decreases spans.len() - k,
    {
        let s = spans[k];
        proof {
            assert(s@ == sp[k as int]);
            crate::fence::lemma_code_span_in_text(t@, k as int);
        }
        match &renders[k] {
            Some(r) => {
                let body = sub_chars(&t, s.body_start, s.body_end);
                let rc = chars_of(r.as_str());
                m = replace_chars(&m, &body, &rc);
            },
            None => {},
        }
        k = k + 1;
    }
    let marker = vec!['`', '`', '`'];
    assert(marker@ =~= fence_marker());
    let nothing: Vec<char> = Vec::new();
    let out = replace_chars(&m, &marker, &nothing);
    string_of(&out)
}

/// The grammar token tried for a language name that no grammar knows by itself.
pub open spec fn alias_of(tag: Seq<char>) -> Option<Seq<char>> {
    if tag == "rust"@ { Some("rs"@) }
    else if tag == "javascript"@ { Some("jsx"@) }
    else if tag == "python"@ { Some("py"@) }
    else if tag == "typescript"@ { Some("tsx"@) }
    else if tag == "c++"@ { Some("cpp"@) }
    else if tag == "c#"@ { Some("cs"@) }
    else if tag == "kotlin"@ { Some("kt"@) }
    else if tag == "ruby"@ { Some("erb"@) }
    else if tag == "bash"@ { Some("sh"@) }
    else if tag == "shell"@ { Some("sh"@) }
    else if tag == "sh"@ { Some("sh"@) }
    else if tag == "powershell"@ { Some("ps1"@) }
    else if tag == "elixir"@ { Some("ex"@) }
    else if tag == "erlang"@ { Some("erl"@) }
    else if tag == "haskell"@ { Some("hs"@) }
    else if tag == "webassembly"@ { Some("wasm"@) }
    else if tag == "assembly"@ { Some("asm"@) }
    else if tag == "markdown"@ { Some("md"@) }
    else { None }
}

/// The grammar token to try for a language name that no grammar knows by itself.
pub fn language_alias(tag: &str) -> (r: Option<&'static str>)
    ensures
        match r {
            Some(a) => alias_of(tag@) == Some(a@),
            None => alias_of(tag@) is None,
        },
{
    let t = chars_of(tag);
    if same_text(&t, "rust") { Some("rs") }
    else if same_text(&t, "javascript") { Some("jsx") }
    else if same_text(&t, "python") { Some("py") }
    else if same_text(&t, "typescript") { Some("tsx") }
    else if same_text(&t, "c++") { Some("cpp") }
    else if same_text(&t, "c#") { Some("cs") }
    else if same_text(&t, "kotlin") { Some("kt") }
    else if same_text(&t, "ruby") { Some("erb") }
    else if same_text(&t, "bash") { Some("sh") }
    else if same_text(&t, "shell") { Some("sh") }
    else if same_text(&t, "sh") { Some("sh") }
    else if same_text(&t, "powershell") { Some("ps1") }
    else if same_text(&t, "elixir") { Some("ex") }
    else if same_text(&t, "erlang") { Some("erl") }
    else if same_text(&t, "haskell") { Some("hs") }
    else if same_text(&t, "webassembly") { Some("wasm") }
    else if same_text(&t, "assembly") { Some("asm") }
    else if same_text(&t, "markdown") { Some("md") }
    else { None }
}

/// A highlighter for a language tag: its grammar is looked up by the tag
/// itself, then, on a miss, once more by its alias.
fn resolve_highlighter<'a>(ps: &'a SyntaxSet, theme: &'a Theme, tag: &str) -> Option<Highlighter<'a>> {
    match highlighter_for(ps, tag, theme) {
        Some(h) => Some(h),
        None => match language_alias(tag) {
            Some(a) => highlighter_for(ps, a, theme),
            None => None,
        },
    }
}

/// Highlights a body line by line with one highlighter, so that lexical state
/// carries across lines, and renders the result; `None` where no grammar
/// resolves the tag or the grammar fails on a line.
fn render_block(ps: &SyntaxSet, theme: &Theme, tag: &str, body: &Vec<char>) -> (r: Option<String>)
    ensures
        r matches Some(x) ==> is_rendering_of(body@, x@),
{
    let mut h = match resolve_highlighter(ps, theme, tag) {
        Some(h) => h,
        None => return None,
    };
    let lines = split_lines(body);
    let ghost ls = lines_of(body@);
    assert(lines@.len() == ls.len()) by {
        assert(lines@.map_values(|l: Vec<char>| l@).len() == lines@.len());
    }
    let mut toks: Vec<Vec<StyledToken>> = Vec::new();
    let mut i: usize = 0;
    while i < lines.len()
        invariant
            i <= lines@.len() == ls.len(),
            ls == lines_of(body@),
            lines@.map_values(|l: Vec<char>| l@) == ls,
            toks@.len() == i,
            forall|l: int| 0 <= l < i ==> token_text(tokens_model(#[trigger] toks@[l]@)) == ls[l],
        decreases lines.len() - i,
    {
        let line = string_of(&lines[i]);
        assert(line@ == ls[i as int]) by {
            assert(lines@.map_values(|l: Vec<char>| l@)[i as int] == lines@[i as int]@);
        }
        match highlight_line(&mut h, line.as_str()) {
            Some(v) => toks.push(v),
            None => return None,
        }
        i = i + 1;
    }
    let out = render_code(&toks);
    let ghost tokens = toks@.map_values(|l: Vec<StyledToken>| tokens_model(l@));
    assert(covers_lines(body@, tokens));
    let r = string_of(&out);
    assert(covers_lines(body@, tokens) && r@ == rendered_code(tokens));
    Some(r)
}

/// Highlights the fenced code blocks of a reply for a 24-bit colour terminal:
/// tags are greyed in place, bodies whose language resolves are rendered in the named
/// theme, and all fence markers are removed. Text without fence markers comes
/// back unchanged, the result never holds a fence marker, and a text with a
/// block comes back with at least one escape sequence.
pub fn highlight_message(message: &String, ps: &SyntaxSet, ts: &ThemeSet) -> (r: String)
    ensures
        is_highlighting_of(message@, r@),
        !contains(message@, fence_marker()) ==> r@ == message@,
        !contains(r@, fence_marker()),
{
    let t = chars_of(message.as_str());
    let spans = find_code_spans(&t);
    let ghost sp = code_spans(t@);
    assert(spans@.len() == sp.len()) by {
        assert(spans@.map_values(|s: crate::fence::CodeSpan| s@).len() == spans@.len());
    }
    let theme = theme_named(ts, THEME_NAME);
    let mut styled: Vec<String> = Vec::new();
    let mut renders: Vec<Option<String>> = Vec::new();
    let mut k: usize = 0;
    while k < spans.len()
        invariant
            k <= spans@.len() == sp.len(),
            t@ == message@,
            sp == code_spans(t@),
            spans@.map_values(|s: crate::fence::CodeSpan| s@) == sp,
            styled@.len() == k,
            renders@.len() == k,
            forall|j: int| 0 <= j < k ==> is_grey_of(span_tag(t@, sp[j]), #[trigger] styled@[j]@),
            forall|j: int| 0 <= j < k ==> (#[trigger] renders@[j] matches Some(x) ==> is_rendering_of(span_body(t@, sp[j]), x@)),
        decreases spans.len() - k,
    {
        let s = spans[k];
        proof {
            assert(s@ == sp[k as int]);
            crate::fence::lemma_code_span_in_text(t@, k as int);
        }
        let tag = string_of(&sub_chars(&t, s.start + 3, s.tag_end));
        styled.push(grey(tag.as_str()));
        let body = sub_chars(&t, s.body_start, s.body_end);
        let render = match theme {
            Some(th) => render_block(ps, th, tag.as_str(), &body),
            None => None,
        };
        renders.push(render);
        k = k + 1;
    }
    let r = splice_blocks(message, &styled, &renders);
    proof {
        let st = strings_model(styled@);
        let rd = renders_model(renders@);
        assert forall|j: int| 0 <= j < sp.len() implies is_grey_of(span_tag(t@, sp[j]), #[trigger] st[j]) by {
            assert(st[j] == styled@[j]@);
        }
        assert forall|j: int| 0 <= j < sp.len() implies (#[trigger] rd[j] matches Some(x) ==> is_rendering_of(span_body(t@, sp[j]), x)) by {
            assert(renders@[j] matches Some(x) ==> is_rendering_of(span_body(t@, sp[j]), x@));
        }
        assert(fits_blocks(message@, st, rd));
        law_no_fence_remains(message@, st, rd);
        if !contains(message@, fence_marker()) {
            law_plain_text_unchanged(message@, st, rd);
        }
    }
    r
}

/// A text without fence markers has no blocks.
pub proof fn lemma_no_marker_no_spans(t: Seq<char>)
    requires
        !contains(t, fence_marker()),
    ensures
        code_spans(t).len() == 0,
{
    if code_spans(t).len() > 0 {
        lemma_spans_from_start(t, 0);
        let i = code_spans(t)[0].start;
        assert(marker_at(t, i));
        assert(t.subrange(i, i + 3) =~= fence_marker());
        assert(occurs_at(t, fence_marker(), i));
    }
}

/// Text without fence markers is returned unchanged.
pub proof fn law_plain_text_unchanged(t: Seq<char>, styled: Seq<Seq<char>>, renders: Seq<Option<Seq<char>>>)
    requires
        !contains(t, fence_marker()),
    ensures
        highlighted(t, styled, renders) == t,
{
    lemma_no_marker_no_spans(t);
    assert(style_tags(t, code_spans(t), styled) == t.subrange(0, t.len() as int));
    assert(t.subrange(0, t.len() as int) =~= t);
    lemma_replaced_absent(t, fence_marker(), Seq::empty());
}

/// No fence marker is left in highlighted text.
pub proof fn law_no_fence_remains(t: Seq<char>, styled: Seq<Seq<char>>, renders: Seq<Option<Seq<char>>>)
    ensures
        !contains(highlighted(t, styled, renders), fence_marker()),
{
    let sp = code_spans(t);
    lemma_stripped_marker_free(apply_bodies(style_tags(t, sp, styled), t, sp, renders, sp.len()));
}

/// Highlighting its own output again changes nothing: no blocks are left to
/// find and no markers to remove, whatever grammars and colours the second run has.
pub proof fn law_rerun_is_noop(
    t: Seq<char>,
    styled: Seq<Seq<char>>,
    renders: Seq<Option<Seq<char>>>,
    styled2: Seq<Seq<char>>,
    renders2: Seq<Option<Seq<char>>>,
)
    ensures
        code_spans(highlighted(t, styled, renders)).len() == 0,
        highlighted(highlighted(t, styled, renders), styled2, renders2) == highlighted(t, styled, renders),
{
    let h = highlighted(t, styled, renders);
    law_no_fence_remains(t, styled, renders);
    lemma_no_marker_no_spans(h);
    law_plain_text_unchanged(h, styled2, renders2);
}

proof fn lemma_unrendered_bodies(
    m: Seq<char>,
    t: Seq<char>,
    spans: Seq<SpanModel>,
    renders: Seq<Option<Seq<char>>>,
    n: nat,
)
    requires
        n <= renders.len(),
        forall|k: int| 0 <= k < n ==> #[trigger] renders[k] is None,
    ensures
        apply_bodies(m, t, spans, renders, n) == m,
    decreases n,
{
    if n > 0 {
        lemma_unrendered_bodies(m, t, spans, renders, (n - 1) as nat);
        assert(renders[n - 1] is None);
    }
}

/// Blocks whose language did not resolve keep their bodies as they are: only
/// their tags are styled, in place, and their fence markers removed.
pub proof fn law_unresolved_bodies_kept(t: Seq<char>, styled: Seq<Seq<char>>, renders: Seq<Option<Seq<char>>>)
    requires
        renders.len() == code_spans(t).len(),
        forall|k: int| 0 <= k < renders.len() ==> #[trigger] renders[k] is None,
    ensures
        highlighted(t, styled, renders) == stripped(style_tags(t, code_spans(t), styled)),
{
    let sp = code_spans(t);
    lemma_unrendered_bodies(style_tags(t, sp, styled), t, sp, renders, sp.len());
}

proof fn lemma_contains_after(p: Seq<char>, s: Seq<char>, w: Seq<char>)
    requires
        contains(s, w),
    ensures
        contains(p + s, w),
{
    let i = choose|i: int| occurs_at(s, w, i);
    assert((p + s).subrange(p.len() + i, p.len() + i + w.len()) =~= s.subrange(i, i + w.len()));
    assert(occurs_at(p + s, w, p.len() + i));
}

/// Styling tags in place leaves every block's body where it was: from the
/// `i`-th block on, each later body still occurs.
proof fn lemma_tags_keep_body(t: Seq<char>, styled: Seq<Seq<char>>, i: int, from: int, k: int)
    requires
        0 <= i <= k < code_spans(t).len(),
        0 <= from <= code_spans(t)[i].start + 3,
    ensures
        contains(tags_from(t, code_spans(t), styled, i, from), span_body(t, code_spans(t)[k])),
    decreases k - i,
{
    let sp = code_spans(t);
    crate::fence::lemma_code_span_in_text(t, i);
    let s = sp[i];
    let head = t.subrange(from, s.start + 3) + styled[i];
    let rest = tags_from(t, sp, styled, i + 1, s.tag_end);
    assert(tags_from(t, sp, styled, i, from) == head + rest);
    if i == k {
        let bound = if i + 1 < sp.len() { sp[i + 1].start + 3 } else { t.len() as int };
        if i + 1 < sp.len() {
            crate::fence::lemma_code_spans_ordered(t, i);
            crate::fence::lemma_code_span_in_text(t, i + 1);
        }
        let piece = t.subrange(s.tag_end, bound);
        let off = s.body_start - s.tag_end;
        let body = span_body(t, s);
        if i + 1 < sp.len() {
            let tail = styled[i + 1] + tags_from(t, sp, styled, i + 2, sp[i + 1].tag_end);
            assert(rest =~= piece + tail);
            assert(rest.subrange(off, off + body.len()) =~= piece.subrange(off, off + body.len()));
        } else {
            assert(rest == piece);
        }
        assert(piece.subrange(off, off + body.len()) =~= body);
        assert(rest.subrange(off, off + body.len()) =~= body);
        assert(occurs_at(rest, body, off));
        lemma_contains_after(head, rest, body);
    } else {
        crate::fence::lemma_code_spans_ordered(t, i);
        crate::fence::lemma_code_span_in_text(t, i + 1);
        lemma_tags_keep_body(t, styled, i + 1, s.tag_end, k);
        lemma_contains_after(head, rest, span_body(t, sp[k]));
    }
}

/// Replacing a pattern by text that holds `w` keeps `w` in a text that held it.
proof fn lemma_replaced_keeps_inserted(s: Seq<char>, pat: Seq<char>, rep: Seq<char>, w: Seq<char>)
    requires
        pat.len() > 0,
        contains(s, w),
        contains(rep, w),
    ensures
        contains(replaced(s, pat, rep), w),
{
    if contains(s, pat) {
        lemma_replaced_inserts(s, pat, rep, w);
    } else {
        lemma_replaced_absent(s, pat, rep);
    }
}

/// After the first `n` body steps, either a 24-bit escape is in the text, or
/// no step so far has changed anything because none had a rendering of a
/// non-empty body.
proof fn lemma_bodies_coloured(t: Seq<char>, styled: Seq<Seq<char>>, renders: Seq<Option<Seq<char>>>, n: nat)
    requires
        fits_blocks(t, styled, renders),
        n <= code_spans(t).len(),
    ensures
        ({
            let sp = code_spans(t);
            let m0 = style_tags(t, sp, styled);
            let m = apply_bodies(m0, t, sp, renders, n);
            contains(m, fg_prefix()) || (m == m0 && forall|j: int| 0 <= j < n ==> (#[trigger] renders[j] is None
                || span_body(t, sp[j]).len() == 0))
        }),
    decreases n,
{
    if n > 0 {
        let sp = code_spans(t);
        let m0 = style_tags(t, sp, styled);
        let k = (n - 1) as int;
        lemma_bodies_coloured(t, styled, renders, (n - 1) as nat);
        let prev = apply_bodies(m0, t, sp, renders, (n - 1) as nat);
        let body = span_body(t, sp[k]);
        match renders[k] {
            Some(x) => {
                if body.len() > 0 {
                    assert(is_rendering_of(body, x));
                    lemma_rendering_is_coloured(body, x);
                    if contains(prev, fg_prefix()) {
                        lemma_replaced_keeps_inserted(prev, body, x, fg_prefix());
                    } else {
                        crate::fence::lemma_code_span_in_text(t, 0);
                        lemma_tags_keep_body(t, styled, 0, 0, k);
                        lemma_replaced_inserts(prev, body, x, fg_prefix());
                    }
                }
            },
            None => {},
        }
    }
}

/// A block whose language resolved and whose body is not empty brings a 24-bit
/// foreground escape into the result: tags are styled in place, so the first
/// such body is still found when its turn comes, and later substitutions only
/// put in renderings that carry such escapes themselves.
pub proof fn law_rendered_block_is_coloured(
    t: Seq<char>,
    styled: Seq<Seq<char>>,
    renders: Seq<Option<Seq<char>>>,
    k: int,
)
    requires
        fits_blocks(t, styled, renders),
        0 <= k < code_spans(t).len(),
        renders[k] is Some,
        span_body(t, code_spans(t)[k]).len() > 0,
    ensures
        contains(highlighted(t, styled, renders), fg_prefix()),
        !contains(highlighted(t, styled, renders), fence_marker()),
{
    let sp = code_spans(t);
    let m = apply_bodies(style_tags(t, sp, styled), t, sp, renders, sp.len());
    lemma_bodies_coloured(t, styled, renders, sp.len());
    assert(!(renders[k] is None || span_body(t, sp[k]).len() == 0));
    assert(contains(m, fg_prefix()));
    assert(shares_no_char(fg_prefix(), fence_marker()));
    lemma_replaced_keeps_free(m, fence_marker(), Seq::empty(), fg_prefix());
    law_no_fence_remains(t, styled, renders);
}

} // verus!
