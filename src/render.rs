//! Turning highlighted tokens into 24-bit terminal escapes, and splitting a
//! body into the lines that are highlighted one after another.
use vstd::prelude::*;
use crate::text::{append_chars, chars_of};

verus! {

/// A colour with transparency, as a highlighting theme gives it.
#[derive(Clone, Copy, Debug, PartialEq, Eq)]
pub struct Rgba {
    pub r: u8,
    pub g: u8,
    pub b: u8,
    pub a: u8,
}

/// One highlighted piece of a line: its colours and its text.
#[derive(Clone, Debug)]
pub struct StyledToken {
    pub foreground: Rgba,
    pub background: Rgba,
    pub text: String,
}

/// The mathematical form of a [`StyledToken`].
pub struct TokenModel {
    pub foreground: Rgba,
    pub background: Rgba,
    pub text: Seq<char>,
}

impl View for StyledToken {
    type V = TokenModel;

    open spec fn view(&self) -> TokenModel {
        TokenModel { foreground: self.foreground, background: self.background, text: self.text@ }
    }
}

/// The tokens of one line, as models.
pub open spec fn tokens_model(v: Seq<StyledToken>) -> Seq<TokenModel> {
    v.map_values(|t: StyledToken| t@)
}

/// Resets every colour and attribute: `ESC [ 0 m`.
pub open spec fn reset_seq() -> Seq<char> {
    seq!['\x1b', '[', '0', 'm']
}

/// One channel of a translucent foreground laid over the background.
pub open spec fn blend_channel(f: u8, b: u8, a: u8) -> int {
    (f * a + b * (255 - a)) / 255
}

/// The foreground colour as shown over the background: opaque colours as they
/// are, others mixed in proportion to their alpha.
pub open spec fn blended(fg: Rgba, bg: Rgba) -> (int, int, int) {
    if fg.a == 255 {
        (fg.r as int, fg.g as int, fg.b as int)
    } else {
        (blend_channel(fg.r, bg.r, fg.a), blend_channel(fg.g, bg.g, fg.a), blend_channel(fg.b, bg.b, fg.a))
    }
}

pub open spec fn digit_char(d: int) -> char {
    if d == 0 { '0' } else if d == 1 { '1' } else if d == 2 { '2' } else if d == 3 { '3' }
    else if d == 4 { '4' } else if d == 5 { '5' } else if d == 6 { '6' } else if d == 7 { '7' }
    else if d == 8 { '8' } else { '9' }
}

/// The decimal digits of `n`, without leading zeros.
pub open spec fn decimal(n: nat) -> Seq<char>
    decreases n,
{
    if n < 10 {
        seq![digit_char(n as int)]
    } else {
        decimal(n / 10) + seq![digit_char((n % 10) as int)]
    }
}

/// `ESC [ 38 ; 2 ;`: the start of a 24-bit foreground colour.
pub open spec fn fg_prefix() -> Seq<char> {
    seq!['\x1b', '[', '3', '8', ';', '2', ';']
}

/// `ESC [ 38 ; 2 ; r ; g ; b m`: set the foreground to a 24-bit colour.
pub open spec fn fg_escape(c: (int, int, int)) -> Seq<char> {
    fg_prefix() + decimal(c.0 as nat) + seq![';'] + decimal(c.1 as nat)
        + seq![';'] + decimal(c.2 as nat) + seq!['m']
}

/// A line of tokens, each preceded by the escape of its blended foreground.
pub open spec fn escaped_line(ts: Seq<TokenModel>) -> Seq<char>
    decreases ts.len(),
{
    if ts.len() == 0 {
        Seq::empty()
    } else {
        let t = ts.last();
        escaped_line(ts.drop_last()) + fg_escape(blended(t.foreground, t.background)) + t.text
    }
}

/// The text that a line of tokens covers.
pub open spec fn token_text(ts: Seq<TokenModel>) -> Seq<char>
    decreases ts.len(),
{
    if ts.len() == 0 {
        Seq::empty()
    } else {
        token_text(ts.drop_last()) + ts.last().text
    }
}

/// A rendered line: its escaped tokens and a reset.
pub open spec fn rendered_line(ts: Seq<TokenModel>) -> Seq<char> {
    escaped_line(ts) + reset_seq()
}

/// The rendered lines, joined with a reset between each two.
pub open spec fn rendered_code(ls: Seq<Seq<TokenModel>>) -> Seq<char>
    decreases ls.len(),
{
    if ls.len() == 0 {
        Seq::empty()
    } else if ls.len() == 1 {
        rendered_line(ls[0])
    } else {
        rendered_code(ls.drop_last()) + reset_seq() + rendered_line(ls.last())
    }
}

/// Where the line that starts at `p` ends: just after its first `\n`, or at the end.
pub open spec fn line_end(s: Seq<char>, p: int) -> int
    decreases s.len() - p,
{
    if 0 <= p < s.len() {
        if s[p] == '\n' {
            p + 1
        } else {
            line_end(s, p + 1)
        }
    } else {
        s.len() as int
    }
}

/// The lines of `s` from offset `p`, each with its line ending.
pub open spec fn lines_from(s: Seq<char>, p: int) -> Seq<Seq<char>>
    decreases s.len() - p,
{
    if 0 <= p < s.len() && p < line_end(s, p) <= s.len() {
        seq![s.subrange(p, line_end(s, p))] + lines_from(s, line_end(s, p))
    } else {
        Seq::empty()
    }
}

/// The lines of `s`, each with its line ending; an empty text has none.
pub open spec fn lines_of(s: Seq<char>) -> Seq<Seq<char>> {
    lines_from(s, 0)
}

/// `tokens` is a highlighting of `body`: one token list per line, covering it.
pub open spec fn covers_lines(body: Seq<char>, tokens: Seq<Seq<TokenModel>>) -> bool {
    &&& tokens.len() == lines_of(body).len()
    &&& forall|l: int| 0 <= l < tokens.len() ==> token_text(#[trigger] tokens[l]) == lines_of(body)[l]
}

/// `out` is what rendering some highlighting of `body` gives.
pub open spec fn is_rendering_of(body: Seq<char>, out: Seq<char>) -> bool {
    exists|tokens: Seq<Seq<TokenModel>>| covers_lines(body, tokens) && out == rendered_code(tokens)
}

proof fn lemma_line_end_bounds(s: Seq<char>, p: int)
    requires
        0 <= p < s.len(),
    ensures
        p < line_end(s, p) <= s.len(),
    decreases s.len() - p,
{
    if s[p] != '\n' {
        if p + 1 < s.len() {
            lemma_line_end_bounds(s, p + 1);
        } else {
            assert(line_end(s, p + 1) == s.len());
        }
    }
}

fn digit_exec(d: u8) -> (c: char)
    requires
        d < 10,
    ensures
        c == digit_char(d as int),
{
    match d {
        0 => '0',
        1 => '1',
        2 => '2',
        3 => '3',
        4 => '4',
        5 => '5',
        6 => '6',
        7 => '7',
        8 => '8',
        _ => '9',
    }
}

fn push_decimal(out: &mut Vec<char>, n: u8)
    ensures
        final(out)@ == old(out)@ + decimal(n as nat),
{
    if n >= 100 {
        out.push(digit_exec(n / 100));
        out.push(digit_exec((n / 10) % 10));
        out.push(digit_exec(n % 10));
        assert(decimal(n as nat) =~= seq![digit_char((n / 100) as int), digit_char(((n / 10) % 10) as int), digit_char((n % 10) as int)]) by {
            assert((n / 10) / 10 == n / 100);
            assert(decimal((n / 100) as nat) == seq![digit_char((n / 100) as int)]);
            assert(decimal((n / 10) as nat) == decimal((n / 100) as nat) + seq![digit_char(((n / 10) % 10) as int)]);
        }
    } else if n >= 10 {
        out.push(digit_exec(n / 10));
        out.push(digit_exec(n % 10));
        assert(decimal((n / 10) as nat) == seq![digit_char((n / 10) as int)]);
        assert(decimal(n as nat) =~= seq![digit_char((n / 10) as int), digit_char((n % 10) as int)]);
    } else {
        out.push(digit_exec(n));
    }
}

fn blend_channel_exec(f: u8, b: u8, a: u8) -> (r: u8)
    ensures
        r as int == blend_channel(f, b, a),
{
    proof {
        let (fi, bi, ai) = (f as int, b as int, a as int);
        assert(fi * ai <= 255 * ai) by (nonlinear_arith)
            requires 0 <= fi <= 255, 0 <= ai <= 255;
        assert(bi * (255 - ai) <= 255 * (255 - ai)) by (nonlinear_arith)
            requires 0 <= bi <= 255, 0 <= ai <= 255;
        assert(0 <= fi * ai && 0 <= bi * (255 - ai)) by (nonlinear_arith)
            requires 0 <= fi, 0 <= bi, 0 <= ai <= 255;
    }
    let x: u32 = f as u32 * a as u32 + b as u32 * (255 - a as u32);
    (x / 255) as u8
}

fn blended_exec(fg: Rgba, bg: Rgba) -> (c: (u8, u8, u8))
    ensures
        (c.0 as int, c.1 as int, c.2 as int) == blended(fg, bg),
{
    if fg.a == 255 {
        (fg.r, fg.g, fg.b)
    } else {
        (blend_channel_exec(fg.r, bg.r, fg.a), blend_channel_exec(fg.g, bg.g, fg.a), blend_channel_exec(fg.b, bg.b, fg.a))
    }
}

fn push_fg_escape(out: &mut Vec<char>, c: (u8, u8, u8))
    ensures
        final(out)@ == old(out)@ + fg_escape((c.0 as int, c.1 as int, c.2 as int)),
{
    let ghost start = out@;
    out.push('\x1b');
    out.push('[');
    out.push('3');
    out.push('8');
    out.push(';');
    out.push('2');
    out.push(';');
    push_decimal(out, c.0);
    out.push(';');
    push_decimal(out, c.1);
    out.push(';');
    push_decimal(out, c.2);
    out.push('m');
    assert(out@ =~= start + fg_escape((c.0 as int, c.1 as int, c.2 as int)));
}

/// Writes one line of tokens as 24-bit foreground escapes, each followed by its text.
pub fn escape_line(tokens: &Vec<StyledToken>) -> (r: Vec<char>)
    ensures
        r@ == escaped_line(tokens_model(tokens@)),
{
    let mut out: Vec<char> = Vec::new();
    let mut i: usize = 0;
    while i < tokens.len()
        invariant
            i <= tokens@.len(),
            out@ == escaped_line(tokens_model(tokens@.subrange(0, i as int))),
        decreases tokens.len() - i,
    {
        let t = &tokens[i];
        push_fg_escape(&mut out, blended_exec(t.foreground, t.background));
        let text = chars_of(t.text.as_str());
        append_chars(&mut out, &text);
        assert(tokens_model(tokens@.subrange(0, i + 1)).drop_last() =~= tokens_model(tokens@.subrange(0, i as int)));
        i = i + 1;
    }
    assert(tokens@.subrange(0, i as int) =~= tokens@);
    out
}

fn push_reset(out: &mut Vec<char>)
    ensures
        final(out)@ == old(out)@ + reset_seq(),
{
    let ghost start = out@;
    out.push('\x1b');
    out.push('[');
    out.push('0');
    out.push('m');
    assert(out@ =~= start + reset_seq());
}

/// Renders highlighted lines: each line's escaped tokens and a reset, the lines
/// joined with a further reset.
pub fn render_code(lines: &Vec<Vec<StyledToken>>) -> (r: Vec<char>)
    ensures
        r@ == rendered_code(lines@.map_values(|l: Vec<StyledToken>| tokens_model(l@))),
{
    let ghost model = lines@.map_values(|l: Vec<StyledToken>| tokens_model(l@));
    let mut out: Vec<char> = Vec::new();
    let mut i: usize = 0;
    while i < lines.len()
        invariant
            i <= lines@.len(),
            model == lines@.map_values(|l: Vec<StyledToken>| tokens_model(l@)),
            out@ == rendered_code(model.subrange(0, i as int)),
        decreases lines.len() - i,
    {
        if i > 0 {
            push_reset(&mut out);
        }
        let e = escape_line(&lines[i]);
        append_chars(&mut out, &e);
        push_reset(&mut out);
        assert(model.subrange(0, i + 1).drop_last() =~= model.subrange(0, i as int));
        assert(out@ =~= rendered_code(model.subrange(0, i + 1)));
        i = i + 1;
    }
    assert(model.subrange(0, i as int) =~= model);
    out
}

/// Splits `s` into lines, each keeping its `\n`; a last line without one is kept too.
pub fn split_lines(s: &Vec<char>) -> (r: Vec<Vec<char>>)
    ensures
        r@.map_values(|l: Vec<char>| l@) == lines_of(s@),
{
    let mut out: Vec<Vec<char>> = Vec::new();
    let mut cur: Vec<char> = Vec::new();
    let mut p: usize = 0;
    let mut i: usize = 0;
    while i < s.len()
        invariant
            p <= i <= s@.len(),
            cur@ == s@.subrange(p as int, i as int),
            forall|k: int| p <= k < i ==> s@[k] != '\n',
            out@.map_values(|l: Vec<char>| l@) + lines_from(s@, p as int) == lines_of(s@),
        decreases s.len() - i,
    {
        let c = s[i];
        cur.push(c);
        assert(cur@ =~= s@.subrange(p as int, i + 1));
        if c == '\n' {
            proof {
                assert(line_end(s@, p as int) == i + 1) by {
                    lemma_line_end_from(s@, p as int, i as int);
                }
            }
            let ghost before = out@.map_values(|l: Vec<char>| l@);
            out.push(cur);
            assert(out@.map_values(|l: Vec<char>| l@) =~= before + seq![s@.subrange(p as int, i + 1)]);
            cur = Vec::new();
            p = i + 1;
            assert(cur@ =~= s@.subrange(p as int, p as int));
        }
        i = i + 1;
    }
    if p < s.len() {
        proof {
            lemma_line_end_from(s@, p as int, s@.len() as int);
            assert(lines_from(s@, s@.len() as int) =~= Seq::<Seq<char>>::empty());
        }
        let ghost before = out@.map_values(|l: Vec<char>| l@);
        out.push(cur);
        assert(out@.map_values(|l: Vec<char>| l@) =~= before + seq![s@.subrange(p as int, s@.len() as int)]);
    }
    assert(out@.map_values(|l: Vec<char>| l@) + lines_from(s@, s@.len() as int) =~= out@.map_values(|l: Vec<char>| l@));
    out
}

/// With no `\n` in `p .. q`, the line starting at `p` ends at `q + 1` if `s[q]`
/// is `\n`, and at the end of `s` if `q` is the end.
proof fn lemma_line_end_from(s: Seq<char>, p: int, q: int)
    requires
        0 <= p <= q <= s.len(),
        forall|k: int| p <= k < q ==> s[k] != '\n',
        q == s.len() || s[q] == '\n',
    ensures
        line_end(s, p) == if q == s.len() { s.len() as int } else { q + 1 },
    decreases q - p,
{
    if p < q {
        lemma_line_end_from(s, p + 1, q);
    }
}

proof fn lemma_lines_nonempty(s: Seq<char>, p: int)
    requires
        0 <= p,
    ensures
        forall|k: int| 0 <= k < lines_from(s, p).len() ==> (#[trigger] lines_from(s, p)[k]).len() > 0,
        p < s.len() ==> lines_from(s, p).len() > 0,
    decreases s.len() - p,
{
    if 0 <= p < s.len() {
        lemma_line_end_bounds(s, p);
        let e = line_end(s, p);
        lemma_lines_nonempty(s, e);
        let ls = lines_from(s, p);
        assert forall|k: int| 0 <= k < ls.len() implies (#[trigger] ls[k]).len() > 0 by {
            if k > 0 {
                assert(ls[k] == lines_from(s, e)[k - 1]);
            }
        }
    }
}

/// A rendering of a non-empty body holds a 24-bit foreground escape: its last
/// line is not empty, so it has a token, and every token starts with one.
pub proof fn lemma_rendering_is_coloured(body: Seq<char>, out: Seq<char>)
    requires
        is_rendering_of(body, out),
        body.len() > 0,
    ensures
        crate::text::contains(out, fg_prefix()),
{
    let tokens = choose|tokens: Seq<Seq<TokenModel>>| covers_lines(body, tokens) && out == rendered_code(tokens);
    lemma_lines_nonempty(body, 0);
    let n = tokens.len() as int;
    let ts = tokens[n - 1];
    assert(token_text(ts) == lines_of(body)[n - 1]);
    assert(ts.len() > 0);
    let tk = ts.last();
    let e = escaped_line(ts.drop_last());
    let pre = if n == 1 { Seq::<char>::empty() } else { rendered_code(tokens.drop_last()) + reset_seq() };
    let fe = fg_escape(blended(tk.foreground, tk.background));
    assert(out =~= pre + e + fe + tk.text + reset_seq());
    let at = (pre.len() + e.len()) as int;
    assert(out.subrange(at, at + 7) =~= fg_prefix());
    assert(crate::text::occurs_at(out, fg_prefix(), at));
}

} // verus!
