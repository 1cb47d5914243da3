//! Locating fenced code blocks: three backticks, a language tag of word
//! characters, a line break, the body (as short as possible), a line break and
//! three closing backticks.
use vstd::prelude::*;

verus! {

/// Whether `c` is a word character in the sense of the `\w` class of the
/// `regex` crate (Unicode letters, marks, decimal digits, connector punctuation).
pub uninterp spec fn word_char(c: char) -> bool;

/// Relies on `regex_syntax::is_word_character`: the `\w` class of the `regex` crate.
#[verifier::external_body]
fn is_word_char(c: char) -> (r: bool)
    ensures
        r == word_char(c),
{
    regex_syntax::is_word_character(c)
}

/// Where a fenced block lies in a text, by character offsets: the opening
/// marker starts at `start`, the tag is `start + 3 .. tag_end`, the body is
/// `body_start .. body_end`, and the closing marker ends at `end`.
#[derive(Clone, Copy, Debug, PartialEq, Eq)]
pub struct CodeSpan {
    pub start: usize,
    pub tag_end: usize,
    pub body_start: usize,
    pub body_end: usize,
    pub end: usize,
}

/// The mathematical form of a [`CodeSpan`].
pub struct SpanModel {
    pub start: int,
    pub tag_end: int,
    pub body_start: int,
    pub body_end: int,
    pub end: int,
}

impl View for CodeSpan {
    type V = SpanModel;

    open spec fn view(&self) -> SpanModel {
        SpanModel {
            start: self.start as int,
            tag_end: self.tag_end as int,
            body_start: self.body_start as int,
            body_end: self.body_end as int,
            end: self.end as int,
        }
    }
}

/// The language tag of a block.
pub open spec fn span_tag(t: Seq<char>, s: SpanModel) -> Seq<char> {
    t.subrange(s.start + 3, s.tag_end)
}

/// The body of a block.
pub open spec fn span_body(t: Seq<char>, s: SpanModel) -> Seq<char> {
    t.subrange(s.body_start, s.body_end)
}

/// Three backticks start at `i`.
pub open spec fn marker_at(t: Seq<char>, i: int) -> bool {
    0 <= i && i + 3 <= t.len() && t[i] == '`' && t[i + 1] == '`' && t[i + 2] == '`'
}

/// The end of the run of word characters that starts at `j`.
pub open spec fn word_end(t: Seq<char>, j: int) -> int
    decreases t.len() - j,
{
    if 0 <= j < t.len() && word_char(t[j]) {
        word_end(t, j + 1)
    } else {
        j
    }
}

/// The length of the closing line break and marker at `e` (`\r\n` or `\n`,
/// then three backticks), or 0 where none starts there.
pub open spec fn closer_len(t: Seq<char>, e: int) -> int {
    if 0 <= e && e + 5 <= t.len() && t[e] == '\r' && t[e + 1] == '\n' && marker_at(t, e + 2) {
        5
    } else if 0 <= e && e + 4 <= t.len() && t[e] == '\n' && marker_at(t, e + 1) {
        4
    } else {
        0
    }
}

/// The first offset at or after `e` where a closing line break and marker start.
pub open spec fn first_closer(t: Seq<char>, e: int) -> Option<int>
    decreases t.len() - e,
{
    if 0 <= e < t.len() {
        if closer_len(t, e) > 0 {
            Some(e)
        } else {
            first_closer(t, e + 1)
        }
    } else {
        None
    }
}

/// The block that opens at `i` with its tag ending at `j` and its body starting
/// at `cs`, if a closing marker follows.
pub open spec fn span_with_body(t: Seq<char>, i: int, j: int, cs: int) -> Option<SpanModel> {
    match first_closer(t, cs) {
        Some(e) => Some(
            SpanModel { start: i, tag_end: j, body_start: cs, body_end: e, end: e + closer_len(t, e) },
        ),
        None => None,
    }
}

/// The block that starts at offset `i`, if one does. After the tag, `\r\n` is
/// preferred to a lone `\r`; the body is the shortest that a closer follows.
pub open spec fn span_at(t: Seq<char>, i: int) -> Option<SpanModel> {
    if !marker_at(t, i) {
        None
    } else {
        let j = word_end(t, i + 3);
        if j == i + 3 || j >= t.len() {
            None
        } else if t[j] == '\r' && j + 1 < t.len() && t[j + 1] == '\n' {
            match span_with_body(t, i, j, j + 2) {
                Some(s) => Some(s),
                None => span_with_body(t, i, j, j + 1),
            }
        } else if t[j] == '\n' || t[j] == '\r' {
            span_with_body(t, i, j, j + 1)
        } else {
            None
        }
    }
}

/// The blocks found by scanning from `p`: at each offset the block that starts
/// there is taken and the scan resumes after it; blocks never overlap.
pub open spec fn spans_from(t: Seq<char>, p: int) -> Seq<SpanModel>
    decreases t.len() - p,
{
    if 0 <= p < t.len() {
        match span_at(t, p) {
            Some(s) => if p < s.end <= t.len() {
                seq![s] + spans_from(t, s.end)
            } else {
                Seq::empty()
            },
            None => spans_from(t, p + 1),
        }
    } else {
        Seq::empty()
    }
}

/// All fenced blocks of `t`, from left to right.
pub open spec fn code_spans(t: Seq<char>) -> Seq<SpanModel> {
    spans_from(t, 0)
}

proof fn lemma_word_end_bounds(t: Seq<char>, j: int)
    requires
        0 <= j <= t.len(),
    ensures
        j <= word_end(t, j) <= t.len(),
        forall|k: int| j <= k < word_end(t, j) ==> word_char(#[trigger] t[k]),
    decreases t.len() - j,
{
    if j < t.len() && word_char(t[j]) {
        lemma_word_end_bounds(t, j + 1);
    }
}

proof fn lemma_first_closer_bounds(t: Seq<char>, e: int)
    requires
        0 <= e,
    ensures
        first_closer(t, e) matches Some(x) ==> e <= x && closer_len(t, x) > 0 && x + closer_len(
            t,
            x,
        ) <= t.len(),
        first_closer(t, e) is None ==> forall|k: int| e <= k ==> closer_len(t, k) == 0,
    decreases t.len() - e,
{
    if e < t.len() && closer_len(t, e) == 0 {
        lemma_first_closer_bounds(t, e + 1);
        if first_closer(t, e) is None {
            assert forall|k: int| e <= k implies closer_len(t, k) == 0 by {
                if k > e {
                }
            }
        }
    }
}

/// Every block lies within the text, in the order of its parts.
pub proof fn lemma_span_at_bounds(t: Seq<char>, i: int)
    requires
        0 <= i,
    ensures
        span_at(t, i) matches Some(s) ==> {
            &&& s.start == i
            &&& marker_at(t, i)
            &&& i + 3 < s.tag_end < s.body_start <= s.body_end < s.end <= t.len()
        },
{
    if marker_at(t, i) {
        lemma_word_end_bounds(t, i + 3);
        let j = word_end(t, i + 3);
        if j < t.len() {
            lemma_first_closer_bounds(t, j + 1);
            lemma_first_closer_bounds(t, j + 2);
        }
    }
}

/// Where the scan's first block sits.
pub proof fn lemma_spans_from_start(t: Seq<char>, p: int)
    requires
        0 <= p,
    ensures
        spans_from(t, p).len() > 0 ==> p <= spans_from(t, p)[0].start && marker_at(
            t,
            spans_from(t, p)[0].start,
        ),
    decreases t.len() - p,
{
    if 0 <= p < t.len() {
        lemma_span_at_bounds(t, p);
        match span_at(t, p) {
            Some(s) => {},
            None => {
                lemma_spans_from_start(t, p + 1);
            },
        }
    }
}

/// A well-placed block: its parts in order, inside the text.
pub open spec fn span_in_text(t: Seq<char>, s: SpanModel) -> bool {
    0 <= s.start && s.start + 3 < s.tag_end < s.body_start <= s.body_end < s.end <= t.len()
}

proof fn lemma_spans_from_in_text(t: Seq<char>, p: int)
    requires
        0 <= p,
    ensures
        forall|k: int| 0 <= k < spans_from(t, p).len() ==> span_in_text(t, #[trigger] spans_from(t, p)[k]),
        forall|k: int| 0 <= k < spans_from(t, p).len() ==> p <= (#[trigger] spans_from(t, p)[k]).start,
    decreases t.len() - p,
{
    if 0 <= p < t.len() {
        lemma_span_at_bounds(t, p);
        match span_at(t, p) {
            Some(s) => {
                if p < s.end <= t.len() {
                    lemma_spans_from_in_text(t, s.end);
                    let rest = spans_from(t, s.end);
                    assert(spans_from(t, p) == seq![s] + rest);
                    assert forall|k: int| 0 <= k < spans_from(t, p).len() implies span_in_text(t, #[trigger] spans_from(t, p)[k]) && p <= spans_from(t, p)[k].start by {
                        if k > 0 {
                            assert(spans_from(t, p)[k] == rest[k - 1]);
                        } else {
                            assert(spans_from(t, p)[k] == s);
                        }
                    }
                }
            },
            None => {
                lemma_spans_from_in_text(t, p + 1);
                assert(spans_from(t, p) == spans_from(t, p + 1));
            },
        }
    }
}

proof fn lemma_spans_from_ordered(t: Seq<char>, p: int)
    requires
        0 <= p,
    ensures
        forall|k: int| 0 <= k && k + 1 < spans_from(t, p).len() ==> (#[trigger] spans_from(t, p)[k]).end <= spans_from(t, p)[k + 1].start,
    decreases t.len() - p,
{
    if 0 <= p < t.len() {
        match span_at(t, p) {
            Some(s) => {
                if p < s.end <= t.len() {
                    lemma_spans_from_ordered(t, s.end);
                    lemma_spans_from_in_text(t, s.end);
                    let rest = spans_from(t, s.end);
                    let all = spans_from(t, p);
                    assert(all == seq![s] + rest);
                    assert forall|k: int| 0 <= k && k + 1 < all.len() implies (#[trigger] all[k]).end <= all[k + 1].start by {
                        if k == 0 {
                            assert(all[1] == rest[0]);
                        } else {
                            assert(all[k] == rest[k - 1]);
                            assert(all[k + 1] == rest[k]);
                        }
                    }
                }
            },
            None => {
                lemma_spans_from_ordered(t, p + 1);
                assert(spans_from(t, p) == spans_from(t, p + 1));
            },
        }
    }
}

/// The blocks that the scan finds come in order: each ends before the next starts.
pub proof fn lemma_code_spans_ordered(t: Seq<char>, k: int)
    requires
        0 <= k,
        k + 1 < code_spans(t).len(),
    ensures
        code_spans(t)[k].end <= code_spans(t)[k + 1].start,
{
    lemma_spans_from_ordered(t, 0);
}

/// Each block that the scan finds lies inside the text.
pub proof fn lemma_code_span_in_text(t: Seq<char>, k: int)
    requires
        0 <= k < code_spans(t).len(),
    ensures
        span_in_text(t, code_spans(t)[k]),
{
    lemma_spans_from_in_text(t, 0);
}

fn word_end_exec(t: &Vec<char>, j: usize) -> (r: usize)
    requires
        j <= t@.len(),
    ensures
        r as int == word_end(t@, j as int),
{
    let mut k: usize = j;
    while k < t.len() && is_word_char(t[k])
        invariant
            j <= k <= t@.len(),
            word_end(t@, k as int) == word_end(t@, j as int),
        decreases t.len() - k,
    {
        k = k + 1;
    }
    k
}

fn is_marker_at(t: &Vec<char>, i: usize) -> (r: bool)
    ensures
        r == marker_at(t@, i as int),
{
    i < t.len() && t.len() - i >= 3 && t[i] == '`' && t[i + 1] == '`' && t[i + 2] == '`'
}

fn closer_len_exec(t: &Vec<char>, e: usize) -> (r: usize)
    ensures
        r as int == closer_len(t@, e as int),
{
    if e < t.len() && t.len() - e >= 5 && t[e] == '\r' && t[e + 1] == '\n' && is_marker_at(t, e + 2) {
        5
    } else if e < t.len() && t.len() - e >= 4 && t[e] == '\n' && is_marker_at(t, e + 1) {
        4
    } else {
        0
    }
}

fn first_closer_exec(t: &Vec<char>, e: usize) -> (r: Option<usize>)
    ensures
        match r {
            Some(x) => first_closer(t@, e as int) == Some(x as int),
            None => first_closer(t@, e as int) is None,
        },
{
    let mut k: usize = e;
    while k < t.len()
        invariant
            e <= k,
            first_closer(t@, k as int) == first_closer(t@, e as int),
        decreases t.len() - k,
    {
        if closer_len_exec(t, k) > 0 {
            return Some(k);
        }
        k = k + 1;
    }
    None
}

fn span_with_body_exec(t: &Vec<char>, i: usize, j: usize, cs: usize) -> (r: Option<CodeSpan>)
    ensures
        match r {
            Some(s) => span_with_body(t@, i as int, j as int, cs as int) == Some(s@),
            None => span_with_body(t@, i as int, j as int, cs as int) is None,
        },
{
    proof {
        lemma_first_closer_bounds(t@, cs as int);
    }
    match first_closer_exec(t, cs) {
        Some(e) => {
            let n = closer_len_exec(t, e);
            let len = t.len();
            assert(e + n <= len);
            Some(CodeSpan { start: i, tag_end: j, body_start: cs, body_end: e, end: e + n })
        },
        None => None,
    }
}

fn span_at_exec(t: &Vec<char>, i: usize) -> (r: Option<CodeSpan>)
    ensures
        match r {
            Some(s) => span_at(t@, i as int) == Some(s@),
            None => span_at(t@, i as int) is None,
        },
{
    if !is_marker_at(t, i) {
        return None;
    }
    let len = t.len();
    assert(i + 3 <= len);
    let j = word_end_exec(t, i + 3);
    if j == i + 3 || j >= t.len() {
        None
    } else if t[j] == '\r' && j + 1 < t.len() && t[j + 1] == '\n' {
        match span_with_body_exec(t, i, j, j + 2) {
            Some(s) => Some(s),
            None => span_with_body_exec(t, i, j, j + 1),
        }
    } else if t[j] == '\n' || t[j] == '\r' {
        span_with_body_exec(t, i, j, j + 1)
    } else {
        None
    }
}

/// Finds the fenced blocks of `t`, from left to right.
pub fn find_code_spans(t: &Vec<char>) -> (r: Vec<CodeSpan>)
    ensures
        r@.map_values(|s: CodeSpan| s@) == code_spans(t@),
{
    let mut out: Vec<CodeSpan> = Vec::new();
    let mut p: usize = 0;
    while p < t.len()
        invariant
            p <= t@.len(),
            out@.map_values(|s: CodeSpan| s@) + spans_from(t@, p as int) == code_spans(t@),
        decreases t.len() - p,
    {
        proof {
            lemma_span_at_bounds(t@, p as int);
        }
        match span_at_exec(t, p) {
            Some(s) => {
                let ghost before = out@.map_values(|s: CodeSpan| s@);
                out.push(s);
                assert(out@.map_values(|s: CodeSpan| s@) =~= before + seq![s@]);
                assert(before + spans_from(t@, p as int) =~= out@.map_values(|s: CodeSpan| s@)
                    + spans_from(t@, s.end as int));
                p = s.end;
            },
            None => {
                p = p + 1;
            },
        }
    }
    assert(out@.map_values(|s: CodeSpan| s@) + spans_from(t@, p as int) =~= out@.map_values(
        |s: CodeSpan| s@,
    ));
    out
}

} // verus!
