//! Character-sequence helpers: substring search and left-to-right replacement.
use vstd::prelude::*;

verus! {

/// The fence delimiter: three backticks.
pub open spec fn fence_marker() -> Seq<char> {
    seq!['`', '`', '`']
}

/// `p` occurs in `s` at offset `i`.
pub open spec fn occurs_at(s: Seq<char>, p: Seq<char>, i: int) -> bool {
    0 <= i && i + p.len() <= s.len() && s.subrange(i, i + p.len()) == p
}

/// `p` occurs somewhere in `s`.
pub open spec fn contains(s: Seq<char>, p: Seq<char>) -> bool {
    exists|i: int| occurs_at(s, p, i)
}

/// Replaces, from left to right, every non-overlapping occurrence of `pat` in `s`
/// by `rep`. An empty pattern leaves the text unchanged.
pub open spec fn replaced(s: Seq<char>, pat: Seq<char>, rep: Seq<char>) -> Seq<char>
    decreases s.len(),
{
    if pat.len() == 0 || s.len() < pat.len() {
        s
    } else if s.subrange(0, pat.len() as int) == pat {
        rep + replaced(s.subrange(pat.len() as int, s.len() as int), pat, rep)
    } else {
        seq![s[0]] + replaced(s.subrange(1, s.len() as int), pat, rep)
    }
}

/// `s` with every fence marker removed.
pub open spec fn stripped(s: Seq<char>) -> Seq<char> {
    replaced(s, fence_marker(), Seq::empty())
}

/// Relies on `str::chars` with `Iterator::collect`: the characters of `s`, in order.
#[verifier::external_body]
pub(crate) fn chars_of(s: &str) -> (r: Vec<char>)
    ensures
        r@ == s@,
{
    s.chars().collect()
}

/// Relies on `String: FromIterator<&char>`: the string made of the characters of `v`.
#[verifier::external_body]
pub(crate) fn string_of(v: &Vec<char>) -> (r: String)
    ensures
        r@ == v@,
{
    v.iter().collect()
}

/// Appends all of `x` to `out`.
pub fn append_chars(out: &mut Vec<char>, x: &Vec<char>)
    ensures
        final(out)@ == old(out)@ + x@,
{
    out.extend_from_slice(x.as_slice());
}

/// Whether `pat` occurs in `s` at offset `i`.
pub fn occurs_at_exec(s: &Vec<char>, pat: &Vec<char>, i: usize) -> (r: bool)
    ensures
        r == occurs_at(s@, pat@, i as int),
{
    if i > s.len() || pat.len() > s.len() - i {
        return false;
    }
    let mut j: usize = 0;
    while j < pat.len()
        invariant
            i + pat.len() <= s.len(),
            j <= pat@.len(),
            forall|k: int| 0 <= k < j ==> s@[i + k] == pat@[k],
        decreases pat.len() - j,
    {
        if s[i + j] != pat[j] {
            assert(s@.subrange(i as int, i + pat@.len())[j as int] != pat@[j as int]);
            return false;
        }
        j = j + 1;
    }
    assert(s@.subrange(i as int, i + pat@.len()) =~= pat@);
    true
}

/// Replaces every non-overlapping occurrence of `pat` in `s` by `rep`, from left to right.
pub fn replace_chars(s: &Vec<char>, pat: &Vec<char>, rep: &Vec<char>) -> (r: Vec<char>)
    ensures
        r@ == replaced(s@, pat@, rep@),
{
    if pat.len() == 0 {
        return s.clone();
    }
    let mut out: Vec<char> = Vec::new();
    let mut i: usize = 0;
    assert(s@.subrange(0, s@.len() as int) =~= s@);
    while i < s.len()
        invariant
            i <= s@.len(),
            pat@.len() > 0,
            out@ + replaced(s@.subrange(i as int, s@.len() as int), pat@, rep@) == replaced(
                s@,
                pat@,
                rep@,
            ),
        decreases s.len() - i,
    {
        let ghost rest = s@.subrange(i as int, s@.len() as int);
        if occurs_at_exec(s, pat, i) {
            assert(rest.subrange(0, pat@.len() as int) =~= pat@);
            assert(rest.subrange(pat@.len() as int, rest.len() as int) =~= s@.subrange(
                i + pat@.len(),
                s@.len() as int,
            ));
            append_chars(&mut out, rep);
            i = i + pat.len();
        } else {
            let ghost next = s@.subrange(i + 1, s@.len() as int);
            assert(rest.subrange(1, rest.len() as int) =~= next);
            proof {
                if rest.len() < pat@.len() {
                    assert(next.len() < pat@.len());
                    assert(seq![s@[i as int]] + next =~= rest);
                } else {
                    assert(rest.subrange(0, pat@.len() as int) =~= s@.subrange(
                        i as int,
                        i + pat@.len(),
                    ));
                }
            }
            assert(replaced(rest, pat@, rep@) == seq![s@[i as int]] + replaced(next, pat@, rep@));
            let ghost before = out@;
            out.push(s[i]);
            assert(out@ + replaced(next, pat@, rep@) =~= before + replaced(rest, pat@, rep@));
            i = i + 1;
        }
    }
    assert(s@.subrange(i as int, s@.len() as int) =~= Seq::<char>::empty());
    assert(out@ + Seq::<char>::empty() =~= out@);
    out
}

/// No three consecutive backticks in `s`.
pub open spec fn marker_free(s: Seq<char>) -> bool {
    forall|i: int|
        0 <= i && i + 2 < s.len() ==> !(#[trigger] s[i] == '`' && s[i + 1] == '`' && s[i + 2]
            == '`')
}

/// A text in which the pattern does not occur is left unchanged by replacement.
pub proof fn lemma_replaced_absent(s: Seq<char>, pat: Seq<char>, rep: Seq<char>)
    requires
        !contains(s, pat),
    ensures
        replaced(s, pat, rep) == s,
    decreases s.len(),
{
    if pat.len() == 0 || s.len() < pat.len() {
    } else {
        assert(!occurs_at(s, pat, 0));
        let t = s.subrange(1, s.len() as int);
        assert(!contains(t, pat)) by {
            if contains(t, pat) {
                let i = choose|i: int| occurs_at(t, pat, i);
                assert(s.subrange(i + 1, i + 1 + pat.len()) =~= t.subrange(i, i + pat.len()));
                assert(occurs_at(s, pat, i + 1));
            }
        }
        lemma_replaced_absent(t, pat, rep);
        assert(seq![s[0]] + t =~= s);
    }
}

/// Three backticks in a row are an occurrence of the fence marker.
pub proof fn lemma_marker_free_not_contains(s: Seq<char>)
    requires
        marker_free(s),
    ensures
        !contains(s, fence_marker()),
{
    if contains(s, fence_marker()) {
        let i = choose|i: int| occurs_at(s, fence_marker(), i);
        let w = s.subrange(i, i + 3);
        assert(w[0] == '`' && w[1] == '`' && w[2] == '`');
        assert(s[i] == '`' && s[i + 1] == '`' && s[i + 2] == '`');
    }
}

proof fn lemma_stripped_head(t: Seq<char>)
    requires
        t.len() >= 1,
        t[0] != '`',
    ensures
        stripped(t).len() >= 1,
        stripped(t)[0] == t[0],
{
    let m = fence_marker();
    if t.len() >= 3 {
        assert(t.subrange(0, 3)[0] != m[0]);
    }
}

/// Removing the fence markers leaves none behind.
pub proof fn lemma_stripped_marker_free(s: Seq<char>)
    ensures
        marker_free(stripped(s)),
        !contains(stripped(s), fence_marker()),
    decreases s.len(),
{
    let m = fence_marker();
    let r = stripped(s);
    if s.len() < 3 {
    } else if s.subrange(0, 3) == m {
        let t = s.subrange(3, s.len() as int);
        lemma_stripped_marker_free(t);
        assert(Seq::<char>::empty() + stripped(t) =~= stripped(t));
    } else {
        let t = s.subrange(1, s.len() as int);
        lemma_stripped_marker_free(t);
        let rt = stripped(t);
        assert(r == seq![s[0]] + rt);
        if s[0] == '`' && rt.len() >= 2 {
            if s[1] != '`' {
                lemma_stripped_head(t);
            } else {
                assert(s[2] != '`') by {
                    if s[2] == '`' {
                        assert(s.subrange(0, 3) =~= m);
                    }
                }
                let u = s.subrange(2, s.len() as int);
                if t.len() >= 3 {
                    assert(t.subrange(0, 3)[1] != m[1]);
                    assert(t.subrange(1, t.len() as int) =~= u);
                    lemma_stripped_head(u);
                    assert(rt == seq![t[0]] + stripped(u));
                }
            }
        }
        assert forall|i: int| 0 <= i && i + 2 < r.len() implies !(#[trigger] r[i] == '`' && r[i
            + 1] == '`' && r[i + 2] == '`') by {
            if i >= 1 {
                assert(r[i] == rt[i - 1]);
                assert(r[i + 1] == rt[i]);
                assert(r[i + 2] == rt[i + 1]);
            }
        }
    }
    lemma_marker_free_not_contains(r);
}

/// No character of `w` occurs in `p`.
pub open spec fn shares_no_char(w: Seq<char>, p: Seq<char>) -> bool {
    forall|i: int, j: int| 0 <= i < w.len() && 0 <= j < p.len() ==> w[i] != p[j]
}

/// A prefix with no character of the pattern passes through replacement as it is.
proof fn lemma_replaced_prefix_kept(s: Seq<char>, pat: Seq<char>, rep: Seq<char>, w: Seq<char>)
    requires
        pat.len() > 0,
        w.len() <= s.len(),
        s.subrange(0, w.len() as int) == w,
        shares_no_char(w, pat),
    ensures
        replaced(s, pat, rep) == w + replaced(s.subrange(w.len() as int, s.len() as int), pat, rep),
    decreases w.len(),
{
    if w.len() == 0 {
        assert(s.subrange(0, s.len() as int) =~= s);
        assert(w + replaced(s, pat, rep) =~= replaced(s, pat, rep));
    } else {
        assert(s[0] == w[0]);
        if s.len() >= pat.len() {
            assert(s.subrange(0, pat.len() as int)[0] != pat[0]);
        }
        let rest = s.subrange(1, s.len() as int);
        let w1 = w.subrange(1, w.len() as int);
        assert(rest.subrange(0, w1.len() as int) =~= w1);
        assert(shares_no_char(w1, pat)) by {
            assert forall|i: int, j: int| 0 <= i < w1.len() && 0 <= j < pat.len() implies w1[i] != pat[j] by {
                assert(w1[i] == w[i + 1]);
            }
        }
        lemma_replaced_prefix_kept(rest, pat, rep, w1);
        assert(rest.subrange(w1.len() as int, rest.len() as int) =~= s.subrange(w.len() as int, s.len() as int));
        if s.len() < pat.len() {
            assert(replaced(rest, pat, rep) == rest);
            assert(seq![s[0]] + rest =~= s);
        }
        assert(replaced(s, pat, rep) == seq![s[0]] + replaced(rest, pat, rep));
        assert(seq![s[0]] + w1 =~= w);
    }
}

/// A piece of text with no character of the pattern survives replacement.
pub proof fn lemma_replaced_keeps_free(s: Seq<char>, pat: Seq<char>, rep: Seq<char>, w: Seq<char>)
    requires
        pat.len() > 0,
        w.len() > 0,
        contains(s, w),
        shares_no_char(w, pat),
    ensures
        contains(replaced(s, pat, rep), w),
    decreases s.len(),
{
    let r = replaced(s, pat, rep);
    let i = choose|i: int| occurs_at(s, w, i);
    if i == 0 {
        lemma_replaced_prefix_kept(s, pat, rep, w);
        assert(r.subrange(0, w.len() as int) =~= w);
        assert(occurs_at(r, w, 0));
    } else if s.len() < pat.len() {
        assert(occurs_at(r, w, i));
    } else if s.subrange(0, pat.len() as int) == pat {
        let n = pat.len() as int;
        if i < n {
            assert(s.subrange(i, i + w.len())[0] == w[0]);
            assert(s.subrange(0, n)[i] == pat[i]);
            assert(false);
        }
        let rest = s.subrange(n, s.len() as int);
        assert(rest.subrange(i - n, i - n + w.len()) =~= s.subrange(i, i + w.len()));
        assert(occurs_at(rest, w, i - n));
        lemma_replaced_keeps_free(rest, pat, rep, w);
        let rr = replaced(rest, pat, rep);
        let j = choose|j: int| occurs_at(rr, w, j);
        assert(r == rep + rr);
        assert(r.subrange(rep.len() + j, rep.len() + j + w.len()) =~= rr.subrange(j, j + w.len()));
        assert(occurs_at(r, w, rep.len() + j));
    } else {
        let rest = s.subrange(1, s.len() as int);
        assert(rest.subrange(i - 1, i - 1 + w.len()) =~= s.subrange(i, i + w.len()));
        assert(occurs_at(rest, w, i - 1));
        lemma_replaced_keeps_free(rest, pat, rep, w);
        let rr = replaced(rest, pat, rep);
        let j = choose|j: int| occurs_at(rr, w, j);
        assert(r == seq![s[0]] + rr);
        assert(r.subrange(1 + j, 1 + j + w.len()) =~= rr.subrange(j, j + w.len()));
        assert(occurs_at(r, w, 1 + j));
    }
}

/// Where the pattern occurs, whatever the replacement holds appears in the result.
pub proof fn lemma_replaced_inserts(s: Seq<char>, pat: Seq<char>, rep: Seq<char>, w: Seq<char>)
    requires
        pat.len() > 0,
        contains(s, pat),
        contains(rep, w),
    ensures
        contains(replaced(s, pat, rep), w),
    decreases s.len(),
{
    let r = replaced(s, pat, rep);
    let i = choose|i: int| occurs_at(s, pat, i);
    if s.subrange(0, pat.len() as int) == pat {
        let rest = s.subrange(pat.len() as int, s.len() as int);
        assert(r == rep + replaced(rest, pat, rep));
        let j = choose|j: int| occurs_at(rep, w, j);
        assert(r.subrange(j, j + w.len()) =~= rep.subrange(j, j + w.len()));
        assert(occurs_at(r, w, j));
    } else {
        assert(i != 0);
        let rest = s.subrange(1, s.len() as int);
        let rr = replaced(rest, pat, rep);
        assert(r == seq![s[0]] + rr);
        assert(rest.subrange(i - 1, i - 1 + pat.len()) =~= s.subrange(i, i + pat.len()));
        assert(occurs_at(rest, pat, i - 1));
        lemma_replaced_inserts(rest, pat, rep, w);
        let j = choose|j: int| occurs_at(rr, w, j);
        assert(r.subrange(1 + j, 1 + j + w.len()) =~= rr.subrange(j, j + w.len()));
        assert(occurs_at(r, w, 1 + j));
    }
}

/// Whether the characters of `a` are those of `b`.
pub fn same_text(a: &Vec<char>, b: &str) -> (r: bool)
    ensures
        r == (a@ == b@),
{
    let bc = chars_of(b);
    if a.len() != bc.len() {
        return false;
    }
    let mut i: usize = 0;
    while i < a.len()
        invariant
            i <= a@.len() == bc@.len(),
            bc@ == b@,
            forall|k: int| 0 <= k < i ==> a@[k] == bc@[k],
        decreases a.len() - i,
    {
        if a[i] != bc[i] {
            return false;
        }
        i = i + 1;
    }
    assert(a@ =~= bc@);
    true
}

} // verus!
