//! Word timings for karaoke highlighting: a word's end position, in
//! samples, either estimated by character weight within a sentence or read
//! from a provider's per-character alignment.

use vstd::prelude::*;
use crate::text::{
    chars_of, is_whitespace, lemma_utf8_len_concat, nonempty_parts, string_of_range, utf8_len,
};

verus! {

/// A word's end position, in samples.
pub struct WordEnd {
    pub text: String,
    pub end: u64,
}

/// `str::split_whitespace` before dropping empty pieces: the pieces between
/// whitespace characters.
pub open spec fn split_ws(s: Seq<char>) -> Seq<Seq<char>>
    decreases s.len(),
{
    if s.len() == 0 {
        seq![Seq::<char>::empty()]
    } else {
        let p = split_ws(s.drop_last());
        if is_whitespace(s.last()) {
            p.push(Seq::<char>::empty())
        } else {
            p.update(p.len() - 1, p.last().push(s.last()))
        }
    }
}

/// The words of `s` (`str::split_whitespace`).
pub open spec fn words_of(s: Seq<char>) -> Seq<Seq<char>> {
    nonempty_parts(split_ws(s))
}

/// A word's share of its sentence: its bytes plus one for the gap after it.
pub open spec fn weight(w: Seq<char>) -> nat {
    utf8_len(w) + 1
}

/// Summed weight of the first `k` words.
pub open spec fn prefix_weight(ws: Seq<Seq<char>>, k: int) -> nat
    decreases k,
{
    if k <= 0 {
        0
    } else {
        prefix_weight(ws, k - 1) + weight(ws[k - 1])
    }
}

/// Estimated end of word `k` of `words`, spoken over `len` samples from
/// `start`: the sentence's span divided in proportion to the words'
/// weights.
pub open spec fn estimated_end(start: nat, len: nat, words: Seq<Seq<char>>, k: int) -> nat {
    let total = prefix_weight(words, words.len() as int);
    let d = if total == 0 {
        1
    } else {
        total
    };
    start + (len * prefix_weight(words, k + 1)) / d
}

pub proof fn lemma_split_ws_len(s: Seq<char>)
    ensures
        split_ws(s).len() >= 1,
    decreases s.len(),
{
    if s.len() > 0 {
        lemma_split_ws_len(s.drop_last());
    }
}

proof fn lemma_utf8_len_take(s: Seq<char>, i: int, j: int)
    requires
        0 <= i <= j <= s.len(),
    ensures
        utf8_len(s.take(j)) == utf8_len(s.take(i)) + utf8_len(s.subrange(i, j)),
{
    lemma_utf8_len_concat(s.take(i), s.subrange(i, j));
    assert(s.take(i) + s.subrange(i, j) =~= s.take(j));
}

proof fn lemma_utf8_len_pos(s: Seq<char>)
    requires
        s.len() > 0,
    ensures
        utf8_len(s) >= 1,
{
}

/// The words of `s` (`str::split_whitespace`), as strings.
pub fn words(s: &str) -> (r: Vec<String>)
    ensures
        r.deep_view() == words_of(s@),
{
    let v = chars_of(s);
    let b = word_bounds(&v);
    let mut r: Vec<String> = Vec::new();
    let mut k: usize = 0;
    while k < b.len()
        invariant
            k <= b.len(),
            bounds_ok(v@, b@),
            r.deep_view() == bounds_words(v@, b@).take(k as int),
        decreases b.len() - k,
    {
        let (i, j) = b[k];
        assert(b@[k as int].0 < b@[k as int].1 <= v@.len());
        let w = string_of_range(&v, i, j);
        let ghost before = r.deep_view();
        r.push(w);
        proof {
            let bw = bounds_words(v@, b@);
            assert(b@[k as int] == (i, j));
            assert(bw[k as int] == v@.subrange(i as int, j as int));
            assert(r.deep_view() =~= before.push(w@));
            assert(bw.take(k + 1) =~= bw.take(k as int).push(bw[k as int]));
        }
        k += 1;
    }
    assert(bounds_words(v@, b@).take(b.len() as int) =~= bounds_words(v@, b@));
    r
}


/// Summed weight of word bounds `b` in `v`.
pub open spec fn bounds_weight(v: Seq<char>, b: Seq<(usize, usize)>) -> nat
    decreases b.len(),
{
    if b.len() == 0 {
        0
    } else {
        bounds_weight(v, b.drop_last()) + weight(v.subrange(b.last().0 as int, b.last().1 as int))
    }
}

pub open spec fn bounds_words(v: Seq<char>, b: Seq<(usize, usize)>) -> Seq<Seq<char>> {
    b.map_values(|p: (usize, usize)| v.subrange(p.0 as int, p.1 as int))
}

pub open spec fn bounds_ok(v: Seq<char>, b: Seq<(usize, usize)>) -> bool {
    forall|k: int| 0 <= k < b.len() ==> #[trigger] b[k].0 < b[k].1 <= v.len()
}

proof fn lemma_prefix_bounds(v: Seq<char>, b: Seq<(usize, usize)>, k: int)
    requires
        0 <= k <= b.len(),
    ensures
        prefix_weight(bounds_words(v, b), k) == bounds_weight(v, b.take(k)),
    decreases k,
{
    if k > 0 {
        lemma_prefix_bounds(v, b, k - 1);
        assert(b.take(k).drop_last() =~= b.take(k - 1));
    }
}

/// Bounds of the words of `v`, in order.
fn word_bounds(v: &Vec<char>) -> (b: Vec<(usize, usize)>)
    ensures
        bounds_words(v@, b@) == words_of(v@),
        bounds_ok(v@, b@),
        bounds_weight(v@, b@) <= 2 * utf8_len(v@),
{
    let mut b: Vec<(usize, usize)> = Vec::new();
    let mut start: usize = 0;
    let mut i: usize = 0;
    proof {
        assert(v@.take(0) =~= Seq::<char>::empty());
        assert(split_ws(Seq::<char>::empty()) =~= seq![Seq::<char>::empty()]);
        assert(seq![Seq::<char>::empty()].drop_last() =~= Seq::<Seq<char>>::empty());
        assert(bounds_words(v@, b@) =~= nonempty_parts(Seq::<Seq<char>>::empty()));
        assert(v@.subrange(0, 0) =~= Seq::<char>::empty());
    }
    while i < v.len()
        invariant
            start <= i <= v.len(),
            bounds_words(v@, b@) == nonempty_parts(split_ws(v@.take(i as int)).drop_last()),
            split_ws(v@.take(i as int)).last() == v@.subrange(start as int, i as int),
            bounds_ok(v@, b@),
            bounds_weight(v@, b@) <= 2 * utf8_len(v@.take(start as int)),
        decreases v.len() - i,
    {
        let ghost sp = split_ws(v@.take(i as int));
        proof {
            lemma_split_ws_len(v@.take(i as int));
            assert(v@.take(i + 1).drop_last() =~= v@.take(i as int));
            assert(v@.take(i + 1).last() == v@[i as int]);
            assert(sp =~= sp.drop_last().push(sp.last()));
        }
        if crate::text::char_is_whitespace(v[i]) {
            if i > start {
                let ghost b0 = b@;
                b.push((start, i));
                proof {
                    assert(bounds_words(v@, b@) =~= bounds_words(v@, b0).push(
                        v@.subrange(start as int, i as int),
                    ));
                    assert(b@.drop_last() =~= b0);
                    lemma_utf8_len_pos(v@.subrange(start as int, i as int));
                    lemma_utf8_len_take(v@, start as int, i + 1);
                    assert(v@.subrange(start as int, i + 1) =~= v@.subrange(start as int, i as int).push(
                        v@[i as int],
                    ));
                    assert(v@.subrange(start as int, i + 1).drop_last() =~= v@.subrange(
                        start as int,
                        i as int,
                    ));
                    assert forall|k: int| 0 <= k < b@.len() implies #[trigger] b@[k].0 < b@[k].1
                        <= v@.len() by {
                        if k < b0.len() {
                            assert(b@[k] == b0[k]);
                        }
                    }
                }
            } else {
                proof {
                    lemma_utf8_len_take(v@, start as int, i + 1);
                }
            }
            start = i + 1;
            i = i + 1;
            proof {
                assert(split_ws(v@.take(i as int)).drop_last() =~= sp);
                assert(v@.subrange(start as int, i as int) =~= Seq::<char>::empty());
            }
        } else {
            i = i + 1;
            proof {
                let np = split_ws(v@.take(i as int));
                assert(np.drop_last() =~= sp.drop_last());
                assert(np.last() =~= v@.subrange(start as int, i as int));
            }
        }
    }
    let ghost sp = split_ws(v@.take(i as int));
    proof {
        lemma_split_ws_len(v@.take(i as int));
        assert(v@.take(i as int) =~= v@);
        assert(sp =~= sp.drop_last().push(sp.last()));
        lemma_utf8_len_take(v@, start as int, v@.len() as int);
    }
    if i > start {
        let ghost b0 = b@;
        b.push((start, i));
        proof {
            assert(bounds_words(v@, b@) =~= bounds_words(v@, b0).push(
                v@.subrange(start as int, i as int),
            ));
            assert(b@.drop_last() =~= b0);
            lemma_utf8_len_pos(v@.subrange(start as int, i as int));
            assert forall|k: int| 0 <= k < b@.len() implies #[trigger] b@[k].0 < b@[k].1
                <= v@.len() by {
                if k < b0.len() {
                    assert(b@[k] == b0[k]);
                }
            }
        }
    }
    b
}

} // verus!

verus! {

/// Bytes of `v[from..to]` in UTF-8.
fn utf8_len_range(v: &Vec<char>, from: usize, to: usize) -> (n: u128)
    requires
        from <= to <= v.len(),
    ensures
        n == utf8_len(v@.subrange(from as int, to as int)),
{
    let mut n: u128 = 0;
    let mut k = from;
    assert(v@.subrange(from as int, from as int) =~= Seq::<char>::empty());
    while k < to
        invariant
            from <= k <= to <= v.len(),
            n == utf8_len(v@.subrange(from as int, k as int)),
            n <= 4 * (k - from),
        decreases to - k,
    {
        assert(v@.subrange(from as int, k + 1).drop_last() =~= v@.subrange(from as int, k as int));
        n = n + crate::text::char_utf8_width(v[k]) as u128;
        k += 1;
    }
    n
}

proof fn lemma_prefix_weight_mono(ws: Seq<Seq<char>>, j: int, k: int)
    requires
        j <= k,
    ensures
        prefix_weight(ws, j) <= prefix_weight(ws, k),
    decreases k - j,
{
    if j < k {
        lemma_prefix_weight_mono(ws, j, k - 1);
    }
}

proof fn lemma_scale(len: nat, a: nat, d: nat)
    requires
        0 < d,
        a <= d,
    ensures
        len * a / d <= len,
        len * a <= len * d,
{
    assert(len * a <= len * d) by (nonlinear_arith)
        requires
            a <= d,
    ;
    assert(len * d / d == len) by (nonlinear_arith)
        requires
            0 < d,
    ;
    assert(len * a / d <= len * d / d) by (nonlinear_arith)
        requires
            len * a <= len * d,
            0 < d,
    ;
}

proof fn lemma_scale_mono(len: nat, a: nat, b: nat, d: nat)
    requires
        0 < d,
        a <= b,
    ensures
        len * a / d <= len * b / d,
{
    assert(len * a <= len * b) by (nonlinear_arith)
        requires
            a <= b,
    ;
    assert(len * a / d <= len * b / d) by (nonlinear_arith)
        requires
            len * a <= len * b,
            0 < d,
    ;
}

/// Estimate each word's end by character weight: the span `start..start +
/// len` that the sentence was spoken over is divided among its words in
/// proportion to their bytes plus one.
pub fn estimate_word_ends(sentence: &str, start: u64, len: u64) -> (r: Vec<WordEnd>)
    requires
        start + len <= u64::MAX,
        utf8_len(sentence@) <= isize::MAX,
    ensures
        r.len() == words_of(sentence@).len(),
        forall|k: int|
            0 <= k < r.len() ==> (#[trigger] r[k]).text@ == words_of(sentence@)[k] && r[k].end
                == estimated_end(start as nat, len as nat, words_of(sentence@), k),
{
    let v = chars_of(sentence);
    let b = word_bounds(&v);
    let ghost ws = words_of(sentence@);
    assert(ws.len() == b.len());
    let mut total: u128 = 0;
    let mut k: usize = 0;
    proof {
        lemma_prefix_bounds(v@, b@, b@.len() as int);
        assert(b@.take(b@.len() as int) =~= b@);
    }
    while k < b.len()
        invariant
            k <= b.len(),
            v@ == sentence@,
            bounds_words(v@, b@) == ws,
            bounds_ok(v@, b@),
            ws.len() == b.len(),
            total == prefix_weight(ws, k as int),
            prefix_weight(ws, b.len() as int) <= 2 * utf8_len(v@),
            utf8_len(sentence@) <= isize::MAX,
        decreases b.len() - k,
    {
        let (x, y) = b[k];
        assert(b@[k as int].0 < b@[k as int].1 <= v@.len());
        let n = utf8_len_range(&v, x, y);
        proof {
            assert(ws[k as int] == v@.subrange(x as int, y as int));
            lemma_prefix_weight_mono(ws, k + 1, b.len() as int);
        }
        total = total + n + 1;
        k += 1;
    }
    let d: u128 = if total == 0 {
        1
    } else {
        total
    };
    let mut out: Vec<WordEnd> = Vec::new();
    let mut acc: u128 = 0;
    let mut k: usize = 0;
    while k < b.len()
        invariant
            k <= b.len(),
            v@ == sentence@,
            bounds_words(v@, b@) == ws,
            bounds_ok(v@, b@),
            ws.len() == b.len(),
            total == prefix_weight(ws, b.len() as int),
            total <= 2 * isize::MAX,
            d == if total == 0 {
                1
            } else {
                total
            },
            acc == prefix_weight(ws, k as int),
            start + len <= u64::MAX,
            out.len() == k,
            forall|q: int|
                0 <= q < k ==> (#[trigger] out@[q]).text@ == ws[q] && out@[q].end == estimated_end(
                    start as nat,
                    len as nat,
                    ws,
                    q,
                ),
        decreases b.len() - k,
    {
        let (x, y) = b[k];
        assert(b@[k as int].0 < b@[k as int].1 <= v@.len());
        let n = utf8_len_range(&v, x, y);
        proof {
            assert(ws[k as int] == v@.subrange(x as int, y as int));
            lemma_prefix_weight_mono(ws, k + 1, b.len() as int);
        }
        acc = acc + n + 1;
        proof {
            lemma_scale(len as nat, acc as nat, d as nat);
            assert(len * acc <= len * d);
            assert(len * d <= u64::MAX * (2 * isize::MAX + 1)) by (nonlinear_arith)
                requires
                    len <= u64::MAX,
                    d <= 2 * isize::MAX + 1,
            ;
        }
        let e: u64 = start + (len as u128 * acc / d) as u64;
        let text = string_of_range(&v, x, y);
        let ghost before = out@;
        out.push(WordEnd { text, end: e });
        k += 1;
        proof {
            assert forall|q: int| 0 <= q < k implies (#[trigger] out@[q]).text@ == ws[q]
                && out@[q].end == estimated_end(start as nat, len as nat, ws, q) by {
                if q < k - 1 {
                    assert(out@[q] == before[q]);
                }
            }
        }
    }
    out
}

/// Estimated ends never move backward from word to word, stay within the
/// sentence's span, and the last word ends exactly where the sentence does.
pub proof fn lemma_estimated_ends_ordered(start: nat, len: nat, words: Seq<Seq<char>>, j: int, k: int)
    requires
        0 <= j <= k < words.len(),
    ensures
        estimated_end(start, len, words, j) <= estimated_end(start, len, words, k),
        start <= estimated_end(start, len, words, k) <= start + len,
        estimated_end(start, len, words, words.len() - 1) == start + len,
{
    let n = words.len() as int;
    let total = prefix_weight(words, n);
    lemma_prefix_weight_mono(words, j + 1, k + 1);
    lemma_prefix_weight_mono(words, k + 1, n);
    lemma_prefix_weight_mono(words, n - 1, n);
    assert(total > 0);
    lemma_scale_mono(len, prefix_weight(words, j + 1), prefix_weight(words, k + 1), total);
    lemma_scale(len, prefix_weight(words, k + 1), total);
    assert(len * total / total == len) by (nonlinear_arith)
        requires
            total > 0,
    ;
}

} // verus!

verus! {

pub open spec fn max_nat(a: nat, b: nat) -> nat {
    if a >= b {
        a
    } else {
        b
    }
}

/// After `n` of the characters: the words finished (text and end), the
/// word being collected, the time of its last character, and the last
/// end handed out. Whitespace-only entries end a word; a missing time
/// counts as the last end handed out.
pub open spec fn align_state(chars: Seq<Seq<char>>, ends: Seq<u64>, n: int) -> (
    Seq<(Seq<char>, nat)>,
    Seq<char>,
    nat,
    nat,
)
    decreases n,
{
    if n <= 0 {
        (Seq::empty(), Seq::empty(), 0, 0)
    } else {
        let (ws, cur, ce, le) = align_state(chars, ends, n - 1);
        let ch = chars[n - 1];
        let t: nat = if n - 1 < ends.len() {
            ends[n - 1] as nat
        } else {
            le
        };
        if crate::text::trim(ch).len() == 0 {
            if cur.len() > 0 {
                let le2 = max_nat(ce, le);
                (ws.push((cur, le2)), Seq::empty(), ce, le2)
            } else {
                (ws, cur, ce, le)
            }
        } else {
            (ws, cur + ch, t, le)
        }
    }
}

/// Per-character times grouped into words: a word ends at the time of its
/// last character, clamped so that ends never decrease.
pub open spec fn aligned_words(chars: Seq<Seq<char>>, ends: Seq<u64>) -> Seq<(Seq<char>, nat)> {
    let (ws, cur, ce, le) = align_state(chars, ends, chars.len() as int);
    if cur.len() > 0 {
        ws.push((cur, max_nat(ce, le)))
    } else {
        ws
    }
}

pub open spec fn word_view(w: WordEnd) -> (Seq<char>, nat) {
    (w.text@, w.end as nat)
}

/// Map per-character end positions (in samples, one entry per character
/// of the spoken text) to word end positions.
pub fn words_from_char_ends(chars: &Vec<String>, ends: &Vec<u64>) -> (r: Vec<WordEnd>)
    ensures
        r@.map_values(|w: WordEnd| word_view(w)) == aligned_words(chars.deep_view(), ends@),
{
    let ghost cs = chars.deep_view();
    let mut words: Vec<WordEnd> = Vec::new();
    let mut cur = String::new();
    let mut cur_end: u64 = 0;
    let mut last_end: u64 = 0;
    let mut i: usize = 0;
    while i < chars.len()
        invariant
            i <= chars.len(),
            cs == chars.deep_view(),
            align_state(cs, ends@, i as int) == (
                words@.map_values(|w: WordEnd| word_view(w)),
                cur@,
                cur_end as nat,
                last_end as nat,
            ),
        decreases chars.len() - i,
    {
        let t: u64 = if i < ends.len() {
            ends[i]
        } else {
            last_end
        };
        let piece = crate::text::trim_str(chars[i].as_str());
        assert(cs[i as int] == chars[i as int]@);
        if piece.as_str().is_empty() {
            if !cur.as_str().is_empty() {
                let le2 = if cur_end >= last_end {
                    cur_end
                } else {
                    last_end
                };
                let ghost before = words@;
                let text = cur;
                words.push(WordEnd { text, end: le2 });
                cur = String::new();
                last_end = le2;
                proof {
                    assert(words@.map_values(|w: WordEnd| word_view(w)) =~= before.map_values(
                        |w: WordEnd| word_view(w),
                    ).push(word_view(words@.last())));
                }
            }
        } else {
            crate::text::push_str(&mut cur, chars[i].as_str());
            cur_end = t;
        }
        i += 1;
    }
    assert(chars.len() == cs.len());
    if !cur.as_str().is_empty() {
        let le2 = if cur_end >= last_end {
            cur_end
        } else {
            last_end
        };
        let ghost before = words@;
        words.push(WordEnd { text: cur, end: le2 });
        proof {
            assert(words@.map_values(|w: WordEnd| word_view(w)) =~= before.map_values(
                |w: WordEnd| word_view(w),
            ).push(word_view(words@.last())));
        }
    }
    words
}

proof fn lemma_align_state_ordered(chars: Seq<Seq<char>>, ends: Seq<u64>, n: int)
    ensures
        forall|a: int, b: int|
            #![trigger align_state(chars, ends, n).0[a], align_state(chars, ends, n).0[b]]
            0 <= a <= b < align_state(chars, ends, n).0.len() ==> align_state(chars, ends, n).0[a].1
                <= align_state(chars, ends, n).0[b].1,
        forall|a: int|
            0 <= a < align_state(chars, ends, n).0.len() ==> #[trigger] align_state(
                chars,
                ends,
                n,
            ).0[a].1 <= align_state(chars, ends, n).3,
    decreases n,
{
    if n > 0 {
        lemma_align_state_ordered(chars, ends, n - 1);
        let (ws, cur, ce, le) = align_state(chars, ends, n - 1);
        let st = align_state(chars, ends, n);
        let ch = chars[n - 1];
        if crate::text::trim(ch).len() == 0 && cur.len() > 0 {
            let le2 = max_nat(ce, le);
            assert(st.0 == ws.push((cur, le2)));
            assert(st.3 == le2);
            assert forall|a: int| 0 <= a < st.0.len() implies #[trigger] st.0[a].1 <= st.3 by {
                if a < ws.len() {
                    assert(st.0[a] == ws[a]);
                }
            }
            assert forall|a: int, b: int| 0 <= a <= b < st.0.len() implies st.0[a].1
                <= st.0[b].1 by {
                if b < ws.len() {
                    assert(st.0[a] == ws[a]);
                    assert(st.0[b] == ws[b]);
                } else if a < ws.len() {
                    assert(st.0[a] == ws[a]);
                }
            }
        } else {
            assert(st.0 == ws);
            assert(st.3 == le);
        }
    }
}

/// Aligned word ends never decrease.
pub proof fn lemma_aligned_words_ordered(chars: Seq<Seq<char>>, ends: Seq<u64>, a: int, b: int)
    requires
        0 <= a <= b < aligned_words(chars, ends).len(),
    ensures
        aligned_words(chars, ends)[a].1 <= aligned_words(chars, ends)[b].1,
{
    lemma_align_state_ordered(chars, ends, chars.len() as int);
    let st = align_state(chars, ends, chars.len() as int);
    if st.1.len() > 0 && b == st.0.len() {
        if a < b {
            assert(aligned_words(chars, ends)[a] == st.0[a]);
        }
    } else if st.1.len() > 0 {
        assert(aligned_words(chars, ends)[a] == st.0[a]);
        assert(aligned_words(chars, ends)[b] == st.0[b]);
    }
}

/// An alignment entry that holds only whitespace (it separates words).
pub open spec fn blank(c: Seq<char>) -> bool {
    crate::text::trim(c).len() == 0
}

/// The time of entry `i`, or `prev` where the times run out.
pub open spec fn time_at(ends: Seq<u64>, i: int, prev: nat) -> nat {
    if 0 <= i < ends.len() {
        ends[i] as nat
    } else {
        prev
    }
}

/// Alongside `align_state`: the runs of non-blank entries closed after
/// `n` entries, and where the run being collected starts.
spec fn align_runs(chars: Seq<Seq<char>>, n: int) -> (Seq<(int, int)>, int)
    decreases n,
{
    if n <= 0 {
        (Seq::empty(), 0)
    } else {
        let (bs, cs) = align_runs(chars, n - 1);
        if blank(chars[n - 1]) {
            if cs < n - 1 {
                (bs.push((cs, n - 1)), n)
            } else {
                (bs, n)
            }
        } else {
            (bs, cs)
        }
    }
}

/// The run-by-run reading of `align_state` after `n` entries.
spec fn runs_match(chars: Seq<Seq<char>>, ends: Seq<u64>, n: int) -> bool {
    let st = align_state(chars, ends, n);
    let (bs, cs) = align_runs(chars, n);
    &&& 0 <= cs <= n
    &&& st.1 == chars.subrange(cs, n).flatten()
    &&& (st.1.len() > 0 <==> cs < n)
    &&& (cs < n ==> st.2 == time_at(ends, n - 1, st.3))
    &&& (cs == 0 || blank(chars[cs - 1]))
    &&& (forall|i: int| cs <= i < n ==> !blank(#[trigger] chars[i]))
    &&& bs.len() == st.0.len()
    &&& st.3 == (if st.0.len() == 0 { 0 } else { st.0.last().1 })
    &&& (bs.len() > 0 ==> bs.last().1 < cs)
    &&& (forall|k: int| 0 <= k < bs.len() ==> run_ok(chars, ends, st.0, bs, k))
    &&& (forall|k: int| 0 <= k < bs.len() ==> #[trigger] bs[k].1 < n)
    &&& (forall|i: int|
        0 <= i < n && !blank(#[trigger] chars[i]) ==> cs <= i || exists|k: int|
            #![trigger bs[k]] 0 <= k < bs.len() && bs[k].0 <= i < bs[k].1)
}

/// Word `k` of `ws` is the run `bs[k]`: a maximal run of non-blank
/// entries, after the previous run; its text is the run's entries laid end
/// to end; its end is the time of the run's last entry, raised to the end
/// before it.
pub open spec fn run_ok(
    chars: Seq<Seq<char>>,
    ends: Seq<u64>,
    ws: Seq<(Seq<char>, nat)>,
    bs: Seq<(int, int)>,
    k: int,
) -> bool {
    let (s, e) = bs[k];
    let prev: nat = if k == 0 { 0 } else { ws[k - 1].1 };
    &&& 0 <= s < e <= chars.len()
    &&& (k == 0 || bs[k - 1].1 < s)
    &&& (s == 0 || blank(chars[s - 1]))
    &&& (e == chars.len() || blank(chars[e]))
    &&& (forall|i: int| s <= i < e ==> !blank(#[trigger] chars[i]))
    &&& ws[k].0 == chars.subrange(s, e).flatten()
    &&& ws[k].0.len() > 0
    &&& ws[k].1 == max_nat(prev, time_at(ends, e - 1, prev))
}

proof fn lemma_nonblank_nonempty(c: Seq<char>)
    requires
        !blank(c),
    ensures
        c.len() > 0,
{
    crate::text::lemma_trim_props(c);
}

proof fn lemma_runs_match(chars: Seq<Seq<char>>, ends: Seq<u64>, n: int)
    requires
        0 <= n <= chars.len(),
    ensures
        runs_match(chars, ends, n),
    decreases n,
{
    if n == 0 {
        assert(chars.subrange(0, 0) =~= Seq::<Seq<char>>::empty());
        assert(Seq::<Seq<char>>::empty().flatten() =~= Seq::<char>::empty());
    } else {
        lemma_runs_match(chars, ends, n - 1);
        let (ws, cur, ce, le) = align_state(chars, ends, n - 1);
        let (bs, cs) = align_runs(chars, n - 1);
        let st = align_state(chars, ends, n);
        let (bs2, cs2) = align_runs(chars, n);
        let ch = chars[n - 1];
        if blank(ch) {
            assert(cs2 == n);
            assert(chars.subrange(n, n) =~= Seq::<Seq<char>>::empty());
            assert(Seq::<Seq<char>>::empty().flatten() =~= Seq::<char>::empty());
            if cs < n - 1 {
                let le2 = max_nat(ce, le);
                assert(cur.len() > 0);
                assert(st.0 == ws.push((cur, le2)));
                assert(bs2 == bs.push((cs, n - 1)));
                assert(st.3 == le2);
                assert(forall|k: int| 0 <= k < bs.len() ==> #[trigger] bs2[k] == bs[k]);
                assert(forall|k: int| 0 <= k < ws.len() ==> #[trigger] st.0[k] == ws[k]);
                assert forall|k: int| 0 <= k < bs2.len() implies run_ok(chars, ends, st.0, bs2, k) by {
                    if k < bs.len() {
                        assert(run_ok(chars, ends, ws, bs, k));
                        if k > 0 {
                            assert(st.0[k - 1] == ws[k - 1]);
                            assert(bs2[k - 1] == bs[k - 1]);
                        }
                    } else {
                        assert(k == ws.len());
                        if k > 0 {
                            assert(st.0[k - 1] == ws[k - 1]);
                            assert(bs2[k - 1] == bs[k - 1]);
                        }
                        assert(st.0[k] == (cur, le2));
                    }
                }
                assert forall|i: int| 0 <= i < n && !blank(#[trigger] chars[i]) implies cs2 <= i
                    || exists|k: int| #![trigger bs2[k]] 0 <= k < bs2.len() && bs2[k].0 <= i < bs2[k].1 by {
                    if i < n - 1 {
                        if cs <= i {
                            assert(bs2[bs.len() as int] == (cs, n - 1));
                        } else {
                            let k = choose|k: int| #![trigger bs[k]] 0 <= k < bs.len() && bs[k].0 <= i < bs[k].1;
                            assert(bs2[k] == bs[k]);
                        }
                    }
                }
            } else {
                assert(cs == n - 1);
                assert(st.0 == ws);
                assert(bs2 == bs);
                assert(cur.len() == 0);
            }
        } else {
            lemma_nonblank_nonempty(ch);
            assert(cs2 == cs);
            assert(bs2 == bs);
            assert(st.0 == ws);
            assert(st.1 == cur + ch);
            assert(st.3 == le);
            assert(chars.subrange(cs, n) =~= chars.subrange(cs, n - 1).push(ch));
            chars.subrange(cs, n - 1).lemma_flatten_push(ch);
        }
    }
}

/// Provider alignment read run by run: the words are the maximal runs of
/// non-blank entries, in order (`runs[k]` is word `k`'s first entry and
/// the entry after its last); every non-blank entry lies in one of them;
/// a word's text is its run's entries laid end to end, never empty; and a
/// word ends at the time of its run's last entry, raised to the end of
/// the word before it (a run past the times ends with the word before),
/// so ends never decrease.
pub proof fn lemma_aligned_runs(chars: Seq<Seq<char>>, ends: Seq<u64>) -> (runs: Seq<(int, int)>)
    ensures
        runs.len() == aligned_words(chars, ends).len(),
        forall|a: int, b: int|
            0 <= a <= b < runs.len() ==> #[trigger] aligned_words(chars, ends)[a].1 <= #[trigger] aligned_words(chars, ends)[b].1,
        forall|k: int| 0 <= k < runs.len() ==> run_ok(chars, ends, aligned_words(chars, ends), runs, k),
        forall|i: int|
            0 <= i < chars.len() && !blank(#[trigger] chars[i]) ==> exists|k: int|
                #![trigger runs[k]] 0 <= k < runs.len() && runs[k].0 <= i < runs[k].1,
{
    let n = chars.len() as int;
    assert forall|a: int, b: int| 0 <= a <= b < aligned_words(chars, ends).len() implies
        #[trigger] aligned_words(chars, ends)[a].1 <= #[trigger] aligned_words(chars, ends)[b].1 by {
        lemma_aligned_words_ordered(chars, ends, a, b);
    }
    lemma_runs_match(chars, ends, n);
    let (ws, cur, ce, le) = align_state(chars, ends, n);
    let (bs, cs) = align_runs(chars, n);
    let aw = aligned_words(chars, ends);
    if cs < n {
        let runs = bs.push((cs, n));
        assert(aw == ws.push((cur, max_nat(ce, le))));
        assert(forall|k: int| 0 <= k < bs.len() ==> #[trigger] runs[k] == bs[k]);
        assert(forall|k: int| 0 <= k < ws.len() ==> #[trigger] aw[k] == ws[k]);
        assert forall|k: int| 0 <= k < runs.len() implies run_ok(chars, ends, aw, runs, k) by {
            if k < bs.len() {
                assert(run_ok(chars, ends, ws, bs, k));
                if k > 0 {
                    assert(aw[k - 1] == ws[k - 1]);
                    assert(runs[k - 1] == bs[k - 1]);
                }
            } else {
                if k > 0 {
                    assert(aw[k - 1] == ws[k - 1]);
                    assert(runs[k - 1] == bs[k - 1]);
                }
            }
        }
        assert forall|i: int| 0 <= i < chars.len() && !blank(#[trigger] chars[i]) implies exists|k: int|
            #![trigger runs[k]] 0 <= k < runs.len() && runs[k].0 <= i < runs[k].1 by {
            if cs <= i {
                assert(runs[bs.len() as int] == (cs, n));
            } else {
                let k = choose|k: int| #![trigger bs[k]] 0 <= k < bs.len() && bs[k].0 <= i < bs[k].1;
                assert(runs[k] == bs[k]);
            }
        }
        runs
    } else {
        assert(aw == ws);
        assert forall|k: int| 0 <= k < bs.len() implies run_ok(chars, ends, aw, bs, k) by {
            assert(run_ok(chars, ends, ws, bs, k));
        }
        bs
    }
}

/// Provider alignment placed in the buffer: offsets are relative to the
/// sentence's first sample, and no word ends past the sentence's audio.
pub fn place_aligned(words: &Vec<WordEnd>, sent_start: u64, sent_len: u64) -> (r: Vec<WordEnd>)
    requires
        sent_start + sent_len <= u64::MAX,
    ensures
        r.len() == words.len(),
        forall|k: int|
            0 <= k < r.len() ==> (#[trigger] r[k]).text@ == words[k].text@ && r[k].end == sent_start
                + (if words[k].end <= sent_len {
                words[k].end
            } else {
                sent_len
            }),
{
    let mut out: Vec<WordEnd> = Vec::new();
    let mut k: usize = 0;
    while k < words.len()
        invariant
            k <= words.len(),
            sent_start + sent_len <= u64::MAX,
            out.len() == k,
            forall|q: int|
                0 <= q < k ==> (#[trigger] out@[q]).text@ == words[q].text@ && out@[q].end
                    == sent_start + (if words[q].end <= sent_len {
                    words[q].end
                } else {
                    sent_len
                }),
        decreases words.len() - k,
    {
        let e = if words[k].end <= sent_len {
            words[k].end
        } else {
            sent_len
        };
        let ghost before = out@;
        out.push(WordEnd { text: words[k].text.clone(), end: sent_start + e });
        k += 1;
        proof {
            assert forall|q: int| 0 <= q < k implies (#[trigger] out@[q]).text@ == words[q].text@
                && out@[q].end == sent_start + (if words[q].end <= sent_len {
                words[q].end
            } else {
                sent_len
            }) by {
                if q < k - 1 {
                    assert(out@[q] == before[q]);
                }
            }
        }
    }
    out
}

} // verus!

verus! {

/// Provider alignment, when it is usable: characters and their end
/// positions in parallel, non-empty and of equal length.
pub fn alignment_words(chars: &Vec<String>, ends: &Vec<u64>) -> (r: Option<Vec<WordEnd>>)
    ensures
        chars.len() == 0 || chars.len() != ends.len() ==> r is None,
        chars.len() > 0 && chars.len() == ends.len() ==> (r matches Some(w) && w@.map_values(
            |x: WordEnd| word_view(x),
        ) == aligned_words(chars.deep_view(), ends@)),
{
    if chars.len() == 0 || chars.len() != ends.len() {
        None
    } else {
        Some(words_from_char_ends(chars, ends))
    }
}

} // verus!

verus! {

/// The words of one synthesized sentence, placed on the timeline: the
/// provider's alignment when it gave one (relative ends, cut at the
/// sentence's length), else ends estimated by character weight. Every end
/// lies within the sentence's span.
pub fn sentence_words(timed: Option<Vec<WordEnd>>, sentence: &str, sent_start: u64, sent_len: u64) -> (r: Vec<WordEnd>)
    requires
        sent_start + sent_len <= u64::MAX,
        utf8_len(sentence@) <= isize::MAX,
    ensures
        forall|k: int| 0 <= k < r.len() ==> sent_start <= (#[trigger] r[k]).end <= sent_start + sent_len,
        match timed {
            Some(w) => r.len() == w.len() && forall|k: int|
                0 <= k < r.len() ==> (#[trigger] r[k]).text@ == w[k].text@ && r[k].end == sent_start
                    + (if w[k].end <= sent_len { w[k].end } else { sent_len }),
            None => r.len() == words_of(sentence@).len() && forall|k: int|
                0 <= k < r.len() ==> (#[trigger] r[k]).text@ == words_of(sentence@)[k] && r[k].end
                    == estimated_end(sent_start as nat, sent_len as nat, words_of(sentence@), k),
        },
{
    match timed {
        Some(w) => place_aligned(&w, sent_start, sent_len),
        None => {
            let r = estimate_word_ends(sentence, sent_start, sent_len);
            proof {
                assert forall|k: int| 0 <= k < r.len() implies sent_start <= (#[trigger] r[k]).end
                    <= sent_start + sent_len by {
                    lemma_estimated_ends_ordered(sent_start as nat, sent_len as nat, words_of(sentence@), k, k);
                }
            }
            r
        },
    }
}

/// One submitted text in the reader's transcript: its words with their end
/// positions, and the span of samples it was spoken over.
pub struct Utterance {
    pub words: Vec<WordEnd>,
    pub start: u64,
    pub end: u64,
    pub done: bool,
}

impl Utterance {
    /// Every word ends within the utterance's span.
    pub open spec fn bounded(&self) -> bool {
        &&& self.start <= self.end
        &&& forall|k: int| 0 <= k < self.words.len() ==> self.start <= (#[trigger] self.words[k]).end <= self.end
    }

    /// A new utterance starting at sample `start`, empty so far.
    pub fn begin(start: u64) -> (u: Utterance)
        ensures
            u.words.len() == 0,
            u.start == start,
            u.end == start,
            !u.done,
            u.bounded(),
    {
        Utterance { words: Vec::new(), start, end: start, done: false }
    }

    /// A sentence spoken over `sent_start..sent_start + sent_len`, with its
    /// placed words.
    pub fn add_sentence(&mut self, words: Vec<WordEnd>, sent_start: u64, sent_len: u64)
        requires
            old(self).bounded(),
            old(self).end <= sent_start,
            sent_start + sent_len <= u64::MAX,
            forall|k: int| 0 <= k < words.len() ==> sent_start <= (#[trigger] words[k]).end <= sent_start + sent_len,
        ensures
            final(self).words@ == old(self).words@ + words@,
            final(self).start == old(self).start,
            final(self).end == sent_start + sent_len,
            final(self).done == old(self).done,
            final(self).bounded(),
    {
        let mut words = words;
        let ghost added = words@;
        self.words.append(&mut words);
        self.end = sent_start + sent_len;
        proof {
            assert forall|k: int| 0 <= k < self.words.len() implies self.start <= (
            #[trigger] self.words[k]).end <= self.end by {
                if k >= old(self).words.len() {
                    assert(self.words[k] == added[k - old(self).words.len()]);
                } else {
                    assert(self.words[k] == old(self).words[k]);
                }
            }
        }
    }

    /// A sentence that failed: the utterance ends where its audio stopped.
    pub fn cut(&mut self, sent_start: u64, sent_len: u64)
        requires
            old(self).bounded(),
            old(self).end <= sent_start,
            sent_start + sent_len <= u64::MAX,
        ensures
            final(self).words@ == old(self).words@,
            final(self).start == old(self).start,
            final(self).end == sent_start + sent_len,
            final(self).done == old(self).done,
            final(self).bounded(),
    {
        self.end = sent_start + sent_len;
        assert forall|k: int| 0 <= k < self.words.len() implies self.start <= (
        #[trigger] self.words[k]).end <= self.end by {
            assert(self.words[k] == old(self).words[k]);
        }
    }

    /// Synthesis of the utterance is over.
    pub fn finish(&mut self)
        ensures
            final(self).words@ == old(self).words@,
            final(self).start == old(self).start,
            final(self).end == old(self).end,
            final(self).done,
    {
        self.done = true;
    }
}

} // verus!
