//! Splitting text into sentences of bounded length for incremental synthesis.

use vstd::prelude::*;
use crate::text::{
    char_utf8_width, chars_of, is_whitespace, lemma_all_ws_strip, lemma_strip_ws_concat,
    lemma_trim_props, string_of_range, strip_ws, trim, trim_bounds, utf8_len, utf8_width,
    all_whitespace, lemma_trim_parts,
};

verus! {

/// Characters that end a sentence.
pub open spec fn is_break(c: char) -> bool {
    c == '.' || c == '!' || c == '?' || c == ';' || c == ':' || c == '\n'
}

/// A chunk is cut once it holds more than this many bytes.
pub open spec fn max_chunk_bytes() -> nat {
    300
}

/// After reading `s`: the sentences emitted so far, and the text collected
/// since the last cut. A cut happens after a break character or once the
/// collected text exceeds 300 bytes; the cut text is emitted trimmed unless
/// it is only whitespace.
pub open spec fn chunk_state(s: Seq<char>) -> (Seq<Seq<char>>, Seq<char>)
    decreases s.len(),
{
    if s.len() == 0 {
        (Seq::empty(), Seq::empty())
    } else {
        let (out, cur) = chunk_state(s.drop_last());
        let cur2 = cur.push(s.last());
        if is_break(s.last()) || utf8_len(cur2) > max_chunk_bytes() {
            (if trim(cur2).len() == 0 {
                out
            } else {
                out.push(trim(cur2))
            }, Seq::empty())
        } else {
            (out, cur2)
        }
    }
}

/// The sentences of `s`: those cut while reading, then the trimmed rest.
pub open spec fn sentences_of(s: Seq<char>) -> Seq<Seq<char>> {
    let (out, cur) = chunk_state(s);
    if trim(cur).len() == 0 {
        out
    } else {
        out.push(trim(cur))
    }
}

fn is_break_char(c: char) -> (r: bool)
    ensures
        r == is_break(c),
{
    c == '.' || c == '!' || c == '?' || c == ';' || c == ':' || c == '\n'
}

/// Split text into sentences (bounded length) for incremental synthesis.
pub fn sentences(text: &str) -> (out: Vec<String>)
    ensures
        out.deep_view() == sentences_of(text@),
{
    let v = chars_of(text);
    let mut out: Vec<String> = Vec::new();
    let mut start: usize = 0;
    let mut bytes: usize = 0;
    let mut i: usize = 0;
    proof {
        assert(v@.take(0) =~= Seq::<char>::empty());
        assert(out.deep_view() =~= Seq::<Seq<char>>::empty());
        assert(v@.subrange(0, 0) =~= Seq::<char>::empty());
    }
    while i < v.len()
        invariant
            v@ == text@,
            start <= i <= v.len(),
            chunk_state(v@.take(i as int)) == (out.deep_view(), v@.subrange(
                start as int,
                i as int,
            )),
            bytes == utf8_len(v@.subrange(start as int, i as int)),
            bytes <= max_chunk_bytes(),
        decreases v.len() - i,
    {
        let c = v[i];
        let ghost cur = v@.subrange(start as int, i as int);
        bytes = bytes + char_utf8_width(c);
        proof {
            assert(v@.take(i + 1).drop_last() =~= v@.take(i as int));
            assert(v@.take(i + 1).last() == c);
            assert(cur.push(c) =~= v@.subrange(start as int, i + 1));
            assert(cur.push(c).drop_last() =~= cur);
        }
        if is_break_char(c) || bytes > 300 {
            let (a, b) = trim_bounds(&v, start, i + 1);
            if a < b {
                let piece = string_of_range(&v, a, b);
                out.push(piece);
            }
            start = i + 1;
            bytes = 0;
            i = i + 1;
            proof {
                assert(v@.subrange(start as int, i as int) =~= Seq::<char>::empty());
            }
        } else {
            i = i + 1;
        }
    }
    proof {
        assert(v@.take(v.len() as int) =~= text@);
    }
    let (a, b) = trim_bounds(&v, start, v.len());
    if a < b {
        let piece = string_of_range(&v, a, b);
        out.push(piece);
    }
    out
}

} // verus!

verus! {

/// The sentences written one after another.
pub open spec fn flatten(q: Seq<Seq<char>>) -> Seq<char>
    decreases q.len(),
{
    if q.len() == 0 {
        Seq::empty()
    } else {
        flatten(q.drop_last()) + q.last()
    }
}

/// A sentence as `sentences` emits it: non-empty, trimmed at both ends, and
/// at most 304 bytes (a cut happens as soon as 300 are exceeded, by at most
/// one character of four bytes).
pub open spec fn well_cut(x: Seq<char>) -> bool {
    &&& x.len() > 0
    &&& !is_whitespace(x[0])
    &&& !is_whitespace(x.last())
    &&& utf8_len(x) <= max_chunk_bytes() + 4
}

proof fn lemma_utf8_width_bound(c: char)
    ensures
        1 <= utf8_width(c) <= 4,
{
}

proof fn lemma_chunk_state(s: Seq<char>)
    ensures
        forall|k: int| 0 <= k < chunk_state(s).0.len() ==> well_cut(#[trigger] chunk_state(s).0[k]),
        utf8_len(chunk_state(s).1) <= max_chunk_bytes(),
        strip_ws(flatten(chunk_state(s).0)) + strip_ws(chunk_state(s).1) == strip_ws(s),
    decreases s.len(),
{
    if s.len() == 0 {
        assert(strip_ws(flatten(Seq::<Seq<char>>::empty())) + strip_ws(Seq::<char>::empty())
            =~= strip_ws(s));
    } else {
        let p = s.drop_last();
        let c = s.last();
        lemma_chunk_state(p);
        let (out, cur) = chunk_state(p);
        let cur2 = cur.push(c);
        lemma_utf8_width_bound(c);
        assert(cur2.drop_last() =~= cur);
        assert(p + seq![c] =~= s);
        assert(cur + seq![c] =~= cur2);
        lemma_strip_ws_concat(p, seq![c]);
        lemma_strip_ws_concat(cur, seq![c]);
        if is_break(c) || utf8_len(cur2) > max_chunk_bytes() {
            lemma_trim_props(cur2);
            let t = trim(cur2);
            if t.len() == 0 {
                lemma_all_ws_strip(cur2);
                assert(strip_ws(flatten(out)) + strip_ws(Seq::<char>::empty()) =~= strip_ws(
                    flatten(out),
                ));
                assert(strip_ws(cur) + strip_ws(seq![c]) =~= Seq::<char>::empty());
                assert(strip_ws(flatten(out)) + strip_ws(cur) + strip_ws(seq![c]) =~= strip_ws(
                    flatten(out),
                ) + (strip_ws(cur) + strip_ws(seq![c])));
            } else {
                let o2 = out.push(t);
                assert(o2.drop_last() =~= out);
                lemma_strip_ws_concat(flatten(out), t);
                assert(strip_ws(flatten(o2)) + strip_ws(Seq::<char>::empty()) =~= strip_ws(
                    flatten(o2),
                ));
                assert(strip_ws(flatten(out)) + strip_ws(cur) + strip_ws(seq![c]) =~= strip_ws(
                    flatten(out),
                ) + (strip_ws(cur) + strip_ws(seq![c])));
                assert forall|k: int| 0 <= k < o2.len() implies well_cut(#[trigger] o2[k]) by {
                    if k < out.len() {
                        assert(o2[k] == out[k]);
                    }
                }
            }
        } else {
            assert(strip_ws(flatten(out)) + strip_ws(cur) + strip_ws(seq![c]) =~= strip_ws(
                flatten(out),
            ) + (strip_ws(cur) + strip_ws(seq![c])));
        }
    }
}

/// Every sentence is non-empty, trimmed at both ends and at most 304 bytes
/// long; and splitting loses and reorders nothing but whitespace: the
/// sentences read one after another hold exactly the input's non-whitespace
/// characters, in order.
pub proof fn lemma_sentences_cover_text(s: Seq<char>)
    ensures
        forall|k: int| 0 <= k < sentences_of(s).len() ==> well_cut(#[trigger] sentences_of(s)[k]),
        strip_ws(flatten(sentences_of(s))) == strip_ws(s),
{
    lemma_chunk_state(s);
    let (out, cur) = chunk_state(s);
    lemma_trim_props(cur);
    let t = trim(cur);
    if t.len() == 0 {
        lemma_all_ws_strip(cur);
        assert(strip_ws(flatten(out)) + strip_ws(cur) =~= strip_ws(flatten(out)));
    } else {
        let o2 = out.push(t);
        assert(o2.drop_last() =~= out);
        lemma_strip_ws_concat(flatten(out), t);
        assert forall|k: int| 0 <= k < o2.len() implies well_cut(#[trigger] o2[k]) by {
            if k < out.len() {
                assert(o2[k] == out[k]);
            }
        }
    }
}

} // verus!

verus! {

/// A sentence holds no break character except possibly as its last, and
/// does not end in a newline (so it holds none).
pub open spec fn clean_piece(x: Seq<char>) -> bool {
    &&& forall|k: int| 0 <= k < x.len() - 1 ==> !is_break(#[trigger] x[k])
    &&& x.len() > 0 ==> x.last() != '\n'
}

pub open spec fn no_break(x: Seq<char>) -> bool {
    forall|k: int| 0 <= k < x.len() ==> !is_break(#[trigger] x[k])
}

/// The gaps `ws` and the pieces `r` interleaved: `ws[0] + r[0] + ws[1] +
/// ... + r[n-1] + ws[n]`.
pub open spec fn interleave(ws: Seq<Seq<char>>, r: Seq<Seq<char>>) -> Seq<char>
    decreases r.len(),
{
    if r.len() == 0 {
        if ws.len() > 0 {
            ws[0]
        } else {
            Seq::empty()
        }
    } else {
        interleave(ws.drop_last(), r.drop_last()) + r.last() + ws.last()
    }
}

proof fn lemma_interleave_extend(ws: Seq<Seq<char>>, r: Seq<Seq<char>>, x: Seq<char>)
    requires
        ws.len() == r.len() + 1,
    ensures
        interleave(ws.update(ws.len() - 1, ws.last() + x), r) == interleave(ws, r) + x,
{
    let w2 = ws.update(ws.len() - 1, ws.last() + x);
    if r.len() == 0 {
        assert(w2[0] == ws[0] + x);
    } else {
        assert(w2.drop_last() =~= ws.drop_last());
        assert(interleave(ws, r) + x =~= interleave(ws.drop_last(), r.drop_last()) + r.last() + (ws.last() + x));
    }
}

proof fn lemma_ws_concat(a: Seq<char>, b: Seq<char>)
    requires
        all_whitespace(a),
        all_whitespace(b),
    ensures
        all_whitespace(a + b),
{
    assert forall|k: int| 0 <= k < (a + b).len() implies is_whitespace(#[trigger] (a + b)[k]) by {
        if k < a.len() {
            assert((a + b)[k] == a[k]);
        } else {
            assert((a + b)[k] == b[k - a.len()]);
        }
    }
}

/// Cutting the collected text `cur2` at a trimmed piece keeps the
/// interleaving: the whitespace before the piece joins the last gap, the
/// whitespace after it opens a new one.
proof fn lemma_cut_piece(ws: Seq<Seq<char>>, out: Seq<Seq<char>>, cur2: Seq<char>) -> (w2: Seq<Seq<char>>)
    requires
        ws.len() == out.len() + 1,
        forall|k: int| 0 <= k < ws.len() ==> all_whitespace(#[trigger] ws[k]),
        forall|k: int| 0 <= k < cur2.len() - 1 ==> !is_break(#[trigger] cur2[k]),
    ensures
        trim(cur2).len() == 0 ==> w2.len() == out.len() + 1 && interleave(w2, out) == interleave(ws, out) + cur2,
        trim(cur2).len() > 0 ==> w2.len() == out.len() + 2 && interleave(w2, out.push(trim(cur2)))
            == interleave(ws, out) + cur2 && clean_piece(trim(cur2)),
        forall|k: int| 0 <= k < w2.len() ==> all_whitespace(#[trigger] w2[k]),
{
    let (i, j) = lemma_trim_parts(cur2);
    let t = trim(cur2);
    let a = cur2.take(i);
    let b = cur2.skip(j);
    assert(a + t + b =~= cur2);
    let n = ws.len() - 1;
    if t.len() == 0 {
        lemma_ws_concat(a, b);
        assert(a + b =~= cur2);
        let w2 = ws.update(n, ws.last() + cur2);
        lemma_interleave_extend(ws, out, cur2);
        lemma_ws_concat(ws.last(), cur2);
        assert forall|k: int| 0 <= k < w2.len() implies all_whitespace(#[trigger] w2[k]) by {
            if k < n {
                assert(w2[k] == ws[k]);
            }
        }
        w2
    } else {
        let w1 = ws.update(n, ws.last() + a);
        let w2 = w1.push(b);
        lemma_interleave_extend(ws, out, a);
        let o2 = out.push(t);
        assert(w2.drop_last() =~= w1);
        assert(o2.drop_last() =~= out);
        assert(interleave(w2, o2) == interleave(w1, out) + t + b);
        assert(interleave(ws, out) + a + t + b =~= interleave(ws, out) + cur2);
        lemma_ws_concat(ws.last(), a);
        assert forall|k: int| 0 <= k < w2.len() implies all_whitespace(#[trigger] w2[k]) by {
            if k < n {
                assert(w2[k] == ws[k]);
            }
        }
        assert forall|k: int| 0 <= k < t.len() - 1 implies !is_break(#[trigger] t[k]) by {
            assert(t[k] == cur2[i + k]);
        }
        assert(t.last() == cur2[j - 1]);
        assert(!is_whitespace(t.last())) by {
            lemma_trim_props(cur2);
        }
        w2
    }
}

proof fn lemma_chunk_gaps(s: Seq<char>) -> (ws: Seq<Seq<char>>)
    ensures
        ws.len() == chunk_state(s).0.len() + 1,
        forall|k: int| 0 <= k < ws.len() ==> all_whitespace(#[trigger] ws[k]),
        interleave(ws, chunk_state(s).0) + chunk_state(s).1 == s,
        forall|k: int| 0 <= k < chunk_state(s).0.len() ==> clean_piece(#[trigger] chunk_state(s).0[k]),
        no_break(chunk_state(s).1),
    decreases s.len(),
{
    if s.len() == 0 {
        let ws = seq![Seq::<char>::empty()];
        assert(interleave(ws, Seq::<Seq<char>>::empty()) + Seq::<char>::empty() =~= s);
        ws
    } else {
        let p = s.drop_last();
        let c = s.last();
        let ws0 = lemma_chunk_gaps(p);
        let (out, cur) = chunk_state(p);
        let cur2 = cur.push(c);
        assert(p.push(c) =~= s);
        assert(interleave(ws0, out) + cur2 =~= p.push(c));
        if is_break(c) || utf8_len(cur2) > max_chunk_bytes() {
            assert forall|k: int| 0 <= k < cur2.len() - 1 implies !is_break(#[trigger] cur2[k]) by {
                assert(cur2[k] == cur[k]);
            }
            let w2 = lemma_cut_piece(ws0, out, cur2);
            if trim(cur2).len() == 0 {
                assert(interleave(w2, out) + Seq::<char>::empty() =~= s);
                assert(no_break(Seq::<char>::empty()));
            } else {
                let o2 = out.push(trim(cur2));
                assert(interleave(w2, o2) + Seq::<char>::empty() =~= s);
                assert(no_break(Seq::<char>::empty()));
                assert forall|k: int| 0 <= k < o2.len() implies clean_piece(#[trigger] o2[k]) by {
                    if k < out.len() {
                        assert(o2[k] == out[k]);
                    }
                }
            }
            w2
        } else {
            assert forall|k: int| 0 <= k < cur2.len() implies !is_break(#[trigger] cur2[k]) by {
                if k < cur.len() {
                    assert(cur2[k] == cur[k]);
                }
            }
            ws0
        }
    }
}

/// The sentences of `s` are non-empty, trimmed, at most 304 bytes, hold no
/// newline and no break character but possibly as their last; and `s` is
/// exactly the sentences with whitespace-only gaps `ws` around them, so
/// nothing but whitespace is lost, added or reordered. There are no
/// sentences exactly when `s` is all whitespace.
pub proof fn lemma_sentences_pieces(s: Seq<char>) -> (ws: Seq<Seq<char>>)
    ensures
        forall|k: int| 0 <= k < sentences_of(s).len() ==> well_cut(#[trigger] sentences_of(s)[k])
            && clean_piece(sentences_of(s)[k]),
        ws.len() == sentences_of(s).len() + 1,
        forall|k: int| 0 <= k < ws.len() ==> all_whitespace(#[trigger] ws[k]),
        interleave(ws, sentences_of(s)) == s,
        sentences_of(s).len() == 0 <==> all_whitespace(s),
{
    lemma_sentences_cover_text(s);
    let ws0 = lemma_chunk_gaps(s);
    let (out, cur) = chunk_state(s);
    let r = sentences_of(s);
    let w2 = lemma_cut_piece(ws0, out, cur);
    if trim(cur).len() > 0 {
        assert forall|k: int| 0 <= k < r.len() implies clean_piece(#[trigger] r[k]) by {
            if k < out.len() {
                assert(r[k] == out[k]);
            }
        }
    }
    assert(interleave(w2, r) == s);
    if r.len() == 0 {
        assert(s == w2[0]);
    } else {
        let pre = interleave(w2.drop_last(), r.drop_last());
        assert(s == pre + r.last() + w2.last());
        assert(s[pre.len() as int] == r.last()[0]);
        assert(well_cut(r[r.len() - 1]));
    }
    w2
}

/// The characters after which a sentence ends: . ! ? ; : and newline.
pub open spec fn sentence_end(c: char) -> bool {
    c == '.' || c == '!' || c == '?' || c == ';' || c == ':' || c == '\n'
}

/// Text still being collected: no sentence end in it, and at most 300
/// bytes.
pub open spec fn uncut(c: Seq<char>) -> bool {
    &&& forall|i: int| 0 <= i < c.len() ==> !sentence_end(#[trigger] c[i])
    &&& utf8_len(c) <= 300
}

/// Text cut off as a chunk: it ends at a sentence end or is the first
/// stretch past 300 bytes, and nothing before its last character would
/// have cut it.
pub open spec fn cut_at_end(c: Seq<char>) -> bool {
    &&& c.len() > 0
    &&& (sentence_end(c.last()) || utf8_len(c) > 300)
    &&& uncut(c.drop_last())
}

/// The sentences the chunks give: each chunk trimmed, the blank ones left
/// out.
pub open spec fn spoken_chunks(cs: Seq<Seq<char>>) -> Seq<Seq<char>>
    decreases cs.len(),
{
    if cs.len() == 0 {
        Seq::empty()
    } else if trim(cs.last()).len() == 0 {
        spoken_chunks(cs.drop_last())
    } else {
        spoken_chunks(cs.drop_last()).push(trim(cs.last()))
    }
}

proof fn lemma_chunk_state_cuts(s: Seq<char>) -> (cl: Seq<Seq<char>>)
    ensures
        flatten(cl) + chunk_state(s).1 == s,
        forall|k: int| 0 <= k < cl.len() ==> cut_at_end(#[trigger] cl[k]),
        uncut(chunk_state(s).1),
        chunk_state(s).0 == spoken_chunks(cl),
    decreases s.len(),
{
    if s.len() == 0 {
        let e = Seq::<Seq<char>>::empty();
        assert(flatten(e) + Seq::<char>::empty() =~= s);
        e
    } else {
        let p = s.drop_last();
        let c = s.last();
        let cl0 = lemma_chunk_state_cuts(p);
        let (out, cur) = chunk_state(p);
        let cur2 = cur.push(c);
        assert(cur2.drop_last() =~= cur);
        assert(is_break(c) == sentence_end(c));
        if is_break(c) || utf8_len(cur2) > max_chunk_bytes() {
            let cl = cl0.push(cur2);
            assert(cl.drop_last() =~= cl0);
            assert(flatten(cl) =~= flatten(cl0) + cur2);
            assert(flatten(cl0) + cur2 =~= (flatten(cl0) + cur).push(c));
            assert(p.push(c) =~= s);
            assert(flatten(cl) + Seq::<char>::empty() =~= s);
            assert forall|k: int| 0 <= k < cl.len() implies cut_at_end(#[trigger] cl[k]) by {
                if k < cl0.len() {
                    assert(cl[k] == cl0[k]);
                }
            }
            cl
        } else {
            assert forall|i: int| 0 <= i < cur2.len() implies !sentence_end(#[trigger] cur2[i]) by {
                if i < cur.len() {
                    assert(cur2[i] == cur[i]);
                }
            }
            assert(flatten(cl0) + cur2 =~= (flatten(cl0) + cur).push(c));
            assert(p.push(c) =~= s);
            cl0
        }
    }
}

/// How text is cut into sentences: it splits into chunks, laid end to end
/// without loss, each but the last ending at a sentence end (. ! ? ; : or
/// newline) or at the first character past 300 bytes, with no such cut
/// possible earlier in it, and the last holding no sentence end and at most
/// 300 bytes; the sentences are the chunks trimmed, blank ones left out.
/// So a text under 300 bytes with no sentence end is one sentence, itself
/// trimmed.
pub proof fn lemma_sentences_cut_where_they_end(s: Seq<char>) -> (cs: Seq<Seq<char>>)
    ensures
        cs.len() >= 1,
        flatten(cs) == s,
        forall|k: int| 0 <= k < cs.len() - 1 ==> cut_at_end(#[trigger] cs[k]),
        uncut(cs.last()),
        sentences_of(s) == spoken_chunks(cs),
{
    let cl = lemma_chunk_state_cuts(s);
    let cur = chunk_state(s).1;
    let cs = cl.push(cur);
    assert(cs.drop_last() =~= cl);
    assert forall|k: int| 0 <= k < cs.len() - 1 implies cut_at_end(#[trigger] cs[k]) by {
        assert(cs[k] == cl[k]);
    }
    cs
}

} // verus!
