//! Boiling a provider error down to a menu-sized reason, and the compact
//! text of an API failure.

use vstd::prelude::*;
use crate::text::{
    char_is_whitespace, chars_of, find, find_in, is_ascii_digit, is_whitespace, push_range, range_eq, string_of_range, utf8_len,
    utf8_len_below,
};

verus! {

/// The number of whitespace characters `s` starts with.
pub open spec fn leading_ws(s: Seq<char>) -> nat
    decreases s.len(),
{
    if s.len() > 0 && is_whitespace(s[0]) {
        1 + leading_ws(s.drop_first())
    } else {
        0
    }
}

/// The quoted string that directly follows the first occurrence of `key`
/// in `s` (whitespace allowed between): none when `key` is missing or its
/// value is not a string.
pub open spec fn quoted_after(s: Seq<char>, key: Seq<char>) -> Option<Seq<char>> {
    match find(s, key) {
        None => None,
        Some(i) => {
            let rest = s.skip(i + key.len());
            let w = leading_ws(rest) as int;
            if w < rest.len() && rest[w] == '"' {
                let r2 = rest.skip(w + 1);
                match find(r2, seq!['"']) {
                    None => None,
                    Some(e) => Some(r2.take(e)),
                }
            } else {
                None
            }
        },
    }
}

/// A token worth showing: non-empty, under 40 bytes, and not the generic
/// word "error".
pub open spec fn usable_token(t: Seq<char>) -> bool {
    t.len() > 0 && utf8_len(t) < 40 && t != "error"@
}

pub open spec fn token_for(s: Seq<char>, key: Seq<char>) -> Option<Seq<char>> {
    match quoted_after(s, key) {
        Some(t) => if usable_token(t) {
            Some(t)
        } else {
            None
        },
        None => None,
    }
}

pub open spec fn underscores_to_spaces(t: Seq<char>) -> Seq<char> {
    t.map_values(|c: char|
        if c == '_' {
            ' '
        } else {
            c
        })
}

/// The leading run of ASCII digits of `s`.
pub open spec fn digit_run(s: Seq<char>) -> Seq<char>
    decreases s.len(),
{
    if s.len() > 0 && is_ascii_digit(s[0]) {
        seq![s[0]] + digit_run(s.drop_first())
    } else {
        Seq::empty()
    }
}

/// The HTTP status number following the first "HTTP " in `s`, if any.
pub open spec fn http_code(s: Seq<char>) -> Option<Seq<char>> {
    match find(s, "HTTP "@) {
        Some(i) => if digit_run(s.skip(i + 5)).len() > 0 {
            Some(digit_run(s.skip(i + 5)))
        } else {
            None
        },
        None => None,
    }
}

/// The menu-sized reason: the API's `code`, then `type`, then `status`
/// string token (underscores read as spaces; a key whose value is not a
/// string is passed over), then the HTTP status, then the
/// message itself cut to 50 characters with an ellipsis.
pub open spec fn short_reason_of(msg: Seq<char>) -> Seq<char> {
    if token_for(msg, "\"code\":"@) is Some {
        underscores_to_spaces(token_for(msg, "\"code\":"@)->0)
    } else if token_for(msg, "\"type\":"@) is Some {
        underscores_to_spaces(token_for(msg, "\"type\":"@)->0)
    } else if token_for(msg, "\"status\":"@) is Some {
        underscores_to_spaces(token_for(msg, "\"status\":"@)->0)
    } else if http_code(msg) is Some {
        "HTTP "@ + http_code(msg)->0
    } else if msg.len() > 50 {
        msg.take(50).push('…')
    } else {
        msg
    }
}

/// Bounds in `v` of the quoted text after `key`.
fn quoted_bounds(v: &Vec<char>, key: &Vec<char>) -> (r: Option<(usize, usize)>)
    ensures
        match quoted_after(v@, key@) {
            Some(t) => r matches Some((a, b)) && a <= b <= v.len() && v@.subrange(
                a as int,
                b as int,
            ) == t,
            None => r is None,
        },
{
    let quote = vec!['"'];
    assert(quote@ =~= seq!['"']);
    assert(v@.skip(0) =~= v@);
    let i = match find_in(v, 0, key) {
        Some(i) => i,
        None => return None,
    };
    assert(find(v@, key@) == Some(i as int));
    let s1 = i + key.len();
    let ghost rest = v@.skip(s1 as int);
    let mut w = s1;
    while w < v.len() && char_is_whitespace(v[w])
        invariant
            s1 <= w <= v.len(),
            forall|q: int| s1 <= q < w ==> is_whitespace(#[trigger] v@[q]),
        decreases v.len() - w,
    {
        w += 1;
    }
    proof {
        lemma_leading_ws(v@, s1 as int, w as int);
    }
    if w >= v.len() || v[w] != '"' {
        return None;
    }
    assert(rest[w - s1] == v@[w as int]);
    assert(rest.skip((w - s1) + 1) =~= v@.skip(w + 1));
    let e = match find_in(v, w + 1, &quote) {
        Some(e) => e,
        None => {
            assert(find(v@.skip(w + 1), seq!['"']) is None);
            return None;
        },
    };
    assert(v@.skip(w + 1).take(e - (w + 1)) =~= v@.subrange(w + 1, e as int));
    Some((w + 1, e))
}

proof fn lemma_leading_ws(s: Seq<char>, from: int, j: int)
    requires
        0 <= from <= j <= s.len(),
        forall|q: int| from <= q < j ==> is_whitespace(#[trigger] s[q]),
        j == s.len() || !is_whitespace(s[j]),
    ensures
        leading_ws(s.skip(from)) == j - from,
    decreases j - from,
{
    if from == j {
        if j < s.len() {
            assert(s.skip(from)[0] == s[j]);
        }
    } else {
        lemma_leading_ws(s, from + 1, j);
        assert(s.skip(from).drop_first() =~= s.skip(from + 1));
        assert(s.skip(from)[0] == s[from]);
    }
}

/// Bounds of the usable token after `key`, if there is one.
fn token_bounds(v: &Vec<char>, key: &Vec<char>) -> (r: Option<(usize, usize)>)
    ensures
        match token_for(v@, key@) {
            Some(t) => r matches Some((a, b)) && a <= b <= v.len() && v@.subrange(
                a as int,
                b as int,
            ) == t,
            None => r is None,
        },
{
    match quoted_bounds(v, key) {
        Some((a, b)) => {
            let err = chars_of("error");
            if a < b && utf8_len_below(v, a, b, 40) && !range_eq(v, a, b, &err) {
                Some((a, b))
            } else {
                None
            }
        },
        None => None,
    }
}

fn push_spaced(out: &mut String, v: &Vec<char>, a: usize, b: usize)
    requires
        a <= b <= v.len(),
    ensures
        final(out)@ == old(out)@ + underscores_to_spaces(v@.subrange(a as int, b as int)),
{
    let mut k = a;
    while k < b
        invariant
            a <= k <= b <= v.len(),
            out@ == old(out)@ + underscores_to_spaces(v@.subrange(a as int, k as int)),
        decreases b - k,
    {
        let c = if v[k] == '_' {
            ' '
        } else {
            v[k]
        };
        out.push(c);
        k += 1;
        assert(out@ =~= old(out)@ + underscores_to_spaces(v@.subrange(a as int, k as int)));
    }
}

fn digit_run_end(v: &Vec<char>, from: usize) -> (j: usize)
    requires
        from <= v.len(),
    ensures
        from <= j <= v.len(),
        digit_run(v@.skip(from as int)) == v@.subrange(from as int, j as int),
{
    let mut j = from;
    while j < v.len() && (v[j] as u32) >= 0x30 && (v[j] as u32) <= 0x39
        invariant
            from <= j <= v.len(),
            forall|q: int| from <= q < j ==> is_ascii_digit(#[trigger] v@[q]),
        decreases v.len() - j,
    {
        j += 1;
    }
    proof {
        lemma_digit_run(v@, from as int, j as int);
    }
    j
}

proof fn lemma_digit_run(s: Seq<char>, from: int, j: int)
    requires
        0 <= from <= j <= s.len(),
        forall|q: int| from <= q < j ==> is_ascii_digit(#[trigger] s[q]),
        j == s.len() || !is_ascii_digit(s[j]),
    ensures
        digit_run(s.skip(from)) == s.subrange(from, j),
    decreases j - from,
{
    if from == j {
        if j < s.len() {
            assert(s.skip(from)[0] == s[j]);
        }
        assert(s.subrange(from, j) =~= Seq::<char>::empty());
    } else {
        lemma_digit_run(s, from + 1, j);
        assert(s.skip(from).drop_first() =~= s.skip(from + 1));
        assert(s.skip(from)[0] == s[from]);
        assert(seq![s[from]] + s.subrange(from + 1, j) =~= s.subrange(from, j));
    }
}

/// Boil a provider error down to a menu-sized reason: prefer the API's
/// error code/type token ("insufficient_quota" reads "insufficient quota"),
/// then the HTTP status, then a truncated message.
pub fn short_reason(msg: &str) -> (r: String)
    ensures
        r@ == short_reason_of(msg@),
{
    let v = chars_of(msg);
    let k1 = chars_of("\"code\":");
    let k2 = chars_of("\"type\":");
    let k3 = chars_of("\"status\":");
    let mut out = String::new();
    if let Some((a, b)) = token_bounds(&v, &k1) {
        push_spaced(&mut out, &v, a, b);
        return out;
    }
    if let Some((a, b)) = token_bounds(&v, &k2) {
        push_spaced(&mut out, &v, a, b);
        return out;
    }
    if let Some((a, b)) = token_bounds(&v, &k3) {
        push_spaced(&mut out, &v, a, b);
        return out;
    }
    let http = chars_of("HTTP ");
    assert(v@.skip(0) =~= v@);
    if let Some(i) = find_in(&v, 0, &http) {
        proof {
            reveal_strlit("HTTP ");
        }
        let j = digit_run_end(&v, i + 5);
        if j > i + 5 {
            let mut r = string_of_range(&v, i, i + 5);
            assert(v@.subrange(i as int, i + 5) =~= "HTTP "@);
            push_range(&mut r, &v, i + 5, j);
            return r;
        }
    }
    if v.len() > 50 {
        let mut r = string_of_range(&v, 0, 50);
        r.push('…');
        assert(v@.subrange(0, 50) =~= msg@.take(50));
        r
    } else {
        assert(v@.subrange(0, v@.len() as int) =~= msg@);
        string_of_range(&v, 0, v.len())
    }
}

/// A token the reason can show: non-empty, with no quote in it, under 40
/// bytes, and not the word "error".
pub open spec fn showable(t: Seq<char>) -> bool {
    &&& t.len() > 0
    &&& forall|i: int| 0 <= i < t.len() ==> #[trigger] t[i] != '"'
    &&& utf8_len(t) < 40
    &&& t != "error"@
}

proof fn lemma_quoted_value(p: Seq<char>, key: Seq<char>, t: Seq<char>, q: Seq<char>)
    requires
        find(p + key + seq!['"'] + t + seq!['"'] + q, key) == Some(p.len() as int),
        forall|i: int| 0 <= i < t.len() ==> #[trigger] t[i] != '"',
    ensures
        quoted_after(p + key + seq!['"'] + t + seq!['"'] + q, key) == Some(t),
{
    let msg = p + key + seq!['"'] + t + seq!['"'] + q;
    let rest = msg.skip((p.len() + key.len()) as int);
    assert(rest =~= seq!['"'] + t + seq!['"'] + q);
    assert(!is_whitespace('"'));
    assert(leading_ws(rest) == 0);
    let r2 = rest.skip(1);
    assert(r2 =~= t + seq!['"'] + q);
    let qt = seq!['"'];
    assert forall|k: int| 0 <= k < t.len() implies !crate::text::is_at(r2, qt, k) by {
        assert(r2.subrange(k, k + 1)[0] == t[k]);
    }
    crate::text::lemma_find_from_skip(r2, qt, 0, t.len() as int);
    assert(r2.subrange(t.len() as int, (t.len() + 1) as int) =~= qt);
    assert(r2.take(t.len() as int) =~= t);
}

/// The reason names the API's error token: the string value of the first
/// `"code":` key, else of `"type":`, else of `"status":` (underscores read
/// as spaces), when that value can be shown and no earlier key of the three
/// occurs at all.
pub proof fn lemma_reason_from_key(p: Seq<char>, key: Seq<char>, t: Seq<char>, q: Seq<char>)
    requires
        key == "\"code\":"@ || key == "\"type\":"@ || key == "\"status\":"@,
        find(p + key + seq!['"'] + t + seq!['"'] + q, key) == Some(p.len() as int),
        key != "\"code\":"@ ==> find(p + key + seq!['"'] + t + seq!['"'] + q, "\"code\":"@) is None,
        key == "\"status\":"@ ==> find(p + key + seq!['"'] + t + seq!['"'] + q, "\"type\":"@) is None,
        showable(t),
    ensures
        short_reason_of(p + key + seq!['"'] + t + seq!['"'] + q) == t.map_values(
            |c: char|
                if c == '_' {
                    ' '
                } else {
                    c
                },
        ),
{
    lemma_quoted_value(p, key, t, q);
    reveal_strlit("\"code\":");
    reveal_strlit("\"type\":");
    reveal_strlit("\"status\":");
    assert("\"code\":"@[1] == 'c' && "\"type\":"@[1] == 't' && "\"status\":"@[1] == 's');
    assert("\"code\":"@ != "\"type\":"@ && "\"code\":"@ != "\"status\":"@);
    assert("\"type\":"@ != "\"status\":"@);
}

proof fn lemma_digit_run_of(d: Seq<char>, q: Seq<char>)
    requires
        forall|i: int| 0 <= i < d.len() ==> is_ascii_digit(#[trigger] d[i]),
        q.len() == 0 || !is_ascii_digit(q[0]),
    ensures
        digit_run(d + q) == d,
    decreases d.len(),
{
    if d.len() == 0 {
        assert(d + q =~= q);
    } else {
        let d1 = d.drop_first();
        assert(forall|i: int| 0 <= i < d1.len() ==> #[trigger] d1[i] == d[i + 1]);
        lemma_digit_run_of(d1, q);
        assert((d + q).drop_first() =~= d1 + q);
        assert(seq![d[0]] + d1 =~= d);
    }
}

/// With none of the three keys in the message, the reason is its first
/// HTTP status: "HTTP " and the digits that follow the first "HTTP ".
pub proof fn lemma_reason_from_http(p: Seq<char>, d: Seq<char>, q: Seq<char>)
    requires
        find(p + "HTTP "@ + d + q, "\"code\":"@) is None,
        find(p + "HTTP "@ + d + q, "\"type\":"@) is None,
        find(p + "HTTP "@ + d + q, "\"status\":"@) is None,
        find(p + "HTTP "@ + d + q, "HTTP "@) == Some(p.len() as int),
        d.len() > 0,
        forall|i: int| 0 <= i < d.len() ==> is_ascii_digit(#[trigger] d[i]),
        q.len() == 0 || !is_ascii_digit(q[0]),
    ensures
        short_reason_of(p + "HTTP "@ + d + q) == "HTTP "@ + d,
{
    reveal_strlit("HTTP ");
    let msg = p + "HTTP "@ + d + q;
    assert(msg.skip((p.len() + 5) as int) =~= d + q);
    lemma_digit_run_of(d, q);
}

} // verus!
