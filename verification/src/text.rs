//! Character classes, trimming and conversions between `str`, `String` and
//! `Vec<char>` that the rest of the library is written against.

use vstd::prelude::*;

verus! {

/// `String::push` appends one character.
pub assume_specification[ String::push ](s: &mut String, ch: char)
    ensures
        final(s)@ == old(s)@.push(ch),
;

/// Unicode `White_Space`, the set `char::is_whitespace` tests.
pub open spec fn is_whitespace(c: char) -> bool {
    let n = c as u32;
    ||| n == 0x20
    ||| 0x09 <= n <= 0x0d
    ||| n == 0x85
    ||| n == 0xa0
    ||| n == 0x1680
    ||| 0x2000 <= n <= 0x200a
    ||| n == 0x2028
    ||| n == 0x2029
    ||| n == 0x202f
    ||| n == 0x205f
    ||| n == 0x3000
}

pub fn char_is_whitespace(c: char) -> (r: bool)
    ensures
        r == is_whitespace(c),
{
    let n = c as u32;
    n == 0x20 || (0x09 <= n && n <= 0x0d) || n == 0x85 || n == 0xa0 || n == 0x1680 || (0x2000
        <= n && n <= 0x200a) || n == 0x2028 || n == 0x2029 || n == 0x202f || n == 0x205f || n
        == 0x3000
}

/// ASCII letters and digits (`char::is_ascii_alphanumeric`).
pub open spec fn is_ascii_alnum(c: char) -> bool {
    let n = c as u32;
    ||| 0x30 <= n <= 0x39
    ||| 0x41 <= n <= 0x5a
    ||| 0x61 <= n <= 0x7a
}

pub fn char_is_ascii_alnum(c: char) -> (r: bool)
    ensures
        r == is_ascii_alnum(c),
{
    let n = c as u32;
    (0x30 <= n && n <= 0x39) || (0x41 <= n && n <= 0x5a) || (0x61 <= n && n <= 0x7a)
}

/// ASCII decimal digit (`char::is_ascii_digit`).
pub open spec fn is_ascii_digit(c: char) -> bool {
    0x30 <= c as u32 <= 0x39
}

/// Number of bytes of the UTF-8 encoding of `c` (`char::len_utf8`).
pub open spec fn utf8_width(c: char) -> nat {
    let n = c as u32;
    if n < 0x80 {
        1
    } else if n < 0x800 {
        2
    } else if n < 0x10000 {
        3
    } else {
        4
    }
}

/// Number of bytes of the UTF-8 encoding of `s` (`str::len`).
pub open spec fn utf8_len(s: Seq<char>) -> nat
    decreases s.len(),
{
    if s.len() == 0 {
        0
    } else {
        utf8_len(s.drop_last()) + utf8_width(s.last())
    }
}

pub fn char_utf8_width(c: char) -> (w: usize)
    ensures
        w == utf8_width(c),
        1 <= w <= 4,
{
    let n = c as u32;
    if n < 0x80 {
        1
    } else if n < 0x800 {
        2
    } else if n < 0x10000 {
        3
    } else {
        4
    }
}

/// `s` without its leading whitespace.
pub open spec fn trim_start(s: Seq<char>) -> Seq<char>
    decreases s.len(),
{
    if s.len() > 0 && is_whitespace(s[0]) {
        trim_start(s.drop_first())
    } else {
        s
    }
}

/// `s` without its trailing whitespace.
pub open spec fn trim_end(s: Seq<char>) -> Seq<char>
    decreases s.len(),
{
    if s.len() > 0 && is_whitespace(s.last()) {
        trim_end(s.drop_last())
    } else {
        s
    }
}

/// `str::trim`: both ends stripped of whitespace.
pub open spec fn trim(s: Seq<char>) -> Seq<char> {
    trim_end(trim_start(s))
}

/// Every character is whitespace (`s.trim().is_empty()`).
pub open spec fn all_whitespace(s: Seq<char>) -> bool {
    forall|i: int| 0 <= i < s.len() ==> is_whitespace(#[trigger] s[i])
}

pub proof fn lemma_trim_start_at(s: Seq<char>, i: int)
    requires
        0 <= i <= s.len(),
        forall|k: int| 0 <= k < i ==> is_whitespace(#[trigger] s[k]),
        i == s.len() || !is_whitespace(s[i]),
    ensures
        trim_start(s) == s.subrange(i, s.len() as int),
    decreases i,
{
    if i == 0 {
        assert(s.subrange(0, s.len() as int) =~= s);
    } else {
        let t = s.drop_first();
        assert forall|k: int| 0 <= k < i - 1 implies is_whitespace(#[trigger] t[k]) by {
            assert(t[k] == s[k + 1]);
        }
        assert(is_whitespace(s[0]));
        lemma_trim_start_at(t, i - 1);
        assert(t.subrange(i - 1, t.len() as int) =~= s.subrange(i, s.len() as int));
    }
}

pub proof fn lemma_trim_end_at(s: Seq<char>, j: int)
    requires
        0 <= j <= s.len(),
        forall|k: int| j <= k < s.len() ==> is_whitespace(#[trigger] s[k]),
        j == 0 || !is_whitespace(s[j - 1]),
    ensures
        trim_end(s) == s.subrange(0, j),
    decreases s.len() - j,
{
    if j == s.len() {
        assert(s.subrange(0, j) =~= s);
    } else {
        let t = s.drop_last();
        assert(is_whitespace(s.last()));
        assert forall|k: int| j <= k < t.len() implies is_whitespace(#[trigger] t[k]) by {
            assert(t[k] == s[k]);
        }
        if j > 0 {
            assert(t[j - 1] == s[j - 1]);
        }
        lemma_trim_end_at(t, j);
        assert(t.subrange(0, j) =~= s.subrange(0, j));
    }
}

/// The characters of a `str`, in order.
pub fn chars_of(s: &str) -> (v: Vec<char>)
    ensures
        v@ == s@,
{
    let mut v: Vec<char> = Vec::new();
    for c in it: s.chars()
        invariant
            v@ == it.seq().take(it.index() as int),
    {
        v.push(c);
    }
    v
}

/// A `String` holding `v[from..to]`.
pub fn string_of_range(v: &Vec<char>, from: usize, to: usize) -> (s: String)
    requires
        from <= to <= v.len(),
    ensures
        s@ == v@.subrange(from as int, to as int),
{
    let mut s = String::new();
    let mut i: usize = from;
    while i < to
        invariant
            from <= i <= to <= v.len(),
            s@ == v@.subrange(from as int, i as int),
        decreases to - i,
    {
        s.push(v[i]);
        i += 1;
        assert(s@ =~= v@.subrange(from as int, i as int));
    }
    s
}

/// A `String` holding all of `v`.
pub fn string_of(v: &Vec<char>) -> (s: String)
    ensures
        s@ == v@,
{
    let s = string_of_range(v, 0, v.len());
    assert(v@.subrange(0, v@.len() as int) =~= v@);
    s
}

/// Positions `(i, j)` with `v[i..j]` the trimmed text of `v[from..to]`.
pub fn trim_bounds(v: &Vec<char>, from: usize, to: usize) -> (r: (usize, usize))
    requires
        from <= to <= v.len(),
    ensures
        from <= r.0 <= r.1 <= to,
        v@.subrange(r.0 as int, r.1 as int) == trim(v@.subrange(from as int, to as int)),
{
    let ghost s = v@.subrange(from as int, to as int);
    let mut i = from;
    while i < to && char_is_whitespace(v[i])
        invariant
            from <= i <= to <= v.len(),
            s == v@.subrange(from as int, to as int),
            forall|k: int| from <= k < i ==> is_whitespace(#[trigger] v@[k]),
        decreases to - i,
    {
        i += 1;
    }
    proof {
        assert forall|k: int| 0 <= k < i - from implies is_whitespace(#[trigger] s[k]) by {
            assert(s[k] == v@[k + from]);
        }
        if i < to {
            assert(s[i - from] == v@[i as int]);
        }
        lemma_trim_start_at(s, i - from);
    }
    let ghost t = v@.subrange(i as int, to as int);
    assert(t =~= s.subrange(i - from, s.len() as int));
    let mut j = to;
    while j > i && char_is_whitespace(v[j - 1])
        invariant
            from <= i <= j <= to <= v.len(),
            t == v@.subrange(i as int, to as int),
            forall|k: int| j <= k < to ==> is_whitespace(#[trigger] v@[k]),
        decreases j - i,
    {
        j -= 1;
    }
    proof {
        assert forall|k: int| j - i <= k < t.len() implies is_whitespace(#[trigger] t[k]) by {
            assert(t[k] == v@[k + i]);
        }
        if j > i {
            assert(t[j - i - 1] == v@[j - 1]);
        }
        lemma_trim_end_at(t, j - i);
        assert(t.subrange(0, j - i) =~= v@.subrange(i as int, j as int));
    }
    (i, j)
}

/// `str::trim`, into a new `String`.
pub fn trim_str(s: &str) -> (r: String)
    ensures
        r@ == trim(s@),
{
    let v = chars_of(s);
    let (i, j) = trim_bounds(&v, 0, v.len());
    assert(v@.subrange(0, v@.len() as int) =~= v@);
    string_of_range(&v, i, j)
}

/// Decimal rendering of `n` (`n.to_string()`).
pub open spec fn decimal(n: nat) -> Seq<char>
    decreases n,
{
    if n < 10 {
        seq![digit_char(n)]
    } else {
        decimal(n / 10).push(digit_char(n % 10))
    }
}

pub open spec fn digit_char(d: nat) -> char {
    (0x30 + d) as char
}

pub fn decimal_string(n: u64) -> (s: String)
    ensures
        s@ == decimal(n as nat),
    decreases n,
{
    let d = (n % 10) as u32;
    let c = char_from_digit(d);
    if n < 10 {
        let mut s = String::new();
        s.push(c);
        assert(s@ =~= seq![c]);
        s
    } else {
        let mut s = decimal_string(n / 10);
        s.push(c);
        s
    }
}

fn char_from_digit(d: u32) -> (c: char)
    requires
        d < 10,
    ensures
        c == digit_char(d as nat),
{
    if d == 0 { '0' } else if d == 1 { '1' } else if d == 2 { '2' } else if d == 3 { '3' }
    else if d == 4 { '4' } else if d == 5 { '5' } else if d == 6 { '6' } else if d == 7 { '7' }
    else if d == 8 { '8' } else { '9' }
}

/// `s` padded with spaces on the right to at least `width` characters
/// (`format!("{:<width$}", s)`).
pub open spec fn pad_right(s: Seq<char>, width: nat) -> Seq<char> {
    if s.len() >= width {
        s
    } else {
        s + Seq::new((width - s.len()) as nat, |_i: int| ' ')
    }
}

pub fn push_padded(out: &mut String, s: &str, width: usize)
    ensures
        final(out)@ == old(out)@ + pad_right(s@, width as nat),
{
    let v = chars_of(s);
    let mut i: usize = 0;
    while i < v.len()
        invariant
            i <= v.len(),
            v@ == s@,
            out@ == old(out)@ + s@.take(i as int),
        decreases v.len() - i,
    {
        out.push(v[i]);
        i += 1;
        assert(out@ =~= old(out)@ + s@.take(i as int));
    }
    assert(s@.take(v.len() as int) =~= s@);
    let mut k = v.len();
    while k < width
        invariant
            v.len() <= k <= width || (k == v.len() && v.len() >= width),
            v@ == s@,
            out@ == old(out)@ + s@ + Seq::new((k - v.len()) as nat, |_i: int| ' '),
        decreases width - k,
    {
        out.push(' ');
        k += 1;
        assert(out@ =~= old(out)@ + s@ + Seq::new((k - v.len()) as nat, |_i: int| ' '));
    }
    assert(Seq::new(0, |_i: int| ' ') =~= Seq::<char>::empty());
    if v.len() >= width {
        assert(out@ =~= old(out)@ + s@);
    }
}

} // verus!

verus! {

/// `str::split(sep)`: the pieces between occurrences of `sep`, empty ones
/// included (always at least one piece).
pub open spec fn split(s: Seq<char>, sep: char) -> Seq<Seq<char>>
    decreases s.len(),
{
    if s.len() == 0 {
        seq![Seq::<char>::empty()]
    } else {
        let p = split(s.drop_last(), sep);
        if s.last() == sep {
            p.push(Seq::<char>::empty())
        } else {
            p.update(p.len() - 1, p.last().push(s.last()))
        }
    }
}

/// The non-empty pieces of `q`, in order.
pub open spec fn nonempty_parts(q: Seq<Seq<char>>) -> Seq<Seq<char>>
    decreases q.len(),
{
    if q.len() == 0 {
        Seq::empty()
    } else if q.last().len() > 0 {
        nonempty_parts(q.drop_last()).push(q.last())
    } else {
        nonempty_parts(q.drop_last())
    }
}

/// `parts.join(sep)`.
pub open spec fn join(parts: Seq<Seq<char>>, sep: Seq<char>) -> Seq<char>
    decreases parts.len(),
{
    if parts.len() == 0 {
        Seq::empty()
    } else if parts.len() == 1 {
        parts[0]
    } else {
        join(parts.drop_last(), sep) + sep + parts.last()
    }
}

pub proof fn lemma_split_len(s: Seq<char>, sep: char)
    ensures
        split(s, sep).len() >= 1,
    decreases s.len(),
{
    if s.len() > 0 {
        lemma_split_len(s.drop_last(), sep);
    }
}

/// Equality of two strings, character by character.
pub fn str_eq(a: &str, b: &str) -> (r: bool)
    ensures
        r == (a@ == b@),
{
    let va = chars_of(a);
    let vb = chars_of(b);
    if va.len() != vb.len() {
        return false;
    }
    let mut i: usize = 0;
    while i < va.len()
        invariant
            va@ == a@,
            vb@ == b@,
            va.len() == vb.len(),
            i <= va.len(),
            forall|k: int| 0 <= k < i ==> va@[k] == vb@[k],
        decreases va.len() - i,
    {
        if va[i] != vb[i] {
            assert(a@[i as int] != b@[i as int]);
            return false;
        }
        i += 1;
    }
    assert(va@ =~= vb@);
    true
}

/// A new `String` with the contents of `s`.
pub fn owned(s: &str) -> (r: String)
    ensures
        r@ == s@,
{
    s.to_owned()
}

/// Appends `t` to `s`.
pub fn push_str(s: &mut String, t: &str)
    ensures
        final(s)@ == old(s)@ + t@,
{
    let v = chars_of(t);
    let mut i: usize = 0;
    while i < v.len()
        invariant
            i <= v.len(),
            v@ == t@,
            s@ == old(s)@ + t@.take(i as int),
        decreases v.len() - i,
    {
        s.push(v[i]);
        i += 1;
        assert(s@ =~= old(s)@ + t@.take(i as int));
    }
    assert(t@.take(v.len() as int) =~= t@);
}

/// `parts.join(sep)`.
pub fn join_strings(parts: &Vec<String>, sep: &str) -> (r: String)
    ensures
        r@ == join(parts.deep_view(), sep@),
{
    let mut r = String::new();
    let mut i: usize = 0;
    proof {
        assert(parts.deep_view().take(0) =~= Seq::<Seq<char>>::empty());
    }
    while i < parts.len()
        invariant
            i <= parts.len(),
            r@ == join(parts.deep_view().take(i as int), sep@),
        decreases parts.len() - i,
    {
        let ghost before = r@;
        if i > 0 {
            push_str(&mut r, sep);
        }
        push_str(&mut r, parts[i].as_str());
        i += 1;
        proof {
            let q = parts.deep_view().take(i as int);
            assert(q.drop_last() =~= parts.deep_view().take(i - 1));
            assert(q.last() == parts[i - 1]@);
            if i == 1 {
                assert(r@ =~= q[0]);
            } else {
                assert(r@ =~= before + sep@ + q.last());
            }
        }
    }
    assert(parts.deep_view().take(parts.len() as int) =~= parts.deep_view());
    r
}

/// Appends the characters `v[from..to]` to `s`.
pub fn push_range(s: &mut String, v: &Vec<char>, from: usize, to: usize)
    requires
        from <= to <= v.len(),
    ensures
        final(s)@ == old(s)@ + v@.subrange(from as int, to as int),
{
    let mut i = from;
    while i < to
        invariant
            from <= i <= to <= v.len(),
            s@ == old(s)@ + v@.subrange(from as int, i as int),
        decreases to - i,
    {
        s.push(v[i]);
        i += 1;
        assert(s@ =~= old(s)@ + v@.subrange(from as int, i as int));
    }
}

} // verus!

verus! {

pub proof fn lemma_split_push(s: Seq<char>, c: char, sep: char)
    ensures
        split(s.push(c), sep) == (if c == sep {
            split(s, sep).push(Seq::<char>::empty())
        } else {
            let p = split(s, sep);
            p.update(p.len() - 1, p.last().push(c))
        }),
{
    assert(s.push(c).drop_last() =~= s);
}

/// Splitting `a`, a separator and `b` gives the pieces of `a` then those of `b`.
pub proof fn lemma_split_concat(a: Seq<char>, b: Seq<char>, sep: char)
    ensures
        split(a.push(sep) + b, sep) == split(a, sep) + split(b, sep),
    decreases b.len(),
{
    lemma_split_len(a, sep);
    if b.len() == 0 {
        assert(a.push(sep) + b =~= a.push(sep));
        lemma_split_push(a, sep, sep);
        assert(split(b, sep) =~= seq![Seq::<char>::empty()]);
        assert(split(a, sep).push(Seq::<char>::empty()) =~= split(a, sep) + split(b, sep));
    } else {
        let b0 = b.drop_last();
        lemma_split_concat(a, b0, sep);
        lemma_split_len(b0, sep);
        assert(a.push(sep) + b =~= (a.push(sep) + b0).push(b.last()));
        lemma_split_push(a.push(sep) + b0, b.last(), sep);
        lemma_split_push(b0, b.last(), sep);
        assert(b0.push(b.last()) =~= b);
        let pa = split(a, sep);
        let pb = split(b0, sep);
        if b.last() == sep {
            assert((pa + pb).push(Seq::<char>::empty()) =~= pa + pb.push(Seq::<char>::empty()));
        } else {
            let q = pa + pb;
            assert(q.update(q.len() - 1, q.last().push(b.last())) =~= pa + pb.update(
                pb.len() - 1,
                pb.last().push(b.last()),
            ));
        }
    }
}

pub open spec fn free_of(s: Seq<char>, c: char) -> bool {
    forall|i: int| 0 <= i < s.len() ==> s[i] != c
}

/// A string without the separator is a single piece.
pub proof fn lemma_split_free(s: Seq<char>, sep: char)
    requires
        free_of(s, sep),
    ensures
        split(s, sep) == seq![s],
    decreases s.len(),
{
    if s.len() > 0 {
        let t = s.drop_last();
        assert(free_of(t, sep)) by {
            assert forall|i: int| 0 <= i < t.len() implies t[i] != sep by {
                assert(t[i] == s[i]);
            }
        }
        lemma_split_free(t, sep);
        assert(t.push(s.last()) =~= s);
    } else {
        assert(s =~= Seq::<char>::empty());
    }
}

pub proof fn lemma_nonempty_parts_concat(x: Seq<Seq<char>>, y: Seq<Seq<char>>)
    ensures
        nonempty_parts(x + y) == nonempty_parts(x) + nonempty_parts(y),
    decreases y.len(),
{
    if y.len() == 0 {
        assert(x + y =~= x);
        assert(nonempty_parts(x) + nonempty_parts(y) =~= nonempty_parts(x));
    } else {
        lemma_nonempty_parts_concat(x, y.drop_last());
        assert((x + y).drop_last() =~= x + y.drop_last());
        if y.last().len() > 0 {
            assert(nonempty_parts(x) + nonempty_parts(y.drop_last()).push(y.last())
                =~= (nonempty_parts(x) + nonempty_parts(y.drop_last())).push(y.last()));
        }
    }
}

pub open spec fn proper_parts(q: Seq<Seq<char>>, sep: char) -> bool {
    forall|i: int| 0 <= i < q.len() ==> #[trigger] q[i].len() > 0 && free_of(q[i], sep)
}

/// Joining non-empty separator-free pieces and splitting again gives them back.
pub proof fn lemma_split_join(q: Seq<Seq<char>>, sep: char)
    requires
        proper_parts(q, sep),
    ensures
        nonempty_parts(split(join(q, seq![sep]), sep)) == q,
    decreases q.len(),
{
    if q.len() == 0 {
        assert(split(Seq::<char>::empty(), sep) =~= seq![Seq::<char>::empty()]);
        let e = seq![Seq::<char>::empty()];
        assert(e.drop_last() =~= Seq::<Seq<char>>::empty());
        assert(nonempty_parts(Seq::<Seq<char>>::empty()) =~= Seq::<Seq<char>>::empty());
        assert(nonempty_parts(e) =~= Seq::<Seq<char>>::empty());
    } else if q.len() == 1 {
        assert(q[0].len() > 0);
        lemma_split_free(q[0], sep);
        let one = seq![q[0]];
        assert(one.drop_last() =~= Seq::<Seq<char>>::empty());
        assert(nonempty_parts(Seq::<Seq<char>>::empty()) =~= Seq::<Seq<char>>::empty());
        assert(one.last() == q[0]);
        assert(nonempty_parts(one) =~= q);
    } else {
        let q0 = q.drop_last();
        assert(proper_parts(q0, sep)) by {
            assert forall|i: int| 0 <= i < q0.len() implies #[trigger] q0[i].len() > 0 && free_of(
                q0[i],
                sep,
            ) by {
                assert(q0[i] == q[i]);
            }
        }
        lemma_split_join(q0, sep);
        let a = join(q0, seq![sep]);
        assert(a + seq![sep] + q.last() =~= a.push(sep) + q.last());
        lemma_split_concat(a, q.last(), sep);
        assert(q[q.len() - 1].len() > 0);
        lemma_split_free(q.last(), sep);
        lemma_nonempty_parts_concat(split(a, sep), seq![q.last()]);
        let one = seq![q.last()];
        assert(one.drop_last() =~= Seq::<Seq<char>>::empty());
        assert(nonempty_parts(Seq::<Seq<char>>::empty()) =~= Seq::<Seq<char>>::empty());
        assert(nonempty_parts(one) =~= one);
        assert(q0 + one =~= q);
    }
}

} // verus!

verus! {

/// The first piece of a split ends at the first separator; the pieces after
/// it are those of the text behind that separator.
pub proof fn lemma_split_first(s: Seq<char>, k: int, sep: char)
    requires
        0 <= k <= s.len(),
        free_of(s.take(k), sep),
        k < s.len() ==> s[k] == sep,
    ensures
        split(s, sep)[0] == s.take(k),
        k == s.len() ==> split(s, sep).len() == 1,
        k < s.len() ==> split(s, sep).drop_first() == split(s.skip(k + 1), sep),
        k < s.len() ==> split(s, sep).len() >= 2,
{
    if k == s.len() {
        assert(s.take(k) =~= s);
        lemma_split_free(s, sep);
    } else {
        assert(s.take(k).push(sep) + s.skip(k + 1) =~= s);
        lemma_split_concat(s.take(k), s.skip(k + 1), sep);
        lemma_split_free(s.take(k), sep);
        lemma_split_len(s.skip(k + 1), sep);
        assert(split(s, sep).drop_first() =~= split(s.skip(k + 1), sep));
    }
}

/// Index of the first `sep` in `v[from..]`, or `v.len()`.
pub fn find_char(v: &Vec<char>, from: usize, sep: char) -> (k: usize)
    requires
        from <= v.len(),
    ensures
        from <= k <= v.len(),
        free_of(v@.subrange(from as int, k as int), sep),
        k < v.len() ==> v@[k as int] == sep,
{
    let mut k = from;
    while k < v.len() && v[k] != sep
        invariant
            from <= k <= v.len(),
            free_of(v@.subrange(from as int, k as int), sep),
        decreases v.len() - k,
    {
        k += 1;
        proof {
            let t = v@.subrange(from as int, k as int);
            assert forall|i: int| 0 <= i < t.len() implies t[i] != sep by {
                assert(t[i] == v@[from + i]);
                if i < t.len() - 1 {
                    assert(v@.subrange(from as int, k - 1)[i] == v@[from + i]);
                }
            }
        }
    }
    k
}

} // verus!

verus! {

/// `s` with every whitespace character removed.
pub open spec fn strip_ws(s: Seq<char>) -> Seq<char>
    decreases s.len(),
{
    if s.len() == 0 {
        Seq::empty()
    } else if is_whitespace(s.last()) {
        strip_ws(s.drop_last())
    } else {
        strip_ws(s.drop_last()).push(s.last())
    }
}

pub proof fn lemma_strip_ws_concat(a: Seq<char>, b: Seq<char>)
    ensures
        strip_ws(a + b) == strip_ws(a) + strip_ws(b),
    decreases b.len(),
{
    if b.len() == 0 {
        assert(a + b =~= a);
        assert(strip_ws(a) + strip_ws(b) =~= strip_ws(a));
    } else {
        lemma_strip_ws_concat(a, b.drop_last());
        assert((a + b).drop_last() =~= a + b.drop_last());
        assert((a + b).last() == b.last());
        if !is_whitespace(b.last()) {
            assert(strip_ws(a) + strip_ws(b.drop_last()).push(b.last()) =~= (strip_ws(a)
                + strip_ws(b.drop_last())).push(b.last()));
        }
    }
}

pub proof fn lemma_utf8_len_concat(a: Seq<char>, b: Seq<char>)
    ensures
        utf8_len(a + b) == utf8_len(a) + utf8_len(b),
    decreases b.len(),
{
    if b.len() == 0 {
        assert(a + b =~= a);
    } else {
        lemma_utf8_len_concat(a, b.drop_last());
        assert((a + b).drop_last() =~= a + b.drop_last());
    }
}

pub proof fn lemma_all_ws_strip(s: Seq<char>)
    requires
        all_whitespace(s),
    ensures
        strip_ws(s) == Seq::<char>::empty(),
    decreases s.len(),
{
    if s.len() > 0 {
        assert(is_whitespace(s[s.len() - 1]));
        let t = s.drop_last();
        assert(all_whitespace(t)) by {
            assert forall|i: int| 0 <= i < t.len() implies is_whitespace(#[trigger] t[i]) by {
                assert(t[i] == s[i]);
            }
        }
        lemma_all_ws_strip(t);
    }
}

pub proof fn lemma_trim_start_props(s: Seq<char>)
    ensures
        trim_start(s).len() == 0 <==> all_whitespace(s),
        trim_start(s).len() > 0 ==> !is_whitespace(trim_start(s)[0]),
        strip_ws(trim_start(s)) == strip_ws(s),
        utf8_len(trim_start(s)) <= utf8_len(s),
    decreases s.len(),
{
    if s.len() > 0 && is_whitespace(s[0]) {
        let t = s.drop_first();
        lemma_trim_start_props(t);
        assert(seq![s[0]] + t =~= s);
        lemma_strip_ws_concat(seq![s[0]], t);
        lemma_utf8_len_concat(seq![s[0]], t);
        assert(seq![s[0]].drop_last() =~= Seq::<char>::empty());
        assert(seq![s[0]].last() == s[0]);
        assert(strip_ws(Seq::<char>::empty()) =~= Seq::<char>::empty());
        assert(strip_ws(seq![s[0]]) =~= Seq::<char>::empty());
        assert(strip_ws(seq![s[0]]) + strip_ws(t) =~= strip_ws(t));
        if all_whitespace(t) {
            assert forall|i: int| 0 <= i < s.len() implies is_whitespace(#[trigger] s[i]) by {
                if i > 0 {
                    assert(s[i] == t[i - 1]);
                }
            }
        }
        if all_whitespace(s) {
            assert forall|i: int| 0 <= i < t.len() implies is_whitespace(#[trigger] t[i]) by {
                assert(t[i] == s[i + 1]);
            }
        }
    } else if s.len() > 0 {
        assert(!is_whitespace(s[0]));
    } else {
    }
}

pub proof fn lemma_trim_end_props(s: Seq<char>)
    ensures
        trim_end(s).len() == 0 <==> all_whitespace(s),
        trim_end(s).len() > 0 ==> !is_whitespace(trim_end(s).last()),
        trim_end(s).len() <= s.len(),
        trim_end(s) == s.take(trim_end(s).len() as int),
        strip_ws(trim_end(s)) == strip_ws(s),
        utf8_len(trim_end(s)) <= utf8_len(s),
    decreases s.len(),
{
    if s.len() > 0 && is_whitespace(s.last()) {
        let t = s.drop_last();
        lemma_trim_end_props(t);
        assert(t.take(trim_end(t).len() as int) =~= s.take(trim_end(t).len() as int));
        if all_whitespace(t) {
            assert forall|i: int| 0 <= i < s.len() implies is_whitespace(#[trigger] s[i]) by {
                if i < s.len() - 1 {
                    assert(s[i] == t[i]);
                }
            }
        }
        if all_whitespace(s) {
            assert forall|i: int| 0 <= i < t.len() implies is_whitespace(#[trigger] t[i]) by {
                assert(t[i] == s[i]);
            }
        }
    } else if s.len() > 0 {
        assert(s.take(s.len() as int) =~= s);
        assert(!is_whitespace(s[s.len() - 1]));
    } else {
        assert(s.take(0) =~= s);
    }
}

/// What `trim_end` leaves is a prefix, and what it cuts is whitespace.
pub proof fn lemma_trim_end_tail(s: Seq<char>)
    ensures
        trim_end(s) == s.take(trim_end(s).len() as int),
        trim_end(s).len() <= s.len(),
        all_whitespace(s.skip(trim_end(s).len() as int)),
    decreases s.len(),
{
    if s.len() > 0 && is_whitespace(s.last()) {
        let t = s.drop_last();
        lemma_trim_end_tail(t);
        let m = trim_end(t).len() as int;
        assert(t.take(m) =~= s.take(m));
        assert forall|i: int| 0 <= i < s.skip(m).len() implies is_whitespace(#[trigger] s.skip(m)[i]) by {
            if m + i < s.len() - 1 {
                assert(s.skip(m)[i] == t.skip(m)[i]);
            }
        }
    } else {
        assert(s.take(s.len() as int) =~= s);
        assert(s.skip(s.len() as int).len() == 0);
    }
}

/// `trim(s)` is `s[i..j]`, with only whitespace before `i` and after `j`.
pub proof fn lemma_trim_parts(s: Seq<char>) -> (ij: (int, int))
    ensures
        0 <= ij.0 <= ij.1 <= s.len(),
        trim(s) == s.subrange(ij.0, ij.1),
        all_whitespace(s.take(ij.0)),
        all_whitespace(s.skip(ij.1)),
    decreases s.len(),
{
    if s.len() > 0 && is_whitespace(s[0]) {
        let t = s.drop_first();
        let (i, j) = lemma_trim_parts(t);
        assert(trim(s) == trim(t));
        assert(t.subrange(i, j) =~= s.subrange(i + 1, j + 1));
        assert forall|k: int| 0 <= k < s.take(i + 1).len() implies is_whitespace(#[trigger] s.take(i + 1)[k]) by {
            if k > 0 {
                assert(s.take(i + 1)[k] == t.take(i)[k - 1]);
            }
        }
        assert(t.skip(j) =~= s.skip(j + 1));
        (i + 1, j + 1)
    } else {
        assert(trim_start(s) == s);
        lemma_trim_end_tail(s);
        let m = trim_end(s).len() as int;
        assert(s.subrange(0, m) =~= s.take(m));
        assert(s.take(0).len() == 0);
        (0, m)
    }
}

/// What `trim` guarantees: the result is empty exactly for all-whitespace
/// input, otherwise it starts and ends with a non-whitespace character; it
/// removes whitespace only, and never grows.
pub proof fn lemma_trim_props(s: Seq<char>)
    ensures
        trim(s).len() == 0 <==> all_whitespace(s),
        trim(s).len() > 0 ==> !is_whitespace(trim(s)[0]) && !is_whitespace(trim(s).last()),
        strip_ws(trim(s)) == strip_ws(s),
        utf8_len(trim(s)) <= utf8_len(s),
{
    let t = trim_start(s);
    lemma_trim_start_props(s);
    lemma_trim_end_props(t);
    if trim(s).len() > 0 {
        assert(trim(s) == t.take(trim(s).len() as int));
        assert(trim(s)[0] == t.take(trim(s).len() as int)[0]);
        assert(trim(s)[0] == t[0]);
    }
    if all_whitespace(s) {
        assert(t.len() == 0);
        assert(all_whitespace(t));
    }
}

} // verus!

verus! {

/// `p` occurs in `s` at position `i`.
pub open spec fn is_at(s: Seq<char>, p: Seq<char>, i: int) -> bool {
    0 <= i && i + p.len() <= s.len() && s.subrange(i, i + p.len()) == p
}

pub open spec fn find_from(s: Seq<char>, p: Seq<char>, i: int) -> Option<int>
    decreases s.len() + 1 - i,
{
    if i < 0 || i + p.len() > s.len() || i > s.len() {
        None
    } else if is_at(s, p, i) {
        Some(i)
    } else {
        find_from(s, p, i + 1)
    }
}

/// `str::find`: the first position at which `p` occurs in `s`.
pub open spec fn find(s: Seq<char>, p: Seq<char>) -> Option<int> {
    find_from(s, p, 0)
}

pub proof fn lemma_find_from_skip(s: Seq<char>, p: Seq<char>, i: int, j: int)
    requires
        0 <= i <= j,
        forall|k: int| i <= k < j ==> !is_at(s, p, k),
        j + p.len() <= s.len() + 1,
    ensures
        find_from(s, p, i) == find_from(s, p, j),
    decreases j - i,
{
    if i < j {
        lemma_find_from_skip(s, p, i + 1, j);
    }
}

/// Position of the first occurrence of `p` in `v[from..]`, as an index
/// into `v`.
pub fn find_in(v: &Vec<char>, from: usize, p: &Vec<char>) -> (r: Option<usize>)
    requires
        from <= v.len(),
    ensures
        r is None <==> find(v@.skip(from as int), p@) is None,
        r matches Some(i) ==> find(v@.skip(from as int), p@) == Some(i - from),
        r matches Some(i) ==> from <= i && i + p.len() <= v.len() && v@.subrange(
            i as int,
            i + p.len(),
        ) == p@,
{
    let ghost t = v@.skip(from as int);
    if p.len() > v.len() - from {
        return None;
    }
    let last = v.len() - p.len();
    let mut i = from;
    while i <= last
        invariant
            from <= i <= last + 1,
            last + p.len() == v.len(),
            t == v@.skip(from as int),
            forall|k: int| 0 <= k < i - from ==> !is_at(t, p@, k),
        decreases last + 1 - i,
    {
        let mut m: usize = 0;
        while m < p.len() && v[i + m] == p[m]
            invariant
                i <= last,
                last + p.len() == v.len(),
                m <= p.len(),
                forall|q: int| 0 <= q < m ==> v@[i + q] == p@[q],
            decreases p.len() - m,
        {
            m += 1;
        }
        if m == p.len() {
            proof {
                assert(t.subrange(i - from, i - from + p.len()) =~= p@) by {
                    assert forall|q: int| 0 <= q < p.len() implies t.subrange(
                        i - from,
                        i - from + p.len(),
                    )[q] == p@[q] by {
                        assert(t[i - from + q] == v@[i + q]);
                    }
                }
                lemma_find_from_skip(t, p@, 0, i - from);
                assert(v@.subrange(i as int, i + p.len()) =~= t.subrange(
                    i - from,
                    i - from + p.len(),
                ));
            }
            return Some(i);
        }
        proof {
            assert(!is_at(t, p@, i - from)) by {
                if is_at(t, p@, i - from) {
                    assert(t.subrange(i - from, i - from + p.len())[m as int] == p@[m as int]);
                    assert(t[i - from + m] == v@[i + m]);
                }
            }
        }
        i += 1;
    }
    proof {
        lemma_find_from_skip(t, p@, 0, i - from);
    }
    None
}

} // verus!

verus! {

/// Whether `v[from..to]` equals `w`.
pub fn range_eq(v: &Vec<char>, from: usize, to: usize, w: &Vec<char>) -> (r: bool)
    requires
        from <= to <= v.len(),
    ensures
        r == (v@.subrange(from as int, to as int) == w@),
{
    if to - from != w.len() {
        return false;
    }
    let mut k: usize = 0;
    while k < w.len()
        invariant
            from <= to <= v.len(),
            to - from == w.len(),
            k <= w.len(),
            forall|q: int| 0 <= q < k ==> v@[from + q] == w@[q],
        decreases w.len() - k,
    {
        if v[from + k] != w[k] {
            assert(v@.subrange(from as int, to as int)[k as int] == v@[from + k]);
            return false;
        }
        k += 1;
    }
    assert(v@.subrange(from as int, to as int) =~= w@);
    true
}

/// Whether `v[from..to]` takes fewer than `limit` bytes in UTF-8.
pub fn utf8_len_below(v: &Vec<char>, from: usize, to: usize, limit: usize) -> (r: bool)
    requires
        from <= to <= v.len(),
        0 < limit <= 1024,
    ensures
        r == (utf8_len(v@.subrange(from as int, to as int)) < limit),
{
    let mut acc: usize = 0;
    let mut k = from;
    assert(v@.subrange(from as int, from as int) =~= Seq::<char>::empty());
    while k < to
        invariant
            from <= k <= to <= v.len(),
            acc == utf8_len(v@.subrange(from as int, k as int)),
            acc < limit,
            0 < limit <= 1024,
        decreases to - k,
    {
        assert(v@.subrange(from as int, k + 1).drop_last() =~= v@.subrange(from as int, k as int));
        acc = acc + char_utf8_width(v[k]);
        k += 1;
        if acc >= limit {
            proof {
                lemma_utf8_len_concat(
                    v@.subrange(from as int, k as int),
                    v@.subrange(k as int, to as int),
                );
                assert(v@.subrange(from as int, k as int) + v@.subrange(k as int, to as int)
                    =~= v@.subrange(from as int, to as int));
            }
            return false;
        }
    }
    true
}

} // verus!

verus! {

/// Unicode lowercase of a string (`str::to_lowercase`).
pub uninterp spec fn lowercase_of(s: Seq<char>) -> Seq<char>;

/// ASCII lowercase of one character: `A`..`Z` to `a`..`z`, others kept.
pub open spec fn ascii_lower(c: char) -> char {
    if 65 <= (c as u32) <= 90 {
        ((c as u32) + 32) as char
    } else {
        c
    }
}

/// Every character is ASCII.
pub open spec fn all_ascii(s: Seq<char>) -> bool {
    forall|i: int| 0 <= i < s.len() ==> (#[trigger] s[i] as u32) < 0x80
}

/// `str::to_lowercase`. Its result is Unicode's full lowercase mapping,
/// named here and not spelled out; on ASCII text Unicode's mapping
/// lowercases `A`..`Z` and keeps every other character.
#[verifier::external_body]
pub fn to_lowercase(s: &str) -> (r: String)
    ensures
        r@ == lowercase_of(s@),
        all_ascii(s@) ==> r@ == s@.map_values(|c: char| ascii_lower(c)),
{
    s.to_lowercase()
}

/// Whether a character is alphabetic or numeric in Unicode
/// (`char::is_alphanumeric`).
pub uninterp spec fn alphanumeric(c: char) -> bool;

/// `char::is_alphanumeric`: Unicode `Alphabetic` or numeric. ASCII
/// letters and digits are alphanumeric, other ASCII characters are not;
/// beyond ASCII the answer is named, not spelled out.
#[verifier::external_body]
pub fn char_is_alphanumeric(c: char) -> (r: bool)
    ensures
        r == alphanumeric(c),
        (c as u32) < 0x80 ==> r == is_ascii_alnum(c),
{
    c.is_alphanumeric()
}

} // verus!
