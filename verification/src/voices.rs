//! Voice references and their human-readable labels.
//!
//! A voice is written as a path: `provider/[model/]voice`. A bare name is a
//! local Kokoro voice; a model may itself contain `/`.

use vstd::prelude::*;
use crate::text::{
    chars_of, free_of, join, lemma_nonempty_parts_concat, lemma_split_concat, lemma_split_free,
    lemma_split_join, lemma_split_len, lemma_split_push, nonempty_parts, owned, proper_parts,
    push_range, push_str, split, str_eq, string_of_range, find_char, lemma_split_first,
};

verus! {

/// A parsed voice reference.
#[derive(Debug, PartialEq)]
pub struct VoicePath {
    pub provider: String,
    pub model: Option<String>,
    pub voice: String,
}

/// What `VoicePath::parse` reads from the pieces `parts` of the path:
/// (provider, model, voice).
pub open spec fn voice_path_of_parts(parts: Seq<Seq<char>>) -> (Seq<char>, Option<Seq<char>>, Seq<char>) {
    let n = parts.len();
    if n <= 1 {
        ("kokoro"@, None, if n == 0 { Seq::empty() } else { parts[0] })
    } else if n == 2 {
        (parts[0], None, parts[1])
    } else {
        (parts[0], Some(join(parts.subrange(1, n - 1), seq!['/'])), parts[n - 1])
    }
}

/// The reference `s` denotes: its non-empty `/`-separated pieces read as
/// provider, model and voice.
pub open spec fn voice_path_of(s: Seq<char>) -> (Seq<char>, Option<Seq<char>>, Seq<char>) {
    voice_path_of_parts(nonempty_parts(split(s, '/')))
}

impl VoicePath {
    pub open spec fn model_view(&self) -> Option<Seq<char>> {
        match self.model {
            Some(m) => Some(m@),
            None => None,
        }
    }

    pub open spec fn spec_parts(&self) -> (Seq<char>, Option<Seq<char>>, Seq<char>) {
        (self.provider@, self.model_view(), self.voice@)
    }

    /// Reads `provider/[model/]voice`; bare names are kokoro voices.
    pub fn parse(s: &str) -> (r: VoicePath)
        ensures
            r.spec_parts() == voice_path_of(s@),
    {
        let parts = split_parts(s, '/');
        let n = parts.len();
        let ghost q = parts.deep_view();
        if n <= 1 {
            let voice = if n == 0 {
                String::new()
            } else {
                parts[0].clone()
            };
            VoicePath { provider: owned("kokoro"), model: None, voice }
        } else if n == 2 {
            VoicePath { provider: parts[0].clone(), model: None, voice: parts[1].clone() }
        } else {
            let model = join_range(&parts, 1, n - 1);
            assert(parts.deep_view().subrange(1, n - 1) =~= q.subrange(1, n - 1));
            VoicePath {
                provider: parts[0].clone(),
                model: Some(model),
                voice: parts[n - 1].clone(),
            }
        }
    }
}

/// The non-empty `sep`-separated pieces of `s`.
pub fn split_parts(s: &str, sep: char) -> (parts: Vec<String>)
    ensures
        parts.deep_view() == nonempty_parts(split(s@, sep)),
{
    let v = chars_of(s);
    let mut parts: Vec<String> = Vec::new();
    let mut start: usize = 0;
    let mut i: usize = 0;
    proof {
        assert(v@.take(0) =~= Seq::<char>::empty());
        assert(split(Seq::<char>::empty(), sep) =~= seq![Seq::<char>::empty()]);
        assert(seq![Seq::<char>::empty()].drop_last() =~= Seq::<Seq<char>>::empty());
        assert(parts.deep_view() =~= nonempty_parts(Seq::<Seq<char>>::empty()));
        assert(v@.subrange(0, 0) =~= Seq::<char>::empty());
    }
    while i < v.len()
        invariant
            v@ == s@,
            start <= i <= v.len(),
            parts.deep_view() == nonempty_parts(split(v@.take(i as int), sep).drop_last()),
            split(v@.take(i as int), sep).last() == v@.subrange(start as int, i as int),
        decreases v.len() - i,
    {
        let ghost sp = split(v@.take(i as int), sep);
        proof {
            lemma_split_len(v@.take(i as int), sep);
            assert(v@.take(i + 1) =~= v@.take(i as int).push(v@[i as int]));
            lemma_split_push(v@.take(i as int), v@[i as int], sep);
        }
        if v[i] == sep {
            if i > start {
                let piece = string_of_range(&v, start, i);
                parts.push(piece);
                proof {
                    assert(sp =~= sp.drop_last().push(sp.last()));
                    assert(parts.deep_view() =~= nonempty_parts(sp.drop_last()).push(sp.last()));
                }
            } else {
                proof {
                    assert(sp =~= sp.drop_last().push(sp.last()));
                }
            }
            start = i + 1;
            i = i + 1;
            proof {
                assert(split(v@.take(i as int), sep).drop_last() =~= sp);
                assert(v@.subrange(start as int, i as int) =~= Seq::<char>::empty());
            }
        } else {
            i = i + 1;
            proof {
                let np = split(v@.take(i as int), sep);
                assert(np.drop_last() =~= sp.drop_last());
                assert(np.last() =~= v@.subrange(start as int, i as int));
            }
        }
    }
    let ghost sp = split(v@.take(i as int), sep);
    proof {
        lemma_split_len(v@.take(i as int), sep);
        assert(v@.take(i as int) =~= s@);
        assert(sp =~= sp.drop_last().push(sp.last()));
    }
    if i > start {
        let piece = string_of_range(&v, start, i);
        parts.push(piece);
        assert(parts.deep_view() =~= nonempty_parts(sp.drop_last()).push(sp.last()));
    }
    parts
}

/// `parts[from..to].join("/")`.
pub fn join_range(parts: &Vec<String>, from: usize, to: usize) -> (r: String)
    requires
        from < to <= parts.len(),
    ensures
        r@ == join(parts.deep_view().subrange(from as int, to as int), seq!['/']),
{
    let mut r = parts[from].clone();
    let mut i = from + 1;
    proof {
        let q = parts.deep_view().subrange(from as int, i as int);
        assert(q.len() == 1);
        assert(q[0] == parts[from as int]@);
    }
    while i < to
        invariant
            from < i <= to <= parts.len(),
            r@ == join(parts.deep_view().subrange(from as int, i as int), seq!['/']),
        decreases to - i,
    {
        let ghost before = r@;
        r.push('/');
        push_str(&mut r, parts[i].as_str());
        i += 1;
        proof {
            let q = parts.deep_view().subrange(from as int, i as int);
            assert(q.drop_last() =~= parts.deep_view().subrange(from as int, i - 1));
            assert(q.last() == parts[i - 1]@);
            assert(r@ =~= before + seq!['/'] + q.last());
        }
    }
    r
}

/// Joining non-empty, `/`-free pieces and parsing gives them back: a
/// provider and voice with a model of one or more pieces between them.
pub proof fn lemma_voice_path_roundtrip(q: Seq<Seq<char>>)
    requires
        q.len() >= 2,
        proper_parts(q, '/'),
    ensures
        voice_path_of(join(q, seq!['/'])) == (if q.len() == 2 {
            (q[0], None::<Seq<char>>, q[1])
        } else {
            (q[0], Some(join(q.subrange(1, q.len() - 1), seq!['/'])), q[q.len() - 1])
        }),
{
    lemma_split_join(q, '/');
}

/// A bare name (no `/`) is a voice of the local kokoro engine.
pub proof fn lemma_bare_name_is_kokoro(v: Seq<char>)
    requires
        v.len() > 0,
        free_of(v, '/'),
    ensures
        voice_path_of(v) == ("kokoro"@, None::<Seq<char>>, v),
{
    lemma_split_free(v, '/');
    let one = seq![v];
    assert(one.drop_last() =~= Seq::<Seq<char>>::empty());
    assert(nonempty_parts(Seq::<Seq<char>>::empty()) =~= Seq::<Seq<char>>::empty());
    assert(nonempty_parts(one) =~= one);
}

/// Empty pieces are ignored: doubled, leading and trailing `/` change nothing.
pub proof fn lemma_voice_path_ignores_empty_pieces(a: Seq<char>, b: Seq<char>)
    ensures
        voice_path_of(a.push('/').push('/') + b) == voice_path_of(a.push('/') + b),
{
    lemma_split_concat(a.push('/'), b, '/');
    lemma_split_concat(a, b, '/');
    lemma_split_push(a, '/', '/');
    let e = seq![Seq::<char>::empty()];
    assert(split(a.push('/'), '/') =~= split(a, '/') + e);
    lemma_nonempty_parts_concat(split(a, '/') + e, split(b, '/'));
    lemma_nonempty_parts_concat(split(a, '/'), e);
    lemma_nonempty_parts_concat(split(a, '/'), split(b, '/'));
    assert(e.drop_last() =~= Seq::<Seq<char>>::empty());
    assert(nonempty_parts(Seq::<Seq<char>>::empty()) =~= Seq::<Seq<char>>::empty());
    assert(nonempty_parts(e) =~= Seq::<Seq<char>>::empty());
    assert(split(a, '/') + e + split(b, '/') =~= (split(a, '/') + e) + split(b, '/'));
    assert(nonempty_parts(split(a, '/')) + Seq::<Seq<char>>::empty() =~= nonempty_parts(
        split(a, '/'),
    ));
}

} // verus!

verus! {

/// The uppercase mapping of a character (`char::to_uppercase`): Unicode's,
/// one or more characters.
pub uninterp spec fn uppercase_of(c: char) -> Seq<char>;

pub open spec fn is_ascii_lower(c: char) -> bool {
    0x61 <= c as u32 <= 0x7a
}

/// `char::to_uppercase`, collected. Of ASCII it states the familiar mapping
/// (a-z to A-Z, every other ASCII character unchanged); of other
/// characters only that the result is Unicode's uppercase mapping, which is
/// left unnamed here.
#[verifier::external_body]
fn char_uppercase(c: char) -> (r: String)
    ensures
        r@ == uppercase_of(c),
        is_ascii_lower(c) ==> r@ == seq![((c as u32) - 32) as char],
        (c as u32) < 0x80 && !is_ascii_lower(c) ==> r@ == seq![c],
{
    c.to_uppercase().collect()
}

/// First character uppercased, the rest unchanged.
pub open spec fn capitalized(s: Seq<char>) -> Seq<char> {
    if s.len() == 0 {
        Seq::empty()
    } else {
        uppercase_of(s[0]) + s.drop_first()
    }
}

/// ASCII uppercase of one character (others unchanged).
pub open spec fn ascii_upper(c: char) -> char {
    if is_ascii_lower(c) {
        ((c as u32) - 32) as char
    } else {
        c
    }
}

/// Whether `s` is empty or starts with an ASCII character.
pub open spec fn ascii_start(s: Seq<char>) -> bool {
    s.len() == 0 || (s[0] as u32) < 0x80
}

/// `capitalized` of a text that starts with an ASCII character.
pub open spec fn capitalized_ascii(s: Seq<char>) -> Seq<char> {
    if s.len() == 0 {
        Seq::empty()
    } else {
        seq![ascii_upper(s[0])] + s.drop_first()
    }
}

/// `s` with its first character replaced by `first_upper` (that
/// character's uppercase form); empty stays empty.
pub fn capitalized_from(first_upper: &str, s: &str) -> (r: String)
    ensures
        r@ == (if s@.len() == 0 { Seq::<char>::empty() } else { first_upper@ + s@.drop_first() }),
{
    let v = chars_of(s);
    if v.len() == 0 {
        return String::new();
    }
    let mut r = owned(first_upper);
    push_range(&mut r, &v, 1, v.len());
    assert(v@.subrange(1, v@.len() as int) =~= s@.drop_first());
    r
}

pub fn capitalize(s: &str) -> (r: String)
    ensures
        r@ == capitalized(s@),
        ascii_start(s@) ==> r@ == capitalized_ascii(s@),
{
    let v = chars_of(s);
    if v.len() == 0 {
        return String::new();
    }
    let up = char_uppercase(v[0]);
    assert((v[0] as u32) < 0x80 ==> up@ == seq![ascii_upper(v[0])]);
    capitalized_from(up.as_str(), s)
}

/// Whether a kokoro name's prefix is one of bm, bf, am, af.
pub open spec fn kokoro_has_class(voice: Seq<char>) -> bool {
    voice.len() >= 2 && (voice[0] == 'b' || voice[0] == 'a') && (voice[1] == 'm' || voice[1]
        == 'f')
}

/// Accent and gender that a kokoro name's two-letter prefix encodes.
pub open spec fn kokoro_class(voice: Seq<char>) -> Seq<char> {
    if voice.len() >= 2 && voice[0] == 'b' && voice[1] == 'm' {
        "British male"@
    } else if voice.len() >= 2 && voice[0] == 'b' && voice[1] == 'f' {
        "British female"@
    } else if voice.len() >= 2 && voice[0] == 'a' && voice[1] == 'm' {
        "American male"@
    } else if voice.len() >= 2 && voice[0] == 'a' && voice[1] == 'f' {
        "American female"@
    } else {
        Seq::empty()
    }
}

/// The part of a kokoro name after its first `_` (up to the next), or the
/// whole name when it has none.
pub open spec fn kokoro_given_name(voice: Seq<char>) -> Seq<char> {
    if split(voice, '_').len() >= 2 {
        split(voice, '_')[1]
    } else {
        voice
    }
}

/// Human label for a voice: kokoro names read as "British male · George",
/// cloud voices are just capitalized.
pub open spec fn voice_label_of(provider: Seq<char>, voice: Seq<char>) -> Seq<char> {
    if provider == "kokoro"@ {
        let class = kokoro_class(voice);
        let name = capitalized(kokoro_given_name(voice));
        if !kokoro_has_class(voice) {
            name
        } else {
            class + " · "@ + name
        }
    } else {
        capitalized(voice)
    }
}

/// The name a label capitalizes: a kokoro voice's given name, else the
/// voice itself.
pub open spec fn label_name(provider: Seq<char>, voice: Seq<char>) -> Seq<char> {
    if provider == "kokoro"@ {
        kokoro_given_name(voice)
    } else {
        voice
    }
}

/// `voice_label_of` when the name starts with an ASCII character: its
/// first letter uppercased the ASCII way.
pub open spec fn voice_label_ascii(provider: Seq<char>, voice: Seq<char>) -> Seq<char> {
    if provider == "kokoro"@ {
        let name = capitalized_ascii(kokoro_given_name(voice));
        if !kokoro_has_class(voice) {
            name
        } else {
            kokoro_class(voice) + " · "@ + name
        }
    } else {
        capitalized_ascii(voice)
    }
}

fn class_of(v: &Vec<char>) -> (r: Option<&'static str>)
    ensures
        r is Some <==> kokoro_has_class(v@),
        r matches Some(c) ==> c@ == kokoro_class(v@),
{
    if v.len() >= 2 && v[0] == 'b' && v[1] == 'm' {
        Some("British male")
    } else if v.len() >= 2 && v[0] == 'b' && v[1] == 'f' {
        Some("British female")
    } else if v.len() >= 2 && v[0] == 'a' && v[1] == 'm' {
        Some("American male")
    } else if v.len() >= 2 && v[0] == 'a' && v[1] == 'f' {
        Some("American female")
    } else {
        None
    }
}

/// Bounds of `kokoro_given_name(v)` within `v`.
fn given_name_bounds(v: &Vec<char>) -> (r: (usize, usize))
    ensures
        r.0 <= r.1 <= v.len(),
        v@.subrange(r.0 as int, r.1 as int) == kokoro_given_name(v@),
{
    let k = find_char(v, 0, '_');
    proof {
        assert(v@.subrange(0, k as int) =~= v@.take(k as int));
        lemma_split_first(v@, k as int, '_');
    }
    if k == v.len() {
        assert(v@.subrange(0, v@.len() as int) =~= v@);
        return (0, v.len());
    }
    let j = find_char(v, k + 1, '_');
    proof {
        let rest = v@.skip(k + 1);
        assert(rest.take(j - k - 1) =~= v@.subrange(k + 1, j as int));
        if j < v.len() {
            assert(rest[j - k - 1] == v@[j as int]);
        }
        lemma_split_first(rest, j - k - 1, '_');
        lemma_split_len(rest, '_');
        assert(split(v@, '_')[1] == split(rest, '_')[0]);
    }
    (k + 1, j)
}

/// The part of a voice name after its first `_` (up to the next), or the
/// whole name when it has none: "bm_george" gives "george".
pub fn given_name(voice: &str) -> (r: String)
    ensures
        r@ == kokoro_given_name(voice@),
{
    let v = chars_of(voice);
    let (a, b) = given_name_bounds(&v);
    string_of_range(&v, a, b)
}


/// Human label for a voice.
pub fn voice_label(provider: &str, voice: &str) -> (r: String)
    ensures
        r@ == voice_label_of(provider@, voice@),
        ascii_start(label_name(provider@, voice@)) ==> r@ == voice_label_ascii(provider@, voice@),
{
    if str_eq(provider, "kokoro") {
        let v = chars_of(voice);
        let class = class_of(&v);
        let (a, b) = given_name_bounds(&v);
        let given = string_of_range(&v, a, b);
        let name = capitalize(given.as_str());
        match class {
            None => name,
            Some(class) => {
                let mut r = owned(class);
                push_str(&mut r, " · ");
                push_str(&mut r, name.as_str());
                r
            },
        }
    } else {
        capitalize(voice)
    }
}

/// Display name for a provider section header.
pub open spec fn provider_label_of(name: Seq<char>) -> Seq<char> {
    if name == "kokoro"@ {
        "Kokoro-82M · local"@
    } else if name == "openai"@ {
        "OpenAI · cloud"@
    } else if name == "elevenlabs"@ {
        "ElevenLabs · cloud"@
    } else if name == "xai"@ {
        "xAI Grok · cloud"@
    } else if name == "groq"@ {
        "Groq · cloud"@
    } else {
        name
    }
}

pub fn provider_label(name: &str) -> (r: String)
    ensures
        r@ == provider_label_of(name@),
{
    if str_eq(name, "kokoro") {
        owned("Kokoro-82M · local")
    } else if str_eq(name, "openai") {
        owned("OpenAI · cloud")
    } else if str_eq(name, "elevenlabs") {
        owned("ElevenLabs · cloud")
    } else if str_eq(name, "xai") {
        owned("xAI Grok · cloud")
    } else if str_eq(name, "groq") {
        owned("Groq · cloud")
    } else {
        owned(name)
    }
}

/// Words instead of codes: "bm_george" reads "British male · George",
/// "openai/nova" reads "openai · Nova".
pub open spec fn voice_display_of(voice: Seq<char>) -> Seq<char> {
    let (provider, _model, name) = voice_path_of(voice);
    let label = voice_label_of(provider, name);
    if provider == "kokoro"@ {
        label
    } else {
        provider + " · "@ + label
    }
}

/// `voice_display_of` when the labelled name starts with an ASCII
/// character.
pub open spec fn voice_display_ascii(voice: Seq<char>) -> Seq<char> {
    let (provider, _model, name) = voice_path_of(voice);
    let label = voice_label_ascii(provider, name);
    if provider == "kokoro"@ {
        label
    } else {
        provider + " · "@ + label
    }
}

pub fn voice_display(voice: &str) -> (r: String)
    ensures
        r@ == voice_display_of(voice@),
        ({
            let (provider, _model, name) = voice_path_of(voice@);
            ascii_start(label_name(provider, name))
        }) ==> r@ == voice_display_ascii(voice@),
{
    let vp = VoicePath::parse(voice);
    let label = voice_label(vp.provider.as_str(), vp.voice.as_str());
    if str_eq(vp.provider.as_str(), "kokoro") {
        label
    } else {
        let mut r = vp.provider.clone();
        push_str(&mut r, " · ");
        push_str(&mut r, label.as_str());
        r
    }
}

} // verus!
