//! The bundled local engine's voice roster and espeak language choice.

use vstd::prelude::*;
use crate::text::{chars_of, owned, str_eq};

verus! {

/// espeak voice for a kokoro voice: `b…` names are British (RP), all others
/// American.
pub open spec fn lang_of(voice: Seq<char>) -> Seq<char> {
    if voice.len() > 0 && voice[0] == 'b' {
        "en-gb-x-rp"@
    } else {
        "en-us"@
    }
}

/// espeak voice from the vox voice prefix: bm_/bf_ British, am_/af_ American.
pub fn lang_for(voice: &str) -> (r: &'static str)
    ensures
        r@ == lang_of(voice@),
{
    let v = chars_of(voice);
    if v.len() > 0 && v[0] == 'b' {
        "en-gb-x-rp"
    } else {
        "en-us"
    }
}

/// The twelve English kokoro voices vox offers, British then American.
pub open spec fn voice_names_spec() -> Seq<Seq<char>> {
    seq![
        "bm_george"@, "bm_lewis"@, "bm_daniel"@, "bm_fable"@, "bf_emma"@, "bf_isabella"@,
        "am_adam"@, "am_michael"@, "af_heart"@, "af_bella"@, "af_nicole"@, "af_sarah"@,
    ]
}

/// Whether a voice name carries a British prefix, `bm_` or `bf_`.
pub open spec fn british_prefix(voice: Seq<char>) -> bool {
    voice.len() >= 3 && (voice.take(3) == "bm_"@ || voice.take(3) == "bf_"@)
}

/// Of the roster, espeak speaks British RP for exactly the voices named
/// `bm_…` or `bf_…` (the first six) and American English for the others.
pub proof fn lemma_roster_languages(k: int)
    requires
        0 <= k < voice_names_spec().len(),
    ensures
        lang_of(voice_names_spec()[k]) == "en-gb-x-rp"@ <==> british_prefix(voice_names_spec()[k]),
        !british_prefix(voice_names_spec()[k]) ==> lang_of(voice_names_spec()[k]) == "en-us"@,
        british_prefix(voice_names_spec()[k]) <==> k < 6,
{
    reveal_strlit("bm_george");
    reveal_strlit("bm_lewis");
    reveal_strlit("bm_daniel");
    reveal_strlit("bm_fable");
    reveal_strlit("bf_emma");
    reveal_strlit("bf_isabella");
    reveal_strlit("am_adam");
    reveal_strlit("am_michael");
    reveal_strlit("af_heart");
    reveal_strlit("af_bella");
    reveal_strlit("af_nicole");
    reveal_strlit("af_sarah");
    reveal_strlit("bm_");
    reveal_strlit("bf_");
    reveal_strlit("en-gb-x-rp");
    reveal_strlit("en-us");
    let v = voice_names_spec()[k];
    assert(v.len() >= 3);
    assert(v.take(3)[0] == v[0]);
    assert("en-gb-x-rp"@.len() != "en-us"@.len());
    if k < 6 {
        assert(v[0] == 'b' && v[2] == '_' && (v[1] == 'm' || v[1] == 'f'));
        if v[1] == 'm' {
            assert(v.take(3) =~= "bm_"@);
        } else {
            assert(v.take(3) =~= "bf_"@);
        }
    } else {
        assert(v[0] == 'a');
        assert("bm_"@[0] == 'b' && "bf_"@[0] == 'b');
    }
}

/// The kokoro voice names, in roster order.
pub fn voice_names() -> (r: Vec<String>)
    ensures
        r.deep_view() == voice_names_spec(),
{
    let r = vec![
        owned("bm_george"), owned("bm_lewis"), owned("bm_daniel"), owned("bm_fable"),
        owned("bf_emma"), owned("bf_isabella"), owned("am_adam"), owned("am_michael"),
        owned("af_heart"), owned("af_bella"), owned("af_nicole"), owned("af_sarah"),
    ];
    assert(r.deep_view() =~= voice_names_spec());
    r
}

/// Whether `name` is one of the kokoro voices.
pub fn is_voice_name(name: &str) -> (r: bool)
    ensures
        r == voice_names_spec().contains(name@),
{
    let names = voice_names();
    let mut i: usize = 0;
    while i < names.len()
        invariant
            names.deep_view() == voice_names_spec(),
            i <= names.len(),
            forall|k: int| 0 <= k < i ==> voice_names_spec()[k] != name@,
        decreases names.len() - i,
    {
        if str_eq(names[i].as_str(), name) {
            assert(voice_names_spec()[i as int] == name@);
            return true;
        }
        i += 1;
    }
    false
}

} // verus!
