//! The speech providers vox knows: local Kokoro and the cloud services,
//! with the names, models, voices and endpoints that describe them.

use vstd::prelude::*;
use crate::text::{chars_of, lowercase_of, owned, push_str, str_eq, to_lowercase, trim, trim_str};

verus! {

pub enum Availability {
    Ready,
    /// Provider works once this environment variable holds an API key.
    NeedsKey(&'static str),
}

/// An API key as read from the environment is usable when it is not blank.
pub fn usable_key(value: Option<String>) -> (r: Option<String>)
    ensures
        match value {
            Some(k) => if trim(k@).len() > 0 {
                r == Some(k)
            } else {
                r is None
            },
            None => r is None,
        },
{
    match value {
        Some(k) => {
            let t = trim_str(k.as_str());
            if t.as_str().is_empty() {
                None
            } else {
                Some(k)
            }
        },
        None => None,
    }
}

/// Ready when the key is present, else the variable it needs.
pub fn availability_for(env_key: &'static str, key_present: bool) -> (r: Availability)
    ensures
        key_present ==> r is Ready,
        !key_present ==> (r matches Availability::NeedsKey(v) && v@ == env_key@),
{
    if key_present {
        Availability::Ready
    } else {
        Availability::NeedsKey(env_key)
    }
}

fn strings_of(names: &[&'static str]) -> (r: Vec<String>)
    ensures
        r.len() == names.len(),
        forall|k: int| 0 <= k < r.len() ==> (#[trigger] r[k])@ == names[k]@,
{
    let mut r: Vec<String> = Vec::new();
    let mut k: usize = 0;
    while k < names.len()
        invariant
            k <= names.len(),
            r.len() == k,
            forall|q: int| 0 <= q < k ==> (#[trigger] r[q])@ == names[q]@,
        decreases names.len() - k,
    {
        r.push(owned(names[k]));
        k += 1;
    }
    r
}

/// An OpenAI-compatible speech endpoint (OpenAI itself, Groq).
pub struct OpenAiCompat {
    name: &'static str,
    url: &'static str,
    env_key: &'static str,
    default_model: &'static str,
    voices: &'static [&'static str],
    /// true: request raw PCM and stream it; false: a WAV file, buffered
    pcm: bool,
    /// whether the endpoint accepts the `speed` field
    speed_param: bool,
}

/// The voice names of a static roster.
pub open spec fn roster(names: Seq<&'static str>) -> Seq<Seq<char>> {
    names.map_values(|n: &'static str| n@)
}

impl OpenAiCompat {
    pub closed spec fn name_spec(&self) -> Seq<char> {
        self.name@
    }

    pub closed spec fn url_spec(&self) -> Seq<char> {
        self.url@
    }

    pub closed spec fn env_key_spec(&self) -> Seq<char> {
        self.env_key@
    }

    pub closed spec fn default_model_spec(&self) -> Seq<char> {
        self.default_model@
    }

    pub closed spec fn voices_spec(&self) -> Seq<Seq<char>> {
        roster(self.voices@)
    }

    pub closed spec fn pcm_spec(&self) -> bool {
        self.pcm
    }

    pub closed spec fn speed_param_spec(&self) -> bool {
        self.speed_param
    }

    pub fn name(&self) -> (r: &'static str)
        ensures
            r@ == self.name_spec(),
    {
        self.name
    }

    pub fn default_model(&self) -> (r: &'static str)
        ensures
            r@ == self.default_model_spec(),
    {
        self.default_model
    }

    pub fn url(&self) -> (r: &'static str)
        ensures
            r@ == self.url_spec(),
    {
        self.url
    }

    pub fn env_key(&self) -> (r: &'static str)
        ensures
            r@ == self.env_key_spec(),
    {
        self.env_key
    }

    /// Known voices, for pickers and --list-voices; unknown names are
    /// passed through to the API.
    pub fn voices(&self) -> (r: Vec<String>)
        ensures
            r.deep_view() == self.voices_spec(),
    {
        let r = strings_of(self.voices);
        assert(r.deep_view() =~= self.voices_spec());
        r
    }

    pub fn availability(&self, key_present: bool) -> (r: Availability)
        ensures
            key_present ==> r is Ready,
            !key_present ==> (r matches Availability::NeedsKey(v) && v@ == self.env_key_spec()),
    {
        availability_for(self.env_key, key_present)
    }

    /// `response_format` to request: streamed raw PCM, or a WAV file.
    pub fn response_format(&self) -> (r: &'static str)
        ensures
            r@ == (if self.pcm_spec() {
                "pcm"@
            } else {
                "wav"@
            }),
    {
        if self.pcm {
            "pcm"
        } else {
            "wav"
        }
    }

    /// true: the reply is raw 24 kHz PCM, streamed; false: a WAV file.
    pub fn streams_pcm(&self) -> (r: bool)
        ensures
            r == self.pcm_spec(),
    {
        self.pcm
    }

    /// Whether the endpoint accepts the `speed` field.
    pub fn accepts_speed(&self) -> (r: bool)
        ensures
            r == self.speed_param_spec(),
    {
        self.speed_param
    }
}

pub open spec fn openai_voices() -> Seq<Seq<char>> {
    seq![
        "alloy"@, "ash"@, "ballad"@, "coral"@, "echo"@, "fable"@, "nova"@, "onyx"@, "sage"@,
        "shimmer"@, "verse"@,
    ]
}

pub open spec fn groq_voices() -> Seq<Seq<char>> {
    seq!["austin"@, "hannah"@, "troy"@]
}

pub fn openai() -> (p: OpenAiCompat)
    ensures
        p.name_spec() == "openai"@,
        p.url_spec() == "https://api.openai.com/v1/audio/speech"@,
        p.env_key_spec() == "OPENAI_API_KEY"@,
        p.default_model_spec() == "gpt-4o-mini-tts"@,
        p.voices_spec() == openai_voices(),
        p.pcm_spec(),
        p.speed_param_spec(),
{
    let p = OpenAiCompat {
        name: "openai",
        url: "https://api.openai.com/v1/audio/speech",
        env_key: "OPENAI_API_KEY",
        default_model: "gpt-4o-mini-tts",
        voices: &[
            "alloy", "ash", "ballad", "coral", "echo", "fable", "nova", "onyx", "sage",
            "shimmer", "verse",
        ],
        pcm: true,
        speed_param: true,
    };
    assert(p.voices_spec() =~= openai_voices());
    p
}

pub fn groq() -> (p: OpenAiCompat)
    ensures
        p.name_spec() == "groq"@,
        p.url_spec() == "https://api.groq.com/openai/v1/audio/speech"@,
        p.env_key_spec() == "GROQ_API_KEY"@,
        p.default_model_spec() == "canopylabs/orpheus-v1-english"@,
        p.voices_spec() == groq_voices(),
        !p.pcm_spec(),
        !p.speed_param_spec(),
{
    let p = OpenAiCompat {
        name: "groq",
        url: "https://api.groq.com/openai/v1/audio/speech",
        env_key: "GROQ_API_KEY",
        default_model: "canopylabs/orpheus-v1-english",
        voices: &["austin", "hannah", "troy"],
        pcm: false,
        speed_param: false,
    };
    assert(p.voices_spec() =~= groq_voices());
    p
}

} // verus!

verus! {

/// ElevenLabs premade voices (stable public IDs). Any other value is passed
/// through as a raw voice ID, so cloned and library voices work by ID.
pub open spec fn eleven_voices() -> Seq<(Seq<char>, Seq<char>)> {
    seq![
        ("rachel"@, "21m00Tcm4TlvDq8ikWAM"@),
        ("adam"@, "pNInz6obpgDQGcFmaJgB"@),
        ("antoni"@, "ErXwobaYiN019PkySvjV"@),
        ("sarah"@, "EXAVITQu4vr4xnSDxMaL"@),
        ("josh"@, "TxGEqnHWrfWFTfGW9XjX"@),
        ("domi"@, "AZnzlk1XvdvUeBnXmlld"@),
        ("elli"@, "MF3mGyEYCl7XYWbV9V6O"@),
        ("sam"@, "yoZ06aMxZJJ28mfd3POQ"@),
        ("george"@, "JBFqnCBsd6RMkjVDRZzb"@),
        ("charlie"@, "IKne3meq5aSn9XLyUdCD"@),
    ]
}

fn eleven_table() -> (r: &'static [(&'static str, &'static str)])
    ensures
        r@.len() == eleven_voices().len(),
        forall|k: int| 0 <= k < r@.len() ==> (#[trigger] r@[k]).0@ == eleven_voices()[k].0 && r@[k].1@
            == eleven_voices()[k].1,
{
    &[
        ("rachel", "21m00Tcm4TlvDq8ikWAM"),
        ("adam", "pNInz6obpgDQGcFmaJgB"),
        ("antoni", "ErXwobaYiN019PkySvjV"),
        ("sarah", "EXAVITQu4vr4xnSDxMaL"),
        ("josh", "TxGEqnHWrfWFTfGW9XjX"),
        ("domi", "AZnzlk1XvdvUeBnXmlld"),
        ("elli", "MF3mGyEYCl7XYWbV9V6O"),
        ("sam", "yoZ06aMxZJJ28mfd3POQ"),
        ("george", "JBFqnCBsd6RMkjVDRZzb"),
        ("charlie", "IKne3meq5aSn9XLyUdCD"),
    ]
}

/// The ID of the first premade voice named `name`, scanning from `k`.
pub open spec fn lookup_from(table: Seq<(Seq<char>, Seq<char>)>, name: Seq<char>, k: int) -> Option<
    Seq<char>,
>
    decreases table.len() - k,
{
    if k < 0 || k >= table.len() {
        None
    } else if table[k].0 == name {
        Some(table[k].1)
    } else {
        lookup_from(table, name, k + 1)
    }
}

/// The voice ID ElevenLabs is asked for: the premade voice whose name
/// matches case-insensitively, else the value itself.
pub open spec fn eleven_voice_id(voice: Seq<char>) -> Seq<char> {
    match lookup_from(eleven_voices(), lowercase_of(voice), 0) {
        Some(id) => id,
        None => voice,
    }
}

/// The ElevenLabs provider; it asks for character alignment so karaoke gets
/// real timings.
pub struct ElevenLabs;

impl ElevenLabs {
    pub const ENV_KEY: &'static str = "ELEVENLABS_API_KEY";

    pub fn name(&self) -> (r: &'static str)
        ensures
            r@ == "elevenlabs"@,
    {
        "elevenlabs"
    }

    pub fn default_model(&self) -> (r: &'static str)
        ensures
            r@ == "eleven_flash_v2_5"@,
    {
        "eleven_flash_v2_5"
    }

    pub fn voices(&self) -> (r: Vec<String>)
        ensures
            r.len() == eleven_voices().len(),
            forall|k: int| 0 <= k < r.len() ==> (#[trigger] r[k])@ == eleven_voices()[k].0,
    {
        let t = eleven_table();
        let mut r: Vec<String> = Vec::new();
        let mut k: usize = 0;
        while k < t.len()
            invariant
                t@.len() == eleven_voices().len(),
                forall|q: int| 0 <= q < t@.len() ==> (#[trigger] t@[q]).0@ == eleven_voices()[q].0,
                k <= t.len(),
                r.len() == k,
                forall|q: int| 0 <= q < k ==> (#[trigger] r[q])@ == eleven_voices()[q].0,
            decreases t.len() - k,
        {
            r.push(owned(t[k].0));
            assert(t@[k as int].0@ == eleven_voices()[k as int].0);
            k += 1;
        }
        r
    }

    pub fn availability(&self, key_present: bool) -> (r: Availability)
        ensures
            key_present ==> r is Ready,
            !key_present ==> (r matches Availability::NeedsKey(v) && v@ == "ELEVENLABS_API_KEY"@),
    {
        availability_for("ELEVENLABS_API_KEY", key_present)
    }

    /// The voice ID to request: a premade voice by name (any case), else
    /// the value passed through as a raw ID.
    pub fn voice_id(voice: &str) -> (r: String)
        ensures
            r@ == eleven_voice_id(voice@),
    {
        let lower = to_lowercase(voice);
        Self::voice_id_for(voice, lower.as_str())
    }

    /// The voice ID to request given the voice's lowercase form `lowered`:
    /// the premade voice of that name, else `voice` as a raw ID.
    pub fn voice_id_for(voice: &str, lowered: &str) -> (r: String)
        ensures
            r@ == (match lookup_from(eleven_voices(), lowered@, 0) {
                Some(id) => id,
                None => voice@,
            }),
    {
        let t = eleven_table();
        let mut k: usize = 0;
        while k < t.len()
            invariant
                t@.len() == eleven_voices().len(),
                forall|q: int| 0 <= q < t@.len() ==> (#[trigger] t@[q]).0@ == eleven_voices()[q].0
                    && t@[q].1@ == eleven_voices()[q].1,
                k <= t.len(),
                lookup_from(eleven_voices(), lowered@, 0) == lookup_from(
                    eleven_voices(),
                    lowered@,
                    k as int,
                ),
            decreases t.len() - k,
        {
            assert(t@[k as int].0@ == eleven_voices()[k as int].0);
            if str_eq(t[k].0, lowered) {
                assert(t@[k as int].1@ == eleven_voices()[k as int].1);
                return owned(t[k].1);
            }
            k += 1;
        }
        owned(voice)
    }

    /// The with-timestamps endpoint for a voice ID, asking for 24 kHz PCM.
    pub fn url(voice_id: &str) -> (r: String)
        ensures
            r@ == "https://api.elevenlabs.io/v1/text-to-speech/"@ + voice_id@
                + "/with-timestamps?output_format=pcm_24000"@,
    {
        let mut r = owned("https://api.elevenlabs.io/v1/text-to-speech/");
        push_str(&mut r, voice_id);
        push_str(&mut r, "/with-timestamps?output_format=pcm_24000");
        r
    }
}

/// The xAI (Grok) provider: JSON replies carrying base64 audio and
/// per-character timing.
pub struct Xai;

pub open spec fn xai_voices() -> Seq<Seq<char>> {
    seq!["ara"@, "eve"@, "leo"@]
}

impl Xai {
    pub fn name(&self) -> (r: &'static str)
        ensures
            r@ == "xai"@,
    {
        "xai"
    }

    pub fn default_model(&self) -> (r: &'static str)
        ensures
            r@ == "grok-tts"@,
    {
        "grok-tts"
    }

    /// Built-in roster; custom voice IDs pass through.
    pub fn voices(&self) -> (r: Vec<String>)
        ensures
            r.deep_view() == xai_voices(),
    {
        let r = vec![owned("ara"), owned("eve"), owned("leo")];
        assert(r.deep_view() =~= xai_voices());
        r
    }

    pub fn availability(&self, key_present: bool) -> (r: Availability)
        ensures
            key_present ==> r is Ready,
            !key_present ==> (r matches Availability::NeedsKey(v) && v@ == "XAI_API_KEY"@),
    {
        availability_for("XAI_API_KEY", key_present)
    }

    pub fn url() -> (r: &'static str)
        ensures
            r@ == "https://api.x.ai/v1/tts"@,
    {
        "https://api.x.ai/v1/tts"
    }
}

/// A compact API error: with an HTTP status, the provider, the status and
/// the first 300 characters of the response body (which carries the actual
/// reason: bad key, unknown voice, quota); otherwise the provider and the
/// transport error's text.
pub open spec fn api_error_text(
    provider: Seq<char>,
    status: Option<u16>,
    body: Seq<char>,
    other: Seq<char>,
) -> Seq<char> {
    match status {
        Some(code) => provider + ": HTTP "@ + crate::text::decimal(code as nat) + ": "@ + (if body.len()
            > 300 {
            body.take(300)
        } else {
            body
        }),
        None => provider + ": "@ + other,
    }
}

pub fn api_error_message(provider: &str, status: Option<u16>, body: &str, other: &str) -> (r: String)
    ensures
        r@ == api_error_text(provider@, status, body@, other@),
{
    let mut r = owned(provider);
    match status {
        Some(code) => {
            push_str(&mut r, ": HTTP ");
            let c = crate::text::decimal_string(code as u64);
            push_str(&mut r, c.as_str());
            push_str(&mut r, ": ");
            let v = chars_of(body);
            let n = if v.len() > 300 {
                300
            } else {
                v.len()
            };
            crate::text::push_range(&mut r, &v, 0, n);
            assert(v@.subrange(0, n as int) =~= (if body@.len() > 300 {
                body@.take(300)
            } else {
                body@
            }));
        },
        None => {
            push_str(&mut r, ": ");
            push_str(&mut r, other);
        },
    }
    r
}

} // verus!

verus! {

/// What the CLI and the reader need to know of a provider.
pub struct ProviderInfo {
    pub name: &'static str,
    /// The environment variable holding its API key (none for Kokoro).
    pub env_key: Option<&'static str>,
    pub default_model: &'static str,
    pub voices: Vec<String>,
}

/// A provider's description as plain values: name, key variable, default
/// model, voices.
pub type InfoModel = (Seq<char>, Option<Seq<char>>, Seq<char>, Seq<Seq<char>>);

pub open spec fn info_view(p: ProviderInfo) -> InfoModel {
    (p.name@, match p.env_key {
        Some(k) => Some(k@),
        None => None,
    }, p.default_model@, p.voices.deep_view())
}

pub open spec fn eleven_names() -> Seq<Seq<char>> {
    eleven_voices().map_values(|p: (Seq<char>, Seq<char>)| p.0)
}

/// Every provider, local Kokoro first, then the cloud services in the order
/// they are listed.
pub open spec fn catalog() -> Seq<InfoModel> {
    seq![
        ("kokoro"@, None, "v1.0"@, crate::kokoro::voice_names_spec()),
        ("openai"@, Some("OPENAI_API_KEY"@), "gpt-4o-mini-tts"@, openai_voices()),
        ("elevenlabs"@, Some("ELEVENLABS_API_KEY"@), "eleven_flash_v2_5"@, eleven_names()),
        ("xai"@, Some("XAI_API_KEY"@), "grok-tts"@, xai_voices()),
        ("groq"@, Some("GROQ_API_KEY"@), "canopylabs/orpheus-v1-english"@, groq_voices()),
    ]
}

/// The providers of `catalog()`.
pub fn provider_catalog() -> (r: Vec<ProviderInfo>)
    ensures
        r.len() == catalog().len(),
        forall|k: int| 0 <= k < r.len() ==> info_view(#[trigger] r@[k]) == catalog()[k],
{
    let o = openai();
    let g = groq();
    let ev = ElevenLabs.voices();
    assert(ev.deep_view() =~= eleven_names());
    let kokoro = ProviderInfo {
        name: "kokoro",
        env_key: None,
        default_model: "v1.0",
        voices: crate::kokoro::voice_names(),
    };
    let openai = ProviderInfo {
        name: o.name(),
        env_key: Some(o.env_key()),
        default_model: o.default_model(),
        voices: o.voices(),
    };
    let eleven = ProviderInfo {
        name: ElevenLabs.name(),
        env_key: Some(ElevenLabs::ENV_KEY),
        default_model: ElevenLabs.default_model(),
        voices: ev,
    };
    let xai = ProviderInfo {
        name: Xai.name(),
        env_key: Some("XAI_API_KEY"),
        default_model: Xai.default_model(),
        voices: Xai.voices(),
    };
    let groq = ProviderInfo {
        name: g.name(),
        env_key: Some(g.env_key()),
        default_model: g.default_model(),
        voices: g.voices(),
    };
    vec![kokoro, openai, eleven, xai, groq]
}

} // verus!
