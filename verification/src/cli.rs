//! The decisions of the `vox` command: what to do with its flags, which
//! provider speaks a voice, the voice listing, where audio is saved, and the
//! texts it prints.

use vstd::prelude::*;
use crate::kokoro::{is_voice_name, voice_names_spec};
use crate::providers::{catalog, provider_catalog, ProviderInfo, info_view};
use crate::text::{
    chars_of, decimal, decimal_string, is_ascii_alnum, join, lowercase_of, nonempty_parts, owned,
    pad_right, push_padded, push_str, split, str_eq, string_of, to_lowercase, trim, trim_str,
    char_is_ascii_alnum,
};
use crate::voices::{VoicePath, voice_label, voice_label_of, provider_label, provider_label_of};

verus! {

// ---- what to do -------------------------------------------------------------

/// What one run of `vox` does.
#[derive(Debug, PartialEq, Eq, Clone, Copy)]
pub enum Mode {
    ListVoices,
    /// Stop every other vox process.
    Stop,
    /// Download the model files and exit.
    Setup,
    /// Open the reader UI.
    Ui,
    /// Speak a text once.
    Speak,
}

/// `--list-voices` wins, then `--stop`, then `--setup`; the reader opens
/// with `--ui`, or when no text, file or clipboard is asked for and stdin
/// is a terminal.
pub open spec fn mode_of(
    list_voices: bool,
    stop: bool,
    setup: bool,
    ui: bool,
    has_text: bool,
    has_file: bool,
    clip: bool,
    stdin_tty: bool,
) -> Mode {
    if list_voices {
        Mode::ListVoices
    } else if stop {
        Mode::Stop
    } else if setup {
        Mode::Setup
    } else if ui || (!has_text && !has_file && !clip && stdin_tty) {
        Mode::Ui
    } else {
        Mode::Speak
    }
}

pub fn choose_mode(
    list_voices: bool,
    stop: bool,
    setup: bool,
    ui: bool,
    has_text: bool,
    has_file: bool,
    clip: bool,
    stdin_tty: bool,
) -> (r: Mode)
    ensures
        r == mode_of(list_voices, stop, setup, ui, has_text, has_file, clip, stdin_tty),
{
    if list_voices {
        Mode::ListVoices
    } else if stop {
        Mode::Stop
    } else if setup {
        Mode::Setup
    } else if ui || (!has_text && !has_file && !clip && stdin_tty) {
        Mode::Ui
    } else {
        Mode::Speak
    }
}

/// A setting from the command line (flag or environment) wins over the
/// project's `.vox.json`, which wins over the built-in default.
pub fn prefer<T>(flag: Option<T>, project: Option<T>, fallback: T) -> (r: T)
    ensures
        r == (match flag {
            Some(v) => v,
            None => match project {
                Some(v) => v,
                None => fallback,
            },
        }),
{
    match flag {
        Some(v) => v,
        None => match project {
            Some(v) => v,
            None => fallback,
        },
    }
}

/// Where the text to speak comes from.
#[derive(Debug, PartialEq, Eq, Clone, Copy)]
pub enum Source {
    Clipboard,
    File,
    Argument,
    Stdin,
}

/// The clipboard (`-c`) wins, then a file (`-f`), then the argument, then
/// stdin when it is not a terminal; with none of them there is no text.
pub open spec fn source_of(clip: bool, has_file: bool, has_text: bool, stdin_tty: bool) -> Option<Source> {
    if clip {
        Some(Source::Clipboard)
    } else if has_file {
        Some(Source::File)
    } else if has_text {
        Some(Source::Argument)
    } else if !stdin_tty {
        Some(Source::Stdin)
    } else {
        None
    }
}

pub fn input_source(clip: bool, has_file: bool, has_text: bool, stdin_tty: bool) -> (r: Result<Source, String>)
    ensures
        match source_of(clip, has_file, has_text, stdin_tty) {
            Some(s) => r == Ok::<Source, String>(s),
            None => (r matches Err(e) && e@ == "no text given (pass as argument, -f FILE, -c, or pipe stdin)"@),
        },
{
    if clip {
        Ok(Source::Clipboard)
    } else if has_file {
        Ok(Source::File)
    } else if has_text {
        Ok(Source::Argument)
    } else if !stdin_tty {
        Ok(Source::Stdin)
    } else {
        Err(owned("no text given (pass as argument, -f FILE, -c, or pipe stdin)"))
    }
}

/// The text as read, trimmed; blank input is refused.
pub fn clean_input(text: &str) -> (r: Result<String, String>)
    ensures
        trim(text@).len() > 0 ==> (r matches Ok(t) && t@ == trim(text@)),
        trim(text@).len() == 0 ==> (r matches Err(e) && e@ == "input text is empty"@),
{
    let t = trim_str(text);
    if t.as_str().is_empty() {
        Err(owned("input text is empty"))
    } else {
        Ok(t)
    }
}

// ---- which provider speaks ------------------------------------------------

/// The index in `catalog()` of the provider named `name`, from `k` on.
pub open spec fn catalog_index_from(name: Seq<char>, k: int) -> Option<int>
    decreases catalog().len() - k,
{
    if k < 0 || k >= catalog().len() {
        None
    } else if catalog()[k].0 == name {
        Some(k)
    } else {
        catalog_index_from(name, k + 1)
    }
}

pub open spec fn catalog_index(name: Seq<char>) -> Option<int> {
    catalog_index_from(name, 0)
}

/// A provider is ready when it needs no key or its key is present
/// (`has_key[k]`).
pub open spec fn ready(k: int, has_key: Seq<bool>) -> bool {
    catalog()[k].1 is None || has_key[k]
}

pub open spec fn model_or(model: Option<Seq<char>>, default: Seq<char>) -> Seq<char> {
    match model {
        Some(m) => m,
        None => default,
    }
}

/// The one-shot speaker's choice for a voice path: the provider's index in
/// `catalog()` and the model to ask for, or the error that stops it.
pub open spec fn cli_pick(
    path: (Seq<char>, Option<Seq<char>>, Seq<char>),
    has_key: Seq<bool>,
) -> Result<(int, Seq<char>), Seq<char>> {
    let (p, m, v) = path;
    if p == "kokoro"@ {
        if voice_names_spec().contains(v) {
            Ok((0, model_or(m, "v1.0"@)))
        } else {
            Err("unknown voice '"@ + v + "' (try --list-voices)"@)
        }
    } else {
        match catalog_index(p) {
            None => Err("unknown provider '"@ + p + "' (try --list-voices)"@),
            Some(k) => if ready(k, has_key) {
                Ok((k, model_or(m, catalog()[k].2)))
            } else {
                Err("provider '"@ + p + "' needs the "@ + catalog()[k].1.unwrap()
                    + " environment variable"@)
            },
        }
    }
}

/// The reader's choice: the same lookup (Kokoro voices are not checked
/// here), with its own messages.
pub open spec fn reader_pick(
    path: (Seq<char>, Option<Seq<char>>, Seq<char>),
    has_key: Seq<bool>,
) -> Result<(int, Seq<char>), Seq<char>> {
    let (p, m, v) = path;
    match catalog_index(p) {
        None => Err("unknown provider '"@ + p + "'"@),
        Some(k) => if ready(k, has_key) {
            Ok((k, model_or(m, catalog()[k].2)))
        } else {
            Err(p + " needs "@ + catalog()[k].1.unwrap() + " set"@)
        },
    }
}

pub open spec fn pick_view(r: Result<(usize, String), String>) -> Result<(int, Seq<char>), Seq<char>> {
    match r {
        Ok((k, m)) => Ok((k as int, m@)),
        Err(e) => Err(e@),
    }
}

fn find_provider(infos: &Vec<ProviderInfo>, name: &str) -> (r: Option<usize>)
    requires
        infos.len() == catalog().len(),
        forall|k: int| 0 <= k < infos.len() ==> info_view(#[trigger] infos@[k]) == catalog()[k],
    ensures
        match r {
            Some(k) => catalog_index(name@) == Some(k as int) && k < infos.len(),
            None => catalog_index(name@) is None,
        },
{
    let mut k: usize = 0;
    while k < infos.len()
        invariant
            k <= infos.len() == catalog().len(),
            forall|q: int| 0 <= q < infos.len() ==> info_view(#[trigger] infos@[q]) == catalog()[q],
            catalog_index(name@) == catalog_index_from(name@, k as int),
        decreases infos.len() - k,
    {
        assert(info_view(infos@[k as int]) == catalog()[k as int]);
        if str_eq(infos[k].name, name) {
            return Some(k);
        }
        k += 1;
    }
    None
}

fn model_text(model: &Option<String>, default: &'static str) -> (r: String)
    ensures
        r@ == model_or(
            match model {
                Some(m) => Some(m@),
                None => None,
            },
            default@,
        ),
{
    match model {
        Some(m) => m.clone(),
        None => owned(default),
    }
}

/// Which provider speaks `vp` in the one-shot speaker (`has_key[k]`: the
/// API key of `catalog()[k]` is set).
pub fn pick_provider(vp: &VoicePath, has_key: &Vec<bool>) -> (r: Result<(usize, String), String>)
    requires
        has_key.len() == catalog().len(),
    ensures
        pick_view(r) == cli_pick(vp.spec_parts(), has_key@),
{
    let infos = provider_catalog();
    if str_eq(vp.provider.as_str(), "kokoro") {
        if is_voice_name(vp.voice.as_str()) {
            Ok((0, model_text(&vp.model, "v1.0")))
        } else {
            let mut e = owned("unknown voice '");
            push_str(&mut e, vp.voice.as_str());
            push_str(&mut e, "' (try --list-voices)");
            Err(e)
        }
    } else {
        match find_provider(&infos, vp.provider.as_str()) {
            None => {
                let mut e = owned("unknown provider '");
                push_str(&mut e, vp.provider.as_str());
                push_str(&mut e, "' (try --list-voices)");
                Err(e)
            },
            Some(k) => {
                assert(info_view(infos@[k as int]) == catalog()[k as int]);
                match infos[k].env_key {
                    Some(var) => if !has_key[k] {
                        let mut e = owned("provider '");
                        push_str(&mut e, vp.provider.as_str());
                        push_str(&mut e, "' needs the ");
                        push_str(&mut e, var);
                        push_str(&mut e, " environment variable");
                        return Err(e);
                    },
                    None => {},
                }
                Ok((k, model_text(&vp.model, infos[k].default_model)))
            },
        }
    }
}

/// Which provider speaks `vp` in the reader.
pub fn pick_reader_provider(vp: &VoicePath, has_key: &Vec<bool>) -> (r: Result<(usize, String), String>)
    requires
        has_key.len() == catalog().len(),
    ensures
        pick_view(r) == reader_pick(vp.spec_parts(), has_key@),
{
    let infos = provider_catalog();
    match find_provider(&infos, vp.provider.as_str()) {
        None => {
            let mut e = owned("unknown provider '");
            push_str(&mut e, vp.provider.as_str());
            push_str(&mut e, "'");
            Err(e)
        },
        Some(k) => {
            assert(info_view(infos@[k as int]) == catalog()[k as int]);
            match infos[k].env_key {
                Some(var) => if !has_key[k] {
                    let mut e = vp.provider.clone();
                    push_str(&mut e, " needs ");
                    push_str(&mut e, var);
                    push_str(&mut e, " set");
                    return Err(e);
                },
                None => {},
            }
            Ok((k, model_text(&vp.model, infos[k].default_model)))
        },
    }
}

// ---- the voice listing ------------------------------------------------------

/// One voice as `--list-voices` shows it.
pub struct VoiceEntry {
    /// The voice path to pass to `-v`.
    pub path: String,
    pub label: String,
    pub provider: &'static str,
    pub provider_label: String,
    pub ready: bool,
    /// The variable its key is missing from.
    pub needs: Option<&'static str>,
    /// The provider's last recorded failure.
    pub error: Option<String>,
}

/// (path, label, provider, provider label, ready, needs, error)
pub type EntryModel = (Seq<char>, Seq<char>, Seq<char>, Seq<char>, bool, Option<Seq<char>>, Option<Seq<char>>);

pub open spec fn entry_view(e: VoiceEntry) -> EntryModel {
    (e.path@, e.label@, e.provider@, e.provider_label@, e.ready, match e.needs {
        Some(v) => Some(v@),
        None => None,
    }, match e.error {
        Some(x) => Some(x@),
        None => None,
    })
}

/// The recorded failure reason of provider `name` (the first listed).
pub open spec fn error_from(errors: Seq<(Seq<char>, Seq<char>)>, name: Seq<char>, k: int) -> Option<Seq<char>>
    decreases errors.len() - k,
{
    if k < 0 || k >= errors.len() {
        None
    } else if errors[k].0 == name {
        Some(errors[k].1)
    } else {
        error_from(errors, name, k + 1)
    }
}

/// The path of voice `v` of provider `k`: bare for Kokoro, else
/// `provider/voice`.
pub open spec fn voice_path_text(k: int, v: Seq<char>) -> Seq<char> {
    if k == 0 {
        v
    } else {
        catalog()[k].0 + seq!['/'] + v
    }
}

pub open spec fn entry_of(
    k: int,
    v: Seq<char>,
    has_key: Seq<bool>,
    errors: Seq<(Seq<char>, Seq<char>)>,
) -> EntryModel {
    let name = catalog()[k].0;
    (
        voice_path_text(k, v),
        voice_label_of(name, v),
        name,
        provider_label_of(name),
        ready(k, has_key),
        if ready(k, has_key) { None } else { catalog()[k].1 },
        if k == 0 { None } else { error_from(errors, name, 0) },
    )
}

pub open spec fn provider_entries(
    k: int,
    has_key: Seq<bool>,
    errors: Seq<(Seq<char>, Seq<char>)>,
) -> Seq<EntryModel> {
    catalog()[k].3.map_values(|v: Seq<char>| entry_of(k, v, has_key, errors))
}

/// The entries of the first `n` providers of `catalog()`, in order.
pub open spec fn entries_upto(
    n: int,
    has_key: Seq<bool>,
    errors: Seq<(Seq<char>, Seq<char>)>,
) -> Seq<EntryModel>
    decreases n,
{
    if n <= 0 {
        Seq::empty()
    } else {
        entries_upto(n - 1, has_key, errors) + provider_entries(n - 1, has_key, errors)
    }
}

fn error_of(errors: &Vec<(String, String)>, name: &str) -> (r: Option<String>)
    ensures
        match r {
            Some(x) => error_from(errors.deep_view(), name@, 0) == Some(x@),
            None => error_from(errors.deep_view(), name@, 0) is None,
        },
{
    let ghost e = errors.deep_view();
    let mut k: usize = 0;
    while k < errors.len()
        invariant
            k <= errors.len(),
            e == errors.deep_view(),
            error_from(e, name@, 0) == error_from(e, name@, k as int),
        decreases errors.len() - k,
    {
        if str_eq(errors[k].0.as_str(), name) {
            return Some(errors[k].1.clone());
        }
        k += 1;
    }
    None
}

/// Every voice of every provider, as `--list-voices` shows them:
/// `has_key[k]` tells whether the API key of `catalog()[k]` is set, and
/// `errors` holds the recorded failure reason of each provider.
pub fn list_voices(has_key: &Vec<bool>, errors: &Vec<(String, String)>) -> (r: Vec<VoiceEntry>)
    requires
        has_key.len() == catalog().len(),
    ensures
        r@.map_values(|e: VoiceEntry| entry_view(e)) == entries_upto(catalog().len() as int, has_key@, errors.deep_view()),
{
    let infos = provider_catalog();
    let ghost hk = has_key@;
    let ghost ev = errors.deep_view();
    let mut r: Vec<VoiceEntry> = Vec::new();
    let mut k: usize = 0;
    proof {
        assert(r@.map_values(|e: VoiceEntry| entry_view(e)) =~= entries_upto(0, hk, ev));
    }
    while k < infos.len()
        invariant
            k <= infos.len() == catalog().len() == has_key.len(),
            forall|q: int| 0 <= q < infos.len() ==> info_view(#[trigger] infos@[q]) == catalog()[q],
            hk == has_key@,
            ev == errors.deep_view(),
            r@.map_values(|e: VoiceEntry| entry_view(e)) == entries_upto(k as int, hk, ev),
        decreases infos.len() - k,
    {
        assert(info_view(infos@[k as int]) == catalog()[k as int]);
        let info = &infos[k];
        let is_ready = match info.env_key {
            Some(_) => has_key[k],
            None => true,
        };
        let needs: Option<&'static str> = if is_ready { None } else { info.env_key };
        let error = if k == 0 { None } else { error_of(errors, info.name) };
        let ghost base = r@.map_values(|e: VoiceEntry| entry_view(e));
        let ghost pe = provider_entries(k as int, hk, ev);
        let mut j: usize = 0;
        while j < info.voices.len()
            invariant
                k < infos.len() == catalog().len() == has_key.len(),
                info_view(*info) == catalog()[k as int],
                hk == has_key@,
                ev == errors.deep_view(),
                is_ready == ready(k as int, hk),
                pe == provider_entries(k as int, hk, ev),
                pe.len() == info.voices.len(),
                match needs {
                    Some(v) => entry_of(k as int, Seq::empty(), hk, ev).5 == Some(v@),
                    None => entry_of(k as int, Seq::empty(), hk, ev).5 is None,
                },
                match error {
                    Some(x) => entry_of(k as int, Seq::empty(), hk, ev).6 == Some(x@),
                    None => entry_of(k as int, Seq::empty(), hk, ev).6 is None,
                },
                j <= info.voices.len(),
                r@.map_values(|e: VoiceEntry| entry_view(e)) == base + pe.take(j as int),
            decreases info.voices.len() - j,
        {
            let v = &info.voices[j];
            let path = if k == 0 {
                v.clone()
            } else {
                let mut p = owned(info.name);
                p.push('/');
                push_str(&mut p, v.as_str());
                p
            };
            let e = VoiceEntry {
                path,
                label: voice_label(info.name, v.as_str()),
                provider: info.name,
                provider_label: provider_label(info.name),
                ready: is_ready,
                needs,
                error: match &error {
                    Some(x) => Some(x.clone()),
                    None => None,
                },
            };
            proof {
                assert(info.voices.deep_view()[j as int] == v@);
                assert(entry_view(e) == pe[j as int]);
            }
            let ghost old_r = r@;
            let ghost ev_e = entry_view(e);
            r.push(e);
            proof {
                assert(r@.map_values(|e: VoiceEntry| entry_view(e)) =~= old_r.map_values(
                    |e: VoiceEntry| entry_view(e),
                ).push(ev_e));
                assert(pe.take(j + 1) =~= pe.take(j as int).push(pe[j as int]));
            }
            j += 1;
            assert(r@.map_values(|e: VoiceEntry| entry_view(e)) =~= base + pe.take(j as int));
        }
        assert(pe.take(info.voices.len() as int) =~= pe);
        k += 1;
    }
    r
}

/// A line of the plain listing: the path padded to 44 columns, the label,
/// then why the voice cannot be used, if it cannot.
pub open spec fn voice_line_of(e: EntryModel) -> Seq<char> {
    pad_right(e.0, 44) + seq![' '] + e.1 + match e.5 {
        Some(var) => "   (needs "@ + var + ")"@,
        None => match e.6 {
            Some(err) => "   (error: "@ + err + ")"@,
            None => Seq::empty(),
        },
    }
}

pub fn voice_line(e: &VoiceEntry) -> (r: String)
    ensures
        r@ == voice_line_of(entry_view(*e)),
{
    let mut r = String::new();
    push_padded(&mut r, e.path.as_str(), 44);
    r.push(' ');
    push_str(&mut r, e.label.as_str());
    match e.needs {
        Some(var) => {
            push_str(&mut r, "   (needs ");
            push_str(&mut r, var);
            push_str(&mut r, ")");
        },
        None => match &e.error {
            Some(err) => {
                push_str(&mut r, "   (error: ");
                push_str(&mut r, err.as_str());
                push_str(&mut r, ")");
            },
            None => {},
        },
    }
    r
}

/// The voices the reader's settings offer: those of every ready provider
/// among the first `n` of `catalog()`, Kokoro's bare, others as
/// `provider/voice`.
pub open spec fn picker_upto(n: int, has_key: Seq<bool>) -> Seq<Seq<char>>
    decreases n,
{
    if n <= 0 {
        Seq::empty()
    } else {
        picker_upto(n - 1, has_key) + if ready(n - 1, has_key) {
            catalog()[n - 1].3.map_values(|v: Seq<char>| voice_path_text(n - 1, v))
        } else {
            Seq::empty()
        }
    }
}

pub fn picker_voices(has_key: &Vec<bool>) -> (r: Vec<String>)
    requires
        has_key.len() == catalog().len(),
    ensures
        r.deep_view() == picker_upto(catalog().len() as int, has_key@),
{
    let infos = provider_catalog();
    let mut r: Vec<String> = Vec::new();
    let mut k: usize = 0;
    assert(r.deep_view() =~= picker_upto(0, has_key@));
    while k < infos.len()
        invariant
            k <= infos.len() == catalog().len() == has_key.len(),
            forall|q: int| 0 <= q < infos.len() ==> info_view(#[trigger] infos@[q]) == catalog()[q],
            r.deep_view() == picker_upto(k as int, has_key@),
        decreases infos.len() - k,
    {
        assert(info_view(infos@[k as int]) == catalog()[k as int]);
        let info = &infos[k];
        let is_ready = match info.env_key {
            Some(_) => has_key[k],
            None => true,
        };
        let ghost base = r.deep_view();
        let ghost add = catalog()[k as int].3.map_values(|v: Seq<char>| voice_path_text(k as int, v));
        if is_ready {
            let mut j: usize = 0;
            while j < info.voices.len()
                invariant
                    k < infos.len() == catalog().len(),
                    info_view(*info) == catalog()[k as int],
                    add == catalog()[k as int].3.map_values(|v: Seq<char>| voice_path_text(k as int, v)),
                    j <= info.voices.len(),
                    r.deep_view() == base + add.take(j as int),
                decreases info.voices.len() - j,
            {
                let v = &info.voices[j];
                let path = if k == 0 {
                    v.clone()
                } else {
                    let mut p = owned(info.name);
                    p.push('/');
                    push_str(&mut p, v.as_str());
                    p
                };
                assert(info.voices.deep_view()[j as int] == v@);
                assert(path@ == add[j as int]);
                let ghost before = r.deep_view();
                r.push(path);
                assert(r.deep_view() =~= before.push(add[j as int]));
                assert(add.take(j + 1) =~= add.take(j as int).push(add[j as int]));
                j += 1;
            }
            assert(add.take(info.voices.len() as int) =~= add);
        } else {
            assert(r.deep_view() =~= base + Seq::<Seq<char>>::empty());
        }
        k += 1;
    }
    r
}

// ---- file names and small texts ------------------------------------------

/// Seconds since the epoch as a file-name stamp (unique and sortable).
pub fn chrono_stamp(now_secs: u64) -> (r: String)
    ensures
        r@ == decimal(now_secs as nat),
{
    decimal_string(now_secs)
}

/// ASCII letters and digits stay, anything else becomes `-`.
pub open spec fn dashed(c: char) -> char {
    if is_ascii_alnum(c) {
        c
    } else {
        '-'
    }
}

pub open spec fn at_most(s: Seq<char>, n: nat) -> Seq<char> {
    if s.len() <= n {
        s
    } else {
        s.take(n as int)
    }
}

/// The first `n` characters of the lowercased text, dashed.
pub open spec fn dashed_prefix(text: Seq<char>, n: nat) -> Seq<char> {
    at_most(lowercase_of(text), n).map_values(|c: char| dashed(c))
}

fn dashed_prefix_of(text: &str, n: usize) -> (r: Vec<char>)
    ensures
        r@ == dashed_prefix(text@, n as nat),
{
    let lower = to_lowercase(text);
    let v = chars_of(lower.as_str());
    let m = if v.len() <= n { v.len() } else { n };
    let mut r: Vec<char> = Vec::new();
    let mut i: usize = 0;
    while i < m
        invariant
            i <= m <= v.len(),
            m == (if v.len() <= n { v.len() } else { n }),
            v@ == lowercase_of(text@),
            r@ == v@.take(i as int).map_values(|c: char| dashed(c)),
        decreases m - i,
    {
        let c = v[i];
        r.push(if char_is_ascii_alnum(c) { c } else { '-' });
        i += 1;
        assert(r@ =~= v@.take(i as int).map_values(|c: char| dashed(c)));
    }
    assert(at_most(v@, n as nat) =~= v@.take(m as int));
    r
}

/// The slug of a saved readout: the first 40 characters of the lowercased
/// text, runs of anything but ASCII letters and digits turned into single
/// dashes, none at either end.
pub open spec fn slug_of(text: Seq<char>) -> Seq<char> {
    join(nonempty_parts(split(dashed_prefix(text, 40), '-')), seq!['-'])
}

/// The file a one-shot readout is saved to: `stamp-slug.wav`.
pub open spec fn out_file_name_of(stamp: nat, text: Seq<char>) -> Seq<char> {
    decimal(stamp) + seq!['-'] + slug_of(text) + ".wav"@
}

pub fn out_file_name(stamp: u64, text: &str) -> (r: String)
    ensures
        r@ == out_file_name_of(stamp as nat, text@),
{
    let d = dashed_prefix_of(text, 40);
    let ds = string_of(&d);
    let parts = crate::voices::split_parts(ds.as_str(), '-');
    let slug = crate::text::join_strings(&parts, "-");
    proof {
        reveal_strlit("-");
        assert("-"@ =~= seq!['-']);
    }
    let mut r = decimal_string(stamp);
    r.push('-');
    push_str(&mut r, slug.as_str());
    push_str(&mut r, ".wav");
    r
}

/// `s` without the leading `c`s.
pub open spec fn strip_front(s: Seq<char>, c: char) -> Seq<char>
    decreases s.len(),
{
    if s.len() > 0 && s[0] == c {
        strip_front(s.drop_first(), c)
    } else {
        s
    }
}

/// `s` without the trailing `c`s.
pub open spec fn strip_back(s: Seq<char>, c: char) -> Seq<char>
    decreases s.len(),
{
    if s.len() > 0 && s.last() == c {
        strip_back(s.drop_last(), c)
    } else {
        s
    }
}

/// `str::trim_matches(c)`.
pub open spec fn trim_char(s: Seq<char>, c: char) -> Seq<char> {
    strip_back(strip_front(s, c), c)
}

fn trim_char_of(v: &Vec<char>, c: char) -> (r: String)
    ensures
        r@ == trim_char(v@, c),
{
    let n = v.len();
    let mut i: usize = 0;
    assert(v@.subrange(0, n as int) =~= v@);
    while i < n && v[i] == c
        invariant
            i <= n == v.len(),
            strip_front(v@, c) == strip_front(v@.subrange(i as int, n as int), c),
        decreases n - i,
    {
        assert(v@.subrange(i as int, n as int).drop_first() =~= v@.subrange(i + 1, n as int));
        i += 1;
    }
    let mut j: usize = n;
    while j > i && v[j - 1] == c
        invariant
            i <= j <= n == v.len(),
            strip_front(v@, c) == v@.subrange(i as int, n as int),
            strip_back(v@.subrange(i as int, n as int), c) == strip_back(v@.subrange(i as int, j as int), c),
        decreases j - i,
    {
        assert(v@.subrange(i as int, j as int).drop_last() =~= v@.subrange(i as int, j - 1));
        j -= 1;
    }
    crate::text::string_of_range(v, i, j)
}

/// The slug of a readout saved by the reader: the first 32 characters of
/// the lowercased text, dashed, without dashes at either end.
pub open spec fn reader_slug_of(text: Seq<char>) -> Seq<char> {
    trim_char(dashed_prefix(text, 32), '-')
}

/// The file a reader readout is saved to: `stamp-slug.wav`.
pub open spec fn reader_file_name_of(stamp: nat, text: Seq<char>) -> Seq<char> {
    decimal(stamp) + seq!['-'] + reader_slug_of(text) + ".wav"@
}

pub fn reader_file_name(stamp: u64, text: &str) -> (r: String)
    ensures
        r@ == reader_file_name_of(stamp as nat, text@),
{
    let d = dashed_prefix_of(text, 32);
    let slug = trim_char_of(&d, '-');
    let mut r = decimal_string(stamp);
    r.push('-');
    push_str(&mut r, slug.as_str());
    push_str(&mut r, ".wav");
    r
}

/// A failure shown as a desktop notification: double quotes turned into
/// single ones, cut to 180 characters, inside the AppleScript that posts
/// it.
pub open spec fn notification_script_of(msg: Seq<char>) -> Seq<char> {
    let q = msg.map_values(|c: char| if c == '"' { '\'' } else { c });
    "display notification \""@ + at_most(q, 180) + "\" with title \"vox\""@
}

pub fn notification_script(msg: &str) -> (r: String)
    ensures
        r@ == notification_script_of(msg@),
{
    let v = chars_of(msg);
    let ghost q = msg@.map_values(|c: char| if c == '"' { '\'' } else { c });
    let m = if v.len() <= 180 { v.len() } else { 180 };
    let mut r = owned("display notification \"");
    let ghost base = r@;
    let mut i: usize = 0;
    while i < m
        invariant
            i <= m <= v.len(),
            v@ == msg@,
            q == msg@.map_values(|c: char| if c == '"' { '\'' } else { c }),
            r@ == base + q.take(i as int),
        decreases m - i,
    {
        let c = v[i];
        r.push(if c == '"' { '\'' } else { c });
        i += 1;
        assert(r@ =~= base + q.take(i as int));
    }
    assert(at_most(q, 180) =~= q.take(m as int));
    push_str(&mut r, "\" with title \"vox\"");
    r
}

/// The words of `s` other than `me`, in order.
pub open spec fn others(ws: Seq<Seq<char>>, me: Seq<char>) -> Seq<Seq<char>>
    decreases ws.len(),
{
    if ws.len() == 0 {
        Seq::empty()
    } else if ws.last() == me {
        others(ws.drop_last(), me)
    } else {
        others(ws.drop_last(), me).push(ws.last())
    }
}

/// The process IDs `--stop` kills: those `pgrep` printed, but this one.
pub fn pids_to_kill(pgrep_out: &str, me: &str) -> (r: Vec<String>)
    ensures
        r.deep_view() == others(crate::karaoke::words_of(pgrep_out@), me@),
{
    let ws = crate::karaoke::words(pgrep_out);
    let ghost w = ws.deep_view();
    let mut r: Vec<String> = Vec::new();
    let mut i: usize = 0;
    assert(w.take(0) =~= Seq::<Seq<char>>::empty());
    while i < ws.len()
        invariant
            i <= ws.len(),
            w == ws.deep_view(),
            r.deep_view() == others(w.take(i as int), me@),
        decreases ws.len() - i,
    {
        assert(w.take(i + 1).drop_last() =~= w.take(i as int));
        assert(w.take(i + 1).last() == ws@[i as int]@);
        if !str_eq(ws[i].as_str(), me) {
            let ghost before = r.deep_view();
            r.push(ws[i].clone());
            assert(r.deep_view() =~= before.push(ws@[i as int]@));
        }
        i += 1;
    }
    assert(w.take(ws.len() as int) =~= w);
    r
}

/// What `--stop` reports.
pub fn stop_message(killed: usize) -> (r: &'static str)
    ensures
        r@ == (if killed > 0 { "Stopped."@ } else { "Nothing was speaking."@ }),
{
    if killed > 0 {
        "Stopped."
    } else {
        "Nothing was speaking."
    }
}

/// Where the model files are downloaded from.
pub const RELEASE_BASE: &'static str =
    "https://github.com/thewh1teagle/kokoro-onnx/releases/download/model-files-v1.0";

/// The model file (fp32: about twice as fast as int8 on Apple Silicon).
pub const MODEL_FILE: &'static str = "kokoro-v1.0.onnx";

pub const VOICES_FILE: &'static str = "voices-v1.0.bin";

/// The download address of a model file.
pub fn model_url(file: &str) -> (r: String)
    ensures
        r@ == RELEASE_BASE@ + seq!['/'] + file@,
{
    let mut r = owned(RELEASE_BASE);
    r.push('/');
    push_str(&mut r, file);
    r
}

/// Download progress is reported in steps of at least ten percent: the new
/// percentage when it has moved that far since the last report.
pub open spec fn progress_of(done: nat, total: nat, last_pct: nat) -> Option<nat> {
    let pct = done * 100 / total;
    if pct >= last_pct + 10 {
        Some(pct)
    } else {
        None
    }
}

pub fn progress_step(done: u64, total: u64, last_pct: u64) -> (r: Option<u64>)
    requires
        total > 0,
        done <= u64::MAX / 100,
        last_pct <= u64::MAX - 10,
    ensures
        match progress_of(done as nat, total as nat, last_pct as nat) {
            Some(p) => r == Some(p as u64),
            None => r is None,
        },
{
    let pct = done * 100 / total;
    if pct >= last_pct + 10 {
        Some(pct)
    } else {
        None
    }
}

/// The progress line: `  pct% (done / total MB)`, whole mebibytes.
pub open spec fn progress_line_of(pct: nat, done: nat, total: nat) -> Seq<char> {
    "  "@ + decimal(pct) + "% ("@ + decimal(done / 1048576) + " / "@ + decimal(total / 1048576) + " MB)"@
}

pub fn progress_line(pct: u64, done: u64, total: u64) -> (r: String)
    ensures
        r@ == progress_line_of(pct as nat, done as nat, total as nat),
{
    let mut r = owned("  ");
    push_str(&mut r, decimal_string(pct).as_str());
    push_str(&mut r, "% (");
    push_str(&mut r, decimal_string(done / 1048576).as_str());
    push_str(&mut r, " / ");
    push_str(&mut r, decimal_string(total / 1048576).as_str());
    push_str(&mut r, " MB)");
    r
}

/// Who hears about a fallback to Kokoro.
#[derive(Debug, PartialEq, Eq, Clone, Copy)]
pub enum Audience {
    /// The one-shot speaker's terminal.
    Terminal,
    /// A desktop notification.
    Notification,
    /// The reader's status line.
    Reader,
}

/// `name failed (reason) — ...` for the fallback to Kokoro.
pub open spec fn fallback_note_of(name: Seq<char>, reason: Seq<char>, to: Audience) -> Seq<char> {
    name + " failed ("@ + reason + ") — "@ + match to {
        Audience::Terminal => "falling back to kokoro"@,
        Audience::Notification => "using Kokoro instead"@,
        Audience::Reader => "using Kokoro"@,
    }
}

pub fn fallback_note(name: &str, reason: &str, to: Audience) -> (r: String)
    ensures
        r@ == fallback_note_of(name@, reason@, to),
{
    let mut r = owned(name);
    push_str(&mut r, " failed (");
    push_str(&mut r, reason);
    push_str(&mut r, ") — ");
    match to {
        Audience::Terminal => push_str(&mut r, "falling back to kokoro"),
        Audience::Notification => push_str(&mut r, "using Kokoro instead"),
        Audience::Reader => push_str(&mut r, "using Kokoro"),
    }
    r
}

} // verus!
