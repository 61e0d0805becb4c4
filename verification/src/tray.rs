//! The menu-bar companion's decisions: where its files live, what a
//! shortcut or socket command does, how a readout is launched, the history
//! it keeps, and its icon.
//!
//! Everything it shares with the assistant's readout hook lives in one
//! shared directory under the home directory, which the caller names.

use vstd::prelude::*;
use crate::config::{join_path, join_path_text};
use crate::kokoro::{is_voice_name, voice_names_spec};
use crate::text::{chars_of, owned, push_str, str_eq, string_of_range, trim, trim_str};
use crate::voices::{given_name, kokoro_given_name};

verus! {

// ---- paths --------------------------------------------------------------------

/// Settings shared with the readout hook: `state.json` in the shared
/// directory `dir`.
pub fn state_path(dir: &str) -> (r: String)
    ensures
        r@ == join_path(dir@, "state.json"@),
{
    join_path_text(dir, "state.json")
}

/// The command socket: `vox.sock` in the shared directory.
pub fn sock_path(dir: &str) -> (r: String)
    ensures
        r@ == join_path(dir@, "vox.sock"@),
{
    join_path_text(dir, "vox.sock")
}

/// The readout history: `history.jsonl` in the shared directory.
pub fn history_path(dir: &str) -> (r: String)
    ensures
        r@ == join_path(dir@, "history.jsonl"@),
{
    join_path_text(dir, "history.jsonl")
}

/// The vox binary: `~/.local/bin/vox` when it exists, else `vox` from PATH.
pub fn vox_bin(home: &str, local_exists: bool) -> (r: String)
    ensures
        r@ == (if local_exists { join_path(home@, ".local/bin/vox"@) } else { "vox"@ }),
{
    if local_exists {
        join_path_text(home, ".local/bin/vox")
    } else {
        owned("vox")
    }
}

/// `~/rest` under `home`; any other path as it is.
pub open spec fn tray_expand_of(p: Seq<char>, home: Seq<char>) -> Seq<char> {
    if p.len() >= 2 && p[0] == '~' && p[1] == '/' {
        join_path(home, p.subrange(2, p.len() as int))
    } else {
        p
    }
}

pub fn expand_tilde(p: &str, home: &str) -> (r: String)
    ensures
        r@ == tray_expand_of(p@, home@),
{
    let v = chars_of(p);
    if v.len() >= 2 && v[0] == '~' && v[1] == '/' {
        let rest = string_of_range(&v, 2, v.len());
        join_path_text(home, rest.as_str())
    } else {
        owned(p)
    }
}

// ---- speaking -----------------------------------------------------------------

/// A text to read out, trimmed; nothing when it is blank.
pub fn speak_text(text: &str) -> (r: Option<String>)
    ensures
        trim(text@).len() > 0 ==> (r matches Some(t) && t@ == trim(text@)),
        trim(text@).len() == 0 ==> r is None,
{
    let t = trim_str(text);
    if t.as_str().is_empty() {
        None
    } else {
        Some(t)
    }
}

/// Markdown made speakable by the shared filter: its output, trimmed, when
/// the filter ran and printed something; else the text as it was.
pub fn speakable(text: &str, filtered: Option<String>) -> (r: String)
    ensures
        r@ == (match filtered {
            Some(f) => if trim(f@).len() > 0 { trim(f@) } else { text@ },
            None => text@,
        }),
{
    match filtered {
        Some(f) => {
            let t = trim_str(f.as_str());
            if t.as_str().is_empty() {
                owned(text)
            } else {
                t
            }
        },
        None => owned(text),
    }
}

/// A history line kept at a write: always when the time limit is 0,
/// else when its timestamp (seconds) is no older than the limit.
pub open spec fn fresh(ts: Option<u64>, now: u64, ttl_minutes: u64) -> bool {
    ttl_minutes == 0 || (ts matches Some(t) && t + ttl_minutes * 60 >= now)
}

/// The lines of a history (timestamp if it has one, text) kept at a write.
pub open spec fn kept_history(lines: Seq<(Option<u64>, Seq<char>)>, now: u64, ttl_minutes: u64) -> Seq<Seq<char>>
    decreases lines.len(),
{
    if lines.len() == 0 {
        Seq::empty()
    } else {
        let p = kept_history(lines.drop_last(), now, ttl_minutes);
        if fresh(lines.last().0, now, ttl_minutes) {
            p.push(lines.last().1)
        } else {
            p
        }
    }
}

pub open spec fn lines_view(lines: Seq<(Option<u64>, String)>) -> Seq<(Option<u64>, Seq<char>)> {
    lines.map_values(|l: (Option<u64>, String)| (l.0, l.1@))
}

/// The history file after recording `entry` at `now`: the lines no older
/// than `ttl_minutes` (all of them for 0), then the entry; nothing is
/// written (`None`) while text history is off.
pub fn add_history(
    lines: Vec<(Option<u64>, String)>,
    entry: String,
    now: u64,
    ttl_minutes: u64,
    save_history: bool,
) -> (r: Option<Vec<String>>)
    ensures
        !save_history ==> r is None,
        save_history ==> (r matches Some(v) && v.deep_view() == kept_history(
            lines_view(lines@),
            now,
            ttl_minutes,
        ).push(entry@)),
{
    if !save_history {
        return None;
    }
    let ghost lv = lines_view(lines@);
    let mut r: Vec<String> = Vec::new();
    let mut i: usize = 0;
    assert(lv.take(0) =~= Seq::<(Option<u64>, Seq<char>)>::empty());
    while i < lines.len()
        invariant
            i <= lines.len(),
            lv == lines_view(lines@),
            r.deep_view() == kept_history(lv.take(i as int), now, ttl_minutes),
        decreases lines.len() - i,
    {
        assert(lv.take(i + 1).drop_last() =~= lv.take(i as int));
        assert(lv.take(i + 1).last() == (lines@[i as int].0, lines@[i as int].1@));
        let keep = ttl_minutes == 0 || match lines[i].0 {
            Some(t) => (t as u128) + (ttl_minutes as u128) * 60 >= now as u128,
            None => false,
        };
        if keep {
            let ghost b = r.deep_view();
            r.push(lines[i].1.clone());
            assert(r.deep_view() =~= b.push(lines@[i as int].1@));
        }
        i += 1;
    }
    assert(lv.take(lines.len() as int) =~= lv);
    let ghost b = r.deep_view();
    r.push(entry);
    assert(r.deep_view() =~= b.push(entry@));
    Some(r)
}

/// The newest `max` entries of a history kept oldest first, newest first.
pub open spec fn newest_first_of<T>(entries: Seq<T>, max: nat) -> Seq<T> {
    let rev = entries.reverse();
    if rev.len() > max {
        rev.take(max as int)
    } else {
        rev
    }
}

pub fn newest_first<T>(entries: Vec<T>, max: usize) -> (r: Vec<T>)
    ensures
        r@ == newest_first_of(entries@, max as nat),
{
    let mut src = entries;
    let ghost orig = src@;
    let mut r: Vec<T> = Vec::new();
    while src.len() > 0 && r.len() < max
        invariant
            src@ == orig.take(src.len() as int),
            src.len() <= orig.len(),
            r@ == orig.reverse().take(r.len() as int),
            r.len() + src.len() == orig.len(),
            r.len() <= max,
        decreases src.len(),
    {
        let ghost s = src@;
        let x = src.pop().unwrap();
        let ghost rb = r@;
        r.push(x);
        proof {
            assert(x == orig[src.len() as int]);
            assert(src@ =~= orig.take(src.len() as int));
            assert(orig.reverse()[rb.len() as int] == orig[orig.len() - 1 - rb.len()]);
            assert(r@ =~= orig.reverse().take(r.len() as int));
        }
    }
    proof {
        if r.len() < max {
            assert(src.len() == 0);
            assert(r@ =~= orig.reverse());
        } else {
            assert(r@ == orig.reverse().take(max as int));
        }
    }
    r
}

/// Whether a text is one JSON value (`serde_json::from_str::<Value>`).
pub uninterp spec fn parses_as_json(text: Seq<char>) -> bool;

/// Calls `serde_json::from_str::<serde_json::Value>` on `text` and tells
/// whether it succeeded. Trusted: the answer is `parses_as_json(text)`, a
/// function of the text alone; which texts parse is named, not spelled out.
#[verifier::external_body]
fn is_json(text: &str) -> (r: bool)
    ensures
        r == parses_as_json(text@),
{
    serde_json::from_str::<serde_json::Value>(text).is_ok()
}

/// A line without the `\r` of a `\r\n` ending.
pub open spec fn strip_cr(l: Seq<char>) -> Seq<char> {
    if l.len() > 0 && l.last() == '\r' {
        l.drop_last()
    } else {
        l
    }
}

/// `str::lines`: the pieces between `\n`s, each ended line without a
/// `\r` before its `\n`, and no empty piece after a final `\n`.
pub open spec fn lines_of(s: Seq<char>) -> Seq<Seq<char>> {
    let p = crate::text::split(s, '\n');
    let ended = p.drop_last().map_values(|l: Seq<char>| strip_cr(l));
    if p.last().len() == 0 {
        ended
    } else {
        ended.push(p.last())
    }
}

/// The lines that are JSON values, in order.
pub open spec fn json_lines(ls: Seq<Seq<char>>) -> Seq<Seq<char>>
    decreases ls.len(),
{
    if ls.len() == 0 {
        Seq::empty()
    } else if parses_as_json(ls.last()) {
        json_lines(ls.drop_last()).push(ls.last())
    } else {
        json_lines(ls.drop_last())
    }
}

/// The history as shown: the lines of the history file that are JSON
/// values, newest first, at most `max` of them.
pub open spec fn history_entries_of(text: Seq<char>, max: nat) -> Seq<Seq<char>> {
    newest_first_of(json_lines(lines_of(text)), max)
}

pub fn history_entries(text: &str, max: usize) -> (r: Vec<String>)
    ensures
        r.deep_view() == history_entries_of(text@, max as nat),
{
    let v = chars_of(text);
    let mut kept: Vec<String> = Vec::new();
    let mut start: usize = 0;
    let mut i: usize = 0;
    let ghost f = |l: Seq<char>| strip_cr(l);
    proof {
        assert(v@.take(0) =~= Seq::<char>::empty());
        assert(crate::text::split(Seq::<char>::empty(), '\n') =~= seq![Seq::<char>::empty()]);
        assert(seq![Seq::<char>::empty()].drop_last() =~= Seq::<Seq<char>>::empty());
        assert(Seq::<Seq<char>>::empty().map_values(f) =~= Seq::<Seq<char>>::empty());
        assert(kept.deep_view() =~= json_lines(Seq::<Seq<char>>::empty()));
        assert(v@.subrange(0, 0) =~= Seq::<char>::empty());
    }
    while i < v.len()
        invariant
            v@ == text@,
            start <= i <= v.len(),
            kept.deep_view() == json_lines(crate::text::split(v@.take(i as int), '\n').drop_last().map_values(f)),
            crate::text::split(v@.take(i as int), '\n').last() == v@.subrange(start as int, i as int),
            f == (|l: Seq<char>| strip_cr(l)),
        decreases v.len() - i,
    {
        let ghost sp = crate::text::split(v@.take(i as int), '\n');
        proof {
            crate::text::lemma_split_len(v@.take(i as int), '\n');
            assert(v@.take(i + 1) =~= v@.take(i as int).push(v@[i as int]));
            crate::text::lemma_split_push(v@.take(i as int), v@[i as int], '\n');
            assert(sp =~= sp.drop_last().push(sp.last()));
        }
        if v[i] == '\n' {
            let end = if i > start && v[i - 1] == '\r' {
                i - 1
            } else {
                i
            };
            let line = string_of_range(&v, start, end);
            proof {
                let piece = v@.subrange(start as int, i as int);
                if i > start && v@[i - 1] == '\r' {
                    assert(piece.last() == v@[i - 1]);
                    assert(piece.drop_last() =~= v@.subrange(start as int, end as int));
                } else {
                    assert(piece =~= v@.subrange(start as int, end as int));
                }
                assert(line@ == strip_cr(sp.last()));
                assert(sp.map_values(f) =~= sp.drop_last().map_values(f).push(f(sp.last())));
            }
            let ghost before = kept.deep_view();
            if is_json(line.as_str()) {
                kept.push(line);
                assert(kept.deep_view() =~= before.push(strip_cr(sp.last())));
            }
            start = i + 1;
            i = i + 1;
            proof {
                assert(crate::text::split(v@.take(i as int), '\n').drop_last() =~= sp);
                assert(sp.map_values(f).drop_last() =~= sp.drop_last().map_values(f));
                assert(sp.map_values(f).last() == strip_cr(sp.last()));
                assert(v@.subrange(start as int, i as int) =~= Seq::<char>::empty());
            }
        } else {
            i = i + 1;
            proof {
                let np = crate::text::split(v@.take(i as int), '\n');
                assert(np.drop_last() =~= sp.drop_last());
                assert(np.last() =~= v@.subrange(start as int, i as int));
            }
        }
    }
    let ghost sp = crate::text::split(v@.take(i as int), '\n');
    proof {
        assert(v@.take(i as int) =~= text@);
    }
    if start < v.len() {
        let last = string_of_range(&v, start, v.len());
        let ghost before = kept.deep_view();
        if is_json(last.as_str()) {
            kept.push(last);
            assert(kept.deep_view() =~= before.push(sp.last()));
        }
        proof {
            let ended = sp.drop_last().map_values(f);
            assert(ended.push(sp.last()).drop_last() =~= ended);
            assert(lines_of(text@) == ended.push(sp.last()));
        }
    } else {
        assert(sp.last() =~= Seq::<char>::empty());
    }
    let r = newest_first(kept, max);
    proof {
        let kv = json_lines(lines_of(text@));
        assert(r.deep_view() =~= newest_first_of(kv, max as nat));
    }
    r
}

/// A short sample in the voice just picked, for the voices the tray
/// offers: "Hello, this is the george voice. This is how I sound."
pub open spec fn preview_sample_of(voice: Seq<char>) -> Option<Seq<char>> {
    if voice_names_spec().contains(voice) {
        Some("Hello, this is the "@ + kokoro_given_name(voice) + " voice. This is how I sound."@)
    } else {
        None
    }
}

pub fn preview_sample(voice: &str) -> (r: Option<String>)
    ensures
        match preview_sample_of(voice@) {
            Some(s) => r matches Some(t) && t@ == s,
            None => r is None,
        },
{
    if !is_voice_name(voice) {
        return None;
    }
    let mut s = owned("Hello, this is the ");
    push_str(&mut s, given_name(voice).as_str());
    push_str(&mut s, " voice. This is how I sound.");
    Some(s)
}

/// A saved readout the pruner deletes: a `.wav` file older than the
/// cutoff (an age the clock cannot tell counts as fresh).
pub open spec fn stale_audio_of(ext: Option<Seq<char>>, age_nanos: Option<u128>, cutoff_secs: u64) -> bool {
    ext == Some("wav"@) && (age_nanos matches Some(a) && a > cutoff_secs * 1_000_000_000)
}

pub fn stale_audio(ext: Option<&str>, age_nanos: Option<u128>, cutoff_secs: u64) -> (r: bool)
    ensures
        r == stale_audio_of(
            match ext {
                Some(e) => Some(e@),
                None => None,
            },
            age_nanos,
            cutoff_secs,
        ),
{
    let wav = match ext {
        Some(e) => str_eq(e, "wav"),
        None => false,
    };
    wav && match age_nanos {
        Some(a) => a > cutoff_secs as u128 * 1_000_000_000,
        None => false,
    }
}

/// The pruner's cutoff for a TTL of whole minutes, in seconds (at most
/// `u64::MAX`).
pub open spec fn ttl_cutoff_secs(ttl_minutes: u64) -> u64 {
    if ttl_minutes * 60 <= u64::MAX {
        (ttl_minutes * 60) as u64
    } else {
        u64::MAX
    }
}

/// Whether the pruner deletes a file: only while readouts are saved and a
/// TTL is set (0 keeps every file), and then a `.wav` older than the TTL.
pub open spec fn prunes(save_audio: bool, ttl_minutes: u64, ext: Option<Seq<char>>, age_nanos: Option<u128>) -> bool {
    save_audio && ttl_minutes > 0 && stale_audio_of(ext, age_nanos, ttl_cutoff_secs(ttl_minutes))
}

pub open spec fn ext_view(e: Option<String>) -> Option<Seq<char>> {
    match e {
        Some(t) => Some(t@),
        None => None,
    }
}

/// The files of the audio folder the pruner deletes, given for each its
/// extension and age (if the clock can tell): their indices, in order.
pub fn audio_to_prune(save_audio: bool, ttl_minutes: u64, files: &Vec<(Option<String>, Option<u128>)>) -> (r: Vec<usize>)
    ensures
        forall|a: int, b: int| 0 <= a < b < r.len() ==> r[a] < r[b],
        forall|k: int| 0 <= k < r.len() ==> r[k] < files.len(),
        forall|i: int|
            0 <= i < files.len() ==> (r@.contains(i as usize) <==> prunes(
                save_audio,
                ttl_minutes,
                ext_view(#[trigger] files@[i].0),
                files@[i].1,
            )),
{
    let mut r: Vec<usize> = Vec::new();
    if !save_audio || ttl_minutes == 0 {
        assert(r@ =~= Seq::<usize>::empty());
        return r;
    }
    let cutoff: u64 = if ttl_minutes <= u64::MAX / 60 {
        ttl_minutes * 60
    } else {
        u64::MAX
    };
    assert(cutoff == ttl_cutoff_secs(ttl_minutes));
    let mut i: usize = 0;
    while i < files.len()
        invariant
            save_audio && ttl_minutes > 0,
            cutoff == ttl_cutoff_secs(ttl_minutes),
            i <= files.len(),
            forall|a: int, b: int| 0 <= a < b < r.len() ==> r[a] < r[b],
            forall|k: int| 0 <= k < r.len() ==> r[k] < i,
            forall|j: int|
                0 <= j < i ==> (r@.contains(j as usize) <==> prunes(
                    save_audio,
                    ttl_minutes,
                    ext_view(#[trigger] files@[j].0),
                    files@[j].1,
                )),
        decreases files.len() - i,
    {
        let ext = match &files[i].0 {
            Some(e) => Some(e.as_str()),
            None => None,
        };
        let stale = stale_audio(ext, files[i].1, cutoff);
        assert(ext_view(files@[i as int].0) == match ext {
            Some(e) => Some(e@),
            None => None,
        });
        let ghost before = r@;
        if stale {
            r.push(i);
        }
        proof {
            assert forall|j: int| 0 <= j < i + 1 implies (r@.contains(j as usize) <==> prunes(
                save_audio,
                ttl_minutes,
                ext_view(#[trigger] files@[j].0),
                files@[j].1,
            )) by {
                if j < i {
                    if stale {
                        if r@.contains(j as usize) {
                            let q = choose|q: int| 0 <= q < r.len() && r@[q] == j as usize;
                            if q == before.len() {
                                assert(r@[q] == i);
                            } else {
                                assert(before[q] == j as usize);
                            }
                        }
                        if before.contains(j as usize) {
                            let q = choose|q: int| 0 <= q < before.len() && before[q] == j as usize;
                            assert(r@[q] == j as usize);
                        }
                    }
                } else if stale {
                    assert(r@[before.len() as int] == i);
                } else {
                    if r@.contains(i) {
                        let q = choose|q: int| 0 <= q < r.len() && r@[q] == i;
                    }
                }
            }
        }
        i += 1;
    }
    r
}

// ---- shortcuts and commands -----------------------------------------------------

/// What the tray is to do.
#[derive(Debug, PartialEq, Eq, Clone, Copy)]
pub enum TrayAction {
    Nothing,
    StopSpeaking,
    SpeakClipboard,
    ReplayLast,
    /// Turn the hook's readouts on or off.
    SetReadouts(bool),
}

/// A shortcut's action: speak-clipboard toggles (stops while speaking),
/// toggle-readouts flips the current setting.
pub open spec fn action_of(action: Seq<char>, speaking: bool, enabled: bool) -> TrayAction {
    if action == "speak_clipboard"@ {
        if speaking { TrayAction::StopSpeaking } else { TrayAction::SpeakClipboard }
    } else if action == "stop"@ {
        TrayAction::StopSpeaking
    } else if action == "replay_last"@ {
        TrayAction::ReplayLast
    } else if action == "toggle_readouts"@ {
        TrayAction::SetReadouts(!enabled)
    } else {
        TrayAction::Nothing
    }
}

pub fn run_action(action: &str, speaking: bool, enabled: bool) -> (r: TrayAction)
    ensures
        r == action_of(action@, speaking, enabled),
{
    if str_eq(action, "speak_clipboard") {
        if speaking { TrayAction::StopSpeaking } else { TrayAction::SpeakClipboard }
    } else if str_eq(action, "stop") {
        TrayAction::StopSpeaking
    } else if str_eq(action, "replay_last") {
        TrayAction::ReplayLast
    } else if str_eq(action, "toggle_readouts") {
        TrayAction::SetReadouts(!enabled)
    } else {
        TrayAction::Nothing
    }
}

/// A socket request, as read from its JSON line.
pub enum TrayRequest {
    /// The line was not JSON.
    Invalid,
    Speak { text: Option<String>, source: Option<String> },
    Clipboard,
    Stop,
    Status,
    /// A settings patch.
    Settings,
    /// No `cmd`, or one not known.
    Unknown,
}

/// What a socket request does.
pub enum TrayEffect {
    Nothing,
    /// Speak this text, recorded under this source.
    Speak(String, String),
    SpeakClipboard,
    StopSpeaking,
    /// Answer with the effective settings and whether it is speaking.
    ReportStatus,
    /// Apply the patch, re-register the shortcuts, report their errors.
    ApplyPatch,
}

/// The effect of a request, and the fixed reply where there is one (status
/// and settings replies carry data and are built by the caller).
pub fn handle_request(req: TrayRequest) -> (r: (TrayEffect, Option<&'static str>))
    ensures
        match req {
            TrayRequest::Invalid => r.0 is Nothing && r.1 == Some(r#"{"ok":false,"error":"invalid json"}"#),
            TrayRequest::Speak { text, source } => match text {
                Some(t) => (r.0 matches TrayEffect::Speak(x, s) && x@ == t@ && s@ == (match source {
                    Some(src) => src@,
                    None => "socket"@,
                })) && r.1 == Some(r#"{"ok":true}"#),
                None => r.0 is Nothing && r.1 == Some(r#"{"ok":false,"error":"missing text"}"#),
            },
            TrayRequest::Clipboard => r.0 is SpeakClipboard && r.1 == Some(r#"{"ok":true}"#),
            TrayRequest::Stop => r.0 is StopSpeaking && r.1 == Some(r#"{"ok":true}"#),
            TrayRequest::Status => r.0 is ReportStatus && r.1 is None,
            TrayRequest::Settings => r.0 is ApplyPatch && r.1 is None,
            TrayRequest::Unknown => r.0 is Nothing && r.1 == Some(r#"{"ok":false,"error":"unknown cmd"}"#),
        },
{
    match req {
        TrayRequest::Invalid => (TrayEffect::Nothing, Some(r#"{"ok":false,"error":"invalid json"}"#)),
        TrayRequest::Speak { text, source } => match text {
            Some(t) => {
                let s = match source {
                    Some(src) => src,
                    None => owned("socket"),
                };
                (TrayEffect::Speak(t, s), Some(r#"{"ok":true}"#))
            },
            None => (TrayEffect::Nothing, Some(r#"{"ok":false,"error":"missing text"}"#)),
        },
        TrayRequest::Clipboard => (TrayEffect::SpeakClipboard, Some(r#"{"ok":true}"#)),
        TrayRequest::Stop => (TrayEffect::StopSpeaking, Some(r#"{"ok":true}"#)),
        TrayRequest::Status => (TrayEffect::ReportStatus, None),
        TrayRequest::Settings => (TrayEffect::ApplyPatch, None),
        TrayRequest::Unknown => (TrayEffect::Nothing, Some(r#"{"ok":false,"error":"unknown cmd"}"#)),
    }
}

// ---- the icon -------------------------------------------------------------------

/// The icon's side, in pixels.
pub const ICON_SIDE: usize = 22;

/// The icon's opaque pixels: a speaker (a box and a widening cone) with
/// dots of sound waves.
pub open spec fn icon_pixel(x: int, y: int) -> bool {
    ||| (3 <= x <= 7 && 8 <= y <= 13)
    ||| (8 <= x <= 12 && 8 - (x - 8) <= y <= 13 + (x - 8))
    ||| (x == 15 && y == 8) || (x == 16 && y == 10) || (x == 16 && y == 12) || (x == 15 && y == 14)
    ||| (x == 17 && y == 6) || (x == 18 && y == 9) || (x == 18 && y == 13) || (x == 17 && y == 16)
}

fn icon_pixel_at(x: usize, y: usize) -> (r: bool)
    requires
        x < 22,
        y < 22,
    ensures
        r == icon_pixel(x as int, y as int),
{
    (3 <= x && x <= 7 && 8 <= y && y <= 13)
        || (8 <= x && x <= 12 && y + 8 >= x && y + 8 <= x + 13 && (y as i64) >= 8 - (x as i64 - 8))
        || (x == 15 && y == 8) || (x == 16 && y == 10) || (x == 16 && y == 12) || (x == 15 && y == 14)
        || (x == 17 && y == 6) || (x == 18 && y == 9) || (x == 18 && y == 13) || (x == 17 && y == 16)
}

/// The 22x22 template image as RGBA bytes: black everywhere, opaque on the
/// icon's pixels, transparent elsewhere.
pub fn tray_icon_rgba() -> (r: Vec<u8>)
    ensures
        r.len() == ICON_SIDE * ICON_SIDE * 4,
        forall|i: int|
            0 <= i < r.len() ==> #[trigger] r@[i] == (if i % 4 == 3 && icon_pixel((i / 4) % 22, (i / 4) / 22) {
                255u8
            } else {
                0u8
            }),
{
    let mut r: Vec<u8> = Vec::new();
    let mut i: usize = 0;
    while i < 1936
        invariant
            i <= 1936,
            r.len() == i,
            forall|k: int|
                0 <= k < i ==> #[trigger] r@[k] == (if k % 4 == 3 && icon_pixel((k / 4) % 22, (k / 4) / 22) {
                    255u8
                } else {
                    0u8
                }),
        decreases 1936 - i,
    {
        let b: u8 = if i % 4 == 3 && icon_pixel_at((i / 4) % 22, (i / 4) / 22) {
            255
        } else {
            0
        };
        r.push(b);
        i += 1;
    }
    r
}

} // verus!

verus! {

// ---- settings: state.json holds overrides only ------------------------------------

/// The summarizer prompt used when `summary_prompt` is not overridden (the
/// readout hook carries the same text).
pub const DEFAULT_PROMPT: &'static str = "You rewrite coding-assistant responses as spoken status updates: 1 to 3 short conversational sentences, plain prose only — no markdown, no code, no file paths or symbols unless they are the whole point. Lead with the outcome. Reply with only the sentences.";

/// A setting's value: the JSON text of a value that is not an object, or
/// the members of an object, each value as JSON text. JSON texts are
/// compact (`serde_json::to_string`), so equal values have equal texts.
pub enum Setting {
    Plain(String),
    Object(Vec<(String, String)>),
}

/// A setting as plain values: an object is the map of its members.
pub enum SettingModel {
    Plain(Seq<char>),
    Object(Map<Seq<char>, Seq<char>>),
}

/// The map of key-value pairs, a later pair winning over an earlier one
/// with the same key.
pub open spec fn pairs_map<V>(s: Seq<(Seq<char>, V)>) -> Map<Seq<char>, V>
    decreases s.len(),
{
    if s.len() == 0 {
        Map::empty()
    } else {
        pairs_map(s.drop_last()).insert(s.last().0, s.last().1)
    }
}

pub open spec fn setting_view(v: Setting) -> SettingModel {
    match v {
        Setting::Plain(t) => SettingModel::Plain(t@),
        Setting::Object(m) => SettingModel::Object(pairs_map(m.deep_view())),
    }
}

pub open spec fn settings_seq(s: Seq<(String, Setting)>) -> Seq<(Seq<char>, SettingModel)> {
    s.map_values(|p: (String, Setting)| (p.0@, setting_view(p.1)))
}

/// The settings a list of pairs holds.
pub open spec fn settings_map(s: Seq<(String, Setting)>) -> Map<Seq<char>, SettingModel> {
    pairs_map(settings_seq(s))
}

pub open spec fn prompt_json() -> Seq<char> {
    seq!['"'] + DEFAULT_PROMPT@ + seq!['"']
}

/// The default shortcuts: action to accelerator, as JSON texts.
pub open spec fn default_shortcuts() -> Map<Seq<char>, Seq<char>> {
    map![
        "speak_clipboard"@ => "\"ctrl+alt+super+v\""@,
        "stop"@ => "\"ctrl+alt+super+s\""@,
        "replay_last"@ => "\"ctrl+alt+super+r\""@,
        "toggle_readouts"@ => "\"\""@,
    ]
}

/// The defaults of the other settings (JSON texts).
pub open spec fn default_values() -> Map<Seq<char>, SettingModel> {
    map![
        "enabled"@ => SettingModel::Plain("true"@),
        "voice"@ => SettingModel::Plain("\"bm_george\""@),
        "speed"@ => SettingModel::Plain("1.1"@),
        "verbatim_max"@ => SettingModel::Plain("300"@),
        "summary_prompt"@ => SettingModel::Plain(prompt_json()),
        "save_audio"@ => SettingModel::Plain("false"@),
        "audio_dir"@ => SettingModel::Plain("\"~/Music/vox\""@),
        "audio_ttl_minutes"@ => SettingModel::Plain("20"@),
    ]
}

/// A patched value that resets its key: the key's default (the default
/// shortcuts for `shortcuts`), or null for any key but the prompt and the
/// shortcuts (where a null is stored as it is).
pub open spec fn is_reset(k: Seq<char>, v: SettingModel) -> bool {
    ||| (v == SettingModel::Plain("null"@) && k != "summary_prompt"@ && k != "shortcuts"@)
    ||| (k == "shortcuts"@ && v == SettingModel::Object(default_shortcuts()))
    ||| (default_values().contains_key(k) && v == default_values()[k])
}

/// The stored overrides after a patch: each patched key (but `cmd`) is
/// removed when reset, else set to its patched value.
pub open spec fn patched(
    m: Map<Seq<char>, SettingModel>,
    p: Seq<(Seq<char>, SettingModel)>,
) -> Map<Seq<char>, SettingModel>
    decreases p.len(),
{
    if p.len() == 0 {
        m
    } else {
        let before = patched(m, p.drop_last());
        let (k, v) = p.last();
        if k == "cmd"@ {
            before
        } else if is_reset(k, v) {
            before.remove(k)
        } else {
            before.insert(k, v)
        }
    }
}

fn text_pairs_clone(m: &Vec<(String, String)>) -> (r: Vec<(String, String)>)
    ensures
        r.deep_view() == m.deep_view(),
{
    let mut r: Vec<(String, String)> = Vec::new();
    let mut i: usize = 0;
    while i < m.len()
        invariant
            i <= m.len(),
            r.deep_view() == m.deep_view().take(i as int),
        decreases m.len() - i,
    {
        let ghost b = r.deep_view();
        r.push((m[i].0.clone(), m[i].1.clone()));
        assert(r.deep_view() =~= b.push(m.deep_view()[i as int]));
        assert(m.deep_view().take(i + 1) =~= m.deep_view().take(i as int).push(m.deep_view()[i as int]));
        i += 1;
    }
    assert(m.deep_view().take(m.len() as int) =~= m.deep_view());
    r
}

fn setting_clone(v: &Setting) -> (r: Setting)
    ensures
        setting_view(r) == setting_view(*v),
{
    match v {
        Setting::Plain(t) => Setting::Plain(t.clone()),
        Setting::Object(m) => Setting::Object(text_pairs_clone(m)),
    }
}

/// `s` without the pairs of key `k`.
fn without_key(s: &Vec<(String, Setting)>, k: &str) -> (r: Vec<(String, Setting)>)
    ensures
        settings_map(r@) == settings_map(s@).remove(k@),
        distinct_keys(settings_seq(s@)) ==> distinct_keys(settings_seq(r@)),
{
    let mut r: Vec<(String, Setting)> = Vec::new();
    let mut i: usize = 0;
    assert(settings_seq(s@.take(0)) =~= Seq::<(Seq<char>, SettingModel)>::empty());
    assert(settings_seq(r@) =~= Seq::<(Seq<char>, SettingModel)>::empty());
    assert(settings_map(r@) =~= settings_map(s@.take(0)).remove(k@));
    while i < s.len()
        invariant
            i <= s.len(),
            settings_map(r@) == settings_map(s@.take(i as int)).remove(k@),
            distinct_keys(settings_seq(s@)) ==> distinct_keys(settings_seq(r@)),
        decreases s.len() - i,
    {
        let ghost t = settings_seq(s@.take(i + 1));
        assert(t.drop_last() =~= settings_seq(s@.take(i as int)));
        assert(t.last() == (s@[i as int].0@, setting_view(s@[i as int].1)));
        if !str_eq(s[i].0.as_str(), k) {
            let e = (s[i].0.clone(), setting_clone(&s[i].1));
            let ghost b = r@;
            r.push(e);
            proof {
                let pair = (s@[i as int].0@, setting_view(s@[i as int].1));
                assert(settings_seq(r@).drop_last() =~= settings_seq(b));
                assert(settings_seq(r@).last() == pair);
                assert(settings_map(r@) == settings_map(b).insert(pair.0, pair.1));
                assert(settings_map(s@.take(i + 1)) == settings_map(s@.take(i as int)).insert(pair.0, pair.1));
                assert(settings_map(r@) =~= settings_map(s@.take(i + 1)).remove(k@));
                if distinct_keys(settings_seq(s@)) {
                    if pairs_map(settings_seq(b)).contains_key(pair.0) {
                        let ti = settings_seq(s@.take(i as int));
                        lemma_map_key_from_pair(ti, pair.0);
                        let q = choose|q: int| 0 <= q < ti.len() && #[trigger] ti[q].0 == pair.0;
                        assert(ti[q] == settings_seq(s@)[q]);
                        assert(settings_seq(s@)[i as int].0 == pair.0);
                    }
                    lemma_push_fresh(settings_seq(b), pair.0, pair.1);
                    assert(settings_seq(r@) =~= settings_seq(b).push(pair));
                }
            }
        } else {
            assert(settings_map(s@.take(i + 1)) == settings_map(s@.take(i as int)).insert(
                k@,
                setting_view(s@[i as int].1),
            ));
            assert(settings_map(s@.take(i + 1)).remove(k@) =~= settings_map(s@.take(i as int)).remove(k@));
        }
        i += 1;
    }
    assert(s@.take(s.len() as int) =~= s@);
    r
}

/// `s` with key `k` set to `v`.
fn with_setting(s: &Vec<(String, Setting)>, k: &str, v: Setting) -> (r: Vec<(String, Setting)>)
    ensures
        settings_map(r@) == settings_map(s@).insert(k@, setting_view(v)),
        distinct_keys(settings_seq(s@)) ==> distinct_keys(settings_seq(r@)),
{
    let mut r = without_key(s, k);
    let ghost b = r@;
    let ghost sv = setting_view(v);
    r.push((owned(k), v));
    assert(settings_seq(r@).drop_last() =~= settings_seq(b));
    assert(settings_seq(r@).last() == (k@, sv));
    assert(settings_map(r@) == settings_map(b).insert(k@, sv));
    assert(settings_map(r@) =~= settings_map(s@).insert(k@, sv));
    proof {
        if distinct_keys(settings_seq(s@)) {
            lemma_push_fresh(settings_seq(b), k@, sv);
            assert(settings_seq(r@) =~= settings_seq(b).push((k@, sv)));
        }
    }
    r
}

/// Adding a pair whose key is not yet there keeps the keys distinct.
proof fn lemma_push_fresh<V>(r: Seq<(Seq<char>, V)>, key: Seq<char>, v: V)
    requires
        distinct_keys(r),
        !pairs_map(r).contains_key(key),
    ensures
        distinct_keys(r.push((key, v))),
{
    let t = r.push((key, v));
    assert forall|a: int, b: int| 0 <= a < b < t.len() implies #[trigger] t[a].0 != #[trigger] t[b].0 by {
        if b == r.len() {
            lemma_key_in_map(r, a);
        } else {
            assert(t[a] == r[a] && t[b] == r[b]);
        }
    }
}

/// The same settings with each key once.
fn distinct_settings(s: &Vec<(String, Setting)>) -> (r: Vec<(String, Setting)>)
    ensures
        settings_map(r@) == settings_map(s@),
        distinct_keys(settings_seq(r@)),
{
    let mut r: Vec<(String, Setting)> = Vec::new();
    let ghost q = settings_seq(s@);
    let mut i: usize = 0;
    assert(q.take(0) =~= Seq::<(Seq<char>, SettingModel)>::empty());
    assert(settings_map(r@) =~= pairs_map(q.take(0)));
    while i < s.len()
        invariant
            i <= s.len(),
            q == settings_seq(s@),
            settings_map(r@) == pairs_map(q.take(i as int)),
            distinct_keys(settings_seq(r@)),
        decreases s.len() - i,
    {
        proof {
            assert(q.take(i + 1).drop_last() =~= q.take(i as int));
            assert(q.take(i + 1).last() == (s@[i as int].0@, setting_view(s@[i as int].1)));
        }
        let v = setting_clone(&s[i].1);
        r = with_setting(&r, s[i].0.as_str(), v);
        i += 1;
    }
    assert(q.take(s.len() as int) =~= q);
    r
}

/// Text pairs without the pairs of key `k`.
fn text_without(s: &Vec<(String, String)>, k: &str) -> (r: Vec<(String, String)>)
    ensures
        pairs_map(r.deep_view()) == pairs_map(s.deep_view()).remove(k@),
        distinct_keys(s.deep_view()) ==> distinct_keys(r.deep_view()),
{
    let ghost sv = s.deep_view();
    let mut r: Vec<(String, String)> = Vec::new();
    let mut i: usize = 0;
    assert(sv.take(0) =~= Seq::<(Seq<char>, Seq<char>)>::empty());
    assert(pairs_map(r.deep_view()) =~= pairs_map(sv.take(0)).remove(k@));
    while i < s.len()
        invariant
            i <= s.len(),
            sv == s.deep_view(),
            pairs_map(r.deep_view()) == pairs_map(sv.take(i as int)).remove(k@),
            distinct_keys(sv) ==> distinct_keys(r.deep_view()),
        decreases s.len() - i,
    {
        proof {
            assert(sv.take(i + 1).drop_last() =~= sv.take(i as int));
            assert(sv.take(i + 1).last() == sv[i as int]);
        }
        if !str_eq(s[i].0.as_str(), k) {
            let ghost b = r.deep_view();
            r.push((s[i].0.clone(), s[i].1.clone()));
            proof {
                let pair = sv[i as int];
                assert(r.deep_view() =~= b.push(pair));
                assert(r.deep_view().drop_last() =~= b);
                assert(pairs_map(r.deep_view()) == pairs_map(b).insert(pair.0, pair.1));
                assert(pairs_map(sv.take(i + 1)) == pairs_map(sv.take(i as int)).insert(pair.0, pair.1));
                assert(pairs_map(r.deep_view()) =~= pairs_map(sv.take(i + 1)).remove(k@));
                if distinct_keys(sv) {
                    if pairs_map(b).contains_key(pair.0) {
                        let ti = sv.take(i as int);
                        lemma_map_key_from_pair(ti, pair.0);
                        let q = choose|q: int| 0 <= q < ti.len() && #[trigger] ti[q].0 == pair.0;
                        assert(ti[q] == sv[q]);
                    }
                    lemma_push_fresh(b, pair.0, pair.1);
                }
            }
        } else {
            assert(pairs_map(sv.take(i + 1)).remove(k@) =~= pairs_map(sv.take(i as int)).remove(k@));
        }
        i += 1;
    }
    assert(sv.take(s.len() as int) =~= sv);
    r
}

/// Text pairs with key `k` set to `v`.
fn text_with(s: &Vec<(String, String)>, k: &str, v: String) -> (r: Vec<(String, String)>)
    ensures
        pairs_map(r.deep_view()) == pairs_map(s.deep_view()).insert(k@, v@),
        distinct_keys(s.deep_view()) ==> distinct_keys(r.deep_view()),
{
    let mut r = text_without(s, k);
    let ghost b = r.deep_view();
    let ghost vv = v@;
    r.push((owned(k), v));
    assert(r.deep_view() =~= b.push((k@, vv)));
    assert(r.deep_view().drop_last() =~= b);
    assert(pairs_map(r.deep_view()) == pairs_map(b).insert(k@, vv));
    assert(pairs_map(r.deep_view()) =~= pairs_map(s.deep_view()).insert(k@, vv));
    proof {
        if distinct_keys(s.deep_view()) {
            lemma_push_fresh(b, k@, vv);
        }
    }
    r
}

/// The same text pairs with each key once.
fn distinct_texts(s: &Vec<(String, String)>) -> (r: Vec<(String, String)>)
    ensures
        pairs_map(r.deep_view()) == pairs_map(s.deep_view()),
        distinct_keys(r.deep_view()),
{
    let ghost sv = s.deep_view();
    let mut r: Vec<(String, String)> = Vec::new();
    let mut i: usize = 0;
    assert(sv.take(0) =~= Seq::<(Seq<char>, Seq<char>)>::empty());
    assert(pairs_map(r.deep_view()) =~= pairs_map(sv.take(0)));
    while i < s.len()
        invariant
            i <= s.len(),
            sv == s.deep_view(),
            pairs_map(r.deep_view()) == pairs_map(sv.take(i as int)),
            distinct_keys(r.deep_view()),
        decreases s.len() - i,
    {
        proof {
            assert(sv.take(i + 1).drop_last() =~= sv.take(i as int));
            assert(sv.take(i + 1).last() == sv[i as int]);
        }
        r = text_with(&r, s[i].0.as_str(), s[i].1.clone());
        i += 1;
    }
    assert(sv.take(s.len() as int) =~= sv);
    r
}

fn text_is(t: &String, lit: &str) -> (r: bool)
    ensures
        r == (t@ == lit@),
{
    str_eq(t.as_str(), lit)
}

fn default_shortcut_pairs() -> (r: Vec<(String, String)>)
    ensures
        pairs_map(r.deep_view()) == default_shortcuts(),
{
    let r = vec![
        (owned("speak_clipboard"), owned("\"ctrl+alt+super+v\"")),
        (owned("stop"), owned("\"ctrl+alt+super+s\"")),
        (owned("replay_last"), owned("\"ctrl+alt+super+r\"")),
        (owned("toggle_readouts"), owned("\"\"")),
    ];
    proof {
        let d = r.deep_view();
        assert(d.len() == 4);
        reveal_with_fuel(pairs_map, 5);
        assert(pairs_map(d) =~= default_shortcuts());
    }
    r
}

/// The value of `k` in text pairs (the last pair with that key).
fn lookup_text(m: &Vec<(String, String)>, k: &str) -> (r: Option<String>)
    ensures
        match r {
            Some(v) => pairs_map(m.deep_view()).contains_key(k@) && pairs_map(m.deep_view())[k@] == v@,
            None => !pairs_map(m.deep_view()).contains_key(k@),
        },
{
    let ghost s = m.deep_view();
    let mut i: usize = m.len();
    while i > 0
        invariant
            i <= m.len(),
            s == m.deep_view(),
            forall|q: int| i <= q < s.len() ==> #[trigger] s[q].0 != k@,
        decreases i,
    {
        if str_eq(m[i - 1].0.as_str(), k) {
            proof {
                lemma_last_pair(s, i - 1);
            }
            return Some(m[i - 1].1.clone());
        }
        i -= 1;
    }
    proof {
        if pairs_map(s).contains_key(k@) {
            lemma_map_key_from_pair(s, k@);
        }
    }
    None
}

/// The pair at `j` gives its key's value when no later pair has that key.
pub proof fn lemma_last_pair<V>(s: Seq<(Seq<char>, V)>, j: int)
    requires
        0 <= j < s.len(),
        forall|q: int| j < q < s.len() ==> #[trigger] s[q].0 != s[j].0,
    ensures
        pairs_map(s).contains_key(s[j].0),
        pairs_map(s)[s[j].0] == s[j].1,
    decreases s.len(),
{
    if j < s.len() - 1 {
        assert(s.last().0 != s[j].0);
        lemma_last_pair(s.drop_last(), j);
    }
}

/// Whether an object's members are exactly the default shortcuts.
fn is_default_shortcuts(m: &Vec<(String, String)>) -> (r: bool)
    ensures
        r == (pairs_map(m.deep_view()) == default_shortcuts()),
{
    let ghost mm = pairs_map(m.deep_view());
    let ghost dm = default_shortcuts();
    // every key is one of the default actions
    let mut i: usize = 0;
    while i < m.len()
        invariant
            i <= m.len(),
            mm == pairs_map(m.deep_view()),
            dm == default_shortcuts(),
            forall|q: int| 0 <= q < i ==> dm.contains_key(#[trigger] m.deep_view()[q].0),
        decreases m.len() - i,
    {
        let k = m[i].0.as_str();
        if !(str_eq(k, "speak_clipboard") || str_eq(k, "stop") || str_eq(k, "replay_last") || str_eq(
            k,
            "toggle_readouts",
        )) {
            proof {
                lemma_key_in_map(m.deep_view(), i as int);
                assert(!dm.contains_key(m.deep_view()[i as int].0));
            }
            return false;
        }
        i += 1;
    }
    proof {
        assert forall|key: Seq<char>| mm.contains_key(key) implies dm.contains_key(key) by {
            lemma_map_key_from_pair(m.deep_view(), key);
        }
    }
    // and each default action has its default accelerator
    let a = same_text(lookup_text(m, "speak_clipboard"), "\"ctrl+alt+super+v\"");
    let b = same_text(lookup_text(m, "stop"), "\"ctrl+alt+super+s\"");
    let c = same_text(lookup_text(m, "replay_last"), "\"ctrl+alt+super+r\"");
    let d = same_text(lookup_text(m, "toggle_readouts"), "\"\"");
    proof {
        reveal_strlit("speak_clipboard");
        reveal_strlit("stop");
        reveal_strlit("replay_last");
        reveal_strlit("toggle_readouts");
        assert("speak_clipboard"@.len() == 15 && "stop"@.len() == 4);
        assert("replay_last"@.len() == 11 && "toggle_readouts"@.len() == 15);
        assert("speak_clipboard"@[0] == 's' && "toggle_readouts"@[0] == 't');
        assert("speak_clipboard"@ != "toggle_readouts"@);
        assert(dm.contains_key("speak_clipboard"@) && dm["speak_clipboard"@] == "\"ctrl+alt+super+v\""@);
        assert(dm.contains_key("stop"@) && dm["stop"@] == "\"ctrl+alt+super+s\""@);
        assert(dm.contains_key("replay_last"@) && dm["replay_last"@] == "\"ctrl+alt+super+r\""@);
        assert(dm.contains_key("toggle_readouts"@) && dm["toggle_readouts"@] == "\"\""@);
        if a && b && c && d {
            assert(mm =~= dm);
        }
    }
    a && b && c && d
}

fn same_text(v: Option<String>, lit: &str) -> (r: bool)
    ensures
        r == (v matches Some(t) && t@ == lit@),
{
    match v {
        Some(t) => str_eq(t.as_str(), lit),
        None => false,
    }
}

/// The key of every pair is in the pairs map.
pub proof fn lemma_key_in_map<V>(s: Seq<(Seq<char>, V)>, i: int)
    requires
        0 <= i < s.len(),
    ensures
        pairs_map(s).contains_key(s[i].0),
    decreases s.len(),
{
    if i < s.len() - 1 {
        lemma_key_in_map(s.drop_last(), i);
    }
}

/// A key of the pairs map is the key of some pair.
pub proof fn lemma_map_key_from_pair<V>(s: Seq<(Seq<char>, V)>, key: Seq<char>)
    requires
        pairs_map(s).contains_key(key),
    ensures
        exists|q: int| 0 <= q < s.len() && #[trigger] s[q].0 == key,
    decreases s.len(),
{
    if s.len() > 0 && s.last().0 != key {
        lemma_map_key_from_pair(s.drop_last(), key);
        let q = choose|q: int| 0 <= q < s.drop_last().len() && #[trigger] s.drop_last()[q].0 == key;
        assert(s[q].0 == key);
    }
}

fn settings_clone(s: &Vec<(String, Setting)>) -> (r: Vec<(String, Setting)>)
    ensures
        settings_seq(r@) == settings_seq(s@),
{
    let mut r: Vec<(String, Setting)> = Vec::new();
    let mut i: usize = 0;
    while i < s.len()
        invariant
            i <= s.len(),
            settings_seq(r@) == settings_seq(s@.take(i as int)),
        decreases s.len() - i,
    {
        let ghost b = r@;
        r.push((s[i].0.clone(), setting_clone(&s[i].1)));
        assert(settings_seq(r@) =~= settings_seq(b).push((s@[i as int].0@, setting_view(s@[i as int].1))));
        assert(settings_seq(s@.take(i + 1)) =~= settings_seq(s@.take(i as int)).push(
            (s@[i as int].0@, setting_view(s@[i as int].1)),
        ));
        i += 1;
    }
    assert(s@.take(s.len() as int) =~= s@);
    r
}

fn reset_value(k: &str, v: &Setting) -> (r: bool)
    ensures
        r == is_reset(k@, setting_view(*v)),
{
    let defaults = default_value_pairs();
    let d = lookup_setting(&defaults, k);
    proof {
        assert(forall|key: Seq<char>| #[trigger] default_values().contains_key(key)
            ==> default_values()[key] is Plain);
    }
    let equals_default = match (d, v) {
        (Some(Setting::Plain(dt)), Setting::Plain(t)) => str_eq(dt.as_str(), t.as_str()),
        _ => false,
    };
    match v {
        Setting::Plain(t) => (str_eq(t.as_str(), "null") && !str_eq(k, "summary_prompt") && !str_eq(
            k,
            "shortcuts",
        )) || equals_default,
        Setting::Object(m) => (str_eq(k, "shortcuts") && is_default_shortcuts(m)) || equals_default,
    }
}

/// Merge a settings patch into the stored overrides. A value equal to its
/// default (or a null, but on the prompt and shortcuts) removes the key
/// instead of being stored, so the stored
/// settings stay a list of overrides and a reset is the default sent back.
pub fn apply_patch(stored: &Vec<(String, Setting)>, patch: &Vec<(String, Setting)>) -> (r: Vec<(String, Setting)>)
    ensures
        settings_map(r@) == patched(settings_map(stored@), settings_seq(patch@)),
{
    let mut out = settings_clone(stored);
    let ghost m0 = settings_map(stored@);
    let ghost p = settings_seq(patch@);
    let mut j: usize = 0;
    assert(p.take(0) =~= Seq::<(Seq<char>, SettingModel)>::empty());
    while j < patch.len()
        invariant
            j <= patch.len(),
            m0 == settings_map(stored@),
            p == settings_seq(patch@),
            settings_map(out@) == patched(m0, p.take(j as int)),
        decreases patch.len() - j,
    {
        let k = patch[j].0.as_str();
        proof {
            assert(p.take(j + 1).drop_last() =~= p.take(j as int));
            assert(p.take(j + 1).last() == (patch@[j as int].0@, setting_view(patch@[j as int].1)));
        }
        if str_eq(k, "cmd") {
        } else if reset_value(k, &patch[j].1) {
            out = without_key(&out, k);
        } else {
            let v = setting_clone(&patch[j].1);
            out = with_setting(&out, k, v);
        }
        j += 1;
    }
    assert(p.take(patch.len() as int) =~= p);
    out
}

/// The shortcut overrides of stored settings: the members of a stored
/// `shortcuts` object.
pub open spec fn stored_shortcuts(m: Map<Seq<char>, SettingModel>) -> Map<Seq<char>, Seq<char>> {
    if m.contains_key("shortcuts"@) {
        match m["shortcuts"@] {
            SettingModel::Object(o) => o,
            SettingModel::Plain(_) => Map::empty(),
        }
    } else {
        Map::empty()
    }
}

/// The settings in force: every default, overridden by what is stored
/// (the stored shortcuts merged action by action into the defaults).
pub open spec fn effective_values(m: Map<Seq<char>, SettingModel>) -> Map<Seq<char>, SettingModel> {
    default_values().union_prefer_right(m.remove("shortcuts"@))
}

pub open spec fn effective_shortcuts(m: Map<Seq<char>, SettingModel>) -> Map<Seq<char>, Seq<char>> {
    default_shortcuts().union_prefer_right(stored_shortcuts(m))
}

fn default_value_pairs() -> (r: Vec<(String, Setting)>)
    ensures
        settings_map(r@) == default_values(),
{
    let mut pj = String::new();
    pj.push('"');
    push_str(&mut pj, DEFAULT_PROMPT);
    pj.push('"');
    let r = vec![
        (owned("enabled"), Setting::Plain(owned("true"))),
        (owned("voice"), Setting::Plain(owned("\"bm_george\""))),
        (owned("speed"), Setting::Plain(owned("1.1"))),
        (owned("verbatim_max"), Setting::Plain(owned("300"))),
        (owned("summary_prompt"), Setting::Plain(pj)),
        (owned("save_audio"), Setting::Plain(owned("false"))),
        (owned("audio_dir"), Setting::Plain(owned("\"~/Music/vox\""))),
        (owned("audio_ttl_minutes"), Setting::Plain(owned("20"))),
    ];
    proof {
        assert(pj@ =~= prompt_json());
        let q = settings_seq(r@);
        assert(q.len() == 8);
        reveal_with_fuel(pairs_map, 9);
        assert(pairs_map(q) =~= default_values());
    }
    r
}

/// The setting of key `k` (the last pair with that key).
fn lookup_setting<'a>(s: &'a Vec<(String, Setting)>, k: &str) -> (r: Option<&'a Setting>)
    ensures
        match r {
            Some(v) => settings_map(s@).contains_key(k@) && settings_map(s@)[k@] == setting_view(*v),
            None => !settings_map(s@).contains_key(k@),
        },
{
    let ghost q = settings_seq(s@);
    let mut i: usize = s.len();
    while i > 0
        invariant
            i <= s.len(),
            q == settings_seq(s@),
            forall|j: int| i <= j < q.len() ==> #[trigger] q[j].0 != k@,
        decreases i,
    {
        if str_eq(s[i - 1].0.as_str(), k) {
            proof {
                lemma_last_pair(q, i - 1);
            }
            return Some(&s[i - 1].1);
        }
        i -= 1;
    }
    proof {
        if pairs_map(q).contains_key(k@) {
            lemma_map_key_from_pair(q, k@);
        }
    }
    None
}

/// The settings in force for what is stored: the other settings, and the
/// shortcuts (action to accelerator, as JSON texts).
pub fn effective_state(stored: &Vec<(String, Setting)>) -> (r: (Vec<(String, Setting)>, Vec<(String, String)>))
    ensures
        settings_map(r.0@) == effective_values(settings_map(stored@)),
        pairs_map(r.1.deep_view()) == effective_shortcuts(settings_map(stored@)),
        distinct_keys(settings_seq(r.0@)),
        distinct_keys(r.1.deep_view()),
{
    let mut values = distinct_settings(&default_value_pairs());
    let ghost q = settings_seq(stored@);
    let mut i: usize = 0;
    assert(q.take(0) =~= Seq::<(Seq<char>, SettingModel)>::empty());
    assert(settings_map(values@) =~= default_values().union_prefer_right(pairs_map(q.take(0)).remove("shortcuts"@)));
    while i < stored.len()
        invariant
            i <= stored.len(),
            q == settings_seq(stored@),
            settings_map(values@) == default_values().union_prefer_right(pairs_map(q.take(i as int)).remove("shortcuts"@)),
            distinct_keys(settings_seq(values@)),
        decreases stored.len() - i,
    {
        let k = stored[i].0.as_str();
        proof {
            assert(q.take(i + 1).drop_last() =~= q.take(i as int));
            assert(q.take(i + 1).last() == (stored@[i as int].0@, setting_view(stored@[i as int].1)));
        }
        if !str_eq(k, "shortcuts") {
            let v = setting_clone(&stored[i].1);
            values = with_setting(&values, k, v);
            assert(settings_map(values@) =~= default_values().union_prefer_right(pairs_map(q.take(i + 1)).remove("shortcuts"@)));
        } else {
            assert(pairs_map(q.take(i + 1)).remove("shortcuts"@) =~= pairs_map(q.take(i as int)).remove("shortcuts"@));
        }
        i += 1;
    }
    assert(q.take(stored.len() as int) =~= q);
    let mut shortcuts = distinct_texts(&default_shortcut_pairs());
    match lookup_setting(stored, "shortcuts") {
        Some(Setting::Object(o)) => {
            let ghost ov = o.deep_view();
            let mut j: usize = 0;
            assert(ov.take(0) =~= Seq::<(Seq<char>, Seq<char>)>::empty());
            assert(pairs_map(shortcuts.deep_view()) =~= default_shortcuts().union_prefer_right(pairs_map(ov.take(0))));
            while j < o.len()
                invariant
                    j <= o.len(),
                    ov == o.deep_view(),
                    pairs_map(shortcuts.deep_view()) == default_shortcuts().union_prefer_right(pairs_map(ov.take(j as int))),
                    distinct_keys(shortcuts.deep_view()),
                decreases o.len() - j,
            {
                shortcuts = text_with(&shortcuts, o[j].0.as_str(), o[j].1.clone());
                proof {
                    assert(ov.take(j + 1).drop_last() =~= ov.take(j as int));
                    assert(ov.take(j + 1).last() == ov[j as int]);
                    assert(pairs_map(shortcuts.deep_view()) =~= default_shortcuts().union_prefer_right(pairs_map(ov.take(j + 1))));
                }
                j += 1;
            }
            assert(ov.take(o.len() as int) =~= ov);
        },
        _ => {
            assert(stored_shortcuts(settings_map(stored@)) =~= Map::<Seq<char>, Seq<char>>::empty());
            assert(pairs_map(shortcuts.deep_view()) =~= effective_shortcuts(settings_map(stored@)));
        },
    }
    (values, shortcuts)
}

/// The string a JSON text denotes, when it denotes one
/// (`serde_json::from_str::<String>`).
pub uninterp spec fn json_string_of(text: Seq<char>) -> Option<Seq<char>>;

/// A JSON string with nothing to unescape: a quote, then characters that
/// are neither quote, backslash nor control character, then a quote.
pub open spec fn plain_json_string(text: Seq<char>) -> bool {
    &&& text.len() >= 2
    &&& text[0] == '"'
    &&& text.last() == '"'
    &&& forall|i: int|
        1 <= i < text.len() - 1 ==> (#[trigger] text[i]) != '"' && text[i] != '\\' && (text[i]
            as u32) >= 0x20
}

/// The string a JSON text denotes: what lies between the quotes of a
/// plain JSON string, else what serde_json makes of it.
pub open spec fn json_string_value(text: Seq<char>) -> Option<Seq<char>> {
    if plain_json_string(text) {
        Some(text.subrange(1, text.len() - 1))
    } else {
        json_string_of(text)
    }
}

/// Calls `serde_json::from_str::<String>` on `text`. Trusted: the result is
/// `json_string_of(text)`, a function of the text alone (serde_json's
/// decoding of a JSON string, escapes included); `None` when the text is
/// not a JSON string. A quoted text with no quote, backslash or control
/// character inside decodes to what lies between the quotes.
#[verifier::external_body]
fn json_string(text: &str) -> (r: Option<String>)
    ensures
        match r {
            Some(s) => json_string_of(text@) == Some(s@),
            None => json_string_of(text@) is None,
        },
        plain_json_string(text@) ==> r is Some && r->0@ == text@.subrange(1, text@.len() - 1),
{
    serde_json::from_str::<String>(text).ok()
}

/// A setting's string value (`Value::as_str`).
pub open spec fn string_setting(v: Option<SettingModel>) -> Option<Seq<char>> {
    match v {
        Some(SettingModel::Plain(t)) => json_string_value(t),
        _ => None,
    }
}

fn string_setting_of(values: &Vec<(String, Setting)>, k: &str) -> (r: Option<String>)
    ensures
        match r {
            Some(s) => string_setting(settings_map(values@).get(k@)) == Some(s@),
            None => string_setting(settings_map(values@).get(k@)) is None,
        },
{
    match lookup_setting(values, k) {
        Some(Setting::Plain(t)) => json_string(t.as_str()),
        _ => None,
    }
}

/// Whether the hook's readouts are on: unless `enabled` is false.
pub open spec fn readouts_enabled_of(values: Map<Seq<char>, SettingModel>) -> bool {
    values.get("enabled"@) != Some(SettingModel::Plain("false"@))
}

pub fn readouts_enabled(values: &Vec<(String, Setting)>) -> (r: bool)
    ensures
        r == readouts_enabled_of(settings_map(values@)),
{
    match lookup_setting(values, "enabled") {
        Some(Setting::Plain(t)) => !str_eq(t.as_str(), "false"),
        _ => true,
    }
}

/// Whether readouts are saved: only when `save_audio` is true.
pub open spec fn save_audio_of(values: Map<Seq<char>, SettingModel>) -> bool {
    values.get("save_audio"@) == Some(SettingModel::Plain("true"@))
}

pub fn save_audio_on(values: &Vec<(String, Setting)>) -> (r: bool)
    ensures
        r == save_audio_of(settings_map(values@)),
{
    match lookup_setting(values, "save_audio") {
        Some(Setting::Plain(t)) => str_eq(t.as_str(), "true"),
        _ => false,
    }
}

/// How the tray launches `vox`: its arguments, and the audio folder it is
/// given through `VOX_AUDIO_DIR` when saving is on.
pub struct VoxLaunch {
    pub args: Vec<String>,
    pub audio_dir_env: Option<String>,
}

/// The voice: the one asked for, else the setting, else `bm_george`.
pub open spec fn launch_voice(values: Map<Seq<char>, SettingModel>, voice_override: Option<Seq<char>>) -> Seq<char> {
    match voice_override {
        Some(v) => v,
        None => match string_setting(values.get("voice"@)) {
            Some(v) => v,
            None => "bm_george"@,
        },
    }
}

/// The arguments: `--no-save` unless saving, then voice, speed and the
/// texts to speak.
pub open spec fn launch_args_of(
    values: Map<Seq<char>, SettingModel>,
    voice_override: Option<Seq<char>>,
    speed: Seq<char>,
    extra: Seq<Seq<char>>,
) -> Seq<Seq<char>> {
    (if save_audio_of(values) { Seq::empty() } else { seq!["--no-save"@] })
        + seq!["-v"@, launch_voice(values, voice_override), "-s"@, speed] + extra
}

/// The folder handed over when saving is on and one is set.
pub open spec fn launch_dir_of(values: Map<Seq<char>, SettingModel>, home: Seq<char>) -> Option<Seq<char>> {
    if save_audio_of(values) {
        match string_setting(values.get("audio_dir"@)) {
            Some(d) => if d.len() > 0 { Some(tray_expand_of(d, home)) } else { None },
            None => None,
        }
    } else {
        None
    }
}

/// The launch of `vox` for the settings in force; `speed` is the speed
/// setting's decimal text, `extra` the texts to speak.
pub fn vox_launch(
    values: &Vec<(String, Setting)>,
    voice_override: Option<&str>,
    speed: &str,
    extra: Vec<String>,
    home: &str,
) -> (r: VoxLaunch)
    ensures
        r.args.deep_view() == launch_args_of(
            settings_map(values@),
            match voice_override {
                Some(v) => Some(v@),
                None => None,
            },
            speed@,
            extra.deep_view(),
        ),
        match r.audio_dir_env {
            Some(d) => launch_dir_of(settings_map(values@), home@) == Some(d@),
            None => launch_dir_of(settings_map(values@), home@) is None,
        },
{
    let voice = match voice_override {
        Some(v) => owned(v),
        None => match string_setting_of(values, "voice") {
            Some(v) => v,
            None => owned("bm_george"),
        },
    };
    let save = save_audio_on(values);
    let mut args: Vec<String> = Vec::new();
    let mut env: Option<String> = None;
    if save {
        match string_setting_of(values, "audio_dir") {
            Some(d) => if !d.as_str().is_empty() {
                env = Some(expand_tilde(d.as_str(), home));
            },
            None => {},
        }
    } else {
        args.push(owned("--no-save"));
    }
    let ghost head = args.deep_view();
    args.push(owned("-v"));
    args.push(voice);
    args.push(owned("-s"));
    args.push(owned(speed));
    let ghost mid = args.deep_view();
    let mut extra = extra;
    let ghost ex = extra.deep_view();
    args.append(&mut extra);
    proof {
        assert(mid =~= head + seq!["-v"@, launch_voice(settings_map(values@), match voice_override {
            Some(v) => Some(v@),
            None => None,
        }), "-s"@, speed@]);
        assert(args.deep_view() =~= mid + ex);
        if !save {
            assert(head =~= seq!["--no-save"@]);
        } else {
            assert(head =~= Seq::<Seq<char>>::empty());
        }
    }
    VoxLaunch { args, audio_dir_env: env }
}

/// Each action's accelerator text: the shortcut's string value, or empty
/// when it is not a string.
pub open spec fn accelerators(shortcuts: Map<Seq<char>, Seq<char>>) -> Map<Seq<char>, Seq<char>> {
    shortcuts.map_values(|t: Seq<char>| match json_string_value(t) {
        Some(a) => a,
        None => Seq::<char>::empty(),
    })
}

/// With no shortcut stored, the accelerators in force are the defaults:
/// ctrl+alt+super with v, s and r for speaking the clipboard, stopping and
/// replaying the last text, and none for toggling readouts.
pub proof fn lemma_default_accelerators(m: Map<Seq<char>, SettingModel>)
    requires
        !m.contains_key("shortcuts"@),
    ensures
        accelerators(effective_shortcuts(m)) == map![
            "speak_clipboard"@ => "ctrl+alt+super+v"@,
            "stop"@ => "ctrl+alt+super+s"@,
            "replay_last"@ => "ctrl+alt+super+r"@,
            "toggle_readouts"@ => Seq::<char>::empty(),
        ],
{
    reveal_strlit("\"ctrl+alt+super+v\"");
    reveal_strlit("\"ctrl+alt+super+s\"");
    reveal_strlit("\"ctrl+alt+super+r\"");
    reveal_strlit("\"\"");
    reveal_strlit("ctrl+alt+super+v");
    reveal_strlit("ctrl+alt+super+s");
    reveal_strlit("ctrl+alt+super+r");
    assert(stored_shortcuts(m) =~= Map::<Seq<char>, Seq<char>>::empty());
    assert(effective_shortcuts(m) =~= default_shortcuts());
    let v = "\"ctrl+alt+super+v\""@;
    let t = "\"ctrl+alt+super+s\""@;
    let u = "\"ctrl+alt+super+r\""@;
    let e = "\"\""@;
    assert(plain_json_string(v));
    assert(plain_json_string(t));
    assert(plain_json_string(u));
    assert(plain_json_string(e));
    assert(v.subrange(1, v.len() - 1) =~= "ctrl+alt+super+v"@);
    assert(t.subrange(1, t.len() - 1) =~= "ctrl+alt+super+s"@);
    assert(u.subrange(1, u.len() - 1) =~= "ctrl+alt+super+r"@);
    assert(e.subrange(1, e.len() - 1) =~= Seq::<char>::empty());
    assert(accelerators(default_shortcuts()) =~= map![
        "speak_clipboard"@ => "ctrl+alt+super+v"@,
        "stop"@ => "ctrl+alt+super+s"@,
        "replay_last"@ => "ctrl+alt+super+r"@,
        "toggle_readouts"@ => Seq::<char>::empty(),
    ]);
}

/// The shortcut map: (action, accelerator) for each shortcut in force.
pub fn shortcut_map(shortcuts: &Vec<(String, String)>) -> (r: Vec<(String, String)>)
    ensures
        pairs_map(r.deep_view()) == accelerators(pairs_map(shortcuts.deep_view())),
        distinct_keys(r.deep_view()),
{
    let ghost sv = shortcuts.deep_view();
    let mut r: Vec<(String, String)> = Vec::new();
    let mut i: usize = 0;
    assert(sv.take(0) =~= Seq::<(Seq<char>, Seq<char>)>::empty());
    assert(pairs_map(r.deep_view()) =~= accelerators(pairs_map(sv.take(0))));
    while i < shortcuts.len()
        invariant
            i <= shortcuts.len(),
            sv == shortcuts.deep_view(),
            pairs_map(r.deep_view()) == accelerators(pairs_map(sv.take(i as int))),
            distinct_keys(r.deep_view()),
        decreases shortcuts.len() - i,
    {
        let accel = match json_string(shortcuts[i].1.as_str()) {
            Some(a) => a,
            None => String::new(),
        };
        r = text_with(&r, shortcuts[i].0.as_str(), accel);
        proof {
            assert(sv.take(i + 1).drop_last() =~= sv.take(i as int));
            assert(sv.take(i + 1).last() == sv[i as int]);
            assert(pairs_map(r.deep_view()) =~= accelerators(pairs_map(sv.take(i + 1))));
        }
        i += 1;
    }
    assert(sv.take(shortcuts.len() as int) =~= sv);
    r
}

/// The keys of a patch are distinct (as in a JSON object).
pub open spec fn distinct_keys<V>(p: Seq<(Seq<char>, V)>) -> bool {
    forall|a: int, b: int| 0 <= a < b < p.len() ==> #[trigger] p[a].0 != #[trigger] p[b].0
}

/// A patched key (but `cmd`) is gone from the overrides when its value is a
/// reset (null or the default), and holds the patched value otherwise.
pub proof fn lemma_patch_sets_or_resets(
    m: Map<Seq<char>, SettingModel>,
    p: Seq<(Seq<char>, SettingModel)>,
    j: int,
)
    requires
        distinct_keys(p),
        0 <= j < p.len(),
        p[j].0 != "cmd"@,
    ensures
        is_reset(p[j].0, p[j].1) ==> !patched(m, p).contains_key(p[j].0),
        !is_reset(p[j].0, p[j].1) ==> patched(m, p).contains_key(p[j].0) && patched(m, p)[p[j].0] == p[j].1,
    decreases p.len(),
{
    if j < p.len() - 1 {
        assert(p.last().0 != p[j].0);
        let q = p.drop_last();
        assert(distinct_keys(q));
        assert(q[j] == p[j]);
        lemma_patch_sets_or_resets(m, q, j);
    }
}

/// A patched value equal to its key's default is not stored, and the
/// default is what is in force: the stored settings list only overrides.
pub proof fn lemma_defaults_not_stored(
    m: Map<Seq<char>, SettingModel>,
    p: Seq<(Seq<char>, SettingModel)>,
    j: int,
)
    requires
        distinct_keys(p),
        0 <= j < p.len(),
        p[j].0 != "cmd"@,
        default_values().contains_key(p[j].0),
        p[j].1 == default_values()[p[j].0],
    ensures
        !patched(m, p).contains_key(p[j].0),
        effective_values(patched(m, p))[p[j].0] == default_values()[p[j].0],
{
    lemma_patch_sets_or_resets(m, p, j);
}


/// A key the patch does not name keeps its stored value (or absence).
pub proof fn lemma_patch_leaves_others(
    m: Map<Seq<char>, SettingModel>,
    p: Seq<(Seq<char>, SettingModel)>,
    k: Seq<char>,
)
    requires
        forall|i: int| 0 <= i < p.len() ==> #[trigger] p[i].0 != k,
    ensures
        patched(m, p).contains_key(k) == m.contains_key(k),
        m.contains_key(k) ==> patched(m, p)[k] == m[k],
    decreases p.len(),
{
    if p.len() > 0 {
        let q = p.drop_last();
        assert forall|i: int| 0 <= i < q.len() implies #[trigger] q[i].0 != k by {
            assert(q[i] == p[i]);
        }
        lemma_patch_leaves_others(m, q, k);
        assert(p.last().0 != k);
    }
}

/// Resetting a setting brings back its default: after a patch that resets
/// key `k` (one of the defaulted settings), the settings in force show
/// the default for it, whatever was stored before; any other patched value
/// is what is in force.
pub proof fn lemma_reset_restores_default(
    m: Map<Seq<char>, SettingModel>,
    p: Seq<(Seq<char>, SettingModel)>,
    j: int,
)
    requires
        distinct_keys(p),
        0 <= j < p.len(),
        p[j].0 != "cmd"@,
        p[j].0 != "shortcuts"@,
    ensures
        is_reset(p[j].0, p[j].1) && default_values().contains_key(p[j].0) ==> effective_values(
            patched(m, p),
        )[p[j].0] == default_values()[p[j].0],
        !is_reset(p[j].0, p[j].1) ==> effective_values(patched(m, p))[p[j].0] == p[j].1,
{
    lemma_patch_sets_or_resets(m, p, j);
}

} // verus!
