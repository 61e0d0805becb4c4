//! What the reader UI shows: karaoke word states, the status line, the
//! input chips, and the history and settings popups — their texts and
//! where they sit on screen.

use vstd::prelude::*;
use crate::controls::{clock, fmt_time, rate_fixed, rate_fixed_text};
use crate::karaoke::{WordEnd, words, words_of};
use crate::text::{
    chars_of, decimal, decimal_string, join, join_strings, owned, pad_right, push_padded, push_str,
    str_eq,
};
use crate::voices::{voice_display, voice_display_of};

verus! {

/// How a transcript word is drawn against the playback cursor.
#[derive(Debug, PartialEq, Eq, Clone, Copy)]
pub enum WordState {
    /// Fully spoken.
    Spoken,
    /// Being spoken now.
    Current,
    /// Not reached yet.
    Pending,
}

pub open spec fn word_state(pos: nat, prev_end: nat, end: nat) -> WordState {
    if pos >= end {
        WordState::Spoken
    } else if pos >= prev_end {
        WordState::Current
    } else {
        WordState::Pending
    }
}

/// The states of an utterance's words (ends `ends`, starting at `start`)
/// at cursor `pos`: a word is current from the end of the one before it.
pub open spec fn word_states_of(start: nat, ends: Seq<u64>, pos: nat) -> Seq<WordState> {
    Seq::new(
        ends.len(),
        |k: int| word_state(pos, if k == 0 { start } else { ends[k - 1] as nat }, ends[k] as nat),
    )
}

pub open spec fn ends_of(words: Seq<WordEnd>) -> Seq<u64> {
    words.map_values(|w: WordEnd| w.end)
}

pub fn word_states(start: u64, words: &Vec<WordEnd>, pos: u64) -> (r: Vec<WordState>)
    ensures
        r@ == word_states_of(start as nat, ends_of(words@), pos as nat),
{
    let mut r: Vec<WordState> = Vec::new();
    let mut prev = start;
    let mut k: usize = 0;
    while k < words.len()
        invariant
            k <= words.len(),
            prev == (if k == 0 { start } else { words@[k - 1].end }),
            r@ == word_states_of(start as nat, ends_of(words@), pos as nat).take(k as int),
        decreases words.len() - k,
    {
        let end = words[k].end;
        let s = if pos >= end {
            WordState::Spoken
        } else if pos >= prev {
            WordState::Current
        } else {
            WordState::Pending
        };
        r.push(s);
        prev = end;
        k += 1;
        assert(r@ =~= word_states_of(start as nat, ends_of(words@), pos as nat).take(k as int));
    }
    assert(r@ =~= word_states_of(start as nat, ends_of(words@), pos as nat));
    r
}

/// Rows scrolled off the top of the transcript: pinned to the bottom, moved
/// up by `scroll_up` rows but never past the top.
pub open spec fn scroll_of(total: u16, height: u16, scroll_up: u16) -> u16 {
    let max = if total >= height { (total - height) as u16 } else { 0u16 };
    let up = if scroll_up <= max { scroll_up } else { max };
    (max - up) as u16
}

pub fn transcript_scroll(total: u16, height: u16, scroll_up: u16) -> (r: u16)
    ensures
        r == scroll_of(total, height, scroll_up),
{
    let max = total.saturating_sub(height);
    let up = if scroll_up <= max { scroll_up } else { max };
    max - up
}

/// The busy indicator's frames.
pub open spec fn spinner(k: nat) -> char {
    if k == 0 { '⠋' } else if k == 1 { '⠙' } else if k == 2 { '⠹' } else if k == 3 { '⠸' }
    else if k == 4 { '⠼' } else if k == 5 { '⠴' } else if k == 6 { '⠦' } else if k == 7 { '⠧' }
    else if k == 8 { '⠇' } else { '⠏' }
}

fn spinner_char(k: usize) -> (c: char)
    requires
        k < 10,
    ensures
        c == spinner(k as nat),
{
    if k == 0 { '⠋' } else if k == 1 { '⠙' } else if k == 2 { '⠹' } else if k == 3 { '⠸' }
    else if k == 4 { '⠼' } else if k == 5 { '⠴' } else if k == 6 { '⠦' } else if k == 7 { '⠧' }
    else if k == 8 { '⠇' } else { '⠏' }
}

/// The state shown first on the status line: an error wins, then
/// synthesis, then pause, then speech (the cursor before the last sample),
/// else idle.
pub open spec fn status_state(
    error: Option<Seq<char>>,
    synthesizing: bool,
    tick: nat,
    paused: bool,
    pos: nat,
    len: nat,
) -> Seq<char> {
    match error {
        Some(e) => "⚠ "@ + e,
        None => if synthesizing {
            seq![spinner(tick % 10)] + " synthesizing"@
        } else if paused {
            "⏸ paused"@
        } else if pos + 1 < len {
            "▶ speaking"@
        } else {
            "● idle"@
        },
    }
}

pub fn status_state_text(
    error: Option<&str>,
    synthesizing: bool,
    tick: usize,
    paused: bool,
    pos: u64,
    len: u64,
) -> (r: String)
    ensures
        r@ == status_state(
            match error {
                Some(e) => Some(e@),
                None => None,
            },
            synthesizing,
            tick as nat,
            paused,
            pos as nat,
            len as nat,
        ),
{
    match error {
        Some(e) => {
            let mut r = owned("⚠ ");
            push_str(&mut r, e);
            r
        },
        None => {
            if synthesizing {
                let mut r = String::new();
                r.push(spinner_char(tick % 10));
                push_str(&mut r, " synthesizing");
                r
            } else if paused {
                owned("⏸ paused")
            } else if pos < len && pos + 1 < len {
                owned("▶ speaking")
            } else {
                owned("● idle")
            }
        },
    }
}

/// The rest of the status line: ` pos / len  rate  voice  `.
pub open spec fn status_detail_of(pos: nat, len: nat, rate_q: nat, voice: Seq<char>) -> Seq<char> {
    " "@ + clock(pos) + " / "@ + clock(len) + "  "@ + rate_fixed(rate_q) + "x  "@
        + voice_display_of(voice) + "  "@
}

pub fn status_detail(pos: u64, len: u64, rate_q: u32, voice: &str) -> (r: String)
    ensures
        r@ == status_detail_of(pos as nat, len as nat, rate_q as nat, voice@),
{
    let mut r = owned(" ");
    push_str(&mut r, fmt_time(pos).as_str());
    push_str(&mut r, " / ");
    push_str(&mut r, fmt_time(len).as_str());
    push_str(&mut r, "  ");
    push_str(&mut r, rate_fixed_text(rate_q).as_str());
    push_str(&mut r, "x  ");
    push_str(&mut r, voice_display(voice).as_str());
    push_str(&mut r, "  ");
    r
}

/// The chip of the `i`-th paste (from 0): `[pasted #n · c chars] `.
pub open spec fn paste_chip_of(i: nat, paste: Seq<char>) -> Seq<char> {
    "[pasted #"@ + decimal(i + 1) + " · "@ + decimal(paste.len()) + " chars] "@
}

pub fn paste_chip(i: usize, paste: &str) -> (r: String)
    requires
        i < usize::MAX,
    ensures
        r@ == paste_chip_of(i as nat, paste@),
{
    let n = chars_of(paste).len();
    let mut r = owned("[pasted #");
    push_str(&mut r, decimal_string((i + 1) as u64).as_str());
    push_str(&mut r, " · ");
    push_str(&mut r, decimal_string(n as u64).as_str());
    push_str(&mut r, " chars] ");
    r
}

/// A popup's place: (x, y, width, height).
pub type Rect = (u16, u16, u16, u16);

/// The history popup over an area `w` x `h` holding `items` entries: 8
/// columns narrower than the screen, within 30..72, as tall as its entries
/// plus 4, centred, a third of the way down.
pub open spec fn hist_popup_of(w: u16, h: u16, items: nat) -> Rect {
    let a: int = if w >= 8 { w - 8 } else { 0 };
    let b: int = if a < 72 { a } else { 72 };
    let pw: int = if b > 30 { b } else { 30 };
    let hh: int = if h >= 2 { h - 2 } else { 0 };
    let ph: int = if items + 4 < hh { (items + 4) as int } else { hh };
    (((w - pw) / 2) as u16, ((if h >= ph { h - ph } else { 0 }) / 3) as u16, pw as u16, ph as u16)
}

pub fn hist_popup(w: u16, h: u16, items: usize) -> (r: Rect)
    requires
        w >= 30,
        items <= 65531,
    ensures
        r == hist_popup_of(w, h, items as nat),
{
    let pw = w.saturating_sub(8).min(72).max(30);
    let ph = (items as u16 + 4).min(h.saturating_sub(2));
    ((w - pw) / 2, h.saturating_sub(ph) / 3, pw, ph)
}

/// The settings popup: 52 columns (4 fewer than the screen at most), as
/// tall as its rows plus 4, centred, a third of the way down.
pub open spec fn settings_popup_of(w: u16, h: u16) -> Rect {
    let ww: int = if w >= 4 { w - 4 } else { 0 };
    let pw: int = if 52 < ww { 52 } else { ww };
    let hh: int = if h >= 2 { h - 2 } else { 0 };
    let ph: int = if 9 < hh { 9 } else { hh };
    (((w - pw) / 2) as u16, ((if h >= ph { h - ph } else { 0 }) / 3) as u16, pw as u16, ph as u16)
}

pub fn settings_popup(w: u16, h: u16) -> (r: Rect)
    ensures
        r == settings_popup_of(w, h),
{
    let pw = 52u16.min(w.saturating_sub(4));
    let ph = 9u16.min(h.saturating_sub(2));
    ((w - pw) / 2, h.saturating_sub(ph) / 3, pw, ph)
}

/// A history text on one line, cut to `width` characters with an ellipsis.
pub open spec fn shown_text(text: Seq<char>, width: nat) -> Seq<char> {
    let one = join(words_of(text), " "@);
    if one.len() > width {
        one.take(width as int).push('…')
    } else {
        one
    }
}

/// A history row: ` source   text`, the source padded to 8 columns.
pub open spec fn hist_row_of(source: Seq<char>, text: Seq<char>, width: nat) -> Seq<char> {
    " "@ + pad_right(source, 8) + " "@ + shown_text(text, width)
}

pub fn hist_row(source: &str, text: &str, width: usize) -> (r: String)
    ensures
        r@ == hist_row_of(source@, text@, width as nat),
{
    let ws = words(text);
    let one = join_strings(&ws, " ");
    let v = chars_of(one.as_str());
    let mut r = owned(" ");
    push_padded(&mut r, source, 8);
    push_str(&mut r, " ");
    if v.len() > width {
        let mut k: usize = 0;
        let ghost base = r@;
        while k < width
            invariant
                k <= width < v.len(),
                v@ == one@,
                r@ == base + v@.take(k as int),
            decreases width - k,
        {
            r.push(v[k]);
            k += 1;
            assert(r@ =~= base + v@.take(k as int));
        }
        r.push('…');
    } else {
        push_str(&mut r, one.as_str());
    }
    r
}

/// The history popup's title, naming the source filter unless it is "all".
pub open spec fn hist_title_of(filter: Seq<char>) -> Seq<char> {
    if filter == "all"@ || filter.len() == 0 {
        " recent "@
    } else {
        " recent · "@ + filter + " "@
    }
}

pub fn hist_title(filter: &str) -> (r: String)
    ensures
        r@ == hist_title_of(filter@),
{
    if str_eq(filter, "all") || filter.is_empty() {
        owned(" recent ")
    } else {
        let mut r = owned(" recent · ");
        push_str(&mut r, filter);
        push_str(&mut r, " ");
        r
    }
}

/// The names of the settings rows.
pub open spec fn settings_names() -> Seq<Seq<char>> {
    seq!["voice"@, "synthesis speed"@, "audio folder"@, "save audio"@, "cleanup on exit"@]
}

pub fn settings_name(i: usize) -> (r: &'static str)
    requires
        i < 5,
    ensures
        r@ == settings_names()[i as int],
{
    if i == 0 {
        "voice"
    } else if i == 1 {
        "synthesis speed"
    } else if i == 2 {
        "audio folder"
    } else if i == 3 {
        "save audio"
    } else {
        "cleanup on exit"
    }
}

/// A speed in thousandths shown to one decimal (`1.1x`), rounded to the
/// nearest tenth, halves up.
pub open spec fn speed_text_of(milli: nat) -> Seq<char> {
    let t = (milli + 50) / 100;
    decimal(t / 10) + seq!['.'] + decimal(t % 10) + seq!['x']
}

pub fn speed_text(milli: u32) -> (r: String)
    ensures
        r@ == speed_text_of(milli as nat),
{
    let t = (milli as u64 + 50) / 100;
    let mut r = decimal_string(t / 10);
    r.push('.');
    push_str(&mut r, decimal_string(t % 10).as_str());
    r.push('x');
    r
}

pub open spec fn on_off(b: bool) -> Seq<char> {
    if b {
        "on"@
    } else {
        "off"@
    }
}

/// The values of the settings rows, the audio folder shown with a cursor
/// while it is being edited.
pub open spec fn settings_values_of(
    voice: Seq<char>,
    speed_milli: nat,
    audio_dir: Seq<char>,
    editing: Option<Seq<char>>,
    save_audio: bool,
    cleanup_on_exit: bool,
) -> Seq<Seq<char>> {
    seq![
        voice_display_of(voice),
        speed_text_of(speed_milli),
        match editing {
            Some(b) => b.push('▌'),
            None => audio_dir,
        },
        on_off(save_audio),
        on_off(cleanup_on_exit),
    ]
}

/// A settings row: ` name               value`, the name padded to 18.
pub open spec fn settings_row_of(name: Seq<char>, value: Seq<char>) -> Seq<char> {
    " "@ + pad_right(name, 18) + " "@ + value
}

pub fn settings_rows(cfg: &crate::config::Config, editing: &Option<String>) -> (r: Vec<String>)
    ensures
        r.len() == 5,
        forall|i: int|
            0 <= i < 5 ==> #[trigger] r@[i]@ == settings_row_of(
                settings_names()[i],
                settings_values_of(
                    cfg.voice@,
                    cfg.speed_milli as nat,
                    cfg.audio_dir@,
                    match editing {
                        Some(b) => Some(b@),
                        None => None,
                    },
                    cfg.save_audio,
                    cfg.cleanup_on_exit,
                )[i],
            ),
{
    let folder = match editing {
        Some(b) => {
            let mut s = b.clone();
            s.push('▌');
            s
        },
        None => cfg.audio_dir.clone(),
    };
    let values: Vec<String> = vec![
        voice_display(cfg.voice.as_str()),
        speed_text(cfg.speed_milli),
        folder,
        owned(if cfg.save_audio { "on" } else { "off" }),
        owned(if cfg.cleanup_on_exit { "on" } else { "off" }),
    ];
    let mut r: Vec<String> = Vec::new();
    let mut i: usize = 0;
    while i < 5
        invariant
            i <= 5,
            values.len() == 5,
            r.len() == i,
            values@[0]@ == voice_display_of(cfg.voice@),
            values@[1]@ == speed_text_of(cfg.speed_milli as nat),
            values@[2]@ == (match editing {
                Some(b) => b@.push('▌'),
                None => cfg.audio_dir@,
            }),
            values@[3]@ == on_off(cfg.save_audio),
            values@[4]@ == on_off(cfg.cleanup_on_exit),
            forall|j: int|
                0 <= j < i ==> #[trigger] r@[j]@ == settings_row_of(settings_names()[j], values@[j]@),
        decreases 5 - i,
    {
        let mut row = owned(" ");
        push_padded(&mut row, settings_name(i), 18);
        push_str(&mut row, " ");
        push_str(&mut row, values[i].as_str());
        r.push(row);
        i += 1;
    }
    r
}

} // verus!
