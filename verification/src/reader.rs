//! The reader UI's state and what each key does to it.
//!
//! Typed text and pasted blocks are submitted with Enter; Tab opens the
//! settings panel (voice, speed, audio folder, saving, cleanup); Ctrl-P
//! opens the recent-history picker, filtered by source with left / right;
//! Ctrl-R repeats the last text; Esc stops; space pauses; arrows skip,
//! scrub and change the rate; Ctrl-C quits. What needs the outside world
//! (the player, the synthesis queue, files) comes back as a command.

use vstd::prelude::*;
use crate::config::{Config, ConfigModel, expand_tilde, expand_tilde_of, opt_view};
use crate::controls::{ArrowAction, ArrowMemory, arrow_action_spec, since_same, SCRUB_TIMEOUT_MS};
use crate::text::{chars_of, join, join_strings, owned, str_eq, string_of_range, trim, trim_str};

verus! {

/// The rows of the settings panel.
pub const SETTINGS_ROWS: usize = 5;

/// A key, as the reader tells keys apart.
#[derive(Debug, Clone, Copy)]
pub enum UiKey {
    Char(char),
    Enter,
    Esc,
    Tab,
    Backspace,
    Up,
    Down,
    Left,
    Right,
    PageUp,
    PageDown,
    Other,
}

/// What the caller is to do after a key.
#[derive(Debug)]
pub enum Command<T> {
    Nothing,
    Quit,
    /// Queue this submitted text, and add it to the shared history.
    Speak(T),
    /// Queue this text again (from the history picker or a repeat).
    SpeakAgain(T),
    /// Repeat asked for with nothing spoken this session: read the shared
    /// last-spoken text and hand it to `replay_shared`.
    NeedsLastSpoken,
    /// Load the shared history and hand it to `open_history`.
    NeedsHistory,
    /// Stop speech and drop what is queued.
    Stop,
    TogglePause,
    Arrow(ArrowAction),
    /// Change the playback rate by this many quarter steps.
    Rate(i32),
    /// The settings changed or closed: save them.
    SaveConfig,
}

pub type UiCommand = Command<String>;

pub open spec fn command_view(c: UiCommand) -> Command<Seq<char>> {
    match c {
        Command::Nothing => Command::Nothing,
        Command::Quit => Command::Quit,
        Command::Speak(t) => Command::Speak(t@),
        Command::SpeakAgain(t) => Command::SpeakAgain(t@),
        Command::NeedsLastSpoken => Command::NeedsLastSpoken,
        Command::NeedsHistory => Command::NeedsHistory,
        Command::Stop => Command::Stop,
        Command::TogglePause => Command::TogglePause,
        Command::Arrow(a) => Command::Arrow(a),
        Command::Rate(d) => Command::Rate(d),
        Command::SaveConfig => Command::SaveConfig,
    }
}

/// A text handed to the synthesis worker.
pub struct Job {
    pub text: String,
    pub voice: String,
    pub speed_milli: u32,
    /// Where to save the audio, when saving is on.
    pub save_dir: Option<String>,
}

/// The reader's state.
pub struct UiState {
    pub input: String,
    /// Pasted blocks, shown as chips instead of filling the input.
    pub pastes: Vec<String>,
    pub scroll_up: u16,
    pub settings_open: bool,
    pub settings_sel: usize,
    /// The audio folder while it is being edited.
    pub editing: Option<String>,
    pub tick: usize,
    pub hist_open: bool,
    pub hist_sel: usize,
    /// The history entries shown: (source, text).
    pub hist_items: Vec<(String, String)>,
    pub hist_all: Vec<(String, String)>,
    /// "all", then each source in the order first seen.
    pub hist_filters: Vec<String>,
    pub hist_filter: usize,
    pub last_text: Option<String>,
    /// Every voice on offer: Kokoro voices bare, others `provider/voice`.
    pub voice_list: Vec<String>,
    /// Esc was pressed: keep the cursor at the end until synthesis stops.
    pub stopping: bool,
    pub arrows: ArrowMemory,
}

/// The reader's state as plain values.
pub struct UiModel {
    pub input: Seq<char>,
    pub pastes: Seq<Seq<char>>,
    pub scroll_up: u16,
    pub settings_open: bool,
    pub settings_sel: usize,
    pub editing: Option<Seq<char>>,
    pub tick: usize,
    pub hist_open: bool,
    pub hist_sel: usize,
    pub hist_items: Seq<(Seq<char>, Seq<char>)>,
    pub hist_all: Seq<(Seq<char>, Seq<char>)>,
    pub hist_filters: Seq<Seq<char>>,
    pub hist_filter: usize,
    pub last_text: Option<Seq<char>>,
    pub voice_list: Seq<Seq<char>>,
    pub stopping: bool,
    pub last_arrow: Option<(bool, u64)>,
    pub scrub_until: u64,
}

pub open spec fn opt_string(o: Option<String>) -> Option<Seq<char>> {
    match o {
        Some(s) => Some(s@),
        None => None,
    }
}

impl View for UiState {
    type V = UiModel;

    open spec fn view(&self) -> UiModel {
        UiModel {
            input: self.input@,
            pastes: self.pastes.deep_view(),
            scroll_up: self.scroll_up,
            settings_open: self.settings_open,
            settings_sel: self.settings_sel,
            editing: opt_string(self.editing),
            tick: self.tick,
            hist_open: self.hist_open,
            hist_sel: self.hist_sel,
            hist_items: self.hist_items.deep_view(),
            hist_all: self.hist_all.deep_view(),
            hist_filters: self.hist_filters.deep_view(),
            hist_filter: self.hist_filter,
            last_text: opt_string(self.last_text),
            voice_list: self.voice_list.deep_view(),
            stopping: self.stopping,
            last_arrow: self.arrows.last,
            scrub_until: self.arrows.scrub_until,
        }
    }
}

/// The state's own bounds: a settings row exists, and the source filter
/// points into the list of filters (or is 0 when there is none).
pub open spec fn wf(m: UiModel) -> bool {
    &&& m.settings_sel < SETTINGS_ROWS
    &&& if m.hist_filters.len() == 0 {
        m.hist_filter == 0
    } else {
        m.hist_filter < m.hist_filters.len()
    }
}

pub open spec fn drop_last_char(s: Seq<char>) -> Seq<char> {
    if s.len() > 0 {
        s.drop_last()
    } else {
        s
    }
}

pub open spec fn sat_dec(n: usize) -> usize {
    if n > 0 {
        (n - 1) as usize
    } else {
        0
    }
}

// ---- recent-history picker -----------------------------------------------

/// The entries of `all` that the filter `f` keeps: every one for "all",
/// else those whose source is `f`.
pub open spec fn matching(all: Seq<(Seq<char>, Seq<char>)>, f: Seq<char>) -> Seq<(Seq<char>, Seq<char>)>
    decreases all.len(),
{
    if all.len() == 0 {
        Seq::empty()
    } else {
        let p = matching(all.drop_last(), f);
        if f == "all"@ || all.last().0 == f {
            p.push(all.last())
        } else {
            p
        }
    }
}

pub open spec fn first_ten(q: Seq<(Seq<char>, Seq<char>)>) -> Seq<(Seq<char>, Seq<char>)> {
    if q.len() <= 10 {
        q
    } else {
        q.take(10)
    }
}

/// The current filter's text ("" when it points at none).
pub open spec fn filter_text(m: UiModel) -> Seq<char> {
    if m.hist_filter < m.hist_filters.len() {
        m.hist_filters[m.hist_filter as int]
    } else {
        Seq::empty()
    }
}

/// Picker items recomputed for the current filter: at most ten, selection
/// back at the top.
pub open spec fn filtered(m: UiModel) -> UiModel {
    UiModel { hist_items: first_ten(matching(m.hist_all, filter_text(m))), hist_sel: 0, ..m }
}

/// The source filters of a history: "all", then each source in the order
/// first seen.
pub open spec fn source_filters(all: Seq<(Seq<char>, Seq<char>)>) -> Seq<Seq<char>>
    decreases all.len(),
{
    if all.len() == 0 {
        seq!["all"@]
    } else {
        let f = source_filters(all.drop_last());
        if f.contains(all.last().0) {
            f
        } else {
            f.push(all.last().0)
        }
    }
}

/// The picker opened on a freshly loaded history.
pub open spec fn opened(m: UiModel, all: Seq<(Seq<char>, Seq<char>)>) -> UiModel {
    let n = UiModel { hist_all: all, hist_filters: source_filters(all), hist_filter: 0, ..m };
    UiModel { hist_open: all.len() > 0, ..filtered(n) }
}

/// A key while the picker is open; with the text to speak, if any.
pub open spec fn history_step(m: UiModel, key: UiKey, ctrl: bool) -> (UiModel, Option<Seq<char>>) {
    match key {
        UiKey::Esc | UiKey::Tab => (UiModel { hist_open: false, ..m }, None),
        UiKey::Char(c) => if c == 'p' && ctrl {
            (UiModel { hist_open: false, ..m }, None)
        } else {
            (m, None)
        },
        UiKey::Up => (UiModel { hist_sel: sat_dec(m.hist_sel), ..m }, None),
        UiKey::Down => {
            let top = sat_dec(m.hist_items.len() as usize);
            (UiModel { hist_sel: if m.hist_sel + 1 <= top { (m.hist_sel + 1) as usize } else { top }, ..m }, None)
        },
        UiKey::Left | UiKey::Right => {
            let n = m.hist_filters.len() as int;
            if n > 0 {
                let f = m.hist_filter as int;
                let g = if key is Right {
                    if f + 1 < n { f + 1 } else { 0 }
                } else {
                    if f > 0 { f - 1 } else { n - 1 }
                };
                (filtered(UiModel { hist_filter: g as usize, ..m }), None)
            } else {
                (m, None)
            }
        },
        UiKey::Enter => if m.hist_sel < m.hist_items.len() {
            let t = m.hist_items[m.hist_sel as int].1;
            (UiModel { last_text: Some(t), scroll_up: 0, hist_open: false, ..m }, Some(t))
        } else {
            (UiModel { hist_open: false, ..m }, None)
        },
        _ => (m, None),
    }
}

// ---- settings panel -------------------------------------------------------

/// The first index of `v` in `list` from `k` on (0 when it is not there).
pub open spec fn index_from(list: Seq<Seq<char>>, v: Seq<char>, k: int) -> int
    decreases list.len() - k,
{
    if k < 0 || k >= list.len() {
        0
    } else if list[k] == v {
        k
    } else {
        index_from(list, v, k + 1)
    }
}

pub proof fn lemma_index_from_bound(list: Seq<Seq<char>>, v: Seq<char>, k: int)
    requires
        list.len() > 0,
    ensures
        0 <= index_from(list, v, k) < list.len(),
    decreases list.len() - k,
{
    if 0 <= k < list.len() && list[k] != v {
        lemma_index_from_bound(list, v, k + 1);
    }
}

/// The voice after (or before) the current one in the list, wrapping; the
/// first when the current one is not listed.
pub open spec fn cycled_voice(list: Seq<Seq<char>>, voice: Seq<char>, fwd: bool) -> Seq<char> {
    let i = index_from(list, voice, 0);
    let n = list.len() as int;
    list[if fwd {
        if i + 1 < n { i + 1 } else { 0 }
    } else {
        if i > 0 { i - 1 } else { n - 1 }
    }]
}

/// The speed a tenth up or down, kept within 0.5x..2x and rounded to a
/// tenth (halves up).
pub open spec fn stepped_speed(milli: u32, fwd: bool) -> u32 {
    let moved: int = if fwd { milli + 100 } else { milli - 100 };
    let c: int = if moved < 500 { 500 } else if moved > 2000 { 2000 } else { moved };
    (((c + 50) / 100) * 100) as u32
}

/// A left / right / enter on the selected settings row.
pub open spec fn change_step(m: UiModel, c: ConfigModel, fwd: bool, enter: bool) -> (UiModel, ConfigModel, bool) {
    if m.settings_sel == 0 {
        if m.voice_list.len() > 0 {
            (m, ConfigModel { voice: cycled_voice(m.voice_list, c.voice, fwd), ..c }, false)
        } else {
            (m, c, false)
        }
    } else if m.settings_sel == 1 {
        (m, ConfigModel { speed_milli: stepped_speed(c.speed_milli, fwd), ..c }, false)
    } else if m.settings_sel == 2 {
        if enter {
            (UiModel { editing: Some(c.audio_dir), ..m }, c, false)
        } else {
            (m, c, false)
        }
    } else if m.settings_sel == 3 {
        (m, ConfigModel { save_audio: !c.save_audio, ..c }, false)
    } else if m.settings_sel == 4 {
        (m, ConfigModel { cleanup_on_exit: !c.cleanup_on_exit, ..c }, false)
    } else {
        (m, c, false)
    }
}

/// A key while the settings panel is open: the new state and settings, and
/// whether to save the settings.
pub open spec fn settings_step(m: UiModel, c: ConfigModel, key: UiKey) -> (UiModel, ConfigModel, bool) {
    match m.editing {
        Some(buf) => match key {
            UiKey::Enter => (UiModel { editing: None, ..m }, ConfigModel { audio_dir: buf, ..c }, true),
            UiKey::Esc => (UiModel { editing: None, ..m }, c, false),
            UiKey::Backspace => (UiModel { editing: Some(drop_last_char(buf)), ..m }, c, false),
            UiKey::Char(ch) => (UiModel { editing: Some(buf.push(ch)), ..m }, c, false),
            _ => (m, c, false),
        },
        None => match key {
            UiKey::Tab | UiKey::Esc => (UiModel { settings_open: false, ..m }, c, true),
            UiKey::Up => (UiModel { settings_sel: sat_dec(m.settings_sel), ..m }, c, false),
            UiKey::Down => (UiModel {
                settings_sel: if m.settings_sel + 1 < SETTINGS_ROWS { (m.settings_sel + 1) as usize } else { (SETTINGS_ROWS - 1) as usize },
                ..m
            }, c, false),
            UiKey::Left => change_step(m, c, false, false),
            UiKey::Right => change_step(m, c, true, false),
            UiKey::Enter => change_step(m, c, true, true),
            _ => (m, c, false),
        },
    }
}

// ---- the main view --------------------------------------------------------

/// What Enter submits: the pasted blocks, then the typed text when it is
/// not blank, joined by blank lines and trimmed.
pub open spec fn submitted(m: UiModel) -> Seq<char> {
    let typed = trim(m.input);
    let parts = if typed.len() > 0 { m.pastes.push(typed) } else { m.pastes };
    trim(join(parts, "\n\n"@))
}

/// A key in the main view (no panel open).
pub open spec fn main_step(m: UiModel, key: UiKey, ctrl: bool, shift: bool, repeat: bool, now: u64) -> (UiModel, Command<Seq<char>>) {
    match key {
        UiKey::Tab => (UiModel { settings_open: true, ..m }, Command::Nothing),
        UiKey::Enter => {
            let text = submitted(m);
            if text.len() > 0 {
                (UiModel { pastes: Seq::empty(), input: Seq::empty(), last_text: Some(text), scroll_up: 0, ..m }, Command::Speak(text))
            } else {
                (UiModel { pastes: Seq::empty(), ..m }, Command::Nothing)
            }
        },
        UiKey::Backspace => if m.input.len() > 0 {
            (UiModel { input: m.input.drop_last(), ..m }, Command::Nothing)
        } else if m.pastes.len() > 0 {
            (UiModel { pastes: m.pastes.drop_last(), ..m }, Command::Nothing)
        } else {
            (m, Command::Nothing)
        },
        UiKey::Esc => (UiModel { stopping: true, ..m }, Command::Stop),
        UiKey::Left | UiKey::Right => {
            let right = key is Right;
            let a = arrow_action_spec(right, repeat, since_same(m.last_arrow, right, now), shift);
            let until = if a is Scrub { now.saturating_add(SCRUB_TIMEOUT_MS) } else { m.scrub_until };
            (UiModel { last_arrow: Some((right, now)), scrub_until: until, ..m }, Command::Arrow(a))
        },
        UiKey::Up => (m, Command::Rate(1i32)),
        UiKey::Down => (m, Command::Rate(-1i32)),
        UiKey::PageUp => (UiModel { scroll_up: if m.scroll_up + 10 <= u16::MAX { (m.scroll_up + 10) as u16 } else { u16::MAX }, ..m }, Command::Nothing),
        UiKey::PageDown => (UiModel { scroll_up: if m.scroll_up >= 10 { (m.scroll_up - 10) as u16 } else { 0 }, ..m }, Command::Nothing),
        UiKey::Char(ch) => if ch == 'r' && ctrl {
            match m.last_text {
                Some(t) => (UiModel { scroll_up: 0, ..m }, Command::SpeakAgain(t)),
                None => (m, Command::NeedsLastSpoken),
            }
        } else if ch == 'p' && ctrl {
            (m, Command::NeedsHistory)
        } else if ch == 'u' && ctrl {
            (UiModel { input: Seq::empty(), ..m }, Command::Nothing)
        } else if ch == ' ' && m.input.len() == 0 {
            (m, Command::TogglePause)
        } else {
            (UiModel { input: m.input.push(ch), ..m }, Command::Nothing)
        },
        UiKey::Other => (m, Command::Nothing),
    }
}

/// Any key: Ctrl-C quits from anywhere; an open panel takes the key first.
pub open spec fn key_step(m: UiModel, c: ConfigModel, key: UiKey, ctrl: bool, shift: bool, repeat: bool, now: u64) -> (UiModel, ConfigModel, Command<Seq<char>>) {
    if key matches UiKey::Char(ch) && ch == 'c' && ctrl {
        (m, c, Command::Quit)
    } else if m.settings_open {
        let (n, d, save) = settings_step(m, c, key);
        (n, d, if save { Command::SaveConfig } else { Command::Nothing })
    } else if m.hist_open {
        let (n, t) = history_step(m, key, ctrl);
        (n, c, match t {
            Some(t) => Command::SpeakAgain(t),
            None => Command::Nothing,
        })
    } else {
        let (n, cmd) = main_step(m, key, ctrl, shift, repeat, now);
        (n, c, cmd)
    }
}

/// A paste: into the folder being edited (trimmed), else a new chip
/// unless it is blank.
pub open spec fn paste_step(m: UiModel, s: Seq<char>) -> UiModel {
    match m.editing {
        Some(buf) => UiModel { editing: Some(buf + trim(s)), ..m },
        None => if trim(s).len() > 0 {
            UiModel { pastes: m.pastes.push(s), ..m }
        } else {
            m
        },
    }
}

fn clone_pair(p: &(String, String)) -> (r: (String, String))
    ensures
        r.0@ == p.0@,
        r.1@ == p.1@,
{
    (p.0.clone(), p.1.clone())
}

fn clone_opt(o: &Option<String>) -> (r: Option<String>)
    ensures
        opt_string(r) == opt_string(*o),
{
    match o {
        Some(s) => Some(s.clone()),
        None => None,
    }
}

fn pop_char(s: &String) -> (r: String)
    ensures
        r@ == drop_last_char(s@),
{
    let v = chars_of(s.as_str());
    if v.len() > 0 {
        string_of_range(&v, 0, v.len() - 1)
    } else {
        owned(s.as_str())
    }
}

impl UiState {
    /// A fresh reader over the voices on offer; `last_text` is what was
    /// spoken last, if known.
    pub fn new(voice_list: Vec<String>, last_text: Option<String>, now: u64) -> (r: UiState)
        ensures
            wf(r@),
            r@.input.len() == 0,
            r@.pastes.len() == 0,
            !r@.settings_open && !r@.hist_open && r@.editing is None,
            r@.voice_list == voice_list.deep_view(),
            r@.last_text == opt_string(last_text),
    {
        let r = UiState {
            input: String::new(),
            pastes: Vec::new(),
            scroll_up: 0,
            settings_open: false,
            settings_sel: 0,
            editing: None,
            tick: 0,
            hist_open: false,
            hist_sel: 0,
            hist_items: Vec::new(),
            hist_all: Vec::new(),
            hist_filters: Vec::new(),
            hist_filter: 0,
            last_text,
            voice_list,
            stopping: false,
            arrows: ArrowMemory::new(now),
        };
        assert(r@.pastes =~= Seq::<Seq<char>>::empty());
        r
    }

    /// Recompute the picker items for the current source filter.
    pub fn apply_hist_filter(&mut self)
        ensures
            final(self)@ == filtered(old(self)@),
    {
        let f: String = if self.hist_filter < self.hist_filters.len() {
            self.hist_filters[self.hist_filter].clone()
        } else {
            String::new()
        };
        let all_filter = str_eq(f.as_str(), "all");
        let ghost fv = f@;
        let ghost all = self.hist_all.deep_view();
        let mut items: Vec<(String, String)> = Vec::new();
        let mut i: usize = 0;
        proof {
            assert(all.take(0) =~= Seq::<(Seq<char>, Seq<char>)>::empty());
            assert(items.deep_view() =~= first_ten(matching(all.take(0), fv)));
        }
        while i < self.hist_all.len() && items.len() < 10
            invariant
                i <= self.hist_all.len(),
                all == self.hist_all.deep_view(),
                fv == filter_text(old(self)@),
                f@ == fv,
                all_filter == (fv == "all"@),
                items.len() <= 10,
                items.deep_view() == first_ten(matching(all.take(i as int), fv)),
                self@ == old(self)@,
            decreases self.hist_all.len() - i,
        {
            let keep = all_filter || str_eq(self.hist_all[i].0.as_str(), f.as_str());
            let ghost p = matching(all.take(i as int), fv);
            proof {
                assert(all.take(i + 1).drop_last() =~= all.take(i as int));
                assert(all.take(i + 1).last() == all[i as int]);
                assert(all[i as int].0 == self.hist_all[i as int].0@);
            }
            if keep {
                let e = clone_pair(&self.hist_all[i]);
                let ghost before = items.deep_view();
                assert(before == p);
                items.push(e);
                proof {
                    assert(e.deep_view() == all[i as int]);
                    assert(items.deep_view() =~= before.push(all[i as int]));
                    assert(matching(all.take(i + 1), fv) == p.push(all[i as int]));
                    assert(items.deep_view() =~= first_ten(p.push(all[i as int])));
                }
            } else {
                assert(matching(all.take(i + 1), fv) == p);
            }
            i += 1;
        }
        proof {
            lemma_first_ten_settles(all, fv, i as int);
        }
        self.hist_items = items;
        self.hist_sel = 0;
    }
}

/// Whether `list` holds `s`.
pub fn contains_text(list: &Vec<String>, s: &str) -> (r: bool)
    ensures
        r == list.deep_view().contains(s@),
{
    let mut j: usize = 0;
    while j < list.len()
        invariant
            j <= list.len(),
            forall|k: int| 0 <= k < j ==> list.deep_view()[k] != s@,
        decreases list.len() - j,
    {
        if str_eq(list[j].as_str(), s) {
            assert(list.deep_view()[j as int] == s@);
            return true;
        }
        j += 1;
    }
    false
}

/// The source filters of a loaded history.
pub fn source_filters_of(all: &Vec<(String, String)>) -> (r: Vec<String>)
    ensures
        r.deep_view() == source_filters(all.deep_view()),
        r.len() >= 1,
{
    let ghost a = all.deep_view();
    let mut r: Vec<String> = Vec::new();
    r.push(owned("all"));
    let mut i: usize = 0;
    proof {
        assert(a.take(0) =~= Seq::<(Seq<char>, Seq<char>)>::empty());
        assert(r.deep_view() =~= seq!["all"@]);
    }
    while i < all.len()
        invariant
            i <= all.len(),
            a == all.deep_view(),
            r.deep_view() == source_filters(a.take(i as int)),
            r.len() >= 1,
        decreases all.len() - i,
    {
        proof {
            assert(a.take(i + 1).drop_last() =~= a.take(i as int));
            assert(a.take(i + 1).last() == a[i as int]);
        }
        if !contains_text(&r, all[i].0.as_str()) {
            let ghost before = r.deep_view();
            r.push(all[i].0.clone());
            assert(r.deep_view() =~= before.push(a[i as int].0));
        }
        i += 1;
    }
    assert(a.take(all.len() as int) =~= a);
    r
}

/// The index of `v` in `list`, or 0 when it is not listed.
fn index_of(list: &Vec<String>, v: &str) -> (r: usize)
    ensures
        r == index_from(list.deep_view(), v@, 0),
{
    let ghost l = list.deep_view();
    let mut j: usize = 0;
    while j < list.len()
        invariant
            j <= list.len(),
            l == list.deep_view(),
            index_from(l, v@, 0) == index_from(l, v@, j as int),
        decreases list.len() - j,
    {
        if str_eq(list[j].as_str(), v) {
            return j;
        }
        j += 1;
    }
    0
}

impl UiState {
    /// Open the picker on a loaded history (newest first).
    pub fn open_history(&mut self, all: Vec<(String, String)>)
        requires
            wf(old(self)@),
        ensures
            final(self)@ == opened(old(self)@, all.deep_view()),
            wf(final(self)@),
    {
        let filters = source_filters_of(&all);
        let open = all.len() > 0;
        self.hist_all = all;
        self.hist_filters = filters;
        self.hist_filter = 0;
        self.apply_hist_filter();
        self.hist_open = open;
    }

    /// A key while the picker is open. Returns the text to speak, if one
    /// was picked.
    pub fn history_key(&mut self, key: UiKey, ctrl: bool) -> (r: Option<String>)
        requires
            wf(old(self)@),
        ensures
            (final(self)@, opt_string(r)) == history_step(old(self)@, key, ctrl),
            wf(final(self)@),
    {
        match key {
            UiKey::Esc | UiKey::Tab => {
                self.hist_open = false;
                None
            },
            UiKey::Char(c) => {
                if c == 'p' && ctrl {
                    self.hist_open = false;
                }
                None
            },
            UiKey::Up => {
                if self.hist_sel > 0 {
                    self.hist_sel = self.hist_sel - 1;
                }
                None
            },
            UiKey::Down => {
                let top: usize = if self.hist_items.len() > 0 { self.hist_items.len() - 1 } else { 0 };
                self.hist_sel = if self.hist_sel < top { self.hist_sel + 1 } else { top };
                None
            },
            UiKey::Left | UiKey::Right => {
                let n = self.hist_filters.len();
                if n > 0 {
                    let f = self.hist_filter;
                    let right = match key {
                        UiKey::Right => true,
                        _ => false,
                    };
                    self.hist_filter = if right {
                        if f + 1 < n { f + 1 } else { 0 }
                    } else {
                        if f > 0 { f - 1 } else { n - 1 }
                    };
                    self.apply_hist_filter();
                }
                None
            },
            UiKey::Enter => {
                self.hist_open = false;
                if self.hist_sel < self.hist_items.len() {
                    let t = self.hist_items[self.hist_sel].1.clone();
                    let t2 = t.clone();
                    self.last_text = Some(t);
                    self.scroll_up = 0;
                    Some(t2)
                } else {
                    None
                }
            },
            _ => None,
        }
    }

    /// A key while the settings panel is open. Returns whether the settings
    /// are to be saved.
    pub fn settings_key(&mut self, key: UiKey, cfg: &mut Config) -> (save: bool)
        requires
            wf(old(self)@),
        ensures
            (final(self)@, final(cfg)@, save) == settings_step(old(self)@, old(cfg)@, key),
            wf(final(self)@),
    {
        if self.editing.is_some() {
            let buf = match &self.editing {
                Some(b) => b.clone(),
                None => String::new(),
            };
            match key {
                UiKey::Enter => {
                    self.editing = None;
                    cfg.audio_dir = buf;
                    true
                },
                UiKey::Esc => {
                    self.editing = None;
                    false
                },
                UiKey::Backspace => {
                    self.editing = Some(pop_char(&buf));
                    false
                },
                UiKey::Char(ch) => {
                    let mut b = buf;
                    b.push(ch);
                    self.editing = Some(b);
                    false
                },
                _ => false,
            }
        } else {
            match key {
                UiKey::Tab | UiKey::Esc => {
                    self.settings_open = false;
                    true
                },
                UiKey::Up => {
                    if self.settings_sel > 0 {
                        self.settings_sel = self.settings_sel - 1;
                    }
                    false
                },
                UiKey::Down => {
                    self.settings_sel = if self.settings_sel + 1 < SETTINGS_ROWS {
                        self.settings_sel + 1
                    } else {
                        SETTINGS_ROWS - 1
                    };
                    false
                },
                UiKey::Left => {
                    self.change_setting(cfg, false, false);
                    false
                },
                UiKey::Right => {
                    self.change_setting(cfg, true, false);
                    false
                },
                UiKey::Enter => {
                    self.change_setting(cfg, true, true);
                    false
                },
                _ => false,
            }
        }
    }

    fn change_setting(&mut self, cfg: &mut Config, fwd: bool, enter: bool)
        requires
            wf(old(self)@),
        ensures
            (final(self)@, final(cfg)@, false) == change_step(old(self)@, old(cfg)@, fwd, enter),
    {
        if self.settings_sel == 0 {
            let n = self.voice_list.len();
            if n > 0 {
                let i = index_of(&self.voice_list, cfg.voice.as_str());
                proof {
                    lemma_index_from_bound(self.voice_list.deep_view(), cfg.voice@, 0);
                }
                let j = if fwd {
                    if i + 1 < n { i + 1 } else { 0 }
                } else {
                    if i > 0 { i - 1 } else { n - 1 }
                };
                cfg.voice = self.voice_list[j].clone();
            }
        } else if self.settings_sel == 1 {
            let moved: i64 = if fwd { cfg.speed_milli as i64 + 100 } else { cfg.speed_milli as i64 - 100 };
            let c: i64 = if moved < 500 { 500 } else if moved > 2000 { 2000 } else { moved };
            cfg.speed_milli = (((c + 50) / 100) * 100) as u32;
        } else if self.settings_sel == 2 {
            if enter {
                self.editing = Some(cfg.audio_dir.clone());
            }
        } else if self.settings_sel == 3 {
            cfg.save_audio = !cfg.save_audio;
        } else if self.settings_sel == 4 {
            cfg.cleanup_on_exit = !cfg.cleanup_on_exit;
        }
    }
}

/// Once per frame: whether the cursor is to be pinned to the end (Esc was
/// pressed and synthesis has not stopped yet).
pub open spec fn frame_step(m: UiModel, synthesizing: bool) -> (UiModel, bool) {
    let n = UiModel { tick: m.tick.wrapping_add(1), ..m };
    if m.stopping {
        (UiModel { stopping: synthesizing, ..n }, true)
    } else {
        (n, false)
    }
}

impl UiState {
    /// A key in the main view (no panel open).
    pub fn main_key(&mut self, key: UiKey, ctrl: bool, shift: bool, repeat: bool, now: u64) -> (r: UiCommand)
        requires
            wf(old(self)@),
        ensures
            (final(self)@, command_view(r)) == main_step(old(self)@, key, ctrl, shift, repeat, now),
            wf(final(self)@),
    {
        match key {
            UiKey::Tab => {
                self.settings_open = true;
                Command::Nothing
            },
            UiKey::Enter => {
                let mut parts: Vec<String> = Vec::new();
                std::mem::swap(&mut parts, &mut self.pastes);
                let ghost pasted = parts.deep_view();
                let typed = trim_str(self.input.as_str());
                if !typed.as_str().is_empty() {
                    parts.push(typed);
                    assert(parts.deep_view() =~= pasted.push(trim(old(self)@.input)));
                }
                let joined = join_strings(&parts, "\n\n");
                let text = trim_str(joined.as_str());
                assert(self.pastes.deep_view() =~= Seq::<Seq<char>>::empty());
                if !text.as_str().is_empty() {
                    self.last_text = Some(text.clone());
                    self.input = String::new();
                    self.scroll_up = 0;
                    Command::Speak(text)
                } else {
                    Command::Nothing
                }
            },
            UiKey::Backspace => {
                if !self.input.as_str().is_empty() {
                    self.input = pop_char(&self.input);
                } else if self.pastes.len() > 0 {
                    let ghost before = self.pastes.deep_view();
                    self.pastes.pop();
                    assert(self.pastes.deep_view() =~= before.drop_last());
                }
                Command::Nothing
            },
            UiKey::Esc => {
                self.stopping = true;
                Command::Stop
            },
            UiKey::Left => Command::Arrow(self.arrows.press(false, repeat, shift, now)),
            UiKey::Right => Command::Arrow(self.arrows.press(true, repeat, shift, now)),
            UiKey::Up => Command::Rate(1),
            UiKey::Down => Command::Rate(-1),
            UiKey::PageUp => {
                self.scroll_up = self.scroll_up.saturating_add(10);
                Command::Nothing
            },
            UiKey::PageDown => {
                self.scroll_up = self.scroll_up.saturating_sub(10);
                Command::Nothing
            },
            UiKey::Char(ch) => {
                if ch == 'r' && ctrl {
                    match &self.last_text {
                        Some(t) => {
                            let t = t.clone();
                            self.scroll_up = 0;
                            Command::SpeakAgain(t)
                        },
                        None => Command::NeedsLastSpoken,
                    }
                } else if ch == 'p' && ctrl {
                    Command::NeedsHistory
                } else if ch == 'u' && ctrl {
                    self.input = String::new();
                    Command::Nothing
                } else if ch == ' ' && self.input.as_str().is_empty() {
                    Command::TogglePause
                } else {
                    self.input.push(ch);
                    Command::Nothing
                }
            },
            UiKey::Other => Command::Nothing,
        }
    }

    /// Any key: Ctrl-C quits from anywhere; an open panel takes the key
    /// first. `now` is a millisecond clock.
    pub fn on_key(&mut self, key: UiKey, ctrl: bool, shift: bool, repeat: bool, now: u64, cfg: &mut Config) -> (r: UiCommand)
        requires
            wf(old(self)@),
        ensures
            (final(self)@, final(cfg)@, command_view(r)) == key_step(old(self)@, old(cfg)@, key, ctrl, shift, repeat, now),
            wf(final(self)@),
    {
        let quit = match key {
            UiKey::Char(ch) => ch == 'c' && ctrl,
            _ => false,
        };
        if quit {
            Command::Quit
        } else if self.settings_open {
            if self.settings_key(key, cfg) {
                Command::SaveConfig
            } else {
                Command::Nothing
            }
        } else if self.hist_open {
            match self.history_key(key, ctrl) {
                Some(t) => Command::SpeakAgain(t),
                None => Command::Nothing,
            }
        } else {
            self.main_key(key, ctrl, shift, repeat, now)
        }
    }

    /// A paste event.
    pub fn on_paste(&mut self, s: String)
        requires
            wf(old(self)@),
        ensures
            final(self)@ == paste_step(old(self)@, s@),
            wf(final(self)@),
    {
        let t = trim_str(s.as_str());
        match &self.editing {
            Some(buf) => {
                let mut b = buf.clone();
                crate::text::push_str(&mut b, t.as_str());
                self.editing = Some(b);
            },
            None => {
                if !t.as_str().is_empty() {
                    let ghost before = self.pastes.deep_view();
                    self.pastes.push(s);
                    assert(self.pastes.deep_view() =~= before.push(s@));
                }
            },
        }
    }

    /// The shared last-spoken text read after `NeedsLastSpoken`: the text
    /// to speak again, if there is one.
    pub fn replay_shared(&mut self, shared: Option<String>) -> (r: Option<String>)
        requires
            wf(old(self)@),
        ensures
            opt_string(r) == opt_string(shared),
            final(self)@ == (if shared is Some { UiModel { scroll_up: 0, ..old(self)@ } } else { old(self)@ }),
            wf(final(self)@),
    {
        if shared.is_some() {
            self.scroll_up = 0;
        }
        shared
    }

    /// Once per frame; returns whether to pin the cursor to the end.
    pub fn frame(&mut self, synthesizing: bool) -> (pin: bool)
        requires
            wf(old(self)@),
        ensures
            (final(self)@, pin) == frame_step(old(self)@, synthesizing),
            wf(final(self)@),
    {
        self.tick = self.tick.wrapping_add(1);
        if self.stopping {
            if !synthesizing {
                self.stopping = false;
            }
            true
        } else {
            false
        }
    }
}

/// The job for a text under the current settings.
pub fn job_for(cfg: &Config, text: String, home: Option<&str>) -> (j: Job)
    ensures
        j.text@ == text@,
        j.voice@ == cfg.voice@,
        j.speed_milli == cfg.speed_milli,
        opt_string(j.save_dir) == (if cfg.save_audio {
            Some(expand_tilde_of(cfg.audio_dir@, opt_view(home)))
        } else {
            None
        }),
{
    let save_dir = if cfg.save_audio {
        Some(expand_tilde(cfg.audio_dir.as_str(), home))
    } else {
        None
    };
    Job { text, voice: cfg.voice.clone(), speed_milli: cfg.speed_milli, save_dir }
}

/// Every entry the filter keeps is from the filtered source (any, for
/// "all"), and each is an entry of the history.
pub proof fn lemma_matching_keeps_source(all: Seq<(Seq<char>, Seq<char>)>, f: Seq<char>, i: int)
    requires
        0 <= i < matching(all, f).len(),
    ensures
        f == "all"@ || matching(all, f)[i].0 == f,
        all.contains(matching(all, f)[i]),
    decreases all.len(),
{
    let p = matching(all.drop_last(), f);
    if i < p.len() {
        lemma_matching_keeps_source(all.drop_last(), f, i);
        let k = choose|k: int| 0 <= k < all.drop_last().len() && all.drop_last()[k] == p[i];
        assert(all[k] == p[i]);
    } else {
        assert(matching(all, f)[i] == all.last());
        assert(all[all.len() - 1] == all.last());
    }
}

/// The picker shows at most ten entries, each from the chosen source (any
/// for "all") and from the history, with the selection back at the top.
pub proof fn lemma_picker_items(m: UiModel, i: int)
    requires
        0 <= i < filtered(m).hist_items.len(),
    ensures
        filtered(m).hist_items.len() <= 10,
        filtered(m).hist_sel == 0,
        filter_text(m) == "all"@ || filtered(m).hist_items[i].0 == filter_text(m),
        m.hist_all.contains(filtered(m).hist_items[i]),
{
    let q = matching(m.hist_all, filter_text(m));
    if q.len() > 10 {
        assert(filtered(m).hist_items[i] == q[i]);
    }
    lemma_matching_keeps_source(m.hist_all, filter_text(m), i);
}

/// Stepping the speed keeps it within 0.5x..2x, on a tenth.
pub proof fn lemma_speed_step_bounded(milli: u32, fwd: bool)
    ensures
        500 <= stepped_speed(milli, fwd) <= 2000,
        stepped_speed(milli, fwd) % 100 == 0,
{
    let moved: int = if fwd { milli + 100 } else { milli - 100 };
    let c: int = if moved < 500 { 500 } else if moved > 2000 { 2000 } else { moved };
    assert(500 <= ((c + 50) / 100) * 100 <= 2000) by (nonlinear_arith)
        requires
            500 <= c <= 2000,
    ;
    assert((((c + 50) / 100) * 100) % 100 == 0) by (nonlinear_arith);
}

/// In a list without repeats, the voice after a listed voice has that
/// voice before it: right then left in the voice row gives the voice back.
pub proof fn lemma_voice_cycle_returns(list: Seq<Seq<char>>, voice: Seq<char>)
    requires
        list.contains(voice),
        forall|a: int, b: int| 0 <= a < b < list.len() ==> list[a] != list[b],
    ensures
        cycled_voice(list, cycled_voice(list, voice, true), false) == voice,
{
    let n = list.len() as int;
    let i = choose|i: int| 0 <= i < n && list[i] == voice;
    lemma_index_is(list, voice, i);
    let j = if i + 1 < n { i + 1 } else { 0 };
    lemma_index_is(list, list[j], j);
}

/// In a list without repeats, `index_from` finds an element's position.
pub proof fn lemma_index_is(list: Seq<Seq<char>>, v: Seq<char>, i: int)
    requires
        0 <= i < list.len(),
        list[i] == v,
        forall|a: int, b: int| 0 <= a < b < list.len() ==> list[a] != list[b],
    ensures
        index_from(list, v, 0) == i,
{
    lemma_index_from_at(list, v, i, 0);
}

proof fn lemma_index_from_at(list: Seq<Seq<char>>, v: Seq<char>, i: int, k: int)
    requires
        0 <= k <= i < list.len(),
        list[i] == v,
        forall|a: int, b: int| 0 <= a < b < list.len() ==> list[a] != list[b],
    ensures
        index_from(list, v, k) == i,
    decreases i - k,
{
    if k < i {
        assert(list[k] != list[i]);
        lemma_index_from_at(list, v, i, k + 1);
    }
}

/// What the reader says on exit about the audio it saved: that it cleaned
/// up (when set to), or how many files are in the folder (when any).
pub open spec fn exit_note_of(cleanup: bool, saved: nat, audio_dir: Seq<char>) -> Option<Seq<char>> {
    if cleanup {
        Some("Cleaned up this session's audio files."@)
    } else if saved > 0 {
        Some(crate::text::decimal(saved) + " audio file(s) in "@ + audio_dir)
    } else {
        None
    }
}

pub fn exit_note(cleanup: bool, saved: usize, audio_dir: &str) -> (r: Option<String>)
    ensures
        opt_string(r) == exit_note_of(cleanup, saved as nat, audio_dir@),
{
    if cleanup {
        Some(owned("Cleaned up this session's audio files."))
    } else if saved > 0 {
        let mut t = crate::text::decimal_string(saved as u64);
        crate::text::push_str(&mut t, " audio file(s) in ");
        crate::text::push_str(&mut t, audio_dir);
        Some(t)
    } else {
        None
    }
}

/// Once ten entries match, later entries do not change the first ten.
pub proof fn lemma_first_ten_settles(all: Seq<(Seq<char>, Seq<char>)>, f: Seq<char>, i: int)
    requires
        0 <= i <= all.len(),
        i == all.len() || first_ten(matching(all.take(i), f)).len() >= 10,
    ensures
        first_ten(matching(all.take(i), f)) == first_ten(matching(all, f)),
    decreases all.len() - i,
{
    if i < all.len() {
        let p = matching(all.take(i), f);
        assert(all.take(i + 1).drop_last() =~= all.take(i));
        let q = matching(all.take(i + 1), f);
        assert(first_ten(q) =~= first_ten(p));
        lemma_first_ten_settles(all, f, i + 1);
    } else {
        assert(all.take(i) =~= all);
    }
}

/// A plain character key (no Ctrl) in the main view types its character,
/// a space included, unless it is a space on empty input, which pauses or
/// resumes playback and leaves everything else as it is.
pub proof fn lemma_plain_key_types(
    m: UiModel,
    c: ConfigModel,
    ch: char,
    shift: bool,
    repeat: bool,
    now: u64,
)
    requires
        !m.settings_open,
        !m.hist_open,
    ensures
        m.input.len() > 0 || ch != ' ' ==> key_step(m, c, UiKey::Char(ch), false, shift, repeat, now)
            == (UiModel { input: m.input.push(ch), ..m }, c, Command::<Seq<char>>::Nothing),
        m.input.len() == 0 && ch == ' ' ==> key_step(m, c, UiKey::Char(ch), false, shift, repeat, now)
            == (m, c, Command::<Seq<char>>::TogglePause),
{
}

/// The main view after typing `s`, one plain character key at a time.
pub open spec fn typed(m: UiModel, s: Seq<char>, now: u64) -> UiModel
    decreases s.len(),
{
    if s.len() == 0 {
        m
    } else {
        main_step(typed(m, s.drop_last(), now), UiKey::Char(s.last()), false, false, false, now).0
    }
}

/// Typing a text key by key appends the whole text to the input, spaces
/// included, once the input is not empty or the text does not start with a
/// space; nothing else changes.
pub proof fn lemma_typing_appends(m: UiModel, s: Seq<char>, now: u64)
    requires
        m.input.len() > 0 || (s.len() > 0 && s[0] != ' '),
    ensures
        typed(m, s, now) == (UiModel { input: m.input + s, ..m }),
    decreases s.len(),
{
    if s.len() > 0 {
        let t = s.drop_last();
        if t.len() > 0 {
            assert(t[0] == s[0]);
            lemma_typing_appends(m, t, now);
        } else {
            assert(m.input + t =~= m.input);
        }
        let before = typed(m, t, now);
        assert(before.input == m.input + t);
        assert(before.input.len() > 0 || s.last() != ' ');
        assert(before.input.push(s.last()) =~= m.input + s);
    }
}

} // verus!
