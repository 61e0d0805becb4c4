use vox::config::Config;
use vox::controls::{ArrowAction, ArrowMemory};
use vox::reader::{exit_note, job_for, Command, UiKey, UiState};
use vox::view::{
    hist_popup, hist_row, hist_title, paste_chip, settings_popup, settings_rows, speed_text,
    status_detail, status_state_text, transcript_scroll, word_states, WordState,
};
use vox::karaoke::{sentence_words, Utterance, WordEnd};

fn state_with(items: &[(&str, &str)], filters: &[&str], filter: usize) -> UiState {
    UiState {
        input: String::new(),
        pastes: Vec::new(),
        scroll_up: 0,
        settings_open: false,
        settings_sel: 0,
        editing: None,
        tick: 0,
        hist_open: true,
        hist_sel: 7,
        hist_items: Vec::new(),
        hist_all: items.iter().map(|(s, t)| (s.to_string(), t.to_string())).collect(),
        hist_filters: filters.iter().map(|s| s.to_string()).collect(),
        hist_filter: filter,
        last_text: None,
        voice_list: Vec::new(),
        stopping: false,
        arrows: ArrowMemory::new(0),
    }
}

#[test]
fn filter_all_caps_at_ten_and_resets_selection() {
    let items: Vec<(String, String)> =
        (0..15).map(|i| ("tui".to_string(), format!("item {i}"))).collect();
    let refs: Vec<(&str, &str)> =
        items.iter().map(|(s, t)| (s.as_str(), t.as_str())).collect();
    let mut st = state_with(&refs, &["all"], 0);
    st.apply_hist_filter();
    assert_eq!(st.hist_items.len(), 10);
    assert_eq!(st.hist_sel, 0);
}

#[test]
fn filter_by_source_only_keeps_that_source() {
    let mut st = state_with(
        &[("hook", "from hook"), ("tui", "from tui"), ("hook", "more hook")],
        &["all", "hook", "tui"],
        1,
    );
    st.apply_hist_filter();
    assert_eq!(st.hist_items.len(), 2);
    assert!(st.hist_items.iter().all(|(s, _)| s == "hook"));
    st.hist_filter = 2;
    st.apply_hist_filter();
    assert_eq!(st.hist_items, vec![("tui".to_string(), "from tui".to_string())]);
}

fn fresh(voices: &[&str]) -> (UiState, Config) {
    let st = UiState::new(voices.iter().map(|v| v.to_string()).collect(), None, 0);
    (st, Config::default())
}

fn key(st: &mut UiState, cfg: &mut Config, k: UiKey) -> Command<String> {
    st.on_key(k, false, false, false, 0, cfg)
}

#[test]
fn typed_and_pasted_text_is_submitted() {
    let (mut st, mut cfg) = fresh(&[]);
    st.on_paste("  first block \n".to_string());
    st.on_paste("   ".to_string());
    assert_eq!(st.pastes.len(), 1);
    for c in " hello ".chars() {
        key(&mut st, &mut cfg, UiKey::Char(c));
    }
    match key(&mut st, &mut cfg, UiKey::Enter) {
        Command::Speak(t) => assert_eq!(t, "first block \n\n\nhello"),
        other => panic!("{other:?}"),
    }
    assert!(st.input.is_empty() && st.pastes.is_empty());
    assert_eq!(st.last_text.as_deref(), Some("first block \n\n\nhello"));
    // blank input submits nothing
    assert!(matches!(key(&mut st, &mut cfg, UiKey::Enter), Command::Nothing));
}

#[test]
fn backspace_removes_chars_then_chips() {
    let (mut st, mut cfg) = fresh(&[]);
    st.on_paste("chip".to_string());
    key(&mut st, &mut cfg, UiKey::Char('a'));
    key(&mut st, &mut cfg, UiKey::Backspace);
    assert_eq!(st.input, "");
    assert_eq!(st.pastes.len(), 1);
    key(&mut st, &mut cfg, UiKey::Backspace);
    assert!(st.pastes.is_empty());
}

#[test]
fn keys_in_the_main_view() {
    let (mut st, mut cfg) = fresh(&[]);
    assert!(matches!(key(&mut st, &mut cfg, UiKey::Char(' ')), Command::TogglePause));
    assert!(matches!(st.on_key(UiKey::Char('c'), true, false, false, 0, &mut cfg), Command::Quit));
    assert!(matches!(st.on_key(UiKey::Char('r'), true, false, false, 0, &mut cfg), Command::NeedsLastSpoken));
    assert!(matches!(st.on_key(UiKey::Char('p'), true, false, false, 0, &mut cfg), Command::NeedsHistory));
    assert!(matches!(key(&mut st, &mut cfg, UiKey::Up), Command::Rate(1)));
    assert!(matches!(key(&mut st, &mut cfg, UiKey::Down), Command::Rate(-1)));
    assert!(matches!(st.on_key(UiKey::Right, false, true, false, 0, &mut cfg), Command::Arrow(ArrowAction::Skip(30))));
    assert!(matches!(st.on_key(UiKey::Right, false, false, false, 100, &mut cfg), Command::Arrow(ArrowAction::Scrub(1))));
    key(&mut st, &mut cfg, UiKey::PageUp);
    assert_eq!(st.scroll_up, 10);
    key(&mut st, &mut cfg, UiKey::PageDown);
    key(&mut st, &mut cfg, UiKey::PageDown);
    assert_eq!(st.scroll_up, 0);
    assert!(matches!(key(&mut st, &mut cfg, UiKey::Esc), Command::Stop));
    assert!(st.frame(true));
    assert!(st.frame(false));
    assert!(!st.frame(false));
    assert_eq!(st.replay_shared(Some("again".into())).as_deref(), Some("again"));
}

#[test]
fn settings_change_voice_speed_and_folder() {
    let (mut st, mut cfg) = fresh(&["bm_george", "af_heart", "openai/nova"]);
    key(&mut st, &mut cfg, UiKey::Tab);
    assert!(st.settings_open);
    key(&mut st, &mut cfg, UiKey::Right);
    assert_eq!(cfg.voice, "af_heart");
    key(&mut st, &mut cfg, UiKey::Left);
    key(&mut st, &mut cfg, UiKey::Left);
    assert_eq!(cfg.voice, "openai/nova");
    key(&mut st, &mut cfg, UiKey::Down);
    for _ in 0..20 {
        key(&mut st, &mut cfg, UiKey::Right);
    }
    assert_eq!(cfg.speed_milli, 2000);
    key(&mut st, &mut cfg, UiKey::Left);
    assert_eq!(cfg.speed_milli, 1900);
    key(&mut st, &mut cfg, UiKey::Down);
    key(&mut st, &mut cfg, UiKey::Enter);
    assert_eq!(st.editing.as_deref(), Some("~/Music/vox"));
    key(&mut st, &mut cfg, UiKey::Backspace);
    key(&mut st, &mut cfg, UiKey::Char('X'));
    st.on_paste("  /tmp ".to_string());
    assert!(matches!(key(&mut st, &mut cfg, UiKey::Enter), Command::SaveConfig));
    assert_eq!(cfg.audio_dir, "~/Music/voX/tmp");
    key(&mut st, &mut cfg, UiKey::Down);
    key(&mut st, &mut cfg, UiKey::Enter);
    assert!(!cfg.save_audio);
    key(&mut st, &mut cfg, UiKey::Down);
    key(&mut st, &mut cfg, UiKey::Down);
    assert_eq!(st.settings_sel, 4);
    key(&mut st, &mut cfg, UiKey::Right);
    assert!(cfg.cleanup_on_exit);
    assert!(matches!(key(&mut st, &mut cfg, UiKey::Esc), Command::SaveConfig));
    assert!(!st.settings_open);
}

#[test]
fn history_picker_cycles_sources_and_speaks() {
    let (mut st, mut cfg) = fresh(&[]);
    st.open_history(vec![
        ("hook".into(), "one".into()),
        ("tui".into(), "two".into()),
        ("hook".into(), "three".into()),
    ]);
    assert!(st.hist_open);
    assert_eq!(st.hist_filters, vec!["all", "hook", "tui"]);
    assert_eq!(st.hist_items.len(), 3);
    key(&mut st, &mut cfg, UiKey::Left);
    assert_eq!(st.hist_filter, 2);
    assert_eq!(st.hist_items, vec![("tui".to_string(), "two".to_string())]);
    key(&mut st, &mut cfg, UiKey::Right);
    key(&mut st, &mut cfg, UiKey::Right);
    key(&mut st, &mut cfg, UiKey::Down);
    key(&mut st, &mut cfg, UiKey::Down);
    assert_eq!(st.hist_sel, 1);
    match key(&mut st, &mut cfg, UiKey::Enter) {
        Command::SpeakAgain(t) => assert_eq!(t, "three"),
        other => panic!("{other:?}"),
    }
    assert!(!st.hist_open);
    st.open_history(Vec::new());
    assert!(!st.hist_open);
}

#[test]
fn jobs_follow_the_settings() {
    let mut cfg = Config::default();
    let j = job_for(&cfg, "hi".into(), Some("/home/u"));
    assert_eq!(j.voice, "bm_george");
    assert_eq!(j.save_dir.as_deref(), Some("/home/u/Music/vox"));
    cfg.save_audio = false;
    assert!(job_for(&cfg, "hi".into(), None).save_dir.is_none());
    assert_eq!(exit_note(false, 2, "~/Music/vox").as_deref(), Some("2 audio file(s) in ~/Music/vox"));
    assert_eq!(exit_note(true, 0, "x").as_deref(), Some("Cleaned up this session's audio files."));
    assert!(exit_note(false, 0, "x").is_none());
}

#[test]
fn words_light_up_with_the_cursor() {
    let words = vec![
        WordEnd { text: "a".into(), end: 10 },
        WordEnd { text: "b".into(), end: 20 },
        WordEnd { text: "c".into(), end: 30 },
    ];
    assert_eq!(
        word_states(0, &words, 15),
        vec![WordState::Spoken, WordState::Current, WordState::Pending]
    );
    assert_eq!(transcript_scroll(50, 20, 5), 25);
    assert_eq!(transcript_scroll(10, 20, 5), 0);
    assert_eq!(transcript_scroll(50, 20, 99), 0);
}

#[test]
fn status_line_parts() {
    assert_eq!(status_state_text(Some("bad key"), true, 3, true, 0, 10), "⚠ bad key");
    assert_eq!(status_state_text(None, true, 12, false, 0, 10), "⠹ synthesizing");
    assert_eq!(status_state_text(None, false, 0, true, 0, 10), "⏸ paused");
    assert_eq!(status_state_text(None, false, 0, false, 8, 10), "▶ speaking");
    assert_eq!(status_state_text(None, false, 0, false, 9, 10), "● idle");
    assert_eq!(
        status_detail(24000, 48000, 5, "openai/nova"),
        " 0:01 / 0:02  1.25x  openai · Nova  "
    );
    assert_eq!(paste_chip(0, "héllo"), "[pasted #1 · 5 chars] ");
}

#[test]
fn popups_and_rows() {
    assert_eq!(hist_popup(100, 40, 3), (14, 11, 72, 7));
    assert_eq!(hist_popup(30, 5, 10), (0, 0, 30, 3));
    assert_eq!(settings_popup(100, 40), (24, 10, 52, 9));
    assert_eq!(settings_popup(3, 1), (1, 0, 0, 0));
    assert_eq!(hist_row("tui", "a  b\nc", 3), " tui      a b…");
    assert_eq!(hist_row("hook", "long text here", 4), " hook     long…");
    assert_eq!(hist_title("all"), " recent ");
    assert_eq!(hist_title("tui"), " recent · tui ");
    assert_eq!(speed_text(1150), "1.2x");
    assert_eq!(speed_text(1000), "1.0x");
    let rows = settings_rows(&Config::default(), &Some("/tmp".into()));
    assert_eq!(rows[0], " voice              British male · George");
    assert_eq!(rows[2], " audio folder       /tmp▌");
    assert_eq!(rows[4], " cleanup on exit    off");
}

#[test]
fn utterance_spans_its_sentences() {
    let mut u = Utterance::begin(100);
    let w = sentence_words(None, "one two", 100, 80);
    assert_eq!(w.len(), 2);
    u.add_sentence(w, 100, 80);
    let timed = vec![WordEnd { text: "late".into(), end: 500 }];
    let w2 = sentence_words(Some(timed), "late", 200, 50);
    assert_eq!(w2[0].end, 250);
    u.add_sentence(w2, 200, 50);
    assert_eq!(u.end, 250);
    assert!(u.words.iter().all(|w| w.end >= u.start && w.end <= u.end));
    u.cut(260, 5);
    u.finish();
    assert!(u.done);
    assert_eq!(u.end, 265);
}
