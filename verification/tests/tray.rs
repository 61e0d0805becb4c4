use vox::tray::{
    add_history, apply_patch, audio_to_prune, effective_state, history_entries, expand_tilde, handle_request, history_path,
    newest_first, preview_sample, readouts_enabled, run_action, save_audio_on, shortcut_map,
    sock_path, speak_text, speakable, stale_audio, state_path, tray_icon_rgba, vox_bin,
    vox_launch, Setting, TrayAction, TrayEffect, TrayRequest, DEFAULT_PROMPT,
};

fn plain(k: &str, v: &str) -> (String, Setting) {
    (k.to_string(), Setting::Plain(v.to_string()))
}

fn value<'a>(s: &'a [(String, Setting)], k: &str) -> Option<&'a Setting> {
    s.iter().rev().find(|(key, _)| key == k).map(|(_, v)| v)
}

fn text_of(s: &[(String, Setting)], k: &str) -> Option<String> {
    match value(s, k) {
        Some(Setting::Plain(t)) => Some(t.clone()),
        _ => None,
    }
}

#[test]
fn shared_paths_live_in_the_shared_dir() {
    assert_eq!(state_path("/Users/me/.shared/vox"), "/Users/me/.shared/vox/state.json");
    assert_eq!(sock_path("/Users/me/.shared/vox/"), "/Users/me/.shared/vox/vox.sock");
    assert_eq!(history_path("/Users/me/.shared/vox"), "/Users/me/.shared/vox/history.jsonl");
    assert_eq!(vox_bin("/Users/me", true), "/Users/me/.local/bin/vox");
    assert_eq!(vox_bin("/Users/me", false), "vox");
    assert_eq!(expand_tilde("~/Music/vox", "/Users/me"), "/Users/me/Music/vox");
    assert_eq!(expand_tilde("Music", "/Users/me"), "Music");
}

#[test]
fn reset_removes_the_override() {
    let stored = vec![plain("speed", "1.4"), plain("voice", "\"af_heart\"")];
    let prompt = format!("\"{DEFAULT_PROMPT}\"");
    let patch = vec![
        plain("cmd", "\"set\""),
        plain("speed", "null"),
        plain("summary_prompt", &prompt),
        plain("verbatim_max", "500"),
    ];
    let out = apply_patch(&stored, &patch);
    assert!(value(&out, "speed").is_none());
    assert!(value(&out, "summary_prompt").is_none());
    assert!(value(&out, "cmd").is_none());
    assert_eq!(text_of(&out, "verbatim_max").as_deref(), Some("500"));
    assert_eq!(text_of(&out, "voice").as_deref(), Some("\"af_heart\""));
    let (values, _) = effective_state(&out);
    assert_eq!(text_of(&values, "speed").as_deref(), Some("1.1"));
    assert_eq!(text_of(&values, "summary_prompt"), Some(prompt));
    assert_eq!(text_of(&values, "voice").as_deref(), Some("\"af_heart\""));
}

#[test]
fn a_default_value_is_not_stored() {
    let stored = vec![plain("speed", "1.4")];
    let out = apply_patch(&stored, &vec![plain("speed", "1.1")]);
    assert!(value(&out, "speed").is_none());
    let (values, _) = effective_state(&out);
    assert_eq!(text_of(&values, "speed").as_deref(), Some("1.1"));
    let out = apply_patch(&stored, &vec![plain("enabled", "true"), plain("voice", "\"bm_george\"")]);
    assert!(value(&out, "enabled").is_none() && value(&out, "voice").is_none());
    // a null prompt is stored as it is; a null elsewhere resets
    let out = apply_patch(&stored, &vec![plain("summary_prompt", "null"), plain("speed", "null")]);
    assert_eq!(text_of(&out, "summary_prompt").as_deref(), Some("null"));
    assert!(value(&out, "speed").is_none());
}

#[test]
fn default_shortcuts_reset_and_overrides_merge() {
    let defaults = Setting::Object(vec![
        ("stop".into(), "\"ctrl+alt+super+s\"".into()),
        ("speak_clipboard".into(), "\"ctrl+alt+super+v\"".into()),
        ("toggle_readouts".into(), "\"\"".into()),
        ("replay_last".into(), "\"ctrl+alt+super+r\"".into()),
    ]);
    let stored = vec![(
        "shortcuts".to_string(),
        Setting::Object(vec![("stop".into(), "\"ctrl+shift+s\"".into())]),
    )];
    let (_, shortcuts) = effective_state(&stored);
    let map = shortcut_map(&shortcuts);
    let stop = map.iter().rev().find(|(a, _)| a == "stop").unwrap();
    assert_eq!(stop.1, "ctrl+shift+s");
    let speak = map.iter().rev().find(|(a, _)| a == "speak_clipboard").unwrap();
    assert_eq!(speak.1, "ctrl+alt+super+v");
    let toggle = map.iter().rev().find(|(a, _)| a == "toggle_readouts").unwrap();
    assert_eq!(toggle.1, "");
    let out = apply_patch(&stored, &vec![("shortcuts".to_string(), defaults)]);
    assert!(value(&out, "shortcuts").is_none());
}

#[test]
fn launch_arguments_follow_the_settings() {
    let (values, _) = effective_state(&Vec::new());
    assert!(readouts_enabled(&values));
    assert!(!save_audio_on(&values));
    let l = vox_launch(&values, None, "1.1", vec!["hello".into()], "/h");
    assert_eq!(l.args, vec!["--no-save", "-v", "bm_george", "-s", "1.1", "hello"]);
    assert!(l.audio_dir_env.is_none());
    let stored = vec![
        plain("save_audio", "true"),
        plain("voice", "\"af_\\u0068eart\""),
        plain("enabled", "false"),
    ];
    let (values, _) = effective_state(&stored);
    assert!(!readouts_enabled(&values));
    let l = vox_launch(&values, Some("bm_lewis"), "1.4", vec![], "/h");
    assert_eq!(l.args, vec!["-v", "bm_lewis", "-s", "1.4"]);
    assert_eq!(l.audio_dir_env.as_deref(), Some("/h/Music/vox"));
    let l = vox_launch(&values, None, "1.4", vec![], "/h");
    assert_eq!(l.args[1], "af_heart");
}

#[test]
fn actions_and_requests() {
    assert_eq!(run_action("speak_clipboard", true, true), TrayAction::StopSpeaking);
    assert_eq!(run_action("speak_clipboard", false, true), TrayAction::SpeakClipboard);
    assert_eq!(run_action("toggle_readouts", false, true), TrayAction::SetReadouts(false));
    assert_eq!(run_action("replay_last", false, true), TrayAction::ReplayLast);
    assert_eq!(run_action("nope", false, true), TrayAction::Nothing);
    let (e, reply) = handle_request(TrayRequest::Speak { text: Some("hi".into()), source: None });
    assert!(matches!(e, TrayEffect::Speak(ref t, ref s) if t == "hi" && s == "socket"));
    assert_eq!(reply, Some(r#"{"ok":true}"#));
    let (_, reply) = handle_request(TrayRequest::Speak { text: None, source: None });
    assert_eq!(reply, Some(r#"{"ok":false,"error":"missing text"}"#));
    let (_, reply) = handle_request(TrayRequest::Invalid);
    assert_eq!(reply, Some(r#"{"ok":false,"error":"invalid json"}"#));
    let (e, reply) = handle_request(TrayRequest::Status);
    assert!(matches!(e, TrayEffect::ReportStatus) && reply.is_none());
    let (_, reply) = handle_request(TrayRequest::Unknown);
    assert_eq!(reply, Some(r#"{"ok":false,"error":"unknown cmd"}"#));
}

#[test]
fn speaking_and_history() {
    assert_eq!(speak_text("  hi  ").as_deref(), Some("hi"));
    assert!(speak_text(" \n ").is_none());
    assert_eq!(speakable("# Title", Some("Title.\n".into())), "Title.");
    assert_eq!(speakable("# Title", Some("  ".into())), "# Title");
    assert_eq!(speakable("# Title", None), "# Title");
    let lines: Vec<(Option<u64>, String)> = vec![
        (Some(1000), "old".into()),
        (Some(2000), "recent".into()),
        (None, "no time".into()),
        (Some(2200), "newest".into()),
    ];
    // 20 minutes before 3200 is 2000
    assert_eq!(
        add_history(lines.clone(), "new".into(), 3200, 20, true),
        Some(vec!["recent".to_string(), "newest".to_string(), "new".to_string()])
    );
    assert_eq!(add_history(lines.clone(), "new".into(), 3200, 0, true).unwrap().len(), 5);
    assert_eq!(add_history(lines, "new".into(), 3200, 20, false), None);
    assert_eq!(newest_first((0..150).collect::<Vec<u32>>(), 100).len(), 100);
    assert_eq!(newest_first(vec![1, 2, 3], 100), vec![3, 2, 1]);
    assert_eq!(
        preview_sample("bm_george").as_deref(),
        Some("Hello, this is the george voice. This is how I sound.")
    );
    assert!(preview_sample("openai/nova").is_none());
    assert!(stale_audio(Some("wav"), Some(1_200_000_000_001), 1200));
    assert!(!stale_audio(Some("wav"), Some(1_200_000_000_000), 1200));
    assert!(!stale_audio(Some("mp3"), Some(u128::MAX), 0));
    assert!(!stale_audio(Some("wav"), None, 0));
}

#[test]
fn icon_is_a_speaker_with_waves() {
    let rgba = tray_icon_rgba();
    assert_eq!(rgba.len(), 22 * 22 * 4);
    let alpha = |x: usize, y: usize| rgba[(y * 22 + x) * 4 + 3];
    assert_eq!(alpha(3, 8), 255);
    assert_eq!(alpha(12, 4), 255);
    assert_eq!(alpha(12, 17), 255);
    assert_eq!(alpha(12, 18), 0);
    assert_eq!(alpha(17, 16), 255);
    assert_eq!(alpha(0, 0), 0);
    assert!(rgba.iter().enumerate().all(|(i, b)| i % 4 == 3 || *b == 0));
    let opaque = rgba.iter().filter(|b| **b == 255).count();
    assert_eq!(opaque, 30 + (6 + 8 + 10 + 12 + 14) + 8);
}

#[test]
fn shortcut_map_has_one_accelerator_per_action() {
    let (values, shortcuts) = effective_state(&Vec::new());
    let mut keys: Vec<&String> = values.iter().map(|(k, _)| k).collect();
    keys.sort();
    keys.dedup();
    assert_eq!(keys.len(), values.len());
    let mut map = shortcut_map(&shortcuts);
    map.sort();
    assert_eq!(
        map,
        vec![
            ("replay_last".to_string(), "ctrl+alt+super+r".to_string()),
            ("speak_clipboard".to_string(), "ctrl+alt+super+v".to_string()),
            ("stop".to_string(), "ctrl+alt+super+s".to_string()),
            ("toggle_readouts".to_string(), "".to_string()),
        ]
    );
    let stored = vec![(
        "shortcuts".to_string(),
        Setting::Object(vec![
            ("stop".into(), "\"ctrl+shift+s\"".into()),
            ("stop".into(), "\"ctrl+shift+x\"".into()),
            ("extra".into(), "\"f5\"".into()),
        ]),
    )];
    let (_, shortcuts) = effective_state(&stored);
    assert_eq!(shortcuts.len(), 5);
    let map = shortcut_map(&shortcuts);
    assert_eq!(map.len(), 5);
    assert_eq!(map.iter().filter(|(a, _)| a == "stop").count(), 1);
    assert_eq!(map.iter().find(|(a, _)| a == "stop").unwrap().1, "ctrl+shift+x");
    assert_eq!(map.iter().find(|(a, _)| a == "extra").unwrap().1, "f5");
}

#[test]
fn pruning_picks_old_wav_files_only_while_saving() {
    let files: Vec<(Option<String>, Option<u128>)> = vec![
        (Some("wav".into()), Some(1_300 * 1_000_000_000)),
        (Some("wav".into()), Some(1_100 * 1_000_000_000)),
        (Some("txt".into()), Some(9_000 * 1_000_000_000)),
        (None, Some(9_000 * 1_000_000_000)),
        (Some("wav".into()), None),
        (Some("wav".into()), Some(1_200 * 1_000_000_000)),
        (Some("wav".into()), Some(1_200 * 1_000_000_000 + 1)),
    ];
    assert_eq!(audio_to_prune(true, 20, &files), vec![0, 6]);
    assert_eq!(audio_to_prune(false, 20, &files), Vec::<usize>::new());
    assert_eq!(audio_to_prune(true, 0, &files), Vec::<usize>::new());
    assert_eq!(audio_to_prune(true, 1, &files), vec![0, 1, 5, 6]);
}

#[test]
fn history_shows_json_lines_newest_first() {
    let text = "{\"ts\":1,\"text\":\"a\"}\r\nnot json\n\n{\"ts\":2,\"text\":\"b\"}\n[3]";
    assert_eq!(
        history_entries(text, 100),
        vec!["[3]".to_string(), "{\"ts\":2,\"text\":\"b\"}".to_string(), "{\"ts\":1,\"text\":\"a\"}".to_string()]
    );
    assert_eq!(history_entries(text, 2).len(), 2);
    assert_eq!(history_entries("", 100), Vec::<String>::new());
}
