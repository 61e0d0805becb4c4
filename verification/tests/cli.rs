use vox::cli::{
    chrono_stamp, clean_input, fallback_note, input_source, list_voices, model_url,
    notification_script, out_file_name, pick_provider, pick_reader_provider, picker_voices,
    pids_to_kill, prefer, progress_line, progress_step, reader_file_name, stop_message, voice_line,
    choose_mode, Audience, Mode, Source, MODEL_FILE,
};
use vox::config::{expand_tilde, join_path_text, Config};
use vox::kokoro::{lang_for, voice_names};
use vox::lexicon::{apply_lexicon, parse_lexicon};
use vox::readout::{Reaction, Readout};
use vox::voices::VoicePath;

const NO_KEYS: [bool; 5] = [false; 5];

#[test]
fn modes_follow_the_flags() {
    assert_eq!(choose_mode(true, true, true, true, true, true, true, true), Mode::ListVoices);
    assert_eq!(choose_mode(false, true, true, false, false, false, false, false), Mode::Stop);
    assert_eq!(choose_mode(false, false, false, false, false, false, false, true), Mode::Ui);
    assert_eq!(choose_mode(false, false, false, false, false, false, false, false), Mode::Speak);
    assert_eq!(choose_mode(false, false, false, false, true, false, false, true), Mode::Speak);
}

#[test]
fn settings_prefer_flag_then_project_then_default() {
    assert_eq!(prefer(Some("a"), Some("b"), "c"), "a");
    assert_eq!(prefer(None, Some("b"), "c"), "b");
    assert_eq!(prefer::<&str>(None, None, "c"), "c");
}

#[test]
fn input_comes_from_clipboard_file_argument_or_stdin() {
    assert_eq!(input_source(true, true, true, false), Ok(Source::Clipboard));
    assert_eq!(input_source(false, true, true, false), Ok(Source::File));
    assert_eq!(input_source(false, false, true, true), Ok(Source::Argument));
    assert_eq!(input_source(false, false, false, false), Ok(Source::Stdin));
    assert_eq!(
        input_source(false, false, false, true),
        Err("no text given (pass as argument, -f FILE, -c, or pipe stdin)".to_string())
    );
    assert_eq!(clean_input("  hi \n"), Ok("hi".to_string()));
    assert_eq!(clean_input(" \n\t"), Err("input text is empty".to_string()));
}

#[test]
fn providers_are_picked_by_voice_path() {
    let keys = vec![false, true, false, false, false];
    assert_eq!(pick_provider(&VoicePath::parse("bm_george"), &keys), Ok((0, "v1.0".to_string())));
    assert_eq!(
        pick_provider(&VoicePath::parse("zz_nobody"), &keys),
        Err("unknown voice 'zz_nobody' (try --list-voices)".to_string())
    );
    assert_eq!(
        pick_provider(&VoicePath::parse("openai/nova"), &keys),
        Ok((1, "gpt-4o-mini-tts".to_string()))
    );
    assert_eq!(
        pick_provider(&VoicePath::parse("openai/tts-1-hd/nova"), &keys),
        Ok((1, "tts-1-hd".to_string()))
    );
    assert_eq!(
        pick_provider(&VoicePath::parse("acme/voice"), &keys),
        Err("unknown provider 'acme' (try --list-voices)".to_string())
    );
    assert_eq!(
        pick_provider(&VoicePath::parse("xai/ara"), &keys),
        Err("provider 'xai' needs the XAI_API_KEY environment variable".to_string())
    );
    assert_eq!(
        pick_reader_provider(&VoicePath::parse("xai/ara"), &keys),
        Err("xai needs XAI_API_KEY set".to_string())
    );
    assert_eq!(
        pick_reader_provider(&VoicePath::parse("acme/voice"), &keys),
        Err("unknown provider 'acme'".to_string())
    );
    assert_eq!(
        pick_reader_provider(&VoicePath::parse("zz_nobody"), &keys),
        Ok((0, "v1.0".to_string()))
    );
}

#[test]
fn voice_listing_marks_missing_keys_and_errors() {
    let errors = vec![("openai".to_string(), "insufficient quota".to_string())];
    let entries = list_voices(&NO_KEYS.to_vec(), &errors);
    assert_eq!(entries.len(), 12 + 11 + 10 + 3 + 3);
    assert_eq!(entries[0].path, "bm_george");
    assert_eq!(entries[0].label, "British male · George");
    assert!(entries[0].ready && entries[0].needs.is_none());
    let nova = entries.iter().find(|e| e.path == "openai/nova").unwrap();
    assert_eq!(nova.needs, Some("OPENAI_API_KEY"));
    assert_eq!(nova.error.as_deref(), Some("insufficient quota"));
    assert_eq!(
        voice_line(nova),
        format!("{:<44} {}{}", "openai/nova", "Nova", "   (needs OPENAI_API_KEY)")
    );
    let keys = vec![false, true, false, false, false];
    let entries = list_voices(&keys, &errors);
    let nova = entries.iter().find(|e| e.path == "openai/nova").unwrap();
    assert_eq!(voice_line(nova), format!("{:<44} Nova   (error: insufficient quota)", "openai/nova"));
    assert_eq!(voice_line(&entries[0]), format!("{:<44} British male · George", "bm_george"));
}

#[test]
fn picker_offers_ready_providers_only() {
    let v = picker_voices(&NO_KEYS.to_vec());
    assert_eq!(v.len(), 12);
    let v = picker_voices(&vec![false, false, false, true, false]);
    assert_eq!(v.len(), 15);
    assert_eq!(v[12], "xai/ara");
}

#[test]
fn saved_file_names() {
    assert_eq!(chrono_stamp(1700000000), "1700000000");
    assert_eq!(out_file_name(17, "Hello, World!  Again"), "17-hello-world-again.wav");
    assert_eq!(
        out_file_name(5, "Ünïcode — and a very long sentence that keeps going on"),
        "5-n-code-and-a-very-long-sentence-that.wav"
    );
    assert_eq!(reader_file_name(9, "--Hi there!--"), "9-hi-there.wav");
    assert_eq!(reader_file_name(9, "!!!"), "9-.wav");
}

#[test]
fn small_texts() {
    assert_eq!(
        notification_script("say \"hi\""),
        "display notification \"say 'hi'\" with title \"vox\""
    );
    let long = "y".repeat(200);
    assert_eq!(
        notification_script(&long),
        format!("display notification \"{}\" with title \"vox\"", "y".repeat(180))
    );
    assert_eq!(pids_to_kill("12\n34\n56\n", "34"), vec!["12", "56"]);
    assert_eq!(stop_message(0), "Nothing was speaking.");
    assert_eq!(stop_message(2), "Stopped.");
    assert_eq!(
        model_url(MODEL_FILE),
        "https://github.com/thewh1teagle/kokoro-onnx/releases/download/model-files-v1.0/kokoro-v1.0.onnx"
    );
    assert_eq!(progress_step(5, 100, 0), None);
    assert_eq!(progress_step(15, 100, 0), Some(15));
    assert_eq!(progress_step(20, 100, 15), None);
    assert_eq!(progress_line(50, 3 << 20, 6 << 20), "  50% (3 / 6 MB)");
    assert_eq!(
        fallback_note("openai", "HTTP 503", Audience::Terminal),
        "openai failed (HTTP 503) — falling back to kokoro"
    );
    assert_eq!(
        fallback_note("xai", "quota", Audience::Notification),
        "xai failed (quota) — using Kokoro instead"
    );
    assert_eq!(fallback_note("groq", "x", Audience::Reader), "groq failed (x) — using Kokoro");
    assert_eq!(lang_for("bm_george"), "en-gb-x-rp");
    assert_eq!(lang_for("af_heart"), "en-us");
}

#[test]
fn tilde_paths() {
    assert_eq!(expand_tilde("~/Music/vox", Some("/home/u")), "/home/u/Music/vox");
    assert_eq!(expand_tilde("~/Music/vox", Some("/home/u/")), "/home/u/Music/vox");
    assert_eq!(expand_tilde("~/Music/vox", None), "~/Music/vox");
    assert_eq!(expand_tilde("/abs", Some("/home/u")), "/abs");
    assert_eq!(expand_tilde("~//etc", Some("/home/u")), "/etc");
    assert_eq!(join_path_text("", "a"), "a");
    let c = Config::default();
    assert_eq!(c.audio_dir_path(Some("/h")), "/h/Music/vox");
    assert_eq!(c.speed_milli, 1000);
    assert!(c.save_audio && !c.cleanup_on_exit);
}

#[test]
fn lexicon_respells_whole_words() {
    let lex = parse_lexicon("# fixes\nKokoro = koh-koh-roh\n\nvox=vocks\nno equals here\n");
    assert_eq!(
        lex,
        vec![("kokoro".to_string(), "koh-koh-roh".to_string()), ("vox".to_string(), "vocks".to_string())]
    );
    assert_eq!(apply_lexicon("KOKORO and vox's voxel", &lex), "koh-koh-roh and vox's voxel");
    assert_eq!(apply_lexicon("Vox, vox!", &lex), "vocks, vocks!");
    assert_eq!(apply_lexicon("anything", &Vec::new()), "anything");
    assert_eq!(apply_lexicon("naïve vox", &lex), "naïve vocks");
}

#[test]
fn readout_falls_back_once() {
    let mut r = Readout::new(2, false);
    assert_eq!(r.next(), Some(0));
    assert_eq!(r.record(false, true), Reaction::FallBackToKokoro);
    assert!(r.on_kokoro() && r.fell_back());
    assert_eq!(r.next(), Some(0));
    assert_eq!(r.record(true, true), Reaction::Next);
    assert_eq!(r.record(false, true), Reaction::Fail);
    assert!(r.failed());
    assert_eq!(r.next(), None);
    assert!(!r.clears_provider_error());

    let mut r = Readout::new(1, false);
    assert_eq!(r.record(true, true), Reaction::Next);
    assert_eq!(r.next(), None);
    assert!(r.clears_provider_error());
    r.cancel();
    assert!(!r.clears_provider_error_uncancelled());

    let mut r = Readout::new(1, false);
    assert_eq!(r.record(false, false), Reaction::Fail);
}

#[test]
fn roster_languages_follow_the_prefix() {
    let names = voice_names();
    assert_eq!(names.len(), 12);
    for (k, v) in names.iter().enumerate() {
        let british = v.starts_with("bm_") || v.starts_with("bf_");
        assert_eq!(british, k < 6);
        assert_eq!(lang_for(v), if british { "en-gb-x-rp" } else { "en-us" });
    }
}

#[test]
fn lexicon_nul_ends_a_word_and_is_dropped() {
    let lex = parse_lexicon("vox=vocks\n");
    assert_eq!(apply_lexicon("vox\0vox-Vox", &lex), "vocksvocks-vocks");
    assert_eq!(apply_lexicon("vox\0vox-Vox", &Vec::new()), "vox\0vox-Vox");
}
