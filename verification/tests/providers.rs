use vox::audio::{decode_base64_pcm, frame_pcm, s16le_samples, AudioError};
use vox::karaoke::{alignment_words, estimate_word_ends, words_from_char_ends};
use vox::providers::{api_error_message, groq, openai, usable_key, Availability, ElevenLabs, Xai};
use vox::reason::short_reason;
use vox::sentences::sentences;
use vox::transport::SAMPLE_RATE;
use vox::voices::{capitalize, provider_label, voice_display, voice_label, VoicePath};

#[test]
fn voice_path_bare_name_is_kokoro() {
    assert_eq!(
        VoicePath::parse("bm_george"),
        VoicePath { provider: "kokoro".into(), model: None, voice: "bm_george".into() }
    );
}

#[test]
fn voice_path_provider_and_voice() {
    assert_eq!(
        VoicePath::parse("openai/nova"),
        VoicePath { provider: "openai".into(), model: None, voice: "nova".into() }
    );
}

#[test]
fn voice_path_with_model() {
    assert_eq!(
        VoicePath::parse("openai/tts-1-hd/nova"),
        VoicePath {
            provider: "openai".into(),
            model: Some("tts-1-hd".into()),
            voice: "nova".into()
        }
    );
}

#[test]
fn voice_path_model_containing_slashes() {
    assert_eq!(
        VoicePath::parse("groq/canopylabs/orpheus-v1-english/austin"),
        VoicePath {
            provider: "groq".into(),
            model: Some("canopylabs/orpheus-v1-english".into()),
            voice: "austin".into()
        }
    );
}

#[test]
fn s16le_conversion_and_odd_byte() {
    let bytes = [0x00, 0x40, 0xFF]; // 0x4000 = 16384 -> 0.5, trailing byte ignored
    let out = s16le_samples(&bytes);
    assert_eq!(out.len(), 1);
    assert!((out[0] as f32 / 32768.0 - 0.5).abs() < 1e-4);
}

#[test]
fn char_times_group_into_words() {
    let chars: Vec<String> = "hi yo".chars().map(|c| c.to_string()).collect();
    let times = [0.1f32, 0.2, 0.25, 0.3, 0.4];
    let ends: Vec<u64> = times.iter().map(|t| (t * SAMPLE_RATE as f32) as u64).collect();
    let words = words_from_char_ends(&chars, &ends);
    assert_eq!(words.len(), 2);
    assert_eq!(words[0].text, "hi");
    assert_eq!(words[0].end, (0.2 * SAMPLE_RATE as f32) as u64);
    assert_eq!(words[1].text, "yo");
    assert_eq!(words[1].end, (0.4 * SAMPLE_RATE as f32) as u64);
}

#[test]
fn sentences_split_and_bound() {
    let v = sentences("One. Two! Three");
    assert_eq!(v, vec!["One.", "Two!", "Three"]);
}

#[test]
fn short_reason_prefers_code_then_type_then_http() {
    let openai = r#"openai: HTTP 429: {"error": {"message": "You exceeded your current quota", "type": "insufficient_quota", "param": null, "code": "insufficient_quota"}}"#;
    assert_eq!(short_reason(openai), "insufficient quota");
    let groq = r#"groq: HTTP 400: {"error":{"message":"The model requires terms acceptance.","type":"invalid_request_error","code":"model_terms_required"}}"#;
    assert_eq!(short_reason(groq), "model terms required");
    assert_eq!(short_reason("xai: HTTP 503: upstream busy"), "HTTP 503");
    assert_eq!(short_reason("connection refused"), "connection refused");
}

#[test]
fn voice_labels_read_as_words() {
    assert_eq!(voice_label("kokoro", "bm_george"), "British male · George");
    assert_eq!(voice_label("kokoro", "af_heart"), "American female · Heart");
    assert_eq!(voice_label("openai", "nova"), "Nova");
    assert_eq!(voice_label("xai", "ara"), "Ara");
}

// ---- more cases ----------------------------------------------------------------

#[test]
fn voice_path_ignores_empty_pieces_and_empty_text() {
    assert_eq!(VoicePath::parse("openai//nova"), VoicePath::parse("openai/nova"));
    assert_eq!(
        VoicePath::parse(""),
        VoicePath { provider: "kokoro".into(), model: None, voice: "".into() }
    );
}

#[test]
fn long_sentence_is_cut_at_the_byte_bound() {
    let text = "word ".repeat(100);
    let parts = sentences(&text);
    assert!(parts.len() >= 2);
    for p in &parts {
        assert!(p.len() <= 304, "{} bytes", p.len());
        assert_eq!(p.trim(), p.as_str());
    }
    let joined: String = parts.concat().chars().filter(|c| !c.is_whitespace()).collect();
    let original: String = text.chars().filter(|c| !c.is_whitespace()).collect();
    assert_eq!(joined, original);
    assert!(sentences("   ").is_empty());
}

#[test]
fn short_reason_cuts_long_messages() {
    let msg = "x".repeat(60);
    assert_eq!(short_reason(&msg), format!("{}…", "x".repeat(50)));
    assert_eq!(short_reason(r#"{"code": "error", "type": "rate_limit"}"#), "rate limit");
    assert_eq!(short_reason(r#"groq: HTTP 400: {"error":{"code":null,"message":"bad"}}"#), "HTTP 400");
    assert_eq!(short_reason(r#"{"code": 42, "type":"server_error"}"#), "server error");
}

#[test]
fn labels_of_providers_and_displays() {
    assert_eq!(provider_label("kokoro"), "Kokoro-82M · local");
    assert_eq!(provider_label("elevenlabs"), "ElevenLabs · cloud");
    assert_eq!(provider_label("other"), "other");
    assert_eq!(voice_display("bm_george"), "British male · George");
    assert_eq!(voice_display("openai/nova"), "openai · Nova");
    assert_eq!(capitalize("élan"), "Élan");
    assert_eq!(capitalize(""), "");
}

#[test]
fn provider_descriptions() {
    let o = openai();
    assert_eq!(o.name(), "openai");
    assert_eq!(o.response_format(), "pcm");
    assert!(o.accepts_speed());
    let g = groq();
    assert_eq!(g.response_format(), "wav");
    assert_eq!(g.voices(), vec!["austin", "hannah", "troy"]);
    assert!(matches!(g.availability(false), Availability::NeedsKey("GROQ_API_KEY")));
    assert!(matches!(Xai.availability(true), Availability::Ready));
    assert_eq!(ElevenLabs.voices().len(), 10);
}

#[test]
fn eleven_voice_ids_match_any_case() {
    assert_eq!(ElevenLabs::voice_id("Rachel"), "21m00Tcm4TlvDq8ikWAM");
    assert_eq!(ElevenLabs::voice_id("GEORGE"), "JBFqnCBsd6RMkjVDRZzb");
    assert_eq!(ElevenLabs::voice_id("customVoiceId"), "customVoiceId");
    assert_eq!(
        ElevenLabs::url("abc"),
        "https://api.elevenlabs.io/v1/text-to-speech/abc/with-timestamps?output_format=pcm_24000"
    );
}

#[test]
fn blank_keys_are_not_keys() {
    assert_eq!(usable_key(Some("  ".into())), None);
    assert_eq!(usable_key(Some("sk-1".into())), Some("sk-1".to_string()));
    assert_eq!(usable_key(None), None);
}

#[test]
fn api_errors_carry_status_and_body() {
    assert_eq!(
        api_error_message("xai", Some(503), "upstream busy", ""),
        "xai: HTTP 503: upstream busy"
    );
    let long = "b".repeat(400);
    assert_eq!(
        api_error_message("openai", Some(400), &long, ""),
        format!("openai: HTTP 400: {}", "b".repeat(300))
    );
    assert_eq!(api_error_message("groq", None, "", "timed out"), "groq: timed out");
}

#[test]
fn base64_audio_decodes_to_samples() {
    // "AEA=" is the bytes 0x00 0x40
    assert_eq!(decode_base64_pcm("AEA="), Ok(vec![16384i16]));
    assert_eq!(decode_base64_pcm("AP8A/w=="), Ok(vec![-256i16, -256]));
    assert!(matches!(decode_base64_pcm("not base64!"), Err(AudioError::BadBase64(ref why)) if !why.is_empty()));
}

#[test]
fn pcm_framing_carries_odd_bytes() {
    let (a, carry) = frame_pcm(None, &[1, 2, 3]);
    assert_eq!(a, vec![1, 2]);
    assert_eq!(carry, Some(3));
    let (b, carry) = frame_pcm(carry, &[4, 5, 6]);
    assert_eq!(b, vec![3, 4, 5, 6]);
    assert_eq!(carry, None);
}

#[test]
fn estimated_word_ends_share_the_span() {
    let w = estimate_word_ends("hi there", 1000, 900);
    assert_eq!(w.len(), 2);
    assert_eq!(w[0].text, "hi");
    // weights 3 and 6 of 9: a third, then all of the span
    assert_eq!(w[0].end, 1300);
    assert_eq!(w[1].end, 1900);
}

#[test]
fn alignment_needs_parallel_arrays() {
    let chars: Vec<String> = vec!["a".into(), "b".into()];
    assert!(alignment_words(&chars, &vec![1]).is_none());
    assert!(alignment_words(&vec![], &vec![]).is_none());
    let w = alignment_words(&chars, &vec![5, 3]).unwrap();
    assert_eq!(w.len(), 1);
    assert_eq!(w[0].text, "ab");
    assert_eq!(w[0].end, 3);
}

#[test]
fn aligned_word_ends_never_move_back() {
    let chars: Vec<String> = "a b".chars().map(|c| c.to_string()).collect();
    let w = words_from_char_ends(&chars, &vec![500, 500, 300]);
    assert_eq!(w.len(), 2);
    assert_eq!(w[0].end, 500);
    assert_eq!(w[1].text, "b");
    assert_eq!(w[1].end, 500);
}

#[test]
fn pcm_framing_over_a_stream_matches_whole_decoding() {
    let stream: Vec<u8> = vec![1, 0, 255, 255, 0, 128, 7, 1, 9];
    let cuts: Vec<Vec<u8>> = vec![vec![1], vec![0, 255], vec![], vec![255, 0, 128, 7], vec![1, 9]];
    let mut carry = None;
    let mut framed: Vec<u8> = Vec::new();
    let mut samples: Vec<i16> = Vec::new();
    for chunk in &cuts {
        let (bytes, rest) = frame_pcm(carry, chunk);
        assert_eq!(bytes.len() % 2, 0);
        samples.extend(s16le_samples(&bytes));
        framed.extend(bytes);
        carry = rest;
    }
    assert_eq!(carry, Some(9));
    framed.push(9);
    assert_eq!(framed, stream);
    assert_eq!(samples, s16le_samples(&stream));
    assert_eq!(samples, vec![1i16, -1, -32768, 263]);
}

#[test]
fn aligned_words_are_runs_of_non_blank_entries() {
    let chars: Vec<String> = vec!["a".into(), "b".into(), " ".into(), " ".into(), "c".into(), "\n".into(), "de".into()];
    let w = words_from_char_ends(&chars, &vec![10, 20, 25, 26, 15, 30, 40]);
    assert_eq!(w.len(), 3);
    assert_eq!(w[0].text, "ab");
    assert_eq!(w[0].end, 20);
    assert_eq!(w[1].text, "c");
    assert_eq!(w[1].end, 20);
    assert_eq!(w[2].text, "de");
    assert_eq!(w[2].end, 40);
}
