use vox::controls::{
    arrow_action, arrow_note_text, fmt_time, rate_fixed_text, rate_plain_text, status_line,
    ArrowAction, ArrowMemory,
};
use vox::transport::{PlainStep, StretchStep, Transport, OUT_BLOCK, SAMPLE_RATE};

fn sample_at(i: u64) -> f32 {
    (i as f32 * 0.001).sin() * 0.5
}

fn transport_with_secs(secs: u32) -> Transport {
    let mut t = Transport::new();
    t.append((secs * SAMPLE_RATE) as u64);
    t
}

#[test]
fn skip_moves_cursor_and_clamps() {
    let mut p = transport_with_secs(60);
    for _ in 0..1000 {
        assert!(matches!(p.step_plain(), PlainStep::Sample(_)));
    }
    assert!((p.pos() as f64 - 1000.0).abs() < 2.0);

    p.skip(-15); // clamps to 0
    assert_eq!(p.pos(), 0);

    p.skip(20);
    assert!((p.pos() as f64 - 20.0 * SAMPLE_RATE as f64).abs() < 2.0);

    // forward skip is capped 0.5s behind the frontier while synthesizing
    p.skip(9999);
    let cap = 60.0 * SAMPLE_RATE as f64 - SAMPLE_RATE as f64 / 2.0;
    assert_eq!(p.pos() as f64, cap);

    // and to the true end once synthesis is done
    p.set_synth_done(true);
    p.skip(9999);
    assert_eq!(p.pos() as f64, 60.0 * SAMPLE_RATE as f64);
}

#[test]
fn playback_resumes_after_seek_back() {
    let mut p = transport_with_secs(10);
    for _ in 0..(5 * SAMPLE_RATE as usize) {
        assert!(matches!(p.step_plain(), PlainStep::Sample(_)));
    }
    p.skip(-4);
    let before = p.pos();
    let s = match p.step_plain() {
        PlainStep::Sample(i) => sample_at(i),
        other => panic!("expected a sample, got {other:?}"),
    };
    assert!(s != 0.0, "should be reading real samples after seek back");
    assert!(p.pos() >= before);
}

#[test]
fn stretched_playback_advances_at_rate_and_produces_audio() {
    let mut p = transport_with_secs(30);
    p.set_synth_done(true);
    p.adjust_rate(2); // 1.0 + 0.5 = 1.5x
    assert_eq!(p.rate_quarters(), 6);

    let n_out = 4 * OUT_BLOCK as usize;
    let mut produced = 0usize;
    let mut from_audio = 0usize;
    while produced < n_out {
        match p.step_stretched(false) {
            StretchStep::Block { out_len, .. } => {
                produced += out_len as usize;
                from_audio += out_len as usize;
            }
            StretchStep::Hold => produced += 1,
            other => panic!("audio should continue, got {other:?}"),
        }
    }
    // consumed input ≈ output * rate
    let expected = n_out as f64 * 1.5;
    assert!(
        (p.pos() as f64 - expected).abs() < 2.0 * OUT_BLOCK as f64,
        "pos {} vs expected {expected}",
        p.pos()
    );
    // most of the output is stretched from real samples, not held silence
    assert!(from_audio > n_out / 2, "only {from_audio}/{n_out} samples from audio");
}

#[test]
fn stretched_playback_ends_after_flush() {
    let mut p = transport_with_secs(1);
    p.set_synth_done(true);
    p.adjust_rate(4); // 2.0x
    let mut count = 0usize;
    let mut flushed = false;
    loop {
        match p.step_stretched(flushed) {
            StretchStep::Block { out_len, .. } => count += out_len as usize,
            StretchStep::Flush => {
                flushed = true;
                count += OUT_BLOCK as usize;
            }
            StretchStep::Hold => count += 1,
            StretchStep::End => break,
        }
        assert!(count < 10 * SAMPLE_RATE as usize, "source never ended");
    }
    // ~1s of audio at 2x -> ~0.5s of output (plus flush tail)
    assert!(count > SAMPLE_RATE as usize / 4, "too little output: {count}");
    assert!(count < SAMPLE_RATE as usize, "too much output: {count}");
}

#[test]
fn stretched_blocks_consume_rate_times_output() {
    let mut p = transport_with_secs(30);
    p.set_synth_done(true);
    assert_eq!(p.adjust_rate(2), 6); // 1.5x
    assert!(!p.plays_plain());
    for _ in 0..4 {
        match p.step_stretched(false) {
            StretchStep::Block { from, to, out_len } => {
                assert_eq!(to - from, 1536);
                assert_eq!(out_len, OUT_BLOCK);
            }
            other => panic!("expected a block, got {other:?}"),
        }
    }
    assert_eq!(p.pos(), 4 * 1536);
}

#[test]
fn stretching_waits_for_synthesis() {
    let mut p = transport_with_secs(0);
    p.append(100);
    p.adjust_rate(2);
    assert_eq!(p.step_stretched(false), StretchStep::Hold);
    p.set_synth_done(true);
    // the final partial block: 100 samples at 1.5x make 67
    assert_eq!(p.step_stretched(false), StretchStep::Block { from: 0, to: 100, out_len: 67 });
    assert_eq!(p.step_stretched(false), StretchStep::Flush);
    assert_eq!(p.step_stretched(true), StretchStep::End);
}

#[test]
fn skip_forward_then_back_returns() {
    let mut p = transport_with_secs(60);
    p.set_synth_done(true);
    p.skip(20);
    let at = p.pos();
    p.skip(15);
    p.skip(-15);
    assert_eq!(p.pos(), at);
    let g = p.seek_gen();
    p.jump_to_end();
    assert_eq!(p.pos(), p.len());
    assert_eq!(p.seek_gen(), g + 1);
}

#[test]
fn rate_is_clamped_to_quarter_and_three() {
    let mut p = Transport::new();
    assert_eq!(p.rate_quarters(), 4);
    assert_eq!(p.adjust_rate(-10), 1);
    assert_eq!(p.adjust_rate(100), 12);
    assert_eq!(rate_plain_text(5), "1.25");
    assert_eq!(rate_plain_text(4), "1");
    assert_eq!(rate_plain_text(6), "1.5");
    assert_eq!(rate_fixed_text(6), "1.50");
    assert_eq!(rate_fixed_text(1), "0.25");
}

#[test]
fn scrubbing_steps_three_and_stops_at_the_start() {
    let mut p = transport_with_secs(1);
    p.skip(0);
    for _ in 0..10 {
        p.step_plain();
    }
    assert_eq!(p.pos(), 10);
    p.set_scrub(-1);
    assert_eq!(p.step_plain(), PlainStep::Sample(7));
    p.step_plain();
    p.step_plain();
    assert_eq!(p.step_plain(), PlainStep::Sample(0));
    assert_eq!(p.scrubbing(), 0);
}

#[test]
fn playback_catches_up_with_synthesis() {
    let mut p = transport_with_secs(0);
    p.append(1);
    assert_eq!(p.step_plain(), PlainStep::Silence);
    p.set_synth_done(true);
    assert_eq!(p.step_plain(), PlainStep::End);
}

#[test]
fn arrows_skip_or_scrub() {
    assert_eq!(arrow_action(true, false, None, false), ArrowAction::Skip(15));
    assert_eq!(arrow_action(false, false, None, true), ArrowAction::Skip(-30));
    assert_eq!(arrow_action(true, false, Some(100), false), ArrowAction::Scrub(1));
    assert_eq!(arrow_action(false, false, Some(300), false), ArrowAction::Skip(-15));
    assert_eq!(arrow_action(false, true, None, false), ArrowAction::Scrub(-1));
    let mut m = ArrowMemory::new(0);
    assert_eq!(m.press(true, false, false, 1000), ArrowAction::Skip(15));
    assert_eq!(m.press(true, false, false, 1100), ArrowAction::Scrub(1));
    assert!(!m.scrub_over(1400));
    assert!(m.scrub_over(1401));
    assert_eq!(m.press(false, false, false, 1150), ArrowAction::Skip(-15));
    assert_eq!(arrow_note_text(ArrowAction::Scrub(-1)), "⏪ 3x");
    assert_eq!(arrow_note_text(ArrowAction::Skip(30)), "→ 30s");
    assert_eq!(arrow_note_text(ArrowAction::Skip(-15)), "← 15s");
}

#[test]
fn times_read_as_minutes_and_seconds() {
    assert_eq!(fmt_time(0), "0:00");
    assert_eq!(fmt_time(24000 * 65), "1:05");
    assert_eq!(fmt_time(24000 * 600 + 23999), "10:00");
    assert_eq!(status_line("▶ resumed", 24000, 48000), "\r\x1b[K▶ resumed  [0:01 / 0:02]");
}
