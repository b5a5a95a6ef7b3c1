//! Recording, playback, captions and the test tone.
use voicebox::captions::{find_sentence_end, Captions};
use voicebox::pcm::{mean_abs_level, quality, read_sample, Quality};
use voicebox::playback::{
    estimate_pcm, pulse, ready_to_play, stage, Block, Clip, DownloadEvent, Player,
    TTS_PREBUFFER_BYTES,
};
use voicebox::tone::{prepare_tone, TonePlan, SINE};
use voicebox::touch::TouchEvent;
use voicebox::vad::{judge, on_touch, record, Listener, Recording, StopReason};
use voicebox::wav::{build_wav_header, data_chunk_len, find_data_chunk, parse_fmt, wav_bytes};

fn samples(values: &[i16]) -> Vec<u8> {
    values.iter().flat_map(|v| v.to_le_bytes()).collect()
}

// ---------- Samples ----------

#[test]
fn samples_are_signed() {
    let pcm = samples(&[0, 1, -1, 32767, -32768]);
    let read: Vec<i32> = (0..5).map(|i| read_sample(&pcm, i)).collect();
    assert_eq!(read, [0, 1, -1, 32767, -32768]);
}

#[test]
fn mean_level_ignores_sign_and_leftover() {
    assert_eq!(mean_abs_level(&[]), 0);
    assert_eq!(mean_abs_level(&[7]), 0);
    assert_eq!(mean_abs_level(&samples(&[100, -100])), 100);
    assert_eq!(mean_abs_level(&samples(&[10, -15])), 12);
    assert_eq!(mean_abs_level(&samples(&[-32768])), 32768);
    let mut odd = samples(&[50]);
    odd.push(0xFF);
    assert_eq!(mean_abs_level(&odd), 50);
}

#[test]
fn quality_counts_jumps_and_rails() {
    let pcm = samples(&[32700, 0, 4000, -1, -4001, 9000, 9000, -4000]);
    assert_eq!(
        quality(&pcm, 3),
        Quality {
            peak: 32700,
            clipped: 1,
            max_step: 32700,
            steps_4k: 4,
            steps_12k: 3,
            at_edge: 3,
        }
    );
    assert_eq!(
        quality(&[], 1),
        Quality { peak: 0, clipped: 0, max_step: 0, steps_4k: 0, steps_12k: 0, at_edge: 0 }
    );
}

// ---------- WAV ----------

#[test]
fn wav_header_bytes() {
    let h = build_wav_header(1000, 24_000);
    assert_eq!(&h[..4], b"RIFF");
    assert_eq!(u32::from_le_bytes([h[4], h[5], h[6], h[7]]), 1036);
    assert_eq!(&h[8..16], b"WAVEfmt ");
    assert_eq!(&h[16..24], &[16, 0, 0, 0, 1, 0, 1, 0]);
    assert_eq!(u32::from_le_bytes([h[24], h[25], h[26], h[27]]), 24_000);
    assert_eq!(u32::from_le_bytes([h[28], h[29], h[30], h[31]]), 48_000);
    assert_eq!(&h[32..40], b"\x02\x00\x10\x00data");
    assert_eq!(u32::from_le_bytes([h[40], h[41], h[42], h[43]]), 1000);
}

#[test]
fn written_wav_reads_back() {
    let pcm = samples(&[1, 2, 3, -4]);
    let wav = wav_bytes(&pcm, 24_000);
    assert_eq!(find_data_chunk(&wav), 44);
    assert_eq!(&wav[44..], &pcm[..]);
    assert_eq!(data_chunk_len(&wav), Some(8));
    assert_eq!(parse_fmt(&wav), Some((1, 1, 24_000, 16)));
}

#[test]
fn data_chunk_is_found_behind_others() {
    let mut wav = wav_bytes(&[9, 9], 24_000);
    // An odd chunk ahead of the data is padded to an even length.
    let extra = b"LIST\x03\x00\x00\x00abc\x00";
    wav.splice(36..36, extra.iter().copied());
    assert_eq!(find_data_chunk(&wav), 44 + extra.len());
    assert_eq!(data_chunk_len(&wav), Some(2));
    assert_eq!(find_data_chunk(b"no wav at all"), 13);
    assert_eq!(data_chunk_len(b""), None);
    assert_eq!(parse_fmt(b"RIFF"), None);
}

#[test]
fn streamed_lengths_are_not_believed() {
    for stated in [0u32, u32::MAX] {
        let mut wav = wav_bytes(&[1, 2], 24_000);
        wav[40..44].copy_from_slice(&stated.to_le_bytes());
        assert_eq!(data_chunk_len(&wav), None);
        assert_eq!(find_data_chunk(&wav), 44);
    }
}

// ---------- Playback ----------

#[test]
fn clip_length_estimates() {
    assert_eq!(estimate_pcm(Some(1044), 44, Some(7), 3), 1000);
    assert_eq!(estimate_pcm(Some(44), 44, Some(7), 3), 7);
    assert_eq!(estimate_pcm(Some(10), 44, None, 3), 8700);
    assert_eq!(estimate_pcm(None, 44, Some(7), 3), 7);
    assert_eq!(estimate_pcm(None, 44, None, 3), 8700);
    assert_eq!(estimate_pcm(None, 44, None, 0), 1);
    assert_eq!(estimate_pcm(None, 44, Some(0), 9), 1);
}

#[test]
fn fast_downloads_start_early_and_slow_ones_wait() {
    // 48000 bytes in 100 ms, ten seconds of audio in all.
    assert!(ready_to_play(48_000, 44, 480_000, 100));
    // The floor is not met.
    assert!(!ready_to_play(47_999, 44, 480_000, 100));
    // No faster than the speaker plays.
    assert!(!ready_to_play(48_000, 44, 480_000, 1000));
    // Too little left for the margin.
    assert!(!ready_to_play(48_000, 44, 96_000, 1));
    // No time at all counts as a millisecond: two more for the rest, and the
    // margin, against what is left to play.
    assert!(ready_to_play(48_000, 0, 144_096, 0));
    assert!(!ready_to_play(48_000, 0, 144_095, 0));
}

#[test]
fn blocks_of_a_finished_clip() {
    let clip: Vec<u8> = (1..=11).collect();
    let mut tx = [0xEEu8; 9];
    let b = stage(&mut tx, &clip, 1, true).unwrap();
    assert_eq!(b, Block { end: 8, pos: 9, starved: false });
    assert_eq!(tx[..8], [2, 3, 4, 5, 6, 7, 8, 9]);
    let b = stage(&mut tx, &clip, 9, true).unwrap();
    assert_eq!(b, Block { end: 4, pos: 11, starved: false });
    assert_eq!(tx[..4], [10, 11, 0, 0]);
    assert_eq!(stage(&mut tx, &clip, 11, true), None);
    assert_eq!(tx[..4], [10, 11, 0, 0]);
}

#[test]
fn blocks_of_a_clip_in_progress_are_full() {
    let clip: Vec<u8> = (1..=6).collect();
    let mut tx = [0xEEu8; 8];
    let b = stage(&mut tx, &clip, 0, false).unwrap();
    assert_eq!(b, Block { end: 8, pos: 4, starved: true });
    assert_eq!(tx, [1, 2, 3, 4, 0, 0, 0, 0]);
    let b = stage(&mut tx, &clip, 6, false).unwrap();
    assert_eq!(b, Block { end: 8, pos: 6, starved: true });
    assert_eq!(tx, [0; 8]);
    let long = [5u8; 20];
    assert_eq!(
        stage(&mut tx, &long, 0, false),
        Some(Block { end: 8, pos: 8, starved: false })
    );
}

#[test]
fn whole_clip_is_played() {
    let pcm: Vec<u8> = (0..1003u32).map(|i| (i % 251) as u8 + 1).collect();
    let mut clip = Clip::new();
    clip.on_read(DownloadEvent::Data(&wav_bytes(&pcm, 24_000)));
    assert!(!clip.enough(None, 12, 5));
    clip.on_read(DownloadEvent::Over);
    assert!(clip.enough(None, 12, 5));
    assert_eq!(clip.plan, None);
    let (start, total) = clip.begin().unwrap();
    assert_eq!((start, total), (44, 1003));
    let captions = Captions::of("One. Two.");
    let mut player = Player::new(start, total);
    let mut tx = [0u8; 128];
    let mut heard = Vec::new();
    let mut shown = vec![captions.segments[player.seg].as_str()];
    while let Some(step) = player.next(&mut tx, &clip, &captions) {
        assert!(!step.starved);
        heard.extend_from_slice(&tx[..step.end]);
        if step.redraw {
            shown.push(&captions.segments[player.seg]);
        }
    }
    assert_eq!(&heard[..1003], &pcm[..]);
    assert_eq!(heard[1003..], [0]);
    assert_eq!(shown, ["One.", "Two."]);
}

#[test]
fn plan_is_made_once_there_is_enough() {
    let pcm = vec![1u8; TTS_PREBUFFER_BYTES];
    let mut clip = Clip::new();
    clip.on_read(DownloadEvent::Data(&wav_bytes(&pcm, 24_000)));
    // A slow start: wait, but remember where the audio begins.
    assert!(!clip.enough(Some(480_044), 100, 60_000));
    assert_eq!(clip.plan, Some((44, 480_000)));
    // Then it speeds up.
    assert!(clip.enough(None, 0, 500));
    assert_eq!(clip.plan, Some((44, 480_000)));
    assert_eq!(clip.begin(), Some((44, 480_000)));
    let mut player = Player::new(44, 480_000);
    let captions = Captions::of("Hi");
    let mut tx = vec![0u8; 65_536];
    let step = player.next(&mut tx, &clip, &captions).unwrap();
    assert_eq!((step.end, step.starved), (65_536, true));
    assert_eq!(player.pos, 44 + TTS_PREBUFFER_BYTES);
}

#[test]
fn nothing_to_play() {
    let mut clip = Clip::new();
    assert_eq!(clip.begin(), None);
    clip.on_read(DownloadEvent::Data(b"{\"error\":\"no voice\"}"));
    clip.on_read(DownloadEvent::Over);
    assert_eq!(clip.begin(), None);
    let mut clip = Clip::new();
    clip.on_read(DownloadEvent::Data(&build_wav_header(0, 24_000)));
    clip.on_read(DownloadEvent::Over);
    assert_eq!(clip.begin(), None);
}

#[test]
fn light_breathes() {
    let green = (32, 161, 98);
    assert_eq!(pulse(green, 6), green);
    assert_eq!(pulse(green, 18), green);
    assert_eq!(pulse(green, 0), (11, 56, 34));
    assert_eq!(pulse(green, 3), pulse(green, 9));
    assert_eq!(pulse((255, 0, 2), 1), (117, 0, 0));
    for tick in 0..40 {
        assert!(pulse(green, tick).0 > 0);
        assert_eq!(pulse(green, tick), pulse(green, tick + 12));
    }
}

// ---------- Captions ----------

#[test]
fn sentence_ends() {
    assert_eq!(find_sentence_end("Hello. World"), Some(6));
    assert_eq!(find_sentence_end("What? No!"), Some(5));
    assert_eq!(find_sentence_end("a\nb"), Some(2));
    assert_eq!(find_sentence_end("\u{e9}\u{e9}!"), Some(5));
    assert_eq!(find_sentence_end("no end"), None);
    assert_eq!(find_sentence_end(""), None);
    let run_on = "x".repeat(201);
    assert_eq!(find_sentence_end(&run_on), Some(201));
    assert_eq!(find_sentence_end(&run_on[1..]), None);
}

#[test]
fn captions_are_sentences() {
    let c = Captions::of("One.  Two!\n\nThree");
    assert_eq!(c.segments, ["One.", "Two!", "Three"]);
    assert_eq!(c.bounds, [4, 8, 13]);
    assert_eq!(c.total_len, 13);
    let blank = Captions::of("  ");
    assert_eq!(blank.segments, ["  "]);
    assert_eq!(blank.total_len, 2);
    let nothing = Captions::of("");
    assert_eq!(nothing.segments, [""]);
    assert_eq!(nothing.total_len, 1);
}

#[test]
fn captions_follow_the_voice() {
    let c = Captions::of("One.  Two!\n\nThree");
    assert_eq!(c.spoken(0, 1300), 0);
    assert_eq!(c.spoken(399, 1300), 3);
    assert_eq!(c.spoken(400, 1300), 4);
    assert_eq!(c.spoken(5000, 1300), 13);
    assert_eq!(c.advance(0, 3), 0);
    assert_eq!(c.advance(0, 4), 1);
    assert_eq!(c.advance(0, 8), 2);
    assert_eq!(c.advance(1, 13), 2);
    assert_eq!(c.advance(2, 0), 2);
}

// ---------- Voice activity ----------

fn calibrated(level: u32) -> Listener {
    let mut l = Listener::new();
    for _ in 0..4 {
        assert_eq!(l.on_chunk(level), None);
    }
    l
}

#[test]
fn loudest_calibration_chunk_sets_the_floor() {
    let mut l = Listener::new();
    for level in [8, 30, 12, 9] {
        assert_eq!(l.on_chunk(level), None);
    }
    assert_eq!(l.noise_floor, 30);
    assert_eq!(l.gate(), 90);
    assert_eq!(calibrated(8).gate(), 60);
    // Later chunks leave it alone.
    l.on_chunk(5000);
    assert_eq!(l.noise_floor, 30);
    assert_eq!(l.peak_level, 5000);
}

#[test]
fn silence_after_speech_stops() {
    let mut l = calibrated(8);
    assert_eq!(l.on_chunk(110), None);
    assert!(l.speech_started);
    for _ in 0..8 {
        assert_eq!(l.on_chunk(30), None);
    }
    assert_eq!(l.on_chunk(30), Some(StopReason::Silence));
}

#[test]
fn ambiguous_chunks_hold_the_turn_open() {
    let mut l = calibrated(8);
    l.on_chunk(60);
    for _ in 0..100 {
        for _ in 0..8 {
            assert_eq!(l.on_chunk(10), None);
        }
        assert_eq!(l.on_chunk(31), None);
    }
}

#[test]
fn silent_turns_are_given_up() {
    let mut l = calibrated(8);
    let mut chunks = 4;
    loop {
        chunks += 1;
        if let Some(stop) = l.on_chunk(59) {
            assert_eq!(stop, StopReason::NothingHeard);
            break;
        }
    }
    assert_eq!(chunks, 71);
}

#[test]
fn level_ring_scale() {
    let mut l = calibrated(8);
    for (level, shown) in [(0, 0), (5, 0), (6, 1), (59, 9), (60, 10), (30_000, 10)] {
        l.on_chunk(level);
        assert_eq!(l.level_ui, shown);
    }
}

#[test]
fn touches_end_a_recording() {
    assert_eq!(on_touch(TouchEvent::Tap { x: 0, y: 0 }), StopReason::Tap);
    for swipe in [
        TouchEvent::SwipeLeft,
        TouchEvent::SwipeRight,
        TouchEvent::SwipeUp,
        TouchEvent::SwipeDown,
    ] {
        assert_eq!(on_touch(swipe), StopReason::Cancelled);
    }
    assert_eq!(judge(StopReason::Cancelled, 100_000, true), Recording::Cancelled);
    assert_eq!(judge(StopReason::Tap, 23_999, true), Recording::NothingHeard);
    assert_eq!(judge(StopReason::Tap, 24_000, false), Recording::NothingHeard);
    assert_eq!(judge(StopReason::MaxDuration, 24_000, true), Recording::Usable);
}

#[test]
fn first_sample_of_a_chunk_is_dropped() {
    let mut pcm = vec![9u8];
    record(&mut pcm, &[1, 2, 3, 4]);
    record(&mut pcm, &[1, 2]);
    assert_eq!(pcm, [9, 3, 4]);
}

// ---------- Test tone ----------

#[test]
fn tone_blocks() {
    let mut tx = vec![0xEEu8; 1024];
    assert_eq!(
        prepare_tone(&mut tx, 1000, 2),
        TonePlan { block: 896, blocks: 107, expected_ms: 1997 }
    );
    assert_eq!(tx[896..], [0xEE; 128]);
    for i in 0..448 {
        assert_eq!(read_sample(&tx, i), i32::from(SINE[i % 64]));
    }
    assert_eq!(prepare_tone(&mut tx, 0, 0), TonePlan { block: 128, blocks: 1, expected_ms: 2 });
    assert_eq!(prepare_tone(&mut tx, 9999, 1).block, 1024);
    // A buffer of no whole number of cycles is not filled.
    assert_eq!(prepare_tone(&mut tx[..200], 1000, 1).block, 128);
    assert_eq!(prepare_tone(&mut tx[..1000], 1000, 1).block, 896);
}

#[test]
fn tone_repeats_without_a_seam() {
    let mut tx = vec![0u8; 8192];
    let plan = prepare_tone(&mut tx, 512, 1);
    let mut two = tx[..plan.block].to_vec();
    two.extend_from_slice(&tx[..plan.block]);
    for i in 0..plan.block {
        assert_eq!(read_sample(&two, i), i32::from(SINE[i % 64]));
    }
    for i in 0..32 {
        assert_eq!(SINE[i + 32], -SINE[i]);
    }
}

#[test]
fn blocks_hold_whole_samples() {
    let clip: Vec<u8> = (0..50).collect();
    for room in 4..20 {
        for finished in [false, true] {
            let mut tx = vec![0u8; room];
            let mut pos = 0;
            while let Some(b) = stage(&mut tx, &clip, pos, finished) {
                assert_eq!(b.end % 4, 0);
                if b.pos == pos || (finished && b.pos == clip.len()) {
                    break;
                }
                assert_eq!(b.pos % 4, 0);
                assert_eq!(b.end, room / 4 * 4);
                pos = b.pos;
            }
        }
    }
}
