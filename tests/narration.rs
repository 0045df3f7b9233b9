use narration::tts::bundle::{bundle_hit, bundle_write, timings_file_text, BundledAudio};
use narration::tts::cache::{cache_hit, cache_write, hash_bytes, hash_text, key_file_name_exec, key_from_digest, CachedSentence};
use narration::tts::events::{bundle_events, stitched_events, text_word_at, TTSEvent};
use narration::tts::split::split_sentences;
use narration::tts::synth::{
    after_attempt, first_attempt, plan_export, primary_voice, BatchAction, SentenceBatch, SentenceError, VoiceAction,
    VoiceState, DEFAULT_VOICE, FALLBACK_VOICE,
};
use narration::tts::timing::{extract_input_words, parse_tsv_words, stitch_sentences, AlignmentRow, StitchError, WordTiming};
use narration::tts::wav::wav_wrap;

fn silence(bytes: usize) -> Vec<u8> {
    vec![0u8; bytes]
}

fn sentence(pcm: Vec<u8>, rate: u32, tsv: &str) -> CachedSentence {
    CachedSentence { pcm, sample_rate: rate, tsv_content: tsv.to_string() }
}

#[test]
fn splits_two_sentences_with_offsets() {
    let text = "Hello world. How are you?";
    let s = split_sentences(text);
    assert_eq!(s, vec![(0, 12), (13, 12)]);
    assert_eq!(&text[s[0].0..s[0].0 + s[0].1], "Hello world.");
    assert_eq!(&text[s[1].0..s[1].0 + s[1].1], "How are you?");
}

#[test]
fn text_without_terminators_is_one_trimmed_sentence() {
    let text = "  \tjust some words here \n";
    assert_eq!(split_sentences(text), vec![(3, 20)]);
    assert_eq!(split_sentences("no leading space"), vec![(0, 16)]);
}

#[test]
fn terminator_runs_collapse_and_need_whitespace() {
    let text = "Wait... what?! Pi is 3.14 ok.   Tail";
    let s = split_sentences(text);
    let parts: Vec<&str> = s.iter().map(|&(o, n)| &text[o..o + n]).collect();
    assert_eq!(parts, vec!["Wait...", "what?!", "Pi is 3.14 ok.", "Tail"]);
}

#[test]
fn blank_text_has_no_sentences() {
    assert_eq!(split_sentences(""), vec![]);
    assert_eq!(split_sentences("   \n "), vec![]);
    assert_eq!(split_sentences("Hi.  "), vec![(0, 3)]);
}

#[test]
fn unicode_whitespace_is_trimmed() {
    let text = "One.\u{00a0}Two";
    assert_eq!(split_sentences(text), vec![(0, 9)]);
    let t2 = "Go! \u{3000}Now";
    assert_eq!(split_sentences(t2), vec![(0, 3), (7, 3)]);
}

#[test]
fn words_are_numbered_across_sentences() {
    let w = extract_input_words("Hello world. How are you?");
    let offsets: Vec<(usize, usize)> = w.iter().map(|x| (x.index, x.char_offset)).collect();
    assert_eq!(offsets, vec![(0, 0), (1, 6), (2, 13), (3, 17), (4, 21)]);
    assert_eq!(extract_input_words("  ").len(), 0);
}

#[test]
fn alignment_rows_skip_header_and_punctuation() {
    let tsv = "word\tstart\tend\nHello\t0.0\t0.5\n.\t0.5\t0.6\nworld\t0.5\t1.25\r\nshort\t1\nbad\tx\t2\n";
    let rows = parse_tsv_words(tsv);
    assert_eq!(
        rows,
        vec![
            AlignmentRow { start_us: 0, end_us: 500000 },
            AlignmentRow { start_us: 500000, end_us: 1250000 },
            AlignmentRow { start_us: 0, end_us: 2000000 },
        ]
    );
    assert_eq!(parse_tsv_words("").len(), 0);
}

#[test]
fn stitches_two_sentences_by_interpolation() {
    let text = "Hello world. How are you?";
    let s = split_sentences(text);
    let results = vec![(0, sentence(silence(48000), 24000, "")), (13, sentence(silence(24000), 24000, ""))];
    let st = stitch_sentences(text, &s, &results).unwrap();
    assert_eq!(st.pcm.len(), 72000);
    assert_eq!(st.sample_rate, 24000);
    assert_eq!(st.duration_us, 1_500_000);
    let t: Vec<(usize, usize, u64, u64)> = st.timings.iter().map(|w| (w.word_index, w.char_offset, w.start_us, w.end_us)).collect();
    assert_eq!(
        t,
        vec![
            (0, 0, 0, 500000),
            (1, 6, 500000, 1000000),
            (2, 13, 1000000, 1166666),
            (3, 17, 1166666, 1333333),
            (4, 21, 1333333, 1500000),
        ]
    );
}

#[test]
fn stitched_timings_are_ordered() {
    let text = "One two three. Four five.";
    let s = split_sentences(text);
    let tsv = "word\tstart\tend\nOne\t0.1\t0.2\ntwo\t0.2\t0.4\nthree\t0.4\t0.9\n";
    let results = vec![(0, sentence(silence(2000), 1000, tsv)), (15, sentence(silence(700), 1000, ""))];
    let st = stitch_sentences(text, &s, &results).unwrap();
    assert_eq!(st.timings.len(), 5);
    for w in st.timings.windows(2) {
        assert!(w[0].start_us <= w[1].start_us);
    }
    for w in &st.timings {
        assert!(w.start_us <= w.end_us);
    }
    assert_eq!(st.timings[0].start_us, 100000);
    assert_eq!(st.timings[3].start_us, 1000000);
    assert_eq!(st.duration_us, 1_350_000);
}

#[test]
fn fewer_rows_than_words_leave_words_untimed() {
    let text = "a b c";
    let s = split_sentences(text);
    let tsv = "word\tstart\tend\na\t0\t0.1\n";
    let st = stitch_sentences(text, &s, &[(0, sentence(silence(200), 100, tsv))]).unwrap();
    assert_eq!(st.timings, vec![WordTiming { word_index: 0, char_offset: 0, start_us: 0, end_us: 100000 }]);
}

#[test]
fn stitching_without_audio_fails() {
    let text = "Hi.";
    let s = split_sentences(text);
    assert_eq!(stitch_sentences(text, &s, &[]).err(), Some(StitchError::NoAudio));
    assert_eq!(stitch_sentences(text, &s, &[(0, sentence(vec![], 24000, ""))]).err(), Some(StitchError::NoAudio));
}

#[test]
fn keys_come_from_sha256() {
    assert_eq!(hash_text("hello"), 0x0ea3b05fba4df22c);
    assert_eq!(hash_bytes(b"hello"), 0x0ea3b05fba4df22c);
    assert_ne!(hash_text("hello"), hash_text("hello "));
    assert_eq!(key_from_digest(&[1, 0, 0, 0, 0, 0, 0, 2, 9]), 0x0200000000000001);
    assert_eq!(key_file_name_exec(0x0ea3b05fba4df22c, "pcm"), "0ea3b05fba4df22c.pcm");
    assert_eq!(key_file_name_exec(0xff, "meta"), "00000000000000ff.meta");
}

#[test]
fn cache_write_then_hit_gives_the_same_entry() {
    let files = cache_write(42, &[1, 2, 3, 4], 24000, "word\tstart\tend\n");
    assert_eq!(files.pcm_name, "000000000000002a.pcm");
    assert_eq!(files.meta_name, "000000000000002a.meta");
    assert_eq!(files.tsv_name, "000000000000002a.tsv");
    assert_eq!(files.meta, "24000");
    let hit = cache_hit(Some(files.pcm), Some(files.meta), Some(files.tsv)).unwrap();
    assert_eq!(hit.pcm, vec![1, 2, 3, 4]);
    assert_eq!(hit.sample_rate, 24000);
    assert_eq!(hit.tsv_content, "word\tstart\tend\n");
}

#[test]
fn cache_hit_needs_pcm_and_rate() {
    assert!(cache_hit(None, Some("1".to_string()), None).is_none());
    assert!(cache_hit(Some(vec![1]), None, None).is_none());
    assert!(cache_hit(Some(vec![1]), Some("fast".to_string()), None).is_none());
    assert!(cache_hit(Some(vec![1]), Some("99999999999".to_string()), None).is_none());
    let c = cache_hit(Some(vec![1]), Some(" 22050\n".to_string()), None).unwrap();
    assert_eq!(c.sample_rate, 22050);
    assert_eq!(c.tsv_content, "");
}

#[test]
fn bundle_files_round_trip() {
    let timings = vec![
        WordTiming { word_index: 0, char_offset: 0, start_us: 0, end_us: 500000 },
        WordTiming { word_index: 1, char_offset: 6, start_us: 500000, end_us: 1000500 },
    ];
    assert_eq!(timings_file_text(&timings), "0\t0\t0\t500\n1\t6\t500\t1000.5\n");
    let wav = wav_wrap(&silence(8000), 4000);
    let files = bundle_write(7, &wav, &timings);
    assert_eq!(files.wav_name, "0000000000000007.wav");
    assert_eq!(files.timings_name, "0000000000000007.timings");
    let b = bundle_hit(Some(files.wav), Some(files.timings)).unwrap();
    assert_eq!(b.timings, timings);
    assert_eq!(b.duration_us, 1_000_000);
    assert_eq!(b.wav_bytes, wav);
}

#[test]
fn bundle_hit_rejects_bad_files() {
    let wav = wav_wrap(&silence(4), 8000);
    assert!(bundle_hit(None, Some(String::new())).is_none());
    assert!(bundle_hit(Some(wav.clone()), None).is_none());
    assert!(bundle_hit(Some(wav.clone()), Some("0\t0\tx\t1\n".to_string())).is_none());
    assert!(bundle_hit(Some(vec![1, 2, 3]), Some(String::new())).is_none());
    let b = bundle_hit(Some(wav), Some("skip me\n3\t9\t1.25\t2\n".to_string())).unwrap();
    assert_eq!(b.timings, vec![WordTiming { word_index: 3, char_offset: 9, start_us: 1250, end_us: 2000 }]);
}

#[test]
fn bundle_hit_serves_its_timings() {
    let text = "Hello world.";
    let timings = "0\t0\t0\t400\n1\t6\t400\t900\n";
    let wav = wav_wrap(&silence(1800), 1000);
    let b = bundle_hit(Some(wav.clone()), Some(timings.to_string())).unwrap();
    let ev = bundle_events(text, &b).unwrap();
    assert_eq!(ev.len(), 3);
    match &ev[0] {
        TTSEvent::WordBoundary { word, word_index, char_offset, start_us, end_us } => {
            assert_eq!(word, "Hello");
            assert_eq!((*word_index, *char_offset, *start_us, *end_us), (0, 0, 0, 400000));
        }
        _ => panic!("word first"),
    }
    match &ev[1] {
        TTSEvent::WordBoundary { word, start_us, end_us, .. } => {
            assert_eq!(word, "world.");
            assert_eq!((*start_us, *end_us), (400000, 900000));
        }
        _ => panic!("word second"),
    }
    match &ev[2] {
        TTSEvent::AudioReady { duration_us, audio_base64 } => {
            assert_eq!(*duration_us, 900000);
            assert_eq!(audio_base64.len(), 4 * ((wav.len() + 2) / 3));
            assert!(audio_base64.starts_with("UklGR"));
        }
        _ => panic!("audio last"),
    }
}

#[test]
fn audio_event_carries_base64() {
    let b = BundledAudio { wav_bytes: vec![0, 1, 2, 3], timings: vec![], duration_us: 5 };
    match &bundle_events("", &b).unwrap()[0] {
        TTSEvent::AudioReady { audio_base64, duration_us } => {
            assert_eq!(audio_base64, "AAECAw==");
            assert_eq!(*duration_us, 5);
        }
        _ => panic!("audio only"),
    }
}

#[test]
fn word_text_is_taken_from_the_text() {
    assert_eq!(text_word_at("Hello world.", 6), "world.");
    assert_eq!(text_word_at("Hello world.", 5), "world.");
    assert_eq!(text_word_at("Hello", 99), "");
    assert_eq!(text_word_at("Héllo wörld", 7), "wörld");
}

#[test]
fn synthesis_request_emits_words_then_audio() {
    let text = "Hello world. How are you?";
    let mut batch = SentenceBatch::new(text);
    let mut a = batch.next();
    let mut engine_runs = 0;
    let mut contexts = 0;
    loop {
        match a {
            BatchAction::LookUp { .. } => a = batch.on_lookup(None),
            BatchAction::ResolveContext => {
                contexts += 1;
                a = batch.on_context_resolved();
            }
            BatchAction::Synthesize { index } => {
                engine_runs += 1;
                let bytes = if index == 0 { 48000 } else { 24000 };
                a = batch.on_synthesized(sentence(silence(bytes), 24000, ""));
            }
            BatchAction::Done => break,
        }
    }
    assert_eq!(engine_runs, 2);
    assert_eq!(contexts, 1);
    let (spans, results) = batch.finish();
    assert_eq!(spans, vec![(0, 12), (13, 12)]);
    let st = stitch_sentences(text, &spans, &results).unwrap();
    let ev = stitched_events(text, &st).unwrap();
    let words: Vec<(String, usize)> = ev
        .iter()
        .filter_map(|e| match e {
            TTSEvent::WordBoundary { word, word_index, .. } => Some((word.clone(), *word_index)),
            _ => None,
        })
        .collect();
    assert_eq!(
        words,
        vec![("Hello".to_string(), 0), ("world.".to_string(), 1), ("How".to_string(), 2), ("are".to_string(), 3), ("you?".to_string(), 4)]
    );
    let mut last = 0;
    for e in &ev[..5] {
        if let TTSEvent::WordBoundary { start_us, .. } = e {
            assert!(*start_us >= last);
            last = *start_us;
        }
    }
    match &ev[5] {
        TTSEvent::AudioReady { duration_us, audio_base64 } => {
            assert_eq!(*duration_us, 1_000_000 + 500_000);
            assert_eq!(audio_base64.len(), 4 * ((72000 + 44 + 2) / 3));
        }
        _ => panic!("audio last"),
    }
}

#[test]
fn cached_batch_never_resolves_the_engine() {
    let mut batch = SentenceBatch::new("One. Two.");
    let k0 = match batch.next() {
        BatchAction::LookUp { index, key } => {
            assert_eq!(index, 0);
            key
        }
        _ => panic!("lookup first"),
    };
    assert_eq!(k0, hash_text("One."));
    let a = batch.on_lookup(Some(sentence(silence(2), 8000, "")));
    assert_eq!(a, BatchAction::LookUp { index: 1, key: hash_text("Two.") });
    assert_eq!(batch.on_lookup(Some(sentence(silence(2), 8000, ""))), BatchAction::Done);
}

#[test]
fn fallback_voice_masks_primary_failure() {
    let primary = primary_voice(None);
    assert_eq!(primary, DEFAULT_VOICE);
    let (voice, state) = match first_attempt(primary) {
        VoiceAction::Run { voice, state } => (voice, state),
        _ => panic!("run first"),
    };
    assert_eq!(voice, "am_michael");
    let (voice, state) = match after_attempt(state, Err("exit 1".to_string())) {
        VoiceAction::Run { voice, state } => (voice, state),
        _ => panic!("fallback expected"),
    };
    assert_eq!(voice, FALLBACK_VOICE);
    match after_attempt(state, Ok(sentence(silence(4), 24000, ""))) {
        VoiceAction::Done { sentence } => assert_eq!(sentence.pcm.len(), 4),
        _ => panic!("done expected"),
    }
}

#[test]
fn both_voices_failing_reports_both() {
    let state = VoiceState::Fallback { primary: "am_michael".to_string(), primary_error: "first".to_string() };
    match after_attempt(state, Err("second".to_string())) {
        VoiceAction::Failed { error } => {
            assert_eq!(
                error.message(),
                "koko failed for voice \"am_michael\": first. Fallback \"bf_emma\" also failed: second"
            );
        }
        _ => panic!("failure expected"),
    }
}

#[test]
fn fallback_primary_is_not_retried() {
    let state = VoiceState::Primary { primary: "bf_emma".to_string() };
    match after_attempt(state, Err("boom".to_string())) {
        VoiceAction::Failed { error: SentenceError::Engine { voice, message } } => {
            assert_eq!(voice, "bf_emma");
            assert_eq!(message, "boom");
        }
        _ => panic!("failure expected"),
    }
    assert_eq!(primary_voice(Some("af_sky".to_string())), "af_sky");
}

#[test]
fn second_export_does_nothing() {
    let hashes = vec![1u64, 2, 1, 3];
    let first = plan_export(&hashes, &[3]);
    assert_eq!(first, vec![0, 1]);
    let mut existing = vec![3u64];
    existing.extend(first.iter().map(|&i| hashes[i]));
    assert_eq!(plan_export(&hashes, &existing), Vec::<usize>::new());
    assert_eq!(plan_export(&[], &[]), Vec::<usize>::new());
}
