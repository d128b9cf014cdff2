use vad_pipeline::pipeline::Pipeline;
use vad_pipeline::segment::SegmenterConfig;
use vad_pipeline::transfer::TransferBuffer;

/// One second of speech at amplitude 3000, then just over five seconds of
/// low-level noise, through the whole pipeline at a 16 kHz target rate:
/// exactly one utterance comes out, holding the speech plus the quiet
/// tail up to the five-second cutoff.
#[test]
fn one_utterance_from_speech_then_silence() {
    let rate: usize = 16000;
    let config = SegmenterConfig::from_duration(1500, 5, rate);
    let mut ring = TransferBuffer::new(2 * rate);
    let mut pipe = Pipeline::new(rate as u32, rate as u32, config);

    // one second of deterministic startup latency
    assert_eq!(ring.preload_silence(rate), rate);

    let mut input: Vec<i16> = Vec::new();
    for _ in 0..rate {
        input.push(3000);
    }
    for _ in 0..(5 * rate + rate / 10) {
        input.push(100);
    }

    let mut utterances: Vec<Vec<i16>> = Vec::new();
    let mut talk_events: usize = 0;
    let mut talking = false;
    for &s in &input {
        assert!(ring.push(s));
        if let Some(popped) = ring.pop() {
            let flushes = pipe.process_sample(popped);
            utterances.extend(flushes);
            if !talking && pipe.is_talking() {
                talk_events += 1;
            }
            talking = pipe.is_talking();
        }
    }
    // drain what the one-second preload left behind
    while let Some(popped) = ring.pop() {
        let flushes = pipe.process_sample(popped);
        utterances.extend(flushes);
        if !talking && pipe.is_talking() {
            talk_events += 1;
        }
        talking = pipe.is_talking();
    }

    // one talking notification, one flush; the recognizer would be
    // invoked exactly once, on speech plus the quiet run that ended it
    assert_eq!(talk_events, 1);
    assert_eq!(utterances.len(), 1);
    assert_eq!(utterances[0].len(), rate + 5 * rate + 1);
    assert!(utterances[0][..rate].iter().all(|&s| s == 3000));
    assert!(utterances[0][rate..].iter().all(|&s| s == 100));
    assert!(!pipe.is_talking());
    assert_eq!(pipe.buffered_len(), 0);
}

/// Quiet-only audio, preload included, never produces an utterance.
#[test]
fn quiet_only_audio_is_never_transcribed() {
    let rate: usize = 16000;
    let config = SegmenterConfig::from_duration(1500, 5, rate);
    let mut ring = TransferBuffer::new(2 * rate);
    let mut pipe = Pipeline::new(rate as u32, rate as u32, config);
    ring.preload_silence(rate);
    for _ in 0..(7 * rate) {
        ring.push(700);
        if let Some(popped) = ring.pop() {
            let flushes = pipe.process_sample(popped);
            assert!(flushes.is_empty());
        }
    }
    while let Some(popped) = ring.pop() {
        let flushes = pipe.process_sample(popped);
        assert!(flushes.is_empty());
    }
    assert!(!pipe.is_talking());
    assert_eq!(pipe.buffered_len(), 0);
}

/// A capture rate above the target rate still yields one utterance of
/// target-rate samples.
#[test]
fn pipeline_converts_rate_before_segmenting() {
    let config = SegmenterConfig::from_sample_count(1000, 4);
    let mut pipe = Pipeline::new(32000, 16000, config);
    let mut utterances: Vec<Vec<i16>> = Vec::new();
    // 8 voiced source samples become 4 voiced converted samples
    for _ in 0..8 {
        utterances.extend(pipe.process_sample(2000));
    }
    // 12 quiet source samples become 6 quiet converted samples
    for _ in 0..12 {
        utterances.extend(pipe.process_sample(0));
    }
    assert_eq!(utterances.len(), 1);
    assert_eq!(utterances[0], vec![2000, 2000, 2000, 2000, 0, 0, 0, 0, 0]);
}
