use vad_pipeline::segment::Segmenter;
use vad_pipeline::segment::SegmenterConfig;

#[test]
fn quiet_only_input_never_flushes() {
    let mut seg = Segmenter::new(SegmenterConfig::from_sample_count(1000, 3));
    let quiet: Vec<i16> = vec![0, 500, -999, 1000, -1000, 12, 0, 0, 0, 0, 0, 0, 0, 0];
    let flushes = seg.push_samples(&quiet);
    assert!(flushes.is_empty());
    assert!(!seg.is_talking());
    assert_eq!(seg.buffered_len(), 0);
}

#[test]
fn first_voiced_sample_reports_talking_started() {
    let mut seg = Segmenter::new(SegmenterConfig::from_sample_count(1000, 3));
    let (started, flushed) = seg.push_sample(500);
    assert!(!started);
    assert!(flushed.is_none());
    let (started, flushed) = seg.push_sample(1001);
    assert!(started);
    assert!(flushed.is_none());
    let (started, _) = seg.push_sample(2000);
    assert!(!started);
    assert!(seg.is_talking());
    assert_eq!(seg.buffered_len(), 2);
}

#[test]
fn negative_amplitudes_count_as_voiced() {
    let mut seg = Segmenter::new(SegmenterConfig::from_sample_count(1000, 3));
    let (started, _) = seg.push_sample(-1001);
    assert!(started);
    assert!(seg.is_talking());
}

#[test]
fn utterance_flushes_once_silence_exceeds_limit() {
    let mut seg = Segmenter::new(SegmenterConfig::from_sample_count(1000, 3));
    let input: Vec<i16> = vec![2000, -2000, 100, 100, 100, 100, 100, 100, 100];
    let flushes = seg.push_samples(&input);
    // the fourth quiet sample crosses the limit of three
    assert_eq!(flushes.len(), 1);
    assert_eq!(flushes[0], vec![2000, -2000, 100, 100, 100, 100]);
    assert!(!seg.is_talking());
    assert_eq!(seg.buffered_len(), 0);
}

#[test]
fn quiet_pauses_within_an_utterance_are_kept() {
    let mut seg = Segmenter::new(SegmenterConfig::from_sample_count(1000, 3));
    // quiet runs of three stay below the limit; a voiced sample resets it
    let input: Vec<i16> = vec![1500, 0, 0, 0, 1500, 0, 0, 0, 1500];
    let flushes = seg.push_samples(&input);
    assert!(flushes.is_empty());
    assert!(seg.is_talking());
    assert_eq!(seg.buffered_len(), 9);
}

#[test]
fn buffer_resets_after_flush_and_new_utterance_is_independent() {
    let mut seg = Segmenter::new(SegmenterConfig::from_sample_count(1000, 2));
    let first: Vec<i16> = vec![3000, 0, 0, 0];
    let flushes = seg.push_samples(&first);
    assert_eq!(flushes.len(), 1);
    assert_eq!(flushes[0], vec![3000, 0, 0, 0]);
    assert_eq!(seg.buffered_len(), 0);
    // a fresh voiced sample opens a fresh utterance
    let (started, flushed) = seg.push_sample(1200);
    assert!(started);
    assert!(flushed.is_none());
    assert!(seg.is_talking());
    assert_eq!(seg.buffered_len(), 1);
    let second: Vec<i16> = vec![0, 0, 0];
    let flushes = seg.push_samples(&second);
    assert_eq!(flushes.len(), 1);
    assert_eq!(flushes[0], vec![1200, 0, 0, 0]);
}

#[test]
fn two_utterances_flush_separately() {
    let mut seg = Segmenter::new(SegmenterConfig::from_sample_count(1000, 1));
    let input: Vec<i16> = vec![1500, 0, 0, 0, 0, -1800, 0, 0];
    let flushes = seg.push_samples(&input);
    assert_eq!(flushes.len(), 2);
    assert_eq!(flushes[0], vec![1500, 0, 0]);
    assert_eq!(flushes[1], vec![-1800, 0, 0]);
}

#[test]
fn threshold_boundary_is_strict() {
    // a sample exactly at the threshold is quiet
    let mut seg = Segmenter::new(SegmenterConfig::from_sample_count(1000, 5));
    let input: Vec<i16> = vec![1000, -1000, 1000];
    let flushes = seg.push_samples(&input);
    assert!(flushes.is_empty());
    assert!(!seg.is_talking());
}

#[test]
fn duration_policy_converts_seconds_at_target_rate() {
    let cfg = SegmenterConfig::from_duration(1500, 5, 16000);
    assert_eq!(cfg.silence_limit, 80000);
    assert_eq!(cfg.threshold, 1500);
}
