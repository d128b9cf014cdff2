use vad_pipeline::downmix::DownmixError;
use vad_pipeline::downmix::downmix;
use vad_pipeline::downmix::downmix_stereo;

#[test]
fn stereo_even_length_pairs_are_averaged() {
    let input: Vec<i16> = vec![10, 20, -10, -20, 7, 8];
    let out = downmix_stereo(&input);
    assert_eq!(out, vec![15, -15, 7]);
}

#[test]
fn stereo_mean_truncates_toward_zero() {
    // (-3 + 2) = -1, truncated mean is 0; (3 + -2) = 1, truncated mean is 0
    let input: Vec<i16> = vec![-3, 2, 3, -2, -7, -8];
    let out = downmix_stereo(&input);
    assert_eq!(out, vec![0, 0, -7]);
}

#[test]
fn stereo_odd_length_passes_last_sample_through() {
    let input: Vec<i16> = vec![100, 200, 31];
    let out = downmix_stereo(&input);
    assert_eq!(out, vec![150, 31]);
}

#[test]
fn stereo_empty_input_yields_empty_output() {
    let input: Vec<i16> = Vec::new();
    let out = downmix_stereo(&input);
    assert!(out.is_empty());
}

#[test]
fn stereo_extreme_amplitudes_do_not_overflow() {
    let input: Vec<i16> = vec![i16::MIN, i16::MIN, i16::MAX, i16::MAX, i16::MIN, i16::MAX];
    let out = downmix_stereo(&input);
    assert_eq!(out, vec![i16::MIN, i16::MAX, 0]);
}

#[test]
fn downmix_mono_is_identity() {
    let input: Vec<i16> = vec![5, -6, 7];
    let out = downmix(&input, 1).unwrap();
    assert_eq!(out, input);
}

#[test]
fn downmix_two_channels_averages() {
    let input: Vec<i16> = vec![1000, 2000];
    let out = downmix(&input, 2).unwrap();
    assert_eq!(out, vec![1500]);
}

#[test]
fn downmix_rejects_other_channel_counts() {
    let input: Vec<i16> = vec![1, 2, 3];
    assert_eq!(downmix(&input, 0), Err(DownmixError::UnsupportedChannelCount));
    assert_eq!(downmix(&input, 3), Err(DownmixError::UnsupportedChannelCount));
    assert_eq!(downmix(&input, 6), Err(DownmixError::UnsupportedChannelCount));
}
