use vad_pipeline::resample::RateConverter;

fn feed_all(conv: &mut RateConverter, input: &[i16]) -> Vec<i16> {
    let mut out: Vec<i16> = Vec::new();
    for &s in input {
        let mut chunk = conv.push_source(s);
        out.append(&mut chunk);
    }
    out
}

#[test]
fn equal_rates_pass_samples_through_unchanged() {
    let mut conv = RateConverter::new(16000, 16000);
    let input: Vec<i16> = vec![0, 1, -1, 32767, -32768, 1234, -4321];
    let out = feed_all(&mut conv, &input);
    assert_eq!(out, input);
}

#[test]
fn downsampling_by_two_keeps_every_other_sample() {
    let mut conv = RateConverter::new(32000, 16000);
    let input: Vec<i16> = vec![10, 20, 30, 40, 50, 60, 70];
    let out = feed_all(&mut conv, &input);
    assert_eq!(out, vec![10, 30, 50, 70]);
}

#[test]
fn upsampling_by_two_interpolates_midpoints() {
    let mut conv = RateConverter::new(16000, 32000);
    let input: Vec<i16> = vec![0, 10, -10];
    let out = feed_all(&mut conv, &input);
    // midpoints: between 0 and 10 -> 5; between 10 and -10 -> 0
    assert_eq!(out, vec![0, 5, 10, 0, -10]);
}

#[test]
fn interpolation_truncates_toward_the_earlier_sample() {
    let mut conv = RateConverter::new(16000, 32000);
    let input: Vec<i16> = vec![0, 5, 0, -5];
    let out = feed_all(&mut conv, &input);
    // rising 0..5 midpoint truncates down to 2; falling 5..0 midpoint
    // truncates toward 5, giving 3
    assert_eq!(out, vec![0, 2, 5, 3, 0, -2, -5]);
}

#[test]
fn three_to_two_conversion_follows_fractional_positions() {
    let mut conv = RateConverter::new(48000, 32000);
    let input: Vec<i16> = vec![0, 100, 200, 300, 400, 500];
    // output j sits at source position 3*j/2: 0, 1.5, 3, 4.5
    let out = feed_all(&mut conv, &input);
    assert_eq!(out, vec![0, 150, 300, 450]);
}

#[test]
fn single_sample_is_emitted_once() {
    let mut conv = RateConverter::new(44100, 16000);
    let out = feed_all(&mut conv, &[123]);
    assert_eq!(out, vec![123]);
}

#[test]
fn no_source_samples_yield_no_output() {
    let mut conv = RateConverter::new(44100, 16000);
    let out = feed_all(&mut conv, &[]);
    assert!(out.is_empty());
}
