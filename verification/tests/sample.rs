use fdn_reverb::sample::{LoopPlayer, Sample};

fn ramp(len: usize, channels: u32) -> Sample<f32> {
    let data: Vec<f32> = (0..len).map(|k| k as f32).collect();
    Sample::new("ramp.wav".to_string(), channels, 48000, data)
}

#[test]
fn sample_hands_back_what_it_was_given() {
    let sample = ramp(10, 2);
    assert_eq!(sample.name(), "ramp.wav");
    assert_eq!(sample.channels(), 2);
    assert_eq!(sample.rate(), 48000);
    assert_eq!(sample.frames(), 5);
    assert_eq!(*sample.index(0), 0.0);
    assert_eq!(*sample.index(9), 9.0);
    assert_eq!(ramp(11, 2).frames(), 5);
    assert_eq!(ramp(3, 4).frames(), 0);
}

#[test]
fn slice_is_cut_at_the_end() {
    let sample = ramp(10, 1);
    assert_eq!(sample.slice(0, 4), &[0.0, 1.0, 2.0, 3.0]);
    assert_eq!(sample.slice(8, 4), &[8.0, 9.0]);
    assert_eq!(sample.slice(6, 4), &[6.0, 7.0, 8.0, 9.0]);
    assert_eq!(sample.slice(10, 4), &[] as &[f32]);
    assert_eq!(sample.slice(3, 0), &[] as &[f32]);
    assert_eq!(sample.slice(3, usize::MAX), &[3.0, 4.0, 5.0, 6.0, 7.0, 8.0, 9.0]);
    assert_eq!(sample.slice(0, 10).len(), 10);
}

#[test]
fn loop_player_wraps_at_the_frame_count() {
    let mut player = LoopPlayer::new(ramp(3, 1));
    let mut frames = [0.0f32; 8];
    player.extract(&mut frames);
    assert_eq!(frames, [0.0, 1.0, 2.0, 0.0, 1.0, 2.0, 0.0, 1.0]);
    let mut more = [0.0f32; 2];
    player.extract(&mut more);
    assert_eq!(more, [2.0, 0.0]);
    let mut none: [f32; 0] = [];
    player.extract(&mut none);
    player.extract(&mut more);
    assert_eq!(more, [1.0, 2.0]);
}

#[test]
fn loop_player_of_a_stereo_sample_wraps_at_half_its_samples() {
    let mut player = LoopPlayer::new(ramp(6, 2));
    let mut frames = [0.0f32; 7];
    player.extract(&mut frames);
    assert_eq!(frames, [0.0, 1.0, 2.0, 0.0, 1.0, 2.0, 0.0]);
}

#[test]
fn loop_player_of_one_frame_repeats_it() {
    let mut player = LoopPlayer::new(Sample::new("one".to_string(), 1, 8000, vec![7i16]));
    let mut frames = [0i16; 3];
    player.extract(&mut frames);
    assert_eq!(frames, [7, 7, 7]);
}
