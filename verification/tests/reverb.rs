use fdn_reverb::reverb::{FDNReverb, CHANNELS, INITIAL_SIZE, SMALLEST_SIZE};
use fdn_reverb::utils::{gcd, Bounds, Ratio};

fn floats(rate: u32) -> Option<(FDNReverb<f32>, Vec<u64>)> {
    let gain = Bounds { lowest: 0.0f32, highest: 0.6 };
    let feedback = Bounds { lowest: 0.0f32, highest: 0.98 };
    FDNReverb::new(rate, 0.0, 0.8, gain, feedback)
}

fn wholes(rate: u32) -> Option<(FDNReverb<i32>, Vec<u64>)> {
    let gain = Bounds { lowest: 0, highest: 6 };
    let feedback = Bounds { lowest: 0, highest: 9 };
    FDNReverb::new(rate, 0, 8, gain, feedback)
}

#[test]
fn new_network_at_48000() {
    let (reverb, lengths) = floats(48000).unwrap();
    assert_eq!(reverb.sample_rate(), 48000);
    assert_eq!(lengths, vec![14400, 16709, 19387, 22489]);
    assert_eq!(CHANNELS, 4);
    assert_eq!(INITIAL_SIZE, 300_000);
    assert_eq!(SMALLEST_SIZE, 1_000);
}

#[test]
fn new_network_at_44100() {
    let (_, lengths) = floats(44100).unwrap();
    assert_eq!(lengths, vec![13230, 15347, 17803, 20651]);
}

#[test]
fn new_network_needs_a_frame_of_pre_delay() {
    assert!(floats(0).is_none());
    assert!(floats(6).is_none());
    let (_, lengths) = floats(7).unwrap();
    assert_eq!(lengths, vec![2, 3, 5, 7]);
}

#[test]
fn new_network_is_silent_and_delays_by_its_lengths() {
    let (mut reverb, lengths) = wholes(100).unwrap();
    assert_eq!(lengths, vec![30, 37, 43, 49]);
    for channel in 0..CHANNELS {
        let d = lengths[channel] as usize;
        for k in 0..3 * d {
            let x = 1000 + k as i32;
            let out = reverb.delay(channel, x);
            assert_eq!(out, if k >= d { 1000 + (k - d) as i32 } else { 0 });
            let (delayed_in, delayed_out) = reverb.allpass_fetch(channel, x);
            reverb.allpass_store(channel, -x);
            assert_eq!(delayed_in, if k >= d { 1000 + (k - d) as i32 } else { 0 });
            assert_eq!(delayed_out, if k >= d { -(1000 + (k - d) as i32) } else { 0 });
        }
    }
    assert_eq!(reverb.pre_delay(5), 5);
    assert_eq!(reverb.pre_delay(6), 6);
}

#[test]
fn delays_of_a_second_at_most() {
    // at 10 frames a second the plan is 3, 4, 5, 7 and a line holds 10 frames
    let (mut reverb, lengths) = wholes(10).unwrap();
    assert_eq!(lengths, vec![3, 4, 5, 7]);
    // a room of 10 km asks for more than a second: every delay becomes 9
    let (delays, all_passes) = reverb.set_size(10_000_000).unwrap();
    assert_eq!(delays, vec![60, 71, 83, 97]);
    assert_eq!(all_passes, vec![8, 9, 11, 13]);
    for channel in 0..CHANNELS {
        for k in 0..30 {
            let out = reverb.delay(channel, 100 + k);
            assert_eq!(out, if k >= 9 { 100 + k - 9 } else { 0 });
        }
    }
    // the allpass sections hold twice their first lengths: 6, 8, 10, 14
    let expected = [5usize, 7, 9, 13];
    for channel in 0..CHANNELS {
        for k in 0..40usize {
            let (delayed_in, _) = reverb.allpass_fetch(channel, 100 + k as i32);
            reverb.allpass_store(channel, 0);
            let d = expected[channel];
            assert_eq!(delayed_in, if k >= d { 100 + (k - d) as i32 } else { 0 });
        }
    }
}

#[test]
fn set_size_derives_both_plans() {
    let (mut reverb, _) = floats(48000).unwrap();
    let (delays, all_passes) = reverb.set_size(10_000).unwrap();
    // 10 m: 10000 * 48000 / 1650000 = 290, and / 11550000 = 41
    assert_eq!(delays[0], 290);
    assert_eq!(all_passes[0], 41);
    for plan in [&delays, &all_passes] {
        assert_eq!(plan.len(), 4);
        for i in 0..4 {
            for j in i + 1..4 {
                assert!(plan[i] < plan[j]);
                assert_eq!(gcd(plan[i], plan[j]), 1);
            }
        }
    }
    assert_eq!(delays, vec![290, 337, 391, 453]);
    assert_eq!(all_passes, vec![41, 47, 54, 65]);
}

#[test]
fn sizes_under_a_metre_count_as_a_metre() {
    let (mut reverb, _) = floats(48000).unwrap();
    let small = reverb.set_size(0).unwrap();
    let metre = reverb.set_size(1000).unwrap();
    assert_eq!(small, metre);
    assert_eq!(metre.0[0], 29);
    assert_eq!(metre.1[0], 4);
}

#[test]
fn set_progression_uses_the_size_in_force() {
    let (mut reverb, _) = floats(48000).unwrap();
    reverb.set_size(10_000).unwrap();
    let (delays, all_passes) = reverb.set_progression(Ratio { numer: 3, denom: 2 }).unwrap();
    // 657 * 3 / 2 = 985; 985 to 990 each share a factor with 290, 437 or 657
    assert_eq!(delays, vec![290, 437, 657, 991]);
    assert_eq!(all_passes, vec![41, 61, 91, 136]);
    let again = reverb.set_size(10_000).unwrap();
    assert_eq!(again.0, vec![290, 437, 657, 991]);
}

#[test]
fn progression_is_kept_between_one_and_four() {
    let (mut reverb, _) = wholes(1000).unwrap();
    // 33 m at 1000 frames a second: 20 frames for the delays, 2 for the sections
    let (delays, all_passes) = reverb.set_size(33_000).unwrap();
    assert_eq!(delays, vec![20, 23, 27, 31]);
    assert_eq!(all_passes, vec![2, 3, 5, 7]);
    for above in [
        Ratio { numer: 9, denom: 1 },
        Ratio { numer: u64::MAX, denom: 1 },
        Ratio { numer: 1, denom: 0 },
        Ratio { numer: 0, denom: 0 },
        Ratio { numer: 4, denom: 1 },
        Ratio { numer: 9, denom: 2 },
    ] {
        let (delays, all_passes) = reverb.set_progression(above).unwrap();
        assert_eq!(delays, vec![20, 81, 329, 1319]);
        assert_eq!(all_passes, vec![2, 9, 37, 149]);
    }
    for below in [
        Ratio { numer: 1, denom: 2 },
        Ratio { numer: 0, denom: 5 },
        Ratio { numer: 1, denom: 1 },
        Ratio { numer: 1, denom: u64::MAX },
    ] {
        let (delays, all_passes) = reverb.set_progression(below).unwrap();
        assert_eq!(delays, vec![20, 21, 23, 29]);
        assert_eq!(all_passes, vec![2, 3, 5, 7]);
    }
    let (delays, all_passes) = reverb.set_progression(Ratio { numer: 5, denom: 2 }).unwrap();
    assert_eq!(delays, vec![20, 51, 127, 317]);
    assert_eq!(all_passes, vec![2, 5, 13, 33]);
    // the progression in force stays for the next size
    let (mut floats, _) = floats(48000).unwrap();
    floats.set_progression(Ratio { numer: 5, denom: 2 }).unwrap();
    let (delays, all_passes) = floats.set_size(10_000).unwrap();
    assert_eq!(delays, vec![290, 727, 1817, 4543]);
    assert_eq!(all_passes, vec![41, 102, 257, 643]);
}

#[test]
fn where_no_plan_exists_nothing_changes() {
    let (mut reverb, _) = wholes(100).unwrap();
    // 33 m at 100 frames a second: 2 frames for the delays, none for the
    // sections; after a length of zero only one can follow, so a progression
    // of two or more has no plan
    let (delays, all_passes) = reverb.set_size(33_000).unwrap();
    assert_eq!(delays, vec![2, 3, 5, 7]);
    assert_eq!(all_passes, vec![0, 1, 1, 1]);
    assert!(reverb.set_progression(Ratio { numer: 3, denom: 1 }).is_none());
    let (delays, all_passes) = reverb.set_size(33_000).unwrap();
    assert_eq!(delays, vec![2, 3, 5, 7]);
    assert_eq!(all_passes, vec![0, 1, 1, 1]);
    reverb.set_size(330_000).unwrap();
    reverb.set_progression(Ratio { numer: 3, denom: 1 }).unwrap();
    assert!(reverb.set_size(33_000).is_none());
    let (delays, _) = reverb.set_size(330_000).unwrap();
    assert_eq!(delays[0], 20);
}

#[test]
fn pre_delay_is_set_in_microseconds() {
    let (mut reverb, _) = wholes(1000).unwrap();
    // 150 frames of memory
    reverb.set_pre_delay(20_000);
    for k in 0..60 {
        assert_eq!(reverb.pre_delay(100 + k), if k >= 20 { 100 + k - 20 } else { 0 });
    }
    reverb.set_pre_delay(0);
    assert_eq!(reverb.pre_delay(7), 7);
    reverb.set_pre_delay(999);
    assert_eq!(reverb.pre_delay(8), 8);
    reverb.set_pre_delay(u32::MAX);
    for k in 0..200 {
        let out = reverb.pre_delay(1000 + k);
        if k >= 149 {
            assert_eq!(out, 1000 + k - 149);
        }
    }
}

#[test]
fn half_a_millisecond_of_pre_delay_is_24_frames_at_48000() {
    let (mut reverb, _) = floats(48000).unwrap();
    reverb.set_pre_delay(500);
    for k in 0..100 {
        let out = reverb.pre_delay(1.0 + k as f32);
        assert_eq!(out, if k >= 24 { 1.0 + (k - 24) as f32 } else { 0.0 });
    }
}

#[test]
fn new_network_begins_at_its_decay_brought_into_range() {
    let (reverb, _) = floats(48000).unwrap();
    assert_eq!(reverb.feedback_amount(), 0.8);
    for channel in 0..CHANNELS {
        assert_eq!(reverb.gain(channel), 0.6);
    }
    let (reverb, _) = wholes(100).unwrap();
    assert_eq!(reverb.feedback_amount(), 8);
    for channel in 0..CHANNELS {
        assert_eq!(reverb.gain(channel), 6);
    }
}

#[test]
fn set_decay_of_two_stores_the_stable_values() {
    let (mut reverb, _) = floats(48000).unwrap();
    reverb.set_decay(2.0);
    assert_eq!(reverb.feedback_amount(), 0.98);
    assert!(0.0 <= reverb.feedback_amount() && reverb.feedback_amount() < 1.0);
    for channel in 0..CHANNELS {
        assert_eq!(reverb.gain(channel), 0.6);
    }
    reverb.set_decay(0.25);
    assert_eq!(reverb.feedback_amount(), 0.25);
    for channel in 0..CHANNELS {
        assert_eq!(reverb.gain(channel), 0.25);
    }
    reverb.set_decay(0.75);
    assert_eq!(reverb.feedback_amount(), 0.75);
    for channel in 0..CHANNELS {
        assert_eq!(reverb.gain(channel), 0.6);
    }
    reverb.set_decay(-1.0);
    assert_eq!(reverb.feedback_amount(), 0.0);
    for channel in 0..CHANNELS {
        assert_eq!(reverb.gain(channel), 0.0);
    }
    reverb.set_decay(f32::INFINITY);
    assert_eq!(reverb.feedback_amount(), 0.98);
    assert_eq!(reverb.gain(0), 0.6);
}

#[test]
fn set_decay_reaches_every_section_and_keeps_the_memory() {
    let (mut reverb, _) = wholes(10).unwrap();
    for channel in 0..CHANNELS {
        reverb.allpass_fetch(channel, 5);
        reverb.allpass_store(channel, 6);
        reverb.delay(channel, 7);
    }
    reverb.set_decay(100);
    assert_eq!(reverb.feedback_amount(), 9);
    let lengths = [3usize, 4, 5, 7];
    for channel in 0..CHANNELS {
        assert_eq!(reverb.gain(channel), 6);
        for k in 1..=lengths[channel] {
            let taps = reverb.allpass_fetch(channel, 0);
            reverb.allpass_store(channel, 0);
            assert_eq!(taps, if k == lengths[channel] { (5, 6) } else { (0, 0) });
            let out = reverb.delay(channel, 0);
            assert_eq!(out, if k == lengths[channel] { 7 } else { 0 });
        }
    }
    assert_eq!(reverb.sample_rate(), 10);
}
