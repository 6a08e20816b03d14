use fdn_reverb::command::parse_command;
use fdn_reverb::filter::FilterType;
use fdn_reverb::parameter::{Parameter, ParameterChannel, MAX_CAPACITY};

fn every_parameter(value: u32) -> Vec<Parameter> {
    vec![
        Parameter::Absorbtion(value),
        Parameter::Size(value),
        Parameter::Decay(value),
        Parameter::SaturationHardness(value),
        Parameter::Progression(value),
        Parameter::DryWet(value),
        Parameter::Width(value),
        Parameter::PreDelay(value),
    ]
}

#[test]
fn parameters_are_numbered_in_order() {
    for (k, p) in every_parameter(42).iter().enumerate() {
        assert_eq!(p.index(), k as u32);
        assert_eq!(p.value(), 42);
        assert_eq!(Parameter::from_index(k as u32, 42), Some(*p));
    }
    assert_eq!(Parameter::from_index(8, 1), None);
    assert_eq!(Parameter::from_index(u32::MAX, 1), None);
}

#[test]
fn encode_puts_the_number_above_the_value() {
    assert_eq!(Parameter::Absorbtion(0).encode(), 0);
    assert_eq!(Parameter::Decay(0x3F4CCCCD).encode(), 0x0000_0002_3F4C_CCCD);
    assert_eq!(Parameter::PreDelay(u32::MAX).encode(), 0x0000_0007_FFFF_FFFF);
}

#[test]
fn decode_undoes_encode() {
    for value in [0u32, 1, 0x3F4CCCCD, u32::MAX] {
        for p in every_parameter(value) {
            assert_eq!(Parameter::decode(p.encode()), Some(p));
        }
    }
    assert_eq!(Parameter::decode(0x0000_0008_0000_0000), None);
    assert_eq!(Parameter::decode(u64::MAX), None);
    assert_eq!(Parameter::decode(0x0000_0001_0000_0005), Some(Parameter::Size(5)));
}

#[test]
fn float_values_pass_through_unchanged() {
    let sent = 0.8f32;
    let p = Parameter::Decay(sent.to_bits());
    let got = match Parameter::decode(p.encode()) {
        Some(Parameter::Decay(bits)) => f32::from_bits(bits),
        _ => panic!("the decay was lost"),
    };
    assert_eq!(got, sent);
}

#[test]
fn channel_is_first_in_first_out() {
    let mut channel = ParameterChannel::new(32).unwrap();
    assert_eq!(channel.try_dequeue(), None);
    for p in every_parameter(9) {
        assert!(channel.try_enqueue(p));
    }
    for p in every_parameter(9) {
        assert_eq!(channel.try_dequeue(), Some(p));
    }
    assert_eq!(channel.try_dequeue(), None);
}

#[test]
fn full_channel_drops_the_newest() {
    let mut channel = ParameterChannel::new(2).unwrap();
    assert!(channel.try_enqueue(Parameter::Size(1)));
    assert!(channel.try_enqueue(Parameter::Size(2)));
    assert!(!channel.try_enqueue(Parameter::Size(3)));
    assert!(!channel.try_enqueue(Parameter::Size(4)));
    assert_eq!(channel.try_dequeue(), Some(Parameter::Size(1)));
    assert!(channel.try_enqueue(Parameter::Size(5)));
    assert_eq!(channel.try_dequeue(), Some(Parameter::Size(2)));
    assert_eq!(channel.try_dequeue(), Some(Parameter::Size(5)));
    assert_eq!(channel.try_dequeue(), None);
}

#[test]
fn channel_wraps_around_many_times() {
    let mut channel = ParameterChannel::new(3).unwrap();
    for k in 0..100u32 {
        assert!(channel.try_enqueue(Parameter::Width(k)));
        assert!(channel.try_enqueue(Parameter::DryWet(k)));
        assert_eq!(channel.try_dequeue(), Some(Parameter::Width(k)));
        assert_eq!(channel.try_dequeue(), Some(Parameter::DryWet(k)));
    }
    assert_eq!(channel.try_dequeue(), None);
}

#[test]
fn channel_capacity_is_bounded() {
    assert!(ParameterChannel::new(0).is_none());
    assert!(ParameterChannel::new(1).is_some());
    assert!(ParameterChannel::new(65536).is_some());
    assert_eq!(MAX_CAPACITY, usize::MAX / 32);
    assert!(ParameterChannel::new(MAX_CAPACITY + 1).is_none());
    assert!(ParameterChannel::new(usize::MAX).is_none());
}

#[test]
fn commands_are_two_numbers_and_a_colon() {
    assert_eq!(parse_command(b"2:80"), Some((2, 80)));
    assert_eq!(parse_command(b"0:0"), Some((0, 0)));
    assert_eq!(parse_command(b"  5:100\r\n"), Some((5, 100)));
    assert_eq!(parse_command(b"\t1:25 "), Some((1, 25)));
    assert_eq!(parse_command(b"+3:+7"), Some((3, 7)));
    assert_eq!(parse_command(b"007:0010"), Some((7, 10)));
    assert_eq!(parse_command(b"1:2:3"), Some((1, 2)));
    assert_eq!(parse_command(b"1:2:"), Some((1, 2)));
    assert_eq!(parse_command(b"1:2:x y"), Some((1, 2)));
    assert_eq!(parse_command(b"99:4294967295"), Some((99, u32::MAX)));
    assert_eq!(parse_command(b"4294967295:1"), Some((u32::MAX, 1)));
}

#[test]
fn other_lines_are_no_commands() {
    assert_eq!(parse_command(b""), None);
    assert_eq!(parse_command(b"   "), None);
    assert_eq!(parse_command(b"12"), None);
    assert_eq!(parse_command(b":"), None);
    assert_eq!(parse_command(b"1:"), None);
    assert_eq!(parse_command(b":1"), None);
    assert_eq!(parse_command(b"a:1"), None);
    assert_eq!(parse_command(b"1:b"), None);
    assert_eq!(parse_command(b"1 :2"), None);
    assert_eq!(parse_command(b"1: 2"), None);
    assert_eq!(parse_command(b"-1:2"), None);
    assert_eq!(parse_command(b"1:-2"), None);
    assert_eq!(parse_command(b"+:1"), None);
    assert_eq!(parse_command(b"1:+"), None);
    assert_eq!(parse_command(b"++1:2"), None);
    assert_eq!(parse_command(b"1:4294967296"), None);
    assert_eq!(parse_command(b"4294967296:1"), None);
    assert_eq!(parse_command(b"1:99999999999999999999999"), None);
    assert_eq!(parse_command(b"1:2 3"), None);
    assert_eq!(parse_command(b"1::2"), None);
    assert_eq!(parse_command(b"1.5:2"), None);
}

#[test]
fn commands_agree_with_the_standard_parser() {
    let lines = [
        "2:80", " 3:7 ", "1:2:3", "+4:+5", "x:1", "1:x", "", ":", "1:", "10:4294967295",
        "10:4294967296", "0005:0", "1: 2", "\n6:1\n",
    ];
    for line in lines {
        let parts: Vec<&str> = line.trim().split(':').collect();
        let expected = if parts.len() >= 2 {
            match (parts[0].parse::<u32>(), parts[1].parse::<u32>()) {
                (Ok(i), Ok(v)) => Some((i, v)),
                _ => None,
            }
        } else {
            None
        };
        assert_eq!(parse_command(line.as_bytes()), expected);
    }
}

#[test]
fn filter_types_are_distinct_values() {
    let all = [
        FilterType::LowPass,
        FilterType::HighPass,
        FilterType::BandPass,
        FilterType::LowShelf,
        FilterType::HighShelf,
        FilterType::Peaking,
        FilterType::AllPass,
        FilterType::Notch,
    ];
    for (i, a) in all.iter().enumerate() {
        for (j, b) in all.iter().enumerate() {
            assert_eq!(a == b, i == j);
        }
    }
    let copy = all[3];
    assert_eq!(copy, FilterType::LowShelf);
}

#[test]
fn received_decodes_what_a_queue_handed_out() {
    assert_eq!(Parameter::received(None), None);
    assert_eq!(Parameter::received(Some(0x0000_0002_0000_0050)), Some(Parameter::Decay(0x50)));
    assert_eq!(Parameter::received(Some(0x0000_0009_0000_0050)), None);
}

#[test]
fn shared_channel_passes_changes_between_its_handles() {
    let control = ParameterChannel::new(2).unwrap().share();
    let render = control.clone();
    assert_eq!(render.try_dequeue(), None);
    assert_eq!(control.try_enqueue(Parameter::Size(1)), Ok(()));
    assert_eq!(control.try_enqueue(Parameter::Decay(2)), Ok(()));
    assert_eq!(control.try_enqueue(Parameter::Width(3)), Err(Parameter::Width(3)));
    assert_eq!(render.try_dequeue(), Some(Parameter::Size(1)));
    assert_eq!(control.try_enqueue(Parameter::DryWet(4)), Ok(()));
    assert_eq!(render.try_dequeue(), Some(Parameter::Decay(2)));
    assert_eq!(render.try_dequeue(), Some(Parameter::DryWet(4)));
    assert_eq!(render.try_dequeue(), None);
    assert_eq!(control.try_dequeue(), None);
}

#[test]
fn sharing_keeps_what_the_channel_holds() {
    let mut channel = ParameterChannel::new(4).unwrap();
    assert!(channel.try_enqueue(Parameter::PreDelay(7)));
    assert!(channel.try_enqueue(Parameter::Absorbtion(8)));
    let shared = channel.share();
    assert_eq!(shared.try_dequeue(), Some(Parameter::PreDelay(7)));
    assert_eq!(shared.try_dequeue(), Some(Parameter::Absorbtion(8)));
    assert_eq!(shared.try_dequeue(), None);
}

#[test]
fn white_space_of_more_than_one_byte_is_passed_over() {
    assert_eq!(parse_command("\u{a0}2:80\u{2003}".as_bytes()), Some((2, 80)));
    assert_eq!(parse_command("\u{85}\u{1680} 3:7\u{3000}\n".as_bytes()), Some((3, 7)));
    assert_eq!(parse_command("\u{2028}\u{2029}4:1\u{202f}\u{205f}".as_bytes()), Some((4, 1)));
    assert_eq!(parse_command("1\u{a0}:2".as_bytes()), None);
    assert_eq!(parse_command("1:\u{2000}2".as_bytes()), None);
    assert_eq!(parse_command("\u{200b}1:2".as_bytes()), None);
    assert_eq!(parse_command("\u{a0}\u{2003}".as_bytes()), None);
}

#[test]
fn trimming_agrees_with_the_standard_one_for_every_white_space() {
    let mut spaces: Vec<char> = Vec::new();
    for code in 0u32..0x3100 {
        if let Some(c) = char::from_u32(code) {
            if c.is_whitespace() {
                spaces.push(c);
            }
        }
    }
    assert_eq!(spaces.len(), 25);
    for c in spaces.iter() {
        for d in spaces.iter() {
            let line = format!("{}{}5:17{}{}", c, d, d, c);
            assert_eq!(parse_command(line.as_bytes()), Some((5, 17)));
            let inside = format!("5{}:17", c);
            assert_eq!(parse_command(inside.as_bytes()), None);
        }
    }
    for code in 0x80u32..0x3100 {
        if let Some(c) = char::from_u32(code) {
            if !c.is_whitespace() {
                let line = format!("{}5:17", c);
                assert_eq!(parse_command(line.as_bytes()), None);
                let line = format!("5:17{}", c);
                assert_eq!(parse_command(line.as_bytes()), None);
            }
        }
    }
}
