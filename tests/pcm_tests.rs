use pyin_rs::feeder::HopFeeder;
use pyin_rs::pcm::{encode_pcm16le, parse_pcm16le_to_i16, parse_pcm32le_words, sample_from_le, PcmFormat};

#[test]
fn pcm_parsing_roundtrip_i16le() {
    let samples: [i16; 4] = [0, 32767, -32768, 12345];
    let mut bytes = Vec::new();
    for s in samples.iter() {
        bytes.extend_from_slice(&s.to_le_bytes());
    }

    let mut leftover = Vec::new();
    let decoded = parse_pcm16le_to_i16(&bytes, &mut leftover);
    assert!(leftover.is_empty());
    assert_eq!(decoded, samples);
}

#[test]
fn odd_byte_leftover_across_pushes() {
    let mut feeder = HopFeeder::for_timing(48_000, 20, 10);
    feeder.push_bytes(&[0x34]);
    assert_eq!(feeder.queued(), 0);
    assert_eq!(feeder.carry_byte(), Some(0x34));

    feeder.push_bytes(&[0x12, 0x78, 0x56]);
    assert_eq!(feeder.queued_sample(0), Some(0x1234));
    assert_eq!(feeder.queued_sample(1), Some(0x5678));
}

#[test]
fn reassembler_boundary_keeps_one_carry_byte() {
    let mut leftover = Vec::new();
    let first = parse_pcm16le_to_i16(&[0x34], &mut leftover);
    assert!(first.is_empty());
    assert_eq!(leftover, vec![0x34]);
    let second = parse_pcm16le_to_i16(&[0x12, 0x78, 0x56], &mut leftover);
    assert_eq!(second, vec![0x1234, 0x5678]);
    assert!(leftover.is_empty());
}

#[test]
fn chunked_parse_matches_single_shot() {
    let bytes: Vec<u8> = (0..101u32).map(|i| (i * 37 % 251) as u8).collect();
    let mut whole_left = Vec::new();
    let whole = parse_pcm16le_to_i16(&bytes, &mut whole_left);
    for split in [1usize, 2, 3, 7, 50] {
        let mut left = Vec::new();
        let mut streamed = Vec::new();
        for chunk in bytes.chunks(split) {
            streamed.extend(parse_pcm16le_to_i16(chunk, &mut left));
        }
        assert_eq!(streamed, whole);
        assert_eq!(left, whole_left);
    }
    assert_eq!(whole.len(), 50);
    assert_eq!(whole_left.len(), 1);
}

#[test]
fn chunked_words_match_single_shot() {
    let bytes: Vec<u8> = (0..23u32).map(|i| (i * 13 + 5) as u8).collect();
    let mut whole_left = Vec::new();
    let whole = parse_pcm32le_words(&bytes, &mut whole_left);
    let mut left = Vec::new();
    let mut streamed = Vec::new();
    for chunk in bytes.chunks(3) {
        streamed.extend(parse_pcm32le_words(chunk, &mut left));
    }
    assert_eq!(streamed, whole);
    assert_eq!(left, whole_left);
    assert_eq!(whole.len(), 5);
    assert_eq!(left.len(), 3);
}

#[test]
fn f32_words_are_ieee_bit_patterns() {
    let values = [0.5f32, -1.0, 0.25];
    let mut bytes = Vec::new();
    for v in values.iter() {
        bytes.extend_from_slice(&v.to_le_bytes());
    }
    bytes.push(0xAA);
    let mut leftover = vec![];
    let words = parse_pcm32le_words(&bytes, &mut leftover);
    let back: Vec<f32> = words.iter().map(|w| f32::from_bits(*w)).collect();
    assert_eq!(back, values.to_vec());
    assert_eq!(leftover, vec![0xAA]);
}

#[test]
fn sample_from_le_sign() {
    assert_eq!(sample_from_le(0x00, 0x80), -32768);
    assert_eq!(sample_from_le(0xFF, 0x7F), 32767);
    assert_eq!(sample_from_le(0xFF, 0xFF), -1);
    assert_eq!(sample_from_le(0x34, 0x12), 0x1234);
}

#[test]
fn encode_then_parse_gives_samples_back() {
    let samples: Vec<i16> = vec![0, -1, 1, i16::MIN, i16::MAX, 300, -300];
    let bytes = encode_pcm16le(&samples);
    assert_eq!(bytes.len(), 14);
    assert_eq!(&bytes[0..4], &[0x00, 0x00, 0xFF, 0xFF]);
    let mut leftover = Vec::new();
    assert_eq!(parse_pcm16le_to_i16(&bytes, &mut leftover), samples);
    assert!(leftover.is_empty());
}

#[test]
fn pcm_format_widths() {
    assert_eq!(PcmFormat::default(), PcmFormat::I16LE);
    assert_eq!(PcmFormat::I16LE.sample_width(), 2);
    assert_eq!(PcmFormat::F32LE.sample_width(), 4);
}
