use voice_media::codec::{
    alaw_decode_byte, alaw_encode_sample, create_decoder, create_encoder, ulaw_decode_byte,
    ulaw_encode_sample, CodecError, CodecType, TrackCodec,
};
use voice_media::resample::resample_mono;
use voice_media::signal::count_zero_crossings;

#[test]
fn test_pcmu_codec() {
    let mut encoder = create_encoder(CodecType::PCMU).unwrap();
    let decoder = create_decoder(CodecType::PCMU).unwrap();

    let samples: Vec<i16> = (0..160)
        .map(|i| ((i as f32 * 0.1).sin() * 32767.0) as i16)
        .collect();

    let encoded = encoder.encode(&samples).unwrap();
    let decoded = decoder.decode(&encoded).unwrap();

    for (i, (orig, dec)) in samples.iter().zip(decoded.iter()).enumerate() {
        assert!(
            ((*orig as i32 - *dec as i32).abs() < 5000),
            "Sample {} mismatch: orig={}, dec={}",
            i,
            orig,
            dec
        );
    }
}

#[test]
fn test_pcma_codec() {
    let mut encoder = create_encoder(CodecType::PCMA).unwrap();
    let decoder = create_decoder(CodecType::PCMA).unwrap();

    let samples: Vec<i16> = (0..160)
        .map(|i| ((i as f32 * 0.1).sin() * 32767.0) as i16)
        .collect();

    let encoded = encoder.encode(&samples).unwrap();
    let decoded = decoder.decode(&encoded).unwrap();

    for (i, (orig, dec)) in samples.iter().zip(decoded.iter()).enumerate() {
        assert!(
            ((*orig as i32 - *dec as i32).abs() < 5000),
            "Sample {} mismatch: orig={}, dec={}",
            i,
            orig,
            dec
        );
    }
}

#[test]
fn test_codec_factory() {
    let decoder = create_decoder(CodecType::PCMU).unwrap();
    assert_eq!(decoder.sample_rate(), 8000);
    assert_eq!(decoder.channels(), 1);

    let decoder = create_decoder(CodecType::PCMA).unwrap();
    assert_eq!(decoder.sample_rate(), 8000);
    assert_eq!(decoder.channels(), 1);

    let decoder = create_decoder(CodecType::G722).unwrap();
    assert_eq!(decoder.sample_rate(), 16000);
    assert_eq!(decoder.channels(), 1);

    let encoder = create_encoder(CodecType::PCMU).unwrap();
    assert_eq!(encoder.sample_rate(), 8000);
    assert_eq!(encoder.channels(), 1);

    let encoder = create_encoder(CodecType::PCMA).unwrap();
    assert_eq!(encoder.sample_rate(), 8000);
    assert_eq!(encoder.channels(), 1);

    let encoder = create_encoder(CodecType::G722).unwrap();
    assert_eq!(encoder.sample_rate(), 16000);
    assert_eq!(encoder.channels(), 1);
}

#[test]
fn round_trip_error_bound_over_all_samples() {
    for x in i16::MIN..=i16::MAX {
        let u = ulaw_decode_byte(ulaw_encode_sample(x));
        assert!((x as i32 - u as i32).abs() < 5000, "mu-law {} -> {}", x, u);
        let a = alaw_decode_byte(alaw_encode_sample(x));
        assert!((x as i32 - a as i32).abs() < 5000, "A-law {} -> {}", x, a);
    }
}

#[test]
fn g711_exact_values() {
    assert_eq!(ulaw_encode_sample(0), 0xff);
    assert_eq!(ulaw_decode_byte(0xff), 0);
    assert_eq!(ulaw_decode_byte(0x00), -32124);
    assert_eq!(ulaw_decode_byte(0x80), 32124);
    assert_eq!(ulaw_encode_sample(i16::MAX), 0x80);
    assert_eq!(ulaw_encode_sample(i16::MIN), 0x00);
    assert_eq!(alaw_encode_sample(0), 0xd5);
    assert_eq!(alaw_decode_byte(0xd5), 8);
    assert_eq!(alaw_decode_byte(0x55), -8);
    assert_eq!(alaw_encode_sample(-1), 0x55);
    assert_eq!(alaw_decode_byte(0xaa), 32256);
    assert_eq!(alaw_decode_byte(0x2a), -32256);
}

#[test]
fn empty_input_gives_empty_output() {
    let mut encoder = create_encoder(CodecType::PCMU).unwrap();
    assert_eq!(encoder.encode(&[]).unwrap(), Vec::<u8>::new());
    let decoder = create_decoder(CodecType::PCMA).unwrap();
    assert_eq!(decoder.decode(&[]).unwrap(), Vec::<i16>::new());
}

#[test]
fn g722_body_is_not_carried() {
    let mut encoder = create_encoder(CodecType::G722).unwrap();
    assert_eq!(encoder.encode(&[1, 2]), Err(CodecError::UnsupportedCodec));
    let decoder = create_decoder(CodecType::G722).unwrap();
    assert_eq!(decoder.decode(&[1, 2]), Err(CodecError::UnsupportedCodec));
}

#[test]
fn track_codec_dispatch() {
    let codec = TrackCodec::new();
    assert!(TrackCodec::is_audio(0));
    assert!(TrackCodec::is_audio(8));
    assert!(TrackCodec::is_audio(9));
    assert!(!TrackCodec::is_audio(101));
    assert_eq!(codec.decode(0, &[0xff, 0x80], 8000), Ok(vec![0, 32124]));
    assert_eq!(codec.decode(8, &[0xd5], 8000), Ok(vec![8]));
    assert_eq!(codec.decode(0, &[0xff, 0x80], 16000), Ok(vec![0, 16062, 32124, 32124]));
    assert_eq!(codec.decode(101, &[0xff], 8000), Err(CodecError::UnsupportedCodec));
    assert_eq!(codec.decode(9, &[0xff], 16000), Err(CodecError::UnsupportedCodec));
}

#[test]
fn zero_crossings_counted() {
    assert_eq!(count_zero_crossings(&[]), 0);
    assert_eq!(count_zero_crossings(&[5]), 0);
    assert_eq!(count_zero_crossings(&[1, -1, 0, -3, -4, 2]), 4);
}

#[test]
fn resample_exact_values() {
    assert_eq!(resample_mono(&[1, 2, 3, 4], 8000, 8000), vec![1, 2, 3, 4]);
    assert_eq!(resample_mono(&[1, 2, 3, 4], 16000, 8000), vec![1, 3]);
    assert_eq!(resample_mono(&[0, 100], 8000, 16000), vec![0, 50, 100, 100]);
    assert_eq!(resample_mono(&[100, 0], 8000, 16000), vec![100, 50, 0, 0]);
    assert_eq!(resample_mono(&[-32768, 32767], 8000, 16000), vec![-32768, -1, 32767, 32767]);
    assert_eq!(resample_mono(&[], 8000, 16000), Vec::<i16>::new());
    assert_eq!(resample_mono(&[5, 6], 8000, 0), Vec::<i16>::new());
}
