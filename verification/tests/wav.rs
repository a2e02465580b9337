use riamify::app::file_uri;
use riamify::settings::ResamplingQuality;
use riamify::wav::{decode_wav, encode_wav, output_sample_rate};
use riamify::RiamifyError;

#[test]
fn wav_written_is_read_back() {
    let bytes = encode_wav(&[0, 1, -1, 32767, -32768], 8000).unwrap();
    assert_eq!(&bytes[0..4], b"RIFF");
    assert_eq!(decode_wav(&bytes).unwrap(), vec![0, 1, -1, 32767, -32768]);
}

#[test]
fn unreadable_wav_is_reported() {
    match decode_wav(b"not a wav file") {
        Err(RiamifyError::Custom(m)) => assert_eq!(m, ".WAVファイルの読み込みに失敗しました"),
        _ => panic!("expected an error"),
    }
}

#[test]
fn sample_rates() {
    assert_eq!(output_sample_rate(ResamplingQuality::Medium, 100), 44100);
    assert_eq!(output_sample_rate(ResamplingQuality::Raw, 100), 8000);
    assert_eq!(output_sample_rate(ResamplingQuality::Raw, 0), 0);
    assert_eq!(output_sample_rate(ResamplingQuality::Raw, -5), 0);
    assert_eq!(output_sample_rate(ResamplingQuality::Raw, i32::MAX), u32::MAX);
    assert_eq!(output_sample_rate(ResamplingQuality::Raw, 120), (80.0 * 120f64) as u32);
}

#[test]
fn export_urls() {
    assert_eq!(file_uri("/tmp/out.wav").unwrap(), "file:///tmp/out.wav");
    assert!(matches!(file_uri("out.wav"), Err(RiamifyError::InternalError)));
}

#[test]
fn mono_16_bit_layout() {
    let bytes = encode_wav(&[1, -2], 8000).unwrap();
    let mut expected: Vec<u8> = Vec::new();
    expected.extend_from_slice(b"RIFF");
    expected.extend_from_slice(&40u32.to_le_bytes());
    expected.extend_from_slice(b"WAVE");
    expected.extend_from_slice(b"fmt ");
    expected.extend_from_slice(&16u32.to_le_bytes());
    expected.extend_from_slice(&1u16.to_le_bytes());
    expected.extend_from_slice(&1u16.to_le_bytes());
    expected.extend_from_slice(&8000u32.to_le_bytes());
    expected.extend_from_slice(&16000u32.to_le_bytes());
    expected.extend_from_slice(&2u16.to_le_bytes());
    expected.extend_from_slice(&16u16.to_le_bytes());
    expected.extend_from_slice(b"data");
    expected.extend_from_slice(&4u32.to_le_bytes());
    expected.extend_from_slice(&[0x01, 0x00, 0xFE, 0xFF]);
    assert_eq!(bytes.len(), 48);
    assert_eq!(bytes, expected);
}
