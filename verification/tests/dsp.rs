use whispeross::dsp::{downmix_i16, encode_wav_mono16, is_effectively_silent, resample_to_16k, StreamingResampler};

#[test]
fn resample_16k_is_passthrough() {
    let s = vec![1i16, 2, 3, 4];
    assert_eq!(resample_to_16k(&s, 16_000), s);
}

#[test]
fn resample_48k_thirds_the_length_and_keeps_amplitude() {
    let s = vec![900i16; 4800];
    let out = resample_to_16k(&s, 48_000);
    assert_eq!(out.len(), 1600);
    assert!(out.iter().all(|&v| v == 900));
}

#[test]
fn resample_empty_is_empty() {
    assert!(resample_to_16k(&[], 48_000).is_empty());
}

#[test]
fn streaming_resample_preserves_timing_across_callback_boundaries() {
    let input = vec![900i16; 4_800];
    let mut resampler = StreamingResampler::new();
    let mut output = resampler.push(&input[..1_701], 48_000);
    output.extend(resampler.push(&input[1_701..3_119], 48_000));
    output.extend(resampler.push(&input[3_119..], 48_000));

    assert_eq!(output.len(), 1_600);
    assert!(output.iter().all(|&sample| sample == 900));
}

#[test]
fn wav_header_is_valid_for_16k_mono() {
    let wav = encode_wav_mono16(&[0i16, 1000, -1000], 16_000);
    assert_eq!(wav.len(), 44 + 6);
    assert_eq!(&wav[0..4], b"RIFF");
    assert_eq!(&wav[8..12], b"WAVE");
    assert_eq!(u16::from_le_bytes([wav[22], wav[23]]), 1);
    assert_eq!(u32::from_le_bytes([wav[24], wav[25], wav[26], wav[27]]), 16_000);
    assert_eq!(u16::from_le_bytes([wav[34], wav[35]]), 16);
    assert_eq!(u32::from_le_bytes([wav[40], wav[41], wav[42], wav[43]]), 6);
    assert_eq!(i16::from_le_bytes([wav[46], wav[47]]), 1000);
}

#[test]
fn silence_detection() {
    assert!(is_effectively_silent(&[]));
    assert!(is_effectively_silent(&vec![50i16; 16_000]));
    let mut speech = vec![50i16; 16_000];
    speech[8000] = 5000;
    assert!(!is_effectively_silent(&speech));
}

// Own tests.

#[test]
fn resample_interpolates_between_samples() {
    // 32 kHz to 16 kHz keeps every other sample.
    assert_eq!(resample_to_16k(&[0, 100, 200, 300], 32_000), vec![0, 200]);
    // 8 kHz to 16 kHz doubles, interpolating halfway.
    assert_eq!(resample_to_16k(&[0, 100], 8_000), vec![0, 50, 100, 100]);
}

#[test]
fn silence_floor_is_exclusive() {
    assert!(is_effectively_silent(&[330, -330]));
    assert!(!is_effectively_silent(&[331]));
    assert!(!is_effectively_silent(&[i16::MIN]));
}

#[test]
fn wav_riff_size_and_byte_rate() {
    let wav = encode_wav_mono16(&[1, 2], 44_100);
    assert_eq!(u32::from_le_bytes([wav[4], wav[5], wav[6], wav[7]]), 36 + 4);
    assert_eq!(u32::from_le_bytes([wav[28], wav[29], wav[30], wav[31]]), 88_200);
    assert_eq!(&wav[12..16], b"fmt ");
    assert_eq!(&wav[36..40], b"data");
}

#[test]
fn streaming_passthrough_and_rate_change() {
    let mut r = StreamingResampler::new();
    assert_eq!(r.push(&[5, 6, 7], 16_000), vec![5, 6, 7]);
    assert!(r.push(&[], 48_000).is_empty());
    let out = r.push(&vec![900i16; 300], 48_000);
    assert!(out.iter().all(|&s| s == 900));
}

#[test]
fn stereo_frames_become_their_mean_rounded_toward_zero() {
    assert_eq!(downmix_i16(&[10, 20, -3, -4, 7], 2), vec![15, -3, 7]);
    assert_eq!(downmix_i16(&[i16::MIN, i16::MIN, i16::MAX, i16::MAX], 2), vec![i16::MIN, i16::MAX]);
    assert_eq!(downmix_i16(&[1, 2, 3], 1), vec![1, 2, 3]);
    assert_eq!(downmix_i16(&[], 2), Vec::<i16>::new());
    assert_eq!(downmix_i16(&[5, 6, -7], 3), vec![1]);
}
