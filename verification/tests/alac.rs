use spielab::alac::alac_verbatim;
use symphonia_codec_alac::AlacDecoder;
use symphonia_core::audio::SampleBuffer;
use symphonia_core::codecs::{CodecParameters, Decoder, DecoderOptions, CODEC_TYPE_ALAC};
use symphonia_core::formats::Packet;

#[test]
fn uncompressed_alac_has_expected_bit_length_and_stereo_tag() {
    let packet = alac_verbatim(&vec![0; 1408]).unwrap();
    assert_eq!(packet.len(), 1416);
    assert_eq!(packet[0], 0x20);
    assert!(alac_verbatim(&[0; 10]).is_err());
}

#[test]
fn independent_alac_decoder_recovers_pcm_exactly() {
    let samples: Vec<i16> = (0..704)
        .map(|i| (i as i16).wrapping_mul(173).wrapping_sub(32768u16 as i16))
        .collect();
    let pcm: Vec<u8> = samples.iter().flat_map(|s| s.to_le_bytes()).collect();
    let encoded = alac_verbatim(&pcm).unwrap();
    let mut cookie = vec![];
    cookie.extend_from_slice(&352u32.to_be_bytes());
    cookie.extend_from_slice(&[0, 16, 40, 10, 14, 2]);
    cookie.extend_from_slice(&255u16.to_be_bytes());
    cookie.extend_from_slice(&0u32.to_be_bytes());
    cookie.extend_from_slice(&0u32.to_be_bytes());
    cookie.extend_from_slice(&44100u32.to_be_bytes());
    let mut parameters = CodecParameters::new();
    parameters.codec = CODEC_TYPE_ALAC;
    parameters.extra_data = Some(cookie.into_boxed_slice());
    let mut decoder = AlacDecoder::try_new(&parameters, &DecoderOptions::default()).unwrap();
    let decoded = decoder
        .decode(&Packet::new_from_slice(0, 0, 352, &encoded))
        .unwrap();
    let mut output = SampleBuffer::<i16>::new(decoded.capacity() as u64, *decoded.spec());
    output.copy_interleaved_ref(decoded);
    assert_eq!(output.samples(), samples);
}
