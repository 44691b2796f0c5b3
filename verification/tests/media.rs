use spielab::failure::Failure;
use spielab::media::{packet_size, start_code, VideoEncoder, VideoFrame};

#[test]
fn packet_metadata_rejects_invalid_lengths_and_accepts_side_data() {
    assert_eq!(packet_size("#tb 0: 1/60").unwrap(), None);
    assert_eq!(packet_size("0, 0, 0, 1, 42, 0x0, S=1").unwrap(), Some(42));
    for line in [
        "0,0,0,1,0,0x0",
        "0,0,0,1,16777217,0x0",
        "0,0,0,1,-1,0x0",
        "1,0,0,1,4,0x0",
        "0,0,0,1,42",
        "broken",
    ] {
        assert!(packet_size(line).is_err());
    }
}

#[test]
fn video_frame_borrows_nals_from_the_original_packet_and_skips_aud() {
    let packet = vec![
        0, 0, 0, 1, 0x09, 0xf0, 0, 0, 1, 0x67, 5, 0, 0, 0, 1, 0x68, 8, 0, 0, 1, 0x65, 0, 0, 3, 1,
        42,
    ];
    let original = packet.as_ptr();
    let frame = VideoFrame::from_packet(packet).map_err(|_| "refused").unwrap();
    assert_eq!(frame.packet().as_ptr(), original);
    assert_eq!(
        frame.iter(),
        vec![&[0x67, 5][..], &[0x68, 8][..], &[0x65, 0, 0, 3, 1, 42][..]]
    );
    assert_eq!(frame.iter()[0].as_ptr(), frame.packet()[9..].as_ptr());
}

#[test]
fn video_frame_rejects_missing_start_codes_and_empty_nals() {
    for packet in [
        vec![],
        vec![0x65, 1, 2],
        vec![1, 0, 0, 1, 0x65],
        vec![0, 0, 1],
        vec![0, 0, 1, 0, 0, 1, 0x65],
        vec![0, 0, 1, 0x09, 0xf0],
        vec![0, 0, 1, 0x65, 0, 0, 1],
    ] {
        assert!(VideoFrame::from_packet(packet).is_err());
    }
}

#[test]
fn annex_b_supports_both_prefix_lengths() {
    let data = [0, 0, 0, 1, 0x67, 5, 0, 0, 1, 0x68];
    assert_eq!(start_code(&data, 0), Some((0, 4)));
    assert_eq!(start_code(&data, 4), Some((6, 3)));
    assert_eq!(start_code(&data[..3], 0), None);
}

#[test]
fn encoder_labels() {
    assert_eq!(VideoEncoder::Software.label(), "Software H.264");
    assert_eq!(
        VideoEncoder::Vaapi("/dev/dri/renderD128".into()).label(),
        "GPU H.264 · VA-API"
    );
    assert_eq!(packet_size("broken"), Err(Failure::PacketMetadata));
}

#[test]
fn encoders_can_be_duplicated() {
    let hardware = VideoEncoder::Vaapi("/dev/dri/renderD128".into());
    assert_eq!(hardware.clone(), hardware);
    assert_ne!(hardware.clone(), VideoEncoder::Software);
    assert_eq!(VideoEncoder::Software.clone(), VideoEncoder::Software);
}
