use chacha20poly1305::aead::{Aead, Payload};
use chacha20poly1305::{ChaCha20Poly1305, KeyInit};
use spielab::clock::{fixed_time, Clock};
use spielab::crypto::{derive_key, nonce};
use spielab::failure::Failure;
use spielab::mirror::{Incoming, MirrorSession, StreamEnd};
use spielab::packets::{
    avcc_config, build_config_packet, keepalive_packet, picture_payload, seal_video, sync_packet,
    video_header, AUDIO_RATE,
};
use spielab::settings::LatencyMode;

fn clock() -> Clock {
    Clock {
        anchor: 1_000,
        nanos: 2_000_000_000,
        timeline: 0x0102_0304_0506_0708,
    }
}

fn session() -> MirrorSession {
    MirrorSession::new(
        [1; 32],
        [2; 32],
        0xffff_ff00,
        0x0a0b_0c0d,
        [3; 8],
        LatencyMode::Interactive,
    )
}

fn keyframe() -> Vec<Vec<u8>> {
    vec![
        vec![0x67, 1, 2, 3],
        vec![0x68, 9],
        vec![0x09, 0xf0],
        vec![0x65, 7, 7],
    ]
}

fn open(key: [u8; 32], counter: u64, message: &[u8], associated: &[u8]) -> Option<Vec<u8>> {
    ChaCha20Poly1305::new(&key.into())
        .decrypt(
            (&nonce(counter)).into(),
            Payload {
                msg: message,
                aad: associated,
            },
        )
        .ok()
}

#[test]
fn playback_lead_matches_audio_sample_offset_for_both_modes() {
    let clock = Clock {
        anchor: 77,
        nanos: 2_000_000_000,
        timeline: 1,
    };
    for (mode, samples, nanos) in [
        (LatencyMode::Interactive, 2205, 50_000_000),
        (LatencyMode::Responsive, 4410, 100_000_000),
        (LatencyMode::Buffered, 22050, 500_000_000),
    ] {
        assert_eq!(mode.audio_samples(AUDIO_RATE), samples);
        assert_eq!(
            clock.at(clock.anchor as u128 + mode.lead().as_nanos()) - clock.nanos,
            nanos
        );
        // RTP offset arithmetic must also work across its 32-bit wrap.
        let rtp = 5u32;
        assert_eq!(rtp.wrapping_sub(samples).wrapping_add(samples), rtp);
    }
}

#[test]
fn encrypted_video_authenticates_header_and_uses_distinct_nonces() {
    let key = derive_key(
        &[7; 32],
        b"DataStream-Salt42",
        b"DataStream-Output-Encryption-Key",
    );
    let cipher = ChaCha20Poly1305::new(&key.into());
    let header = video_header(19, 0, 123, 456).unwrap();
    let packet = seal_video(&key, &header, 0, b"abc").unwrap();
    assert_eq!(packet.len(), 147);
    assert_eq!(
        cipher
            .decrypt(
                (&nonce(0)).into(),
                Payload {
                    msg: &packet[128..],
                    aad: &header
                }
            )
            .unwrap(),
        b"abc"
    );
    let mut changed = header;
    changed[8] ^= 1;
    assert!(cipher
        .decrypt(
            (&nonce(0)).into(),
            Payload {
                msg: &packet[128..],
                aad: &changed
            }
        )
        .is_err());
    assert_ne!(packet, seal_video(&key, &header, 1, b"abc").unwrap());
}

#[test]
fn fixed_point_timestamps_preserve_half_seconds() {
    assert_eq!(fixed_time(1_500_000_000), 0x1_8000_0000);
}

#[test]
fn fixed_point_timestamps_round_down_and_wrap() {
    assert_eq!(fixed_time(0), 0);
    assert_eq!(fixed_time(1), 4);
    assert!(fixed_time(999_999_999) < fixed_time(1_000_000_000));
    assert_eq!(fixed_time(999_999_999), 0xffff_fffb);
    assert_eq!(fixed_time(u64::MAX), 0x4b82_fa09_b5a5_2cb5);
    for nanos in [1u64, 2, 999_999_999, 1_500_000_001, (1 << 32) * 1_000_000_000 - 1] {
        assert!(fixed_time(nanos - 1) < fixed_time(nanos));
        let read = (fixed_time(nanos) as u128 * 1_000_000_000 + 0xffff_ffff) >> 32;
        assert_eq!(read, nanos as u128);
    }
}

#[test]
fn video_headers_have_fixed_fields() {
    let header = video_header(0x010203, 4, 0x0807_0605_0403_0201, 0x1817_1615_1413_1211).unwrap();
    assert_eq!(header[..4], [3, 2, 1, 0]);
    assert_eq!(header[4], 4);
    assert_eq!(header[8..16], [1, 2, 3, 4, 5, 6, 7, 8]);
    assert_eq!(header[40..48], [0x11, 0x12, 0x13, 0x14, 0x15, 0x16, 0x17, 0x18]);
    assert_eq!(header.iter().filter(|byte| **byte != 0).count(), 3 + 1 + 8 + 8);
    assert!(video_header(16 * 1024 * 1024, 0, 0, 0).is_ok());
    assert_eq!(
        video_header(16 * 1024 * 1024 + 1, 0, 0, 0),
        Err(Failure::FrameTooLarge)
    );
}

#[test]
fn decoder_configuration_layout() {
    assert_eq!(
        avcc_config(&[0x67, 1, 2, 3, 4], &[0x68, 9]).unwrap(),
        vec![1, 1, 2, 3, 0xff, 0xe1, 0, 5, 0x67, 1, 2, 3, 4, 1, 0, 2, 0x68, 9]
    );
    assert_eq!(avcc_config(&[0x67, 1, 2], &[0x68]), Err(Failure::ParameterSets));
    assert_eq!(avcc_config(&[0x67, 1, 2, 3], &[]), Err(Failure::ParameterSets));
    assert_eq!(
        avcc_config(&vec![0x67; 65536], &[0x68]),
        Err(Failure::ParameterSets)
    );
    assert_eq!(
        avcc_config(&[0x67, 1, 2, 3], &vec![0x68; 65536]),
        Err(Failure::ParameterSets)
    );
}

#[test]
fn configuration_packets_carry_dimensions_three_times() {
    let packet = build_config_packet(&vec![5, 6], 0x01, &[1, 2, 3, 4, 5, 6, 7, 8]).unwrap();
    assert_eq!(packet.len(), 130);
    assert_eq!(packet[..8], [2, 0, 0, 0, 1, 0, 0x16, 1]);
    for offset in [16, 40, 56] {
        assert_eq!(packet[offset..offset + 8], [1, 2, 3, 4, 5, 6, 7, 8]);
    }
    assert_eq!(packet[128..], [5, 6]);
    assert_eq!(
        build_config_packet(&vec![0; 16 * 1024 * 1024 + 1], 0, &[0; 8]),
        Err(Failure::FrameTooLarge)
    );
}

#[test]
fn picture_payload_skips_parameter_sets_and_delimiters() {
    assert_eq!(
        picture_payload(&keyframe()),
        vec![0, 0, 0, 3, 0x65, 7, 7]
    );
    assert_eq!(picture_payload(&vec![vec![0x67, 1]]), Vec::<u8>::new());
}

#[test]
fn keepalive_layout() {
    let packet = keepalive_packet();
    assert_eq!(packet.len(), 128);
    assert_eq!((packet[4], packet[6]), (2, 0x1e));
    assert_eq!(packet.iter().filter(|byte| **byte != 0).count(), 2);
}

#[test]
fn timing_announcements_go_back_by_the_lead() {
    let packet = sync_packet(&clock(), true, 5, 2205, 1_000 + 7);
    assert_eq!(packet.len(), 28);
    assert_eq!(packet[..4], [0x90, 0xd7, 0, 4]);
    assert_eq!(packet[4..8], 5u32.wrapping_sub(2205).to_be_bytes());
    assert_eq!(packet[8..16], 2_000_000_007u64.to_be_bytes());
    assert_eq!(packet[16..20], [0, 0, 0, 5]);
    assert_eq!(packet[20..], [1, 2, 3, 4, 5, 6, 7, 8]);
    assert_eq!(sync_packet(&clock(), false, 5, 0, 0)[0], 0x80);
}

#[test]
fn first_keyframe_brings_configuration_and_sealed_picture() {
    let mut session = session();
    let output = session.send_video(&clock(), 1_000, &keyframe());
    assert_eq!(output.failure, None);
    assert_eq!(output.packets.len(), 2);
    let stamp = fixed_time(2_050_000_000);
    assert_eq!(output.packets[0][8..16], stamp.to_le_bytes());
    assert_eq!(
        output.packets[0][128..],
        avcc_config(&[0x67, 1, 2, 3], &[0x68, 9]).unwrap()
    );
    let picture = &output.packets[1];
    assert_eq!(picture[..4], [23, 0, 0, 0]);
    assert_eq!(picture[4..6], [0, 0x10]);
    assert_eq!(picture[8..16], stamp.to_le_bytes());
    assert_eq!(picture[40..48], clock().timeline.to_le_bytes());
    assert_eq!(
        open([1; 32], 0, &picture[128..], &picture[..128]).unwrap(),
        vec![0, 0, 0, 3, 0x65, 7, 7]
    );
}

#[test]
fn known_configuration_is_sent_once_and_nonces_advance() {
    let mut session = session();
    session.send_video(&clock(), 1_000, &keyframe());
    let again = session.send_video(&clock(), 2_000, &keyframe());
    assert_eq!(again.packets.len(), 1);
    assert!(open([1; 32], 0, &again.packets[0][128..], &again.packets[0][..128]).is_none());
    assert!(open([1; 32], 1, &again.packets[0][128..], &again.packets[0][..128]).is_some());
    let mut changed = keyframe();
    changed[1] = vec![0x68, 10];
    assert_eq!(session.send_video(&clock(), 3_000, &changed).packets.len(), 2);
    let plain = session.send_video(&clock(), 4_000, &vec![vec![0x41, 1]]);
    assert_eq!(plain.packets.len(), 1);
    assert_eq!(plain.packets[0][5], 0);
}

#[test]
fn pictures_without_configuration_are_refused() {
    let mut session = session();
    let output = session.send_video(&clock(), 0, &vec![vec![0x65, 1]]);
    assert_eq!(output.failure, Some(Failure::NoParameterSets));
    assert!(output.packets.is_empty());
    let output = session.send_video(&clock(), 0, &vec![vec![0x67, 1], vec![0x68, 1]]);
    assert_eq!(output.failure, Some(Failure::ParameterSets));
    let output = session.send_video(&clock(), 0, &vec![vec![0x67, 1, 2, 3], vec![0x68, 1]]);
    assert_eq!((output.failure, output.packets.len()), (None, 1));
    let output = session.send_video(&clock(), 0, &vec![vec![0x65; 16 * 1024 * 1024]]);
    assert_eq!(output.failure, Some(Failure::FrameTooLarge));
    assert!(output.packets.is_empty());
}

#[test]
fn audio_packets_have_the_wire_length_and_advance() {
    let mut session = session();
    assert_eq!(session.audio_origin(), None);
    let first = session.send_audio(&clock(), 5_000, &[0; 1408]);
    assert_eq!(session.audio_origin(), Some((5_000, 0xffff_ff00)));
    assert_eq!(
        first.sync,
        Some(sync_packet(&clock(), true, 0xffff_ff00, 2205, 5_000))
    );
    let packet = first.packet.unwrap();
    assert_eq!(packet.len(), 1452);
    assert_eq!(packet[..4], [0x80, 96, 0, 0]);
    assert_eq!(packet[4..8], 0xffff_ff00u32.to_be_bytes());
    assert_eq!(packet[8..12], [0x0a, 0x0b, 0x0c, 0x0d]);
    assert_eq!(packet[1444..], [0; 8]);
    assert_eq!(
        open([2; 32], 0, &packet[12..1444], &packet[4..12]).unwrap(),
        spielab::alac::alac_verbatim(&[0; 1408]).unwrap()
    );
    let second = session.send_audio(&clock(), 6_000, &[0; 1408]);
    assert_eq!(second.sync, None);
    let packet = second.packet.unwrap();
    assert_eq!(packet[2..4], [0, 1]);
    assert_eq!(packet[4..8], 0x60u32.to_be_bytes());
    assert_eq!(packet[1444..], 1u64.to_le_bytes());
}

#[test]
fn audio_of_another_length_is_refused_after_the_announcement() {
    let mut session = session();
    let output = session.send_audio(&clock(), 5_000, &[0; 1407]);
    assert!(output.sync.is_some());
    assert_eq!(output.packet, None);
    assert_eq!(output.failure, Some(Failure::PcmLength));
    assert!(session.audio_origin().is_some());
}

#[test]
fn retransmission_finds_recent_packets_across_wrap_and_eviction() {
    let mut session = session();
    let mut sent = vec![];
    for index in 0..65_540u32 {
        let mut pcm = vec![0; 1408];
        pcm[..4].copy_from_slice(&index.to_le_bytes());
        sent.push(session.send_audio(&clock(), 0, &pcm).packet.unwrap());
    }
    // The last 512 numbers run from 65028 over 65535 to 3.
    let answer = session.retransmit(&[0x80, 0xd5, 8, 9, 0xff, 0xfe, 0, 4]);
    assert_eq!(answer.len(), 4);
    for (offset, packet) in answer.iter().enumerate() {
        assert_eq!(packet[..4], [0x80, 0xd6, 8, 9]);
        assert_eq!(packet[4..], sent[65_534 + offset]);
    }
    let all = session.retransmit(&[0x80, 0xd5, 0, 0, 0xfe, 0x04, 0xff, 0xff]);
    assert_eq!(all.len(), 512);
    assert!(session.retransmit(&[0x80, 0xd5, 0, 0, 0xfe, 0x03, 0, 1]).is_empty());
    assert_eq!(
        session.retransmit(&[0x80, 0xd5, 0, 0, 0, 3, 0, 9]).len(),
        1
    );
}

#[test]
fn other_control_packets_get_no_answer() {
    let mut session = session();
    session.send_audio(&clock(), 0, &[0; 1408]);
    assert!(session.retransmit(&[]).is_empty());
    assert!(session.retransmit(&[0x80, 0xd5, 0, 0, 0, 0, 0]).is_empty());
    assert!(session.retransmit(&[0x80, 0xd6, 0, 0, 0, 0, 0, 1]).is_empty());
    assert!(session.retransmit(&[0x80, 0xd5, 0, 0, 0, 0, 0, 0]).is_empty());
    assert_eq!(session.retransmit(&[0x80, 0xd5, 0, 0, 0, 0, 0, 1]).len(), 1);
}

#[test]
fn ticks_report_and_keep_alive() {
    let mut session = session();
    let early = session.heartbeat(&clock(), 0, 14_999_999_999, 0);
    assert_eq!(early.failure, None);
    assert_eq!((early.keepalive, early.sync), (None, None));
    let late = session.heartbeat(&clock(), 0, 15_000_000_000, 0);
    assert_eq!(late.failure, Some(Failure::NoVideo));
    assert_eq!(session.video_sent(7_900_000, 1_000_000), Some(1));
    assert_eq!(session.video_sent(3_000_000, 2_000_000), None);
    assert_eq!(session.frames(), 2);
    let silent = session.heartbeat(&clock(), 0, 15_000_000_000, 0);
    assert_eq!(silent.failure, Some(Failure::NoAudio));
    session.send_audio(&clock(), 0, &[0; 1408]);
    let tick = session.heartbeat(&clock(), 9_000, 60_000_000_000, 0x200);
    assert_eq!(tick.keepalive, Some(keepalive_packet()));
    let report = tick.report.unwrap();
    assert_eq!(
        (
            report.frames,
            report.max_queue_millis,
            report.max_send_millis,
            report.lead_millis
        ),
        (2, 7, 2, 50)
    );
    assert_eq!(
        tick.sync,
        Some(sync_packet(&clock(), false, 0x100, 2205, 9_000))
    );
    let next = session.heartbeat(&clock(), 9_000, 60_000_000_000, 0);
    assert_eq!(next.report.unwrap().frames, 0);
    assert_eq!(next.report.unwrap().max_queue_millis, 0);
}

#[test]
fn progress_is_told_first_and_every_thirtieth_time() {
    let mut session = session();
    let told: Vec<u64> = (0..61).filter_map(|_| session.video_sent(0, 0)).collect();
    assert_eq!(told, vec![1, 30, 60]);
}

#[test]
fn turns_dispatch_events() {
    let mut session = session();
    let turn = session.run(
        &clock(),
        &Incoming::Video {
            time: 1_000,
            units: keyframe(),
        },
    );
    assert_eq!((turn.video.len(), turn.failure), (2, None));
    let turn = session.run(
        &clock(),
        &Incoming::VideoSent {
            waited: 1,
            spent: 1,
        },
    );
    assert_eq!(turn.progress, Some(1));
    let turn = session.run(
        &clock(),
        &Incoming::Audio {
            time: 0,
            pcm: vec![0; 1408],
        },
    );
    assert_eq!((turn.control.len(), turn.audio.len()), (1, 1));
    let turn = session.run(
        &clock(),
        &Incoming::Heartbeat {
            now: 0,
            elapsed: 0,
            samples: 0,
        },
    );
    assert_eq!(
        (turn.video.len(), turn.control.len(), turn.report.is_some()),
        (1, 1, true)
    );
    let turn = session.run(
        &clock(),
        &Incoming::Request(vec![0x80, 0xd5, 0, 0, 0, 0, 0, 1]),
    );
    assert_eq!(turn.control.len(), 1);
    let turn = session.run(&clock(), &Incoming::Ended);
    let end = turn.failure.unwrap();
    assert_eq!(end, StreamEnd::Refused(Failure::CaptureStopped));
    assert_eq!(end.message(), "Capture tasks stopped");
}

#[test]
fn failed_capture_ends_the_stream_with_its_reason() {
    let mut session = session();
    let reason = "PipeWire went away".to_string();
    let turn = session.run(&clock(), &Incoming::Failed(reason.clone()));
    assert!(turn.video.is_empty() && turn.audio.is_empty() && turn.control.is_empty());
    assert!(turn.report.is_none() && turn.progress.is_none());
    let end = turn.failure.unwrap();
    assert_eq!(end.message(), "PipeWire went away");
    assert_eq!(end, StreamEnd::Failed(reason));
    let turn = session.run(
        &clock(),
        &Incoming::Audio {
            time: 0,
            pcm: vec![0; 3],
        },
    );
    assert_eq!(turn.failure, Some(StreamEnd::Refused(Failure::PcmLength)));
}

#[test]
fn clocks_follow_timing_headers() {
    let mut clock = clock();
    assert_eq!(clock.update(Some("1000"), Some("5"), 42), Ok(()));
    assert_eq!((clock.anchor, clock.nanos), (42, 1_005_000_000));
    assert_eq!(clock.timeline, 0x0102_0304_0506_0708);
    assert_eq!(clock.at(52), 1_005_000_010);
    assert_eq!(clock.at(0), 1_004_999_958);
    assert_eq!(clock.update(Some("+7"), None, 43), Ok(()));
    assert_eq!(clock.nanos, 7_000_000);
    let before = clock;
    assert_eq!(clock.update(None, None, 1), Err(Failure::NoTimestamp));
    assert_eq!(clock.update(Some("-1"), None, 1), Err(Failure::Timestamp));
    assert_eq!(clock.update(Some("1"), Some("x"), 1), Err(Failure::Timestamp));
    assert_eq!(
        clock.update(Some("18446744073709551615"), Some("1"), 1),
        Err(Failure::ClockOverflow)
    );
    assert_eq!(
        clock.update(Some("18446744073710"), None, 1),
        Err(Failure::ClockOverflow)
    );
    assert_eq!(clock, before);
    let ahead = Clock {
        anchor: 100,
        nanos: 10,
        timeline: 0,
    };
    assert_eq!(ahead.at(0), 0);
}

#[test]
fn nonces_hold_the_packet_number() {
    assert_eq!(nonce(0x0102), [0, 0, 0, 0, 2, 1, 0, 0, 0, 0, 0, 0]);
    assert_ne!(nonce(1), nonce(256));
    assert_ne!(nonce(0), nonce(u64::MAX));
}
