//! Packets on the wire.

use bytes::BytesMut;
use flux::error::FluxError;
use flux::transport::cubic::{cubic_invert, cubic_multiply};
use flux::transport::depacketizer::Depacketizer;
use flux::transport::fec::{FecDecoder, FecEncoder};
use flux::transport::field::{invert, multiply};
use flux::transport::packetizer::Packetizer;
use flux::transport::quic::{QuicClient, QuicConfig, QuicServer};
use flux::transport::rtp::payload_types;
use flux::transport::rtp::{FluxVideoExtension, RtpHeader};

#[test]
fn parity_count_calculation() {
    let encoder = FecEncoder::new(20);
    assert_eq!(encoder.parity_count(10), 2); // 20% of 10 = 2
    assert_eq!(encoder.parity_count(1), 1); // Always at least 1
    assert_eq!(encoder.parity_count(5), 1); // 20% of 5 = 1
}

#[test]
fn xor_parity_basic() {
    let encoder = FecEncoder::new(50);
    let data = vec![vec![0xAA, 0xBB], vec![0xCC, 0xDD]];
    let parity = encoder.encode(&data).unwrap();
    assert!(!parity.is_empty());
    // XOR parity: 0xAA ^ 0xCC = 0x66, 0xBB ^ 0xDD = 0x66
    assert_eq!(parity[0], vec![0x66, 0x66]);
}

#[test]
fn rtp_header_round_trip() {
    let header = RtpHeader {
        payload_type: payload_types::H265,
        sequence_number: 12345,
        timestamp: 9_000_000,
        ssrc: 0xDEADBEEF,
        marker: true,
    };

    let mut buf = BytesMut::with_capacity(RtpHeader::SIZE);
    header.serialize(&mut buf);

    let parsed = RtpHeader::parse(&buf).expect("failed to parse");
    assert_eq!(parsed.payload_type, header.payload_type);
    assert_eq!(parsed.sequence_number, header.sequence_number);
    assert_eq!(parsed.timestamp, header.timestamp);
    assert_eq!(parsed.ssrc, header.ssrc);
    assert_eq!(parsed.marker, header.marker);
}

#[test]
fn video_extension_round_trip() {
    let ext = FluxVideoExtension {
        frame_number: 42,
        total_data_packets: 10,
        packet_index: 3,
        fec_packet_count: 2,
        is_idr: true,
    };

    let mut buf = BytesMut::with_capacity(FluxVideoExtension::SIZE);
    ext.serialize(&mut buf);

    let parsed = FluxVideoExtension::parse(&buf).expect("failed to parse");
    assert_eq!(parsed.frame_number, 42);
    assert_eq!(parsed.total_data_packets, 10);
    assert_eq!(parsed.packet_index, 3);
    assert_eq!(parsed.fec_packet_count, 2);
    assert!(parsed.is_idr);
}

#[test]
fn lost_packets_can_be_computed_from_the_parity() {
    let encoder = FecEncoder::new(50);
    let data = vec![vec![1, 2, 3], vec![4, 5]];
    let parity = encoder.encode(&data).unwrap();
    let rebuilt: Vec<u8> = parity[0]
        .iter()
        .zip(data[0].iter())
        .map(|(p, d)| p ^ d)
        .collect();
    assert_eq!(rebuilt, vec![4, 5, 0]);
}

#[test]
fn nothing_to_protect_needs_no_parity() {
    assert!(FecEncoder::new(20).encode(&[]).unwrap().is_empty());
    assert!(FecEncoder::new(20).encode(&[vec![], vec![]]).unwrap().is_empty());
}

#[test]
fn whole_groups_are_put_in_order() {
    let decoder = FecDecoder::new(2, 1);
    let received = vec![(1, vec![2]), (0, vec![1]), (2, vec![3])];
    assert_eq!(decoder.decode(&received).unwrap(), vec![vec![1], vec![2]]);
}

#[test]
fn losses_are_told() {
    let decoder = FecDecoder::new(2, 1);
    match decoder.decode(&[(0, vec![1])]) {
        Err(FluxError::Network(text)) => assert_eq!(
            text,
            "too many lost packets: 2 missing but only 1 parity available"
        ),
        other => panic!("{:?}", other),
    }
    // Two packets for one place leave another one empty.
    match decoder.decode(&[(0, vec![1]), (0, vec![2])]) {
        Err(FluxError::Network(text)) => assert_eq!(text, "missing data packet 1"),
        other => panic!("{:?}", other),
    }
}

#[test]
fn one_loss_is_rebuilt_from_the_first_parity() {
    let parity = FecEncoder::new(20).encode(&[vec![1, 2], vec![3, 4]]).unwrap();
    assert_eq!(parity, vec![vec![2, 6]]);
    let decoder = FecDecoder::new(2, 1);
    let whole = vec![vec![1, 2], vec![3, 4]];
    assert_eq!(decoder.decode(&[(0, vec![1, 2]), (2, vec![2, 6])]).unwrap(), whole);
    assert_eq!(decoder.decode(&[(2, vec![2, 6]), (1, vec![3, 4])]).unwrap(), whole);
    assert_eq!(decoder.decode(&[(0, vec![9]), (2, vec![2, 6]), (0, vec![1, 2])]).unwrap(), whole);
}

#[test]
fn further_parity_is_a_sum_of_its_own() {
    let parity = FecEncoder::new(100).encode(&[vec![1, 2], vec![3, 4]]).unwrap();
    assert_eq!(parity, vec![vec![2, 6], vec![2, 9]]);
    let decoder = FecDecoder::new(2, 2);
    let whole = vec![vec![1, 2], vec![3, 4]];
    assert_eq!(decoder.decode(&[(3, vec![2, 9]), (2, vec![2, 6])]).unwrap(), whole);
    assert_eq!(decoder.decode(&[(3, vec![2, 9]), (0, vec![1, 2])]).unwrap(), whole);
    assert_eq!(decoder.decode(&[(1, vec![3, 4]), (3, vec![2, 9])]).unwrap(), whole);
}

#[test]
fn field_elements_multiply_and_invert() {
    assert_eq!(multiply(3, 2, 3), 1);
    assert_eq!(invert(3, 2), 3);
    assert_eq!(multiply(3, 0x53, 0xca), 110);
    assert_eq!(invert(3, 0x53), 94);
    let (a, b) = (0x0123_4567_89ab_cdef, 0xfedc_ba98_7654_3210);
    assert_eq!(multiply(6, a, b), 7154401830394789888);
    assert_eq!(invert(6, a), 12651728061609754427);
    assert_eq!(multiply(6, a, invert(6, a)), 1);
}

#[test]
fn any_packets_of_a_group_are_enough() {
    let data: Vec<Vec<u8>> =
        (0..5u32).map(|i| (0..11u32).map(|k| (i * 37 + k * k * 5) as u8).collect()).collect();
    let mut all = data.clone();
    all.extend(FecEncoder::new(60).encode(&data).unwrap());
    assert_eq!(all.len(), 8);
    let decoder = FecDecoder::new(5, 3);
    for chosen in 0u32..256 {
        let received: Vec<(usize, Vec<u8>)> = (0..8)
            .rev()
            .filter(|i| chosen & (1 << i) != 0)
            .map(|i| (i, all[i].clone()))
            .collect();
        let result = decoder.decode(&received);
        if received.len() >= 5 {
            assert_eq!(result.unwrap(), data);
        } else {
            assert!(result.is_err());
        }
    }
}

#[test]
fn large_groups_are_rebuilt() {
    // More than 257 packets take symbols of two bytes, and with their odd length the
    // last symbol takes three.
    let data: Vec<Vec<u8>> =
        (0..250u32).map(|i| (0..7u32).map(|k| (i * 31 + k * 11) as u8).collect()).collect();
    let parity = FecEncoder::new(8).encode(&data).unwrap();
    assert_eq!(parity.len(), 20);
    assert!(parity.iter().all(|packet| packet.len() == 7));
    let decoder = FecDecoder::new(250, 20);
    let mut received: Vec<(usize, Vec<u8>)> =
        (0..250).filter(|i| i % 13 != 5).map(|i| (i, data[i].clone())).collect();
    assert_eq!(received.len(), 231);
    for j in 1..20 {
        received.push((250 + j, parity[j].clone()));
    }
    assert_eq!(decoder.decode(&received).unwrap(), data);
}

#[test]
fn uneven_packets_of_large_groups_come_back_filled_up() {
    let mut data: Vec<Vec<u8>> =
        (0..255u32).map(|i| (0..9u32).map(|k| (i * 7 + k * 3) as u8).collect()).collect();
    data[254].truncate(4);
    let parity = FecEncoder::new(2).encode(&data).unwrap();
    assert_eq!(parity.len(), 6);
    let decoder = FecDecoder::new(255, 6);
    let mut received: Vec<(usize, Vec<u8>)> =
        (0..250).map(|i| (i, data[i].clone())).collect();
    for j in [5, 2, 1, 4, 3] {
        received.push((255 + j, parity[j].clone()));
    }
    let mut expected = data.clone();
    expected[254].resize(9, 0);
    assert_eq!(decoder.decode(&received).unwrap(), expected);
}

#[test]
fn single_bytes_are_coded_in_up_to_257_packets() {
    let data: Vec<Vec<u8>> = (0..233u32).map(|i| vec![(i * 5 + 1) as u8]).collect();
    let parity = FecEncoder::new(10).encode(&data).unwrap();
    assert_eq!(data.len() + parity.len(), 257);
    let decoder = FecDecoder::new(233, 24);
    let mut received: Vec<(usize, Vec<u8>)> =
        (24..233).map(|i| (i, data[i].clone())).collect();
    for j in 0..24 {
        received.push((233 + j, parity[j].clone()));
    }
    assert_eq!(decoder.decode(&received).unwrap(), data);
}

#[test]
fn single_bytes_in_larger_groups_survive_one_loss() {
    let data: Vec<Vec<u8>> = (0..300u32).map(|i| vec![(i * 5 + 1) as u8]).collect();
    let parity = FecEncoder::new(1).encode(&data).unwrap();
    assert_eq!(parity.len(), 3);
    assert!(parity.iter().all(|packet| *packet == parity[0] && packet.len() == 1));
    let decoder = FecDecoder::new(300, 3);
    let mut received: Vec<(usize, Vec<u8>)> =
        (0..300).filter(|i| *i != 290).map(|i| (i, data[i].clone())).collect();
    received.push((302, parity[2].clone()));
    assert_eq!(decoder.decode(&received).unwrap(), data);
    received.remove(7);
    received.push((301, parity[1].clone()));
    match decoder.decode(&received) {
        Err(FluxError::Network(text)) => assert_eq!(text, "missing data packet 7"),
        other => panic!("{:?}", other),
    }
}

#[test]
fn three_byte_elements_multiply_and_invert() {
    assert_eq!(cubic_multiply(0x12_3456, 0xfe_dcba), 10777076);
    assert_eq!(cubic_invert(0x12_3456), 7371255);
    assert_eq!(cubic_invert(0x3456), 11356003);
    assert_eq!(cubic_multiply(0x3456, cubic_invert(0x3456)), 1);
}

#[test]
fn uneven_packets_come_back_filled_up() {
    let data = vec![vec![1, 2, 3], vec![4]];
    let parity = FecEncoder::new(100).encode(&data).unwrap();
    let decoder = FecDecoder::new(2, 2);
    assert_eq!(
        decoder.decode(&[(0, data[0].clone()), (3, parity[1].clone())]).unwrap(),
        vec![vec![1, 2, 3], vec![4, 0, 0]]
    );
    assert_eq!(
        decoder.decode(&[(1, data[1].clone()), (3, parity[1].clone())]).unwrap(),
        vec![vec![1, 2, 3], vec![4]]
    );
}

#[test]
fn headers_have_their_bytes_in_order() {
    let header = RtpHeader {
        payload_type: 97,
        sequence_number: 0x0102,
        timestamp: 0x03040506,
        ssrc: 0x0708090a,
        marker: true,
    };
    let mut buf = BytesMut::new();
    header.serialize(&mut buf);
    assert_eq!(&buf[..], &[0x80, 0xe1, 1, 2, 3, 4, 5, 6, 7, 8, 9, 10]);
    assert!(RtpHeader::parse(&buf[..11]).is_none());
    assert!(RtpHeader::parse(&[0; 12]).is_none());
    assert!(FluxVideoExtension::parse(&[0; 3]).is_none());
}

#[test]
fn frames_survive_packetizing() {
    let packetizer = Packetizer::new(20, 99);
    let data: Vec<u8> = (0..100u32).map(|n| n as u8).collect();
    let mut sequence = 65_535;
    let packets = packetizer.packetize(&data, true, 7, &mut sequence, 1_000, 64, 97);
    // Three chunks of forty bytes and one for repair.
    assert_eq!(packets.len(), 4);
    assert_eq!(sequence, 3);
    assert_eq!(RtpHeader::parse(&packets[0]).unwrap().sequence_number, 65_535);
    // The marker tells the start of the frame.
    assert!(RtpHeader::parse(&packets[0]).unwrap().marker);
    assert!(packets[1..].iter().all(|p| !RtpHeader::parse(p).unwrap().marker));

    let mut depacketizer = Depacketizer::new();
    assert!(depacketizer.feed(&packets[2]).is_none());
    assert!(depacketizer.feed(&packets[0]).is_none());
    let frame = depacketizer.feed(&packets[1]).unwrap();
    assert_eq!(frame.data, data);
    assert_eq!(frame.frame_number, 7);
    assert!(frame.is_idr);
    assert!(depacketizer.feed(&[1, 2, 3]).is_none());
}

#[test]
fn frames_survive_repair_packets_in_between() {
    let packetizer = Packetizer::new(100, 5);
    let data: Vec<u8> = (0..70u32).map(|n| n as u8).collect();
    let mut sequence = 9;
    let packets = packetizer.packetize(&data, false, 3, &mut sequence, 0, 64, 255);
    // Two chunks, and two packets for repair.
    assert_eq!(packets.len(), 4);
    let mut depacketizer = Depacketizer::new();
    assert!(depacketizer.feed(&packets[3]).is_none());
    assert!(depacketizer.feed(&packets[1]).is_none());
    assert!(depacketizer.feed(&packets[2]).is_none());
    let frame = depacketizer.feed(&packets[0]).unwrap();
    assert_eq!((frame.frame_number, frame.is_idr), (3, false));
    assert_eq!(frame.data, data);
    assert!(depacketizer.feed(&packets[2]).is_none());
}

#[test]
fn repeated_packets_change_nothing() {
    let packetizer = Packetizer::new(20, 5);
    let mut sequence = 0;
    let packets = packetizer.packetize(&[3; 70], true, 8, &mut sequence, 0, 64, 96);
    let mut depacketizer = Depacketizer::new();
    assert!(depacketizer.feed(&packets[0]).is_none());
    let mut altered = packets[0].clone();
    altered[30] = 99;
    assert!(depacketizer.feed(&altered).is_none());
    assert!(depacketizer.feed(&packets[1][..20]).is_none());
    assert_eq!(depacketizer.feed(&packets[1]).unwrap().data, vec![3; 70]);
}

#[test]
fn packets_keep_to_their_size() {
    let packetizer = Packetizer::new(100, 1);
    let mut sequence = 0;
    // Odd payloads in a small group, even ones in a large group.
    let small = packetizer.packetize(&[7; 100], true, 1, &mut sequence, 0, 37, 96);
    assert_eq!(small.len(), 16);
    assert!(small.iter().all(|packet| packet.len() <= 37));
    let large = packetizer.packetize(&[7; 600], true, 2, &mut sequence, 0, 28, 96);
    assert_eq!(large.len(), 300);
    assert!(large.iter().all(|packet| packet.len() == 28));
    // Odd payloads in a large group, down to a single byte.
    let odd = Packetizer::new(20, 1).packetize(&[7; 900], true, 3, &mut sequence, 0, 27, 96);
    assert_eq!(odd.len(), 360);
    assert!(odd.iter().all(|packet| packet.len() == 27));
    let least = Packetizer::new(20, 1).packetize(&[7; 900], true, 4, &mut sequence, 0, 25, 96);
    assert_eq!(least.len(), 1_080);
    assert!(least.iter().all(|packet| packet.len() == 25));
}

#[test]
fn transport_without_an_endpoint_says_so() {
    let config = QuicConfig::default();
    assert_eq!(config.bind_addr, "0.0.0.0:0");
    assert_eq!(config.max_datagram_size, 1350);
    let server = QuicServer::bind(config).unwrap();
    match server.accept() {
        Err(FluxError::Network(text)) => assert_eq!(text, "QUIC accept not yet implemented"),
        _ => panic!("accepted"),
    }
    let client = QuicClient::new(QuicConfig::default()).unwrap();
    assert!(client.connect("127.0.0.1:1", "host").is_err());
}
