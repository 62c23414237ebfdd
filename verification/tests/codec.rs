use tcp_byte_stream::encode::TcpOptStream;
use tcp_byte_stream::{IPv4PseudoHeader, TcpOpts, TcpParseError, TcpSegment, ACK, SYN};

#[test]
fn rejects_short_buffer() {
    assert_eq!(TcpSegment::parse(&[]), Err(TcpParseError::InvalidLength));
    let nineteen = [0u8; 19];
    assert_eq!(TcpSegment::parse(&nineteen), Err(TcpParseError::InvalidLength));
}

#[test]
fn rejects_small_data_offset() {
    let mut buf = [0u8; 20];
    buf[12] = 0x40; // data offset 4, below the 5-word minimum
    assert_eq!(TcpSegment::parse(&buf), Err(TcpParseError::InvalidDataOffset));
}

#[test]
fn rejects_reserved_bits() {
    let mut buf = [0u8; 20];
    buf[12] = 0x52; // data offset 5, but a reserved bit set
    assert_eq!(TcpSegment::parse(&buf), Err(TcpParseError::InvalidReserved));
}

#[test]
fn rejects_unknown_option_tag() {
    let mut buf = [0u8; 24];
    buf[12] = 0x60; // data offset 6: a 4-byte options region
    buf[20] = 0x06; // not a recognized tag
    assert_eq!(TcpSegment::parse(&buf), Err(TcpParseError::InvalidOption));
}

#[test]
fn rejects_truncated_option_record() {
    let mut buf = [0u8; 24];
    buf[12] = 0x60;
    buf[20] = 0x08; // timestamp needs 10 bytes, only 4 remain
    buf[21] = 0x0a;
    assert_eq!(TcpSegment::parse(&buf), Err(TcpParseError::InvalidOption));
}

#[test]
fn rejects_wrong_fixed_length() {
    let mut buf = [0u8; 24];
    buf[12] = 0x60;
    buf[20] = 0x02; // maximum segment size with a length byte of 5
    buf[21] = 0x05;
    assert_eq!(TcpSegment::parse(&buf), Err(TcpParseError::InvalidOption));
}

#[test]
fn rejects_bad_sack_length() {
    let mut buf = [0u8; 24];
    buf[12] = 0x60;
    buf[20] = 0x05; // selective acknowledgment whose length is no block multiple
    buf[21] = 0x04;
    assert_eq!(TcpSegment::parse(&buf), Err(TcpParseError::InvalidOption));
}

#[test]
fn rejects_buffer_shorter_than_header_length() {
    let mut buf = [0u8; 20];
    buf[12] = 0x60; // data offset 6 declared, but only 20 bytes present
    assert_eq!(TcpSegment::parse(&buf), Err(TcpParseError::InvalidOption));
}

fn sack_fixture() -> Vec<u8> {
    let mut buf: Vec<u8> = vec![
        0x00, 0x50, 0x01, 0xbb, 0x00, 0x00, 0x00, 0x01, 0x00, 0x00, 0x00, 0x00, 0x80, 0x10,
        0x00, 0x64, 0xab, 0xcd, 0x00, 0x00,
    ];
    buf.extend_from_slice(&[
        0x01, 0x01, 0x05, 0x0a, 0x11, 0x22, 0x33, 0x44, 0x55, 0x66, 0x77, 0x88,
    ]);
    buf.extend_from_slice(&[0xde, 0xad, 0xbe]);
    buf
}

#[test]
fn sack_roundtrip() {
    let buf = sack_fixture();
    let segment = TcpSegment::parse(&buf).unwrap();
    assert_eq!(segment.data_off, 8);
    assert_eq!(segment.ctrl_flags, ACK);
    assert_eq!(
        segment.options,
        vec![
            TcpOpts::NOP,
            TcpOpts::NOP,
            TcpOpts::SAck(vec![(0x11223344, 0x55667788)]),
        ]
    );
    assert_eq!(segment.data, vec![0xde, 0xad, 0xbe]);
    assert_eq!(segment.as_bytestream(), buf);
}

#[test]
fn decode_twice_is_identical() {
    let buf = sack_fixture();
    let first = TcpSegment::parse(&buf).unwrap();
    let second = TcpSegment::parse(&buf).unwrap();
    assert_eq!(first, second);
}

#[test]
fn encode_built_segment() {
    let segment = TcpSegment {
        src_port: 4660,
        dest_port: 80,
        seq_num: 0x01020304,
        ack_num: 0,
        data_off: 7,
        ctrl_flags: SYN,
        window: 512,
        checksum: 0,
        urg_ptr: 0,
        options: vec![
            TcpOpts::WindowScale(7),
            TcpOpts::SAckPermitted,
            TcpOpts::NOP,
            TcpOpts::NOP,
            TcpOpts::END,
        ],
        data: vec![0x61, 0x62],
    };
    let bytes = segment.as_bytestream();
    let expected: Vec<u8> = vec![
        0x12, 0x34, 0x00, 0x50, 0x01, 0x02, 0x03, 0x04, 0x00, 0x00, 0x00, 0x00, 0x70, 0x02,
        0x02, 0x00, 0x00, 0x00, 0x00, 0x00, 0x03, 0x03, 0x07, 0x04, 0x02, 0x01, 0x01, 0x00,
        0x61, 0x62,
    ];
    assert_eq!(bytes, expected);
    let reparsed = TcpSegment::parse(&bytes).unwrap();
    assert_eq!(reparsed, segment);
}

#[test]
fn option_word_stream() {
    let opts = vec![TcpOpts::MSS(0x0102)];
    assert_eq!(opts.as_u16_stream(), vec![0x0204, 0x0102]);
    let odd = vec![TcpOpts::NOP];
    assert_eq!(odd.as_u16_stream(), vec![0x0100]);
}

#[test]
fn checksum_odd_payload() {
    let mut buf = vec![0u8; 20];
    buf[12] = 0x50;
    buf.push(0xff);
    let segment = TcpSegment::parse(&buf).unwrap();
    let header = IPv4PseudoHeader { source_addr: 0, dest_addr: 0, protocol: 6, tcp_len: 21 };
    assert_eq!(segment.calculate_checksum(header), 0xb0e3);
}
