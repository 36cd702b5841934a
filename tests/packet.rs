use utp_packet::ExtensionType;
use utp_packet::Packet;
use utp_packet::PacketType::{Data, State};
use utp_packet::HEADER_SIZE;

#[test]
fn test_packet_decode() {
    let buf = [0x21, 0x00, 0x41, 0xa8, 0x99, 0x2f, 0xd0, 0x2a, 0x9f, 0x4a,
               0x26, 0x21, 0x00, 0x10, 0x00, 0x00, 0x3a, 0xf2, 0x6c, 0x79];
    let pkt = Packet::decode(&buf);
    assert!(pkt.is_ok());
    let pkt = pkt.unwrap();
    assert_eq!(pkt.header.get_version(), 1);
    assert_eq!(pkt.header.get_type(), Ok(State));
    assert_eq!(pkt.header.extension, 0);
    assert_eq!(pkt.connection_id(), 16808);
    assert_eq!(pkt.timestamp_microseconds(), 2570047530);
    assert_eq!(pkt.timestamp_difference_microseconds(), 2672436769);
    assert_eq!(pkt.wnd_size(), 2u32.pow(20));
    assert_eq!(pkt.seq_nr(), 15090);
    assert_eq!(pkt.ack_nr(), 27769);
    assert_eq!(pkt.len(), buf.len());
    assert!(pkt.payload.is_empty());
}

#[test]
fn test_decode_packet_with_extension() {
    let buf = [0x21, 0x01, 0x41, 0xa7, 0x00, 0x00, 0x00, 0x00, 0x00, 0x00,
               0x00, 0x00, 0x00, 0x00, 0x05, 0xdc, 0xab, 0x53, 0x3a, 0xf5,
               0x00, 0x04, 0x00, 0x00, 0x00, 0x00];
    let packet = Packet::decode(&buf);
    assert!(packet.is_ok());
    let packet = packet.unwrap();
    assert_eq!(packet.header.get_version(), 1);
    assert_eq!(packet.header.get_type(), Ok(State));
    assert_eq!(packet.header.extension, 1);
    assert_eq!(packet.connection_id(), 16807);
    assert_eq!(packet.timestamp_microseconds(), 0);
    assert_eq!(packet.timestamp_difference_microseconds(), 0);
    assert_eq!(packet.wnd_size(), 1500);
    assert_eq!(packet.seq_nr(), 43859);
    assert_eq!(packet.ack_nr(), 15093);
    assert_eq!(packet.len(), buf.len());
    assert!(packet.payload.is_empty());
    assert!(packet.extensions.len() == 1);
    assert!(packet.extensions[0].ty == ExtensionType::SelectiveAck);
    assert!(packet.extensions[0].data == vec!(0,0,0,0));
    assert!(packet.extensions[0].len() == 1 + packet.extensions[0].data.len());
    assert!(packet.extensions[0].len() == 5);
}

#[test]
fn test_packet_decode_with_missing_extension() {
    let buf = [0x21, 0x01, 0x41, 0xa8, 0x99, 0x2f, 0xd0, 0x2a, 0x9f, 0x4a,
               0x26, 0x21, 0x00, 0x10, 0x00, 0x00, 0x3a, 0xf2, 0x6c, 0x79];
    let pkt = Packet::decode(&buf);
    assert!(pkt.is_err());
}

#[test]
fn test_packet_decode_with_malformed_extension() {
    let buf = [0x21, 0x01, 0x41, 0xa8, 0x99, 0x2f, 0xd0, 0x2a, 0x9f, 0x4a,
               0x26, 0x21, 0x00, 0x10, 0x00, 0x00, 0x3a, 0xf2, 0x6c, 0x79,
               0x00, 0x04, 0x00];
    let pkt = Packet::decode(&buf);
    assert!(pkt.is_err());
}

#[test]
fn test_decode_packet_with_unknown_extensions() {
    let buf = [0x21, 0x01, 0x41, 0xa7, 0x00, 0x00, 0x00, 0x00, 0x00, 0x00,
               0x00, 0x00, 0x00, 0x00, 0x05, 0xdc, 0xab, 0x53, 0x3a, 0xf5,
               0xff, 0x04, 0x00, 0x00, 0x00, 0x00, // Imaginary extension
               0x00, 0x04, 0x00, 0x00, 0x00, 0x00];
    let packet = Packet::decode(&buf);
    assert!(packet.is_ok());
    let packet = packet.unwrap();
    assert_eq!(packet.header.get_version(), 1);
    assert_eq!(packet.header.get_type(), Ok(State));
    assert_eq!(packet.header.extension, 1);
    assert_eq!(packet.connection_id(), 16807);
    assert_eq!(packet.timestamp_microseconds(), 0);
    assert_eq!(packet.timestamp_difference_microseconds(), 0);
    assert_eq!(packet.wnd_size(), 1500);
    assert_eq!(packet.seq_nr(), 43859);
    assert_eq!(packet.ack_nr(), 15093);
    assert!(packet.payload.is_empty());
    assert!(packet.extensions.len() == 1);
    assert!(packet.extensions[0].ty == ExtensionType::SelectiveAck);
    assert!(packet.extensions[0].data == vec!(0,0,0,0));
    assert!(packet.extensions[0].len() == 1 + packet.extensions[0].data.len());
    assert!(packet.extensions[0].len() == 5);
}

#[test]
fn test_packet_encode() {
    let payload = "Hello\n".as_bytes().to_vec();
    let (timestamp, timestamp_diff): (u32, u32) = (15270793, 1707040186);
    let (connection_id, seq_nr, ack_nr): (u16, u16, u16) = (16808, 15090, 17096);
    let window_size: u32 = 1048576;
    let mut pkt = Packet::new();
    pkt.set_type(Data);
    pkt.set_timestamp_microseconds(timestamp);
    pkt.set_timestamp_difference_microseconds(timestamp_diff);
    pkt.set_connection_id(connection_id);
    pkt.set_seq_nr(seq_nr);
    pkt.set_ack_nr(ack_nr);
    pkt.set_wnd_size(window_size);
    pkt.payload = payload.clone();
    let header = pkt.header;
    let buf = [0x01, 0x00, 0x41, 0xa8, 0x00, 0xe9, 0x03, 0x89,
               0x65, 0xbf, 0x5d, 0xba, 0x00, 0x10, 0x00, 0x00,
               0x3a, 0xf2, 0x42, 0xc8, 0x48, 0x65, 0x6c, 0x6c,
               0x6f, 0x0a];

    assert_eq!(pkt.len(), buf.len());
    assert_eq!(pkt.len(), HEADER_SIZE + payload.len());
    assert_eq!(pkt.payload, payload);
    assert_eq!(header.get_version(), 1);
    assert_eq!(header.get_type(), Ok(Data));
    assert_eq!(header.extension, 0);
    assert_eq!(pkt.connection_id(), connection_id);
    assert_eq!(pkt.seq_nr(), seq_nr);
    assert_eq!(pkt.ack_nr(), ack_nr);
    assert_eq!(pkt.wnd_size(), window_size);
    assert_eq!(pkt.timestamp_microseconds(), timestamp);
    assert_eq!(pkt.timestamp_difference_microseconds(), timestamp_diff);
    assert_eq!(pkt.bytes(), buf.to_vec());
}

#[test]
fn test_reversible() {
    let buf = [0x01, 0x00, 0x41, 0xa8, 0x00, 0xe9, 0x03, 0x89,
               0x65, 0xbf, 0x5d, 0xba, 0x00, 0x10, 0x00, 0x00,
               0x3a, 0xf2, 0x42, 0xc8, 0x48, 0x65, 0x6c, 0x6c,
               0x6f, 0x0a];
    assert_eq!(&Packet::decode(&buf).unwrap().bytes()[..], &buf[..]);
}

#[test]
fn test_decode_evil_sequence() {
    let buf = [0, 1, 0, 0, 0, 0, 0, 0, 0, 0, 0, 0, 0, 0, 0, 0, 0, 0, 0, 0, 0];
    let packet = Packet::decode(&buf);
    assert!(packet.is_err());
}

#[test]
fn test_decode_empty_packet() {
    let packet = Packet::decode(&[]);
    assert!(packet.is_err());
}

/// Small deterministic generator of pseudo-random bytes (xorshift).
struct Rng(u64);

impl Rng {
    fn next(&mut self) -> u64 {
        let mut x = self.0;
        x ^= x << 13;
        x ^= x >> 7;
        x ^= x << 17;
        self.0 = x;
        x
    }

    fn byte(&mut self) -> u8 {
        (self.next() >> 24) as u8
    }
}

/// Checks decode against an independent walk of the chain rules.
fn run(x: Vec<u8>) -> bool {
    let packet = Packet::decode(&x[..]);

    if x.len() < 20 {
        // Header too small
        packet.is_err()
    } else if x[0] & 0x0F != 1 {
        // Invalid version
        packet.is_err()
    } else if x[1] != 0 {
        // Non-empty extension field, check validity of extension(s)
        if x.len() < HEADER_SIZE + 2 {
            return packet.is_err();
        }

        let mut next_kind = x[1];
        let mut idx = HEADER_SIZE;

        while idx < x.len() && next_kind != 0 {
            if x.len() < idx + 2 {
                return packet.is_err();
            }
            let len = x[idx + 1] as usize;
            next_kind = x[idx];

            // Check validity of extension length:
            // - non-zero,
            // - multiple of 4,
            // - does not exceed packet length
            if len == 0 || len % 4 != 0 || x.len() < idx + len + 2 {
                return packet.is_err();
            }

            idx += len + 2;
        }
        packet.is_ok() || next_kind != 0
    } else {
        packet.is_ok() && packet.unwrap().bytes() == x
    }
}

#[test]
fn quicktest() {
    let mut rng = Rng(0x9e37_79b9_7f4a_7c15);
    for case in 0..1000 {
        let n = (rng.next() % 80) as usize;
        let mut x: Vec<u8> = (0..n).map(|_| rng.byte()).collect();
        // Steer half of the cases past the length and version gates, and
        // give their chains small lengths, so that the walk is exercised.
        if case % 2 == 0 && x.len() >= 20 {
            x[0] = (x[0] & 0xF0) | 1;
            x[1] = rng.byte() % 3;
            let mut i = 20;
            while i + 1 < x.len() {
                x[i] = rng.byte() % 3;
                x[i + 1] = 4 * (rng.byte() % 3);
                i += 2 + x[i + 1] as usize;
            }
        }
        assert!(run(x.clone()), "case {} failed on {:?}", case, x);
    }
}
