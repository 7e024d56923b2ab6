use cache_lifespan::sim_record;
use cache_lifespan::trace::{Access, Command, DecodeError, Diagnostic, EncodeError, TTL_MAX};

fn sample(ttl: Option<u32>) -> Access {
    Access {
        timestamp: 123_456,
        command: Command::Get,
        key: 0x0123_4567_89AB_CDEF,
        ksize: 200,
        vsize: 0x3F_FFFF,
        cid: 77,
        ttl,
    }
}

#[test]
fn record_is_twenty_four_bytes() {
    assert_eq!(Access::size(), 24);
    let mut buf = Vec::new();
    sample(Some(30)).as_chunk(&mut buf).unwrap();
    assert_eq!(buf.len(), 24);
}

#[test]
fn trace_round_trip() {
    for ttl in [None, Some(1), Some(30), Some(TTL_MAX)] {
        let a = sample(ttl);
        let mut buf = Vec::new();
        assert_eq!(a.as_chunk(&mut buf), Ok(None));
        assert_eq!(Access::from_chunk(&buf), Ok(a));
    }
}

#[test]
fn trace_round_trip_every_command() {
    let commands = [
        Command::Nop,
        Command::Get,
        Command::Gets,
        Command::Put,
        Command::Add,
        Command::Cas,
        Command::Replace,
        Command::Append,
        Command::Prepend,
        Command::Delete,
        Command::Incr,
        Command::Decr,
        Command::Read,
        Command::Write,
        Command::Update,
        Command::Invalid,
    ];
    for command in commands {
        let a = Access { command, ..sample(None) };
        let mut buf = Vec::new();
        a.as_chunk(&mut buf).unwrap();
        assert_eq!(Access::from_chunk(&buf), Ok(a));
        assert_eq!(Command::from_byte(command.as_byte()), Ok(command));
    }
}

#[test]
fn exact_layout() {
    let a = Access {
        timestamp: 0x0403_0201,
        command: Command::Put,
        key: 0x0C0B_0A09_0807_0605,
        ksize: 3,
        vsize: 5,
        cid: 0x1817_1615,
        ttl: Some(0x0001_0002),
    };
    let mut buf = vec![0xEE];
    a.as_chunk(&mut buf).unwrap();
    let packed_sizes: u32 = (3 << 22) | 5;
    let packed_op: u32 = (3 << 24) | 0x0001_0002;
    let mut expected = vec![0xEE, 1, 2, 3, 4, 5, 6, 7, 8, 9, 10, 11, 12];
    expected.extend_from_slice(&packed_sizes.to_le_bytes());
    expected.extend_from_slice(&packed_op.to_le_bytes());
    expected.extend_from_slice(&[0x15, 0x16, 0x17, 0x18]);
    assert_eq!(buf, expected);
}

#[test]
fn value_size_too_wide_is_refused() {
    let a = Access { vsize: 1 << 22, ..sample(None) };
    let mut buf = vec![9];
    assert_eq!(a.as_chunk(&mut buf), Err(EncodeError::ValueSizeTooLarge));
    assert_eq!(buf, vec![9]);
}

#[test]
fn oversized_ttl_is_clamped_and_reported() {
    let a = sample(Some(1 << 24));
    let mut buf = Vec::new();
    assert_eq!(a.as_chunk(&mut buf), Ok(Some(Diagnostic::OversizedTtl(1 << 24))));
    let back = Access::from_chunk(&buf).unwrap();
    assert_eq!(back.ttl, Some((1 << 24) - 1));
    assert_eq!(back.vsize, a.vsize);
}

#[test]
fn zero_ttl_reads_back_as_none() {
    let mut buf = Vec::new();
    sample(Some(0)).as_chunk(&mut buf).unwrap();
    assert_eq!(Access::from_chunk(&buf).unwrap().ttl, None);
}

#[test]
fn invalid_command_byte_fails() {
    let mut buf = Vec::new();
    sample(None).as_chunk(&mut buf).unwrap();
    buf[19] = 200;
    assert_eq!(Access::from_chunk(&buf), Err(DecodeError::InvalidFormat));
    assert_eq!(Command::from_byte(200), Err(DecodeError::InvalidFormat));
    assert_eq!(Command::from_byte(15), Err(DecodeError::InvalidFormat));
    assert_eq!(Command::from_byte(255), Ok(Command::Invalid));
}

#[test]
fn short_record_fails() {
    assert_eq!(Access::from_chunk(&[0u8; 23]), Err(DecodeError::UnexpectedEof));
    assert_eq!(sim_record::Access::from_chunk(&[0u8; 24]), Err(DecodeError::UnexpectedEof));
}

#[test]
fn sim_round_trip() {
    for command in [sim_record::Command::Get, sim_record::Command::Put] {
        for ttl in [None, Some(30)] {
            let a = sim_record::Access {
                timestamp: 0xFFFF_0000_1234_5678,
                command,
                key: 42,
                size: 4096,
                ttl,
            };
            let mut buf = Vec::new();
            a.as_chunk(&mut buf);
            assert_eq!(buf.len(), sim_record::Access::size());
            assert_eq!(sim_record::Access::from_chunk(&buf), Ok(a));
        }
    }
}

#[test]
fn sim_exact_layout() {
    let a = sim_record::Access {
        timestamp: 1,
        command: sim_record::Command::Put,
        key: 2,
        size: 3,
        ttl: Some(4),
    };
    let mut buf = Vec::new();
    a.as_chunk(&mut buf);
    let expected: Vec<u8> = vec![
        1, 0, 0, 0, 0, 0, 0, 0, 1, 2, 0, 0, 0, 0, 0, 0, 0, 3, 0, 0, 0, 4, 0, 0, 0,
    ];
    assert_eq!(buf, expected);
}

#[test]
fn sim_invalid_command_byte_fails() {
    for byte in [2u8, 3, 200, 255] {
        let mut buf = vec![0u8; 25];
        buf[8] = byte;
        assert_eq!(sim_record::Access::from_chunk(&buf), Err(DecodeError::InvalidFormat));
    }
    let mut buf = vec![0u8; 25];
    buf[8] = 1;
    assert_eq!(sim_record::Access::from_chunk(&buf).unwrap().command, sim_record::Command::Put);
}

#[test]
fn stream_decoding() {
    let a = sim_record::Access {
        timestamp: 5,
        command: sim_record::Command::Get,
        key: 9,
        size: 100,
        ttl: None,
    };
    let b = sim_record::Access { timestamp: 7, command: sim_record::Command::Put, ttl: Some(3), ..a };
    let mut bytes = Vec::new();
    a.as_chunk(&mut bytes);
    b.as_chunk(&mut bytes);
    assert_eq!(sim_record::decode_stream(&bytes), Ok(vec![a, b]));
    assert_eq!(sim_record::decode_stream(&[]), Ok(vec![]));
    assert_eq!(sim_record::decode_stream(&bytes[..30]), Err(DecodeError::UnexpectedEof));
    let mut bad = bytes.clone();
    bad[25 + 8] = 7;
    assert_eq!(sim_record::decode_stream(&bad), Err(DecodeError::InvalidFormat));
    assert!(sim_record::is_monotone(&vec![a, b]));
    assert!(!sim_record::is_monotone(&vec![b, a]));
    assert!(sim_record::is_monotone(&vec![]));
}
