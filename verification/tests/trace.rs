use rpc_replay::binary::{parse_record, Record, RECORD_LEN};
use rpc_replay::request::Request;
use rpc_replay::text::{parse_line, LineError};

fn packed(ts: u32, keyid: u64, klen: u32, vlen: u32, op: u8, ttl: u32) -> [u8; RECORD_LEN] {
    let mut bytes = [0; RECORD_LEN];
    bytes[..4].copy_from_slice(&ts.to_le_bytes());
    bytes[4..12].copy_from_slice(&keyid.to_le_bytes());
    bytes[12..16].copy_from_slice(&((klen << 22) | vlen).to_le_bytes());
    bytes[16..].copy_from_slice(&(((op as u32) << 24) | ttl).to_le_bytes());
    bytes
}

fn request_of(op: u8) -> Option<Request> {
    parse_record(&packed(5, 42, 4, 7, op, 60)).request()
}

fn answer(line: &str) -> Result<(u64, Result<Option<Request>, LineError>), LineError> {
    parse_line(line).map(|line| (line.timestamp(), line.request()))
}

#[test]
fn bytes_of_a_record() {
    let bytes = [
        0x01, 0x02, 0x03, 0x04, 0x11, 0x12, 0x13, 0x14, 0x15, 0x16, 0x17, 0x18, 0x05, 0x00, 0x40,
        0x01, 0x3C, 0x00, 0x00, 0x03,
    ];
    assert_eq!(
        parse_record(&bytes),
        Record {
            ts: 0x0403_0201,
            keyid: 0x1817_1615_1413_1211,
            klen: 5,
            vlen: 5,
            op: 3,
            ttl: 60,
        }
    );
}

#[test]
fn records_are_read_back() {
    for (ts, keyid, klen, vlen, op, ttl) in [
        (0, 0, 0, 0, 0, 0),
        (1, 2, 3, 4, 5, 6),
        (u32::MAX, u64::MAX, 1023, 0x3F_FFFF, 255, 0xFF_FFFF),
        (0, u64::MAX, 0, 0x3F_FFFF, 0, 0xFF_FFFF),
        (0x8000_0000, 1 << 63, 512, 0x20_0000, 128, 0x80_0000),
    ] {
        assert_eq!(
            parse_record(&packed(ts, keyid, klen, vlen, op, ttl)),
            Record { ts: ts as u64, keyid, klen, vlen: vlen as usize, op, ttl }
        );
    }
}

#[test]
fn operations_of_records() {
    let key = || "0042".to_string();
    assert_eq!(request_of(1), Some(Request::Get { key: key() }));
    assert_eq!(request_of(2), Some(Request::Gets { key: key() }));
    assert_eq!(request_of(3), Some(Request::Put { key: key(), vlen: 7, ttl: 60 }));
    assert_eq!(request_of(4), Some(Request::Add { key: key(), vlen: 7, ttl: 60 }));
    assert_eq!(request_of(6), Some(Request::Replace { key: key(), vlen: 7, ttl: 60 }));
    assert_eq!(request_of(9), Some(Request::Delete { key: key() }));
    for op in 0..=255u8 {
        let replayed = [1, 2, 3, 4, 6, 9].contains(&op);
        assert_eq!(request_of(op).is_some(), replayed);
    }
}

#[test]
fn keys_of_records_are_padded_and_not_cut() {
    let key = |keyid, klen| match parse_record(&packed(1, keyid, klen, 0, 1, 0)).request() {
        Some(Request::Get { key }) => key,
        _ => panic!("no get"),
    };
    assert_eq!(key(7, 0), "7");
    assert_eq!(key(7, 10), "0000000007");
    assert_eq!(key(123456, 3), "123456");
    assert_eq!(key(u64::MAX, 1023).len(), 1023);
}

#[test]
fn operations_of_lines() {
    let key = || "key".to_string();
    let of = |verb: &str| answer(&format!("9,key,3,7,1,{},60", verb));
    assert_eq!(of("get"), Ok((10, Ok(Some(Request::Get { key: key() })))));
    assert_eq!(of("gets"), Ok((10, Ok(Some(Request::Gets { key: key() })))));
    assert_eq!(
        of("set"),
        Ok((10, Ok(Some(Request::Put { key: key(), vlen: 7, ttl: 60 }))))
    );
    assert_eq!(
        of("add"),
        Ok((10, Ok(Some(Request::Add { key: key(), vlen: 7, ttl: 60 }))))
    );
    assert_eq!(
        of("replace"),
        Ok((10, Ok(Some(Request::Replace { key: key(), vlen: 7, ttl: 60 }))))
    );
    assert_eq!(of("delete"), Ok((10, Ok(Some(Request::Delete { key: key() })))));
    for verb in ["", "GET", "get ", "cas", "incr", "getss"] {
        assert_eq!(of(verb), Ok((10, Ok(None))));
    }
}

#[test]
fn lines_that_cannot_be_replayed() {
    assert_eq!(answer(""), Err(LineError::InvalidTimestamp));
    assert_eq!(answer("x,k,1,2,3,get,5"), Err(LineError::InvalidTimestamp));
    assert_eq!(answer("-1,k,1,2,3,get,5"), Err(LineError::InvalidTimestamp));
    assert_eq!(answer("x"), Err(LineError::InvalidTimestamp));
    assert_eq!(
        answer("18446744073709551615,k,1,2,3,get,5"),
        Err(LineError::TimestampOverflow)
    );
    assert_eq!(
        answer("18446744073709551615"),
        Err(LineError::TimestampOverflow)
    );
    assert_eq!(answer("1,k,1,2,3"), Err(LineError::MissingVerb));
    assert_eq!(
        answer("1,k,1,x,3,get,5"),
        Ok((2, Err(LineError::InvalidLength)))
    );
    assert_eq!(answer("1,k,1,x,3,get"), Ok((2, Err(LineError::InvalidLength))));
    assert_eq!(answer("1,k,1,2,3,get"), Ok((2, Err(LineError::MissingTtl))));
    assert_eq!(answer("1,k,1,2,3,get,"), Ok((2, Err(LineError::InvalidTtl))));
    assert_eq!(
        answer("1,k,1,2,3,get,4294967296"),
        Ok((2, Err(LineError::InvalidTtl)))
    );
    // a number has to be right even where it is of no use
    assert_eq!(answer("1,k,1,2,3,cas,x"), Ok((2, Err(LineError::InvalidTtl))));
}

#[test]
fn fields_of_lines() {
    assert_eq!(
        answer("0,,,0,,delete,0,and,more"),
        Ok((1, Ok(Some(Request::Delete { key: "".to_string() }))))
    );
    assert_eq!(
        answer("18446744073709551614,ключ 1,,+08,,set,+1"),
        Ok((
            u64::MAX,
            Ok(Some(Request::Put { key: "ключ 1".to_string(), vlen: 8, ttl: 1 }))
        ))
    );
}

#[test]
fn both_forms_ask_for_the_same() {
    for (op, verb) in [(1, "get"), (2, "gets"), (3, "set"), (4, "add"), (6, "replace"), (9, "delete")]
    {
        let record = parse_record(&packed(8, 31, 6, 100, op, 3600));
        let text = format!("7,000031,6,100,1,{},3600", verb);
        let line = parse_line(&text).ok().unwrap();
        assert_eq!(line.timestamp(), record.ts);
        assert_eq!(line.request(), Ok(record.request()));
    }
}

#[test]
fn a_record_says_all_that_its_bytes_do() {
    let mut bytes = [0; RECORD_LEN];
    for round in 0..50u32 {
        for (i, byte) in bytes.iter_mut().enumerate() {
            *byte = (round * 37 + i as u32 * 101 + round * i as u32) as u8;
        }
        let r = parse_record(&bytes);
        assert_eq!(
            packed(r.ts as u32, r.keyid, r.klen, r.vlen as u32, r.op, r.ttl),
            bytes
        );
    }
}

#[test]
fn commas_alone_make_fields() {
    assert_eq!(answer("0,,,,,get,0"), Ok((1, Err(LineError::InvalidLength))));
    assert_eq!(answer(",,,,,,"), Err(LineError::InvalidTimestamp));
    assert_eq!(
        answer("5,a b;c\td,x,1,y,add,2"),
        Ok((6, Ok(Some(Request::Add { key: "a b;c\td".to_string(), vlen: 1, ttl: 2 }))))
    );
}
