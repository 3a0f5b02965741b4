use rpc_replay::decimal::{format_zero_padded, parse_up_to, parse_usize};
use rpc_replay::request::{Request, Verb};

fn line(verb: Verb) -> String {
    Request::build(verb, "some key".to_string(), 17, 300).command_line()
}

#[test]
fn lines_of_every_verb() {
    assert_eq!(line(Verb::Get), "get some key\r\n");
    assert_eq!(line(Verb::Gets), "gets some key\r\n");
    assert_eq!(line(Verb::Put), "set some key 0 300 17\r\n");
    assert_eq!(line(Verb::Add), "add some key 0 300 17\r\n");
    assert_eq!(line(Verb::Replace), "replace some key 0 300 17\r\n");
    assert_eq!(line(Verb::Delete), "delete some key\r\n");
}

#[test]
fn built_requests() {
    let key = || "k".to_string();
    assert_eq!(
        Request::build(Verb::Get, key(), 1, 2),
        Request::Get { key: key() }
    );
    assert_eq!(
        Request::build(Verb::Gets, key(), 1, 2),
        Request::Gets { key: key() }
    );
    assert_eq!(
        Request::build(Verb::Put, key(), 1, 2),
        Request::Put { key: key(), vlen: 1, ttl: 2 }
    );
    assert_eq!(
        Request::build(Verb::Add, key(), 1, 2),
        Request::Add { key: key(), vlen: 1, ttl: 2 }
    );
    assert_eq!(
        Request::build(Verb::Replace, key(), 1, 2),
        Request::Replace { key: key(), vlen: 1, ttl: 2 }
    );
    assert_eq!(
        Request::build(Verb::Delete, key(), 1, 2),
        Request::Delete { key: key() }
    );
}

#[test]
fn verbs_and_values() {
    let build = |verb| Request::build(verb, "k".to_string(), 9, 0);
    for verb in [Verb::Get, Verb::Gets, Verb::Delete] {
        assert_eq!(build(verb).verb(), verb);
        assert_eq!(build(verb).value_len(), None);
    }
    for verb in [Verb::Put, Verb::Add, Verb::Replace] {
        assert_eq!(build(verb).verb(), verb);
        assert_eq!(build(verb).value_len(), Some(9));
    }
}

#[test]
fn keys_keep_their_characters() {
    let request = Request::Get { key: "ключ".to_string() };
    assert_eq!(request.command_line(), "get ключ\r\n");
}

#[test]
fn a_line_tells_the_request_whatever_the_key() {
    let a = Request::Put { key: "k 0 1 1".to_string(), vlen: 3, ttl: 2 };
    let b = Request::Put { key: "k".to_string(), vlen: 1, ttl: 1 };
    assert_eq!(a.command_line(), "set k 0 1 1 0 2 3\r\n");
    assert_ne!(a.command_line(), b.command_line());
    let c = Request::Gets { key: "k".to_string() };
    let d = Request::Get { key: "s k".to_string() };
    assert_ne!(c.command_line(), d.command_line());
}

#[test]
fn numbers_at_the_ends_of_their_ranges() {
    let request = Request::Add { key: "k".to_string(), vlen: usize::MAX, ttl: u32::MAX };
    assert_eq!(
        request.command_line(),
        format!("add k 0 {} {}\r\n", u32::MAX, usize::MAX)
    );
    let request = Request::Add { key: "k".to_string(), vlen: 0, ttl: 0 };
    assert_eq!(request.command_line(), "add k 0 0 0\r\n");
}

#[test]
fn padded_numbers() {
    assert_eq!(format_zero_padded(0, 0), "0");
    assert_eq!(format_zero_padded(7, 3), "007");
    assert_eq!(format_zero_padded(1234, 3), "1234");
    assert_eq!(format_zero_padded(1234, 4), "1234");
    assert_eq!(format_zero_padded(u64::MAX, 21), "018446744073709551615");
    for n in [0u64, 9, 10, 99, 100, 123_456_789, u64::MAX] {
        for width in [0u32, 1, 5, 19, 20, 40] {
            let text = format_zero_padded(n, width);
            assert_eq!(text, format!("{:01$}", n, width as usize));
            assert_eq!(parse_up_to(&text, u64::MAX), Some(n));
        }
    }
}

#[test]
fn numbers_are_read_as_the_standard_library_reads_them() {
    for text in [
        "", "+", "-", "-0", "-1", "0", "00", "+0", "++1", "1+", " 1", "1 ", "12a", "a12", "7",
        "+42", "000123", "18446744073709551615", "18446744073709551616",
        "0000000000000000000000000000001", "99999999999999999999999", "1.5", "1e3", "٣",
    ] {
        assert_eq!(parse_up_to(text, u64::MAX), text.parse::<u64>().ok());
        assert_eq!(parse_usize(text), text.parse::<usize>().ok());
        assert_eq!(
            parse_up_to(text, u32::MAX as u64),
            text.parse::<u32>().ok().map(u64::from)
        );
    }
    assert_eq!(parse_up_to("4294967295", u32::MAX as u64), Some(4294967295));
    assert_eq!(parse_up_to("4294967296", u32::MAX as u64), None);
    assert_eq!(parse_up_to("9", 5), None);
    assert_eq!(parse_up_to("5", 5), Some(5));
}

#[test]
fn a_request_is_announced_in_one_line() {
    for verb in [Verb::Get, Verb::Gets, Verb::Put, Verb::Add, Verb::Replace, Verb::Delete] {
        let text = line(verb);
        assert_eq!(text.find('\n'), Some(text.len() - 1));
    }
}
