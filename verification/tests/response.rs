use bytes::BytesMut;
use rpc_replay::metrics::Metrics;
use rpc_replay::response::{decode, ParseError};

fn decoded(bytes: &[u8]) -> (Result<(), ParseError>, Vec<u8>, u64) {
    let mut buffer = BytesMut::from(bytes);
    let mut metrics = Metrics::new();
    let result = decode(&mut buffer, &mut metrics);
    assert_eq!(metrics.request, 0);
    assert_eq!(metrics.request_get, 0);
    assert_eq!(metrics.response, 0);
    (result, buffer.to_vec(), metrics.response_hit)
}

#[test]
fn every_fixed_line_is_taken() {
    for line in [
        "STORED\r\n",
        "NOT_STORED\r\n",
        "EXISTS\r\n",
        "NOT_FOUND\r\n",
        "DELETED\r\n",
        "TOUCHED\r\n",
    ] {
        assert_eq!(decoded(line.as_bytes()), (Ok(()), vec![], 0));
        let longer = format!("{}rest", line);
        assert_eq!(decoded(longer.as_bytes()), (Ok(()), b"rest".to_vec(), 0));
        for cut in 0..line.len() {
            let part = &line.as_bytes()[..cut];
            assert_eq!(
                decoded(part),
                (Err(ParseError::Incomplete), part.to_vec(), 0)
            );
        }
    }
}

#[test]
fn a_miss_is_an_end_line_alone() {
    assert_eq!(decoded(b"END\r\n"), (Ok(()), vec![], 0));
    assert_eq!(decoded(b"END\r\nEND\r\n"), (Ok(()), b"END\r\n".to_vec(), 0));
}

#[test]
fn a_hit_ends_with_an_end_line() {
    let hit = b"VALUE 0 0 1\r\n1\r\nEND\r\n";
    assert_eq!(decoded(hit), (Ok(()), vec![], 1));
    let mut more = hit.to_vec();
    more.extend_from_slice(b"STORED\r\n");
    assert_eq!(decoded(&more), (Ok(()), b"STORED\r\n".to_vec(), 1));
}

#[test]
fn a_response_may_come_in_pieces() {
    let hit = b"VALUE 0 0 1\r\n1\r\nEND\r\n";
    for cut in 0..hit.len() {
        let (result, left, hits) = decoded(&hit[..cut]);
        assert_eq!(result, Err(ParseError::Incomplete));
        assert_eq!(left, hit[..cut].to_vec());
        assert_eq!(hits, 0);
    }
}

#[test]
fn a_fixed_line_goes_before_an_end_line() {
    assert_eq!(
        decoded(b"STORED\r\nEND\r\n"),
        (Ok(()), b"END\r\n".to_vec(), 0)
    );
}

#[test]
fn anything_before_an_end_line_counts_as_a_hit() {
    assert_eq!(decoded(b"stored\r\nEND\r\n"), (Ok(()), vec![], 1));
    assert_eq!(
        decoded(b"ERROR\r\n"),
        (Err(ParseError::Incomplete), b"ERROR\r\n".to_vec(), 0)
    );
}

#[test]
fn an_empty_buffer_is_incomplete() {
    assert_eq!(decoded(b""), (Err(ParseError::Incomplete), vec![], 0));
}

#[test]
fn a_count_starts_over() {
    let mut buffer = BytesMut::from(&b"xEND\r\n"[..]);
    let mut metrics = Metrics::new();
    metrics.response_hit = u64::MAX;
    assert_eq!(decode(&mut buffer, &mut metrics), Ok(()));
    assert_eq!(metrics.response_hit, 0);
}
