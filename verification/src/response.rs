//! A very barebones parser for what a memcache server answers.

use crate::buffer::{as_slice, buffered, drop_front};
use crate::metrics::{count, counted, Metrics};
use bytes::BytesMut;
use vstd::prelude::*;
use vstd::utf8::{encode_utf8, is_ascii_chars_encode_utf8};

verus! {

/// Why no response could be taken from a buffer.
#[derive(Clone, Copy, Debug, PartialEq, Eq, Structural)]
pub enum ParseError {
    /// More bytes have to come first.
    Incomplete,
    /// The server reported an error.
    Error,
    /// The bytes are no response.
    Unknown,
}

/// How many responses are a fixed line.
pub const STATUS_COUNT: usize = 6;

/// The responses that are a fixed line.
pub open spec fn status(i: int) -> Seq<char> {
    if i == 0 {
        "STORED\r\n"@
    } else if i == 1 {
        "NOT_STORED\r\n"@
    } else if i == 2 {
        "EXISTS\r\n"@
    } else if i == 3 {
        "NOT_FOUND\r\n"@
    } else if i == 4 {
        "DELETED\r\n"@
    } else {
        "TOUCHED\r\n"@
    }
}

/// The line that ends a response to a read.
pub open spec fn end_line() -> Seq<u8> {
    encode_utf8("END\r\n"@)
}

/// Whether `part` stands in `bytes` at position `at`.
pub open spec fn stands_at(bytes: Seq<u8>, part: Seq<u8>, at: int) -> bool {
    0 <= at && at + part.len() <= bytes.len() && bytes.subrange(at, at + part.len()) == part
}

/// The length of the fixed line that `bytes` begin with, where they begin with
/// one of those from `from` on.
pub open spec fn status_len(bytes: Seq<u8>, from: int) -> Option<nat>
    decreases STATUS_COUNT - from,
{
    if from >= STATUS_COUNT {
        None
    } else if stands_at(bytes, encode_utf8(status(from)), 0) {
        Some(encode_utf8(status(from)).len())
    } else {
        status_len(bytes, from + 1)
    }
}

/// The first position from `from` on at which `part` stands in `bytes`.
pub open spec fn first_at(bytes: Seq<u8>, part: Seq<u8>, from: int) -> Option<int>
    decreases bytes.len() + 1 - from,
{
    if from + part.len() > bytes.len() {
        None
    } else if stands_at(bytes, part, from) {
        Some(from)
    } else {
        first_at(bytes, part, from + 1)
    }
}

/// A response at the front of some bytes.
pub struct Response {
    /// How many bytes it takes.
    pub len: nat,
    /// Whether it brings a value.
    pub hit: bool,
}

/// The response at the front of `bytes`: a fixed line, or all up to the first
/// `END` line, in which case it brings a value if anything stands before that
/// line. There is none where neither has come in whole.
pub open spec fn response(bytes: Seq<u8>) -> Option<Response> {
    match status_len(bytes, 0) {
        Some(len) => Some(Response { len, hit: false }),
        None => match first_at(bytes, end_line(), 0) {
            Some(at) => Some(Response { len: (at + end_line().len()) as nat, hit: at > 0 }),
            None => None,
        },
    }
}

/// The line that ends a response to a read, byte by byte.
pub proof fn lemma_end_line()
    ensures
        end_line() == seq![0x45u8, 0x4E, 0x44, 0x0D, 0x0A],
{
    reveal_strlit("END\r\n");
    is_ascii_chars_encode_utf8("END\r\n"@);
    assert(end_line() =~= seq![0x45u8, 0x4E, 0x44, 0x0D, 0x0A]);
}

/// Whether `part` stands in `bytes` at `at`.
fn is_at(bytes: &[u8], part: &[u8], at: usize) -> (r: bool)
    ensures
        r == stands_at(bytes@, part@, at as int),
{
    if at > bytes.len() || part.len() > bytes.len() - at {
        return false;
    }
    for i in 0..part.len()
        invariant
            bytes@.len() <= usize::MAX,
            at + part@.len() <= bytes@.len(),
            forall|j: int| 0 <= j < i ==> bytes@[at + j] == part@[j],
    {
        if bytes[at + i] != part[i] {
            assert(bytes@.subrange(at as int, at + part@.len())[i as int] != part@[i as int]);
            return false;
        }
    }
    assert(bytes@.subrange(at as int, at + part@.len()) =~= part@);
    true
}

/// The length of the fixed line that `bytes` begin with.
fn find_status(bytes: &[u8]) -> (r: Option<usize>)
    ensures
        match status_len(bytes@, 0) {
            Some(n) => (r matches Some(k) && k == n && n <= bytes@.len()),
            None => r is None,
        },
{
    for i in 0..STATUS_COUNT
        invariant
            status_len(bytes@, 0) == status_len(bytes@, i as int),
    {
        let line: &str = match i {
            0 => "STORED\r\n",
            1 => "NOT_STORED\r\n",
            2 => "EXISTS\r\n",
            3 => "NOT_FOUND\r\n",
            4 => "DELETED\r\n",
            _ => "TOUCHED\r\n",
        };
        if is_at(bytes, line.as_bytes(), 0) {
            return Some(line.as_bytes().len());
        }
    }
    None
}

/// The first position at which `part` stands in `bytes`.
fn find(bytes: &[u8], part: &[u8]) -> (r: Option<usize>)
    requires
        part@.len() > 0,
    ensures
        match first_at(bytes@, part@, 0) {
            Some(n) => (r matches Some(k) && k == n && n + part@.len() <= bytes@.len()),
            None => r is None,
        },
{
    let mut at: usize = 0;
    while at < bytes.len()
        invariant
            part@.len() > 0,
            at <= bytes@.len(),
            first_at(bytes@, part@, 0) == first_at(bytes@, part@, at as int),
        decreases bytes@.len() - at,
    {
        if part.len() > bytes.len() - at {
            return None;
        }
        if is_at(bytes, part, at) {
            return Some(at);
        }
        at = at + 1;
    }
    None
}

/// Takes one response from the front of `buffer`. Where none has come in whole
/// the buffer stays as it is.
pub fn decode(buffer: &mut BytesMut, metrics: &mut Metrics) -> (r: Result<(), ParseError>)
    ensures
        match response(buffered(*old(buffer))) {
            Some(taken) => {
                &&& r == Ok::<(), ParseError>(())
                &&& buffered(*final(buffer)) == buffered(*old(buffer)).skip(taken.len as int)
                &&& final(metrics).response_hit == if taken.hit {
                    counted(old(metrics).response_hit)
                } else {
                    old(metrics).response_hit
                }
            },
            None => {
                &&& r == Err::<(), ParseError>(ParseError::Incomplete)
                &&& buffered(*final(buffer)) == buffered(*old(buffer))
                &&& final(metrics).response_hit == old(metrics).response_hit
            },
        },
        *final(metrics) == (Metrics {
            response_hit: final(metrics).response_hit,
            ..*old(metrics)
        }),
{
    let bytes: &[u8] = as_slice(buffer);
    if let Some(len) = find_status(bytes) {
        drop_front(buffer, len);
        return Ok(());
    }
    let end: &[u8] = "END\r\n".as_bytes();
    proof {
        lemma_end_line();
    }
    if let Some(at) = find(bytes, end) {
        if at > 0 {
            count(&mut metrics.response_hit);
        }
        assert(bytes.len() <= usize::MAX);
        let len: usize = at + end.len();
        drop_front(buffer, len);
        return Ok(());
    }
    Err(ParseError::Incomplete)
}

/// What tells the fixed lines apart: the first and the fifth byte. None is
/// shorter than eight bytes, and the only line feed is the last byte.
pub proof fn lemma_status_bytes(i: int)
    requires
        0 <= i < STATUS_COUNT,
    ensures
        encode_utf8(status(i)).len() >= 8,
        encode_utf8(status(i)).last() == 0x0A,
        forall|k: int|
            0 <= k < encode_utf8(status(i)).len() - 1 ==> #[trigger] encode_utf8(status(i))[k]
                != 0x0A,
        encode_utf8(status(i))[0] == (if i == 0 {
            0x53u8
        } else if i == 1 || i == 3 {
            0x4E
        } else if i == 2 {
            0x45
        } else if i == 4 {
            0x44
        } else {
            0x54
        }),
        i == 1 ==> encode_utf8(status(i))[4] == 0x53,
        i == 3 ==> encode_utf8(status(i))[4] == 0x46,
{
    reveal_strlit("STORED\r\n");
    reveal_strlit("NOT_STORED\r\n");
    reveal_strlit("EXISTS\r\n");
    reveal_strlit("NOT_FOUND\r\n");
    reveal_strlit("DELETED\r\n");
    reveal_strlit("TOUCHED\r\n");
    is_ascii_chars_encode_utf8(status(i));
}

/// Bytes begin with one fixed line at most.
proof fn lemma_one_status(bytes: Seq<u8>, i: int, j: int)
    requires
        0 <= i < STATUS_COUNT,
        0 <= j < STATUS_COUNT,
        stands_at(bytes, encode_utf8(status(i)), 0),
        stands_at(bytes, encode_utf8(status(j)), 0),
    ensures
        i == j,
{
    lemma_status_bytes(i);
    lemma_status_bytes(j);
    let a = encode_utf8(status(i));
    let b = encode_utf8(status(j));
    assert(bytes.subrange(0, a.len() as int)[0] == bytes[0]);
    assert(bytes.subrange(0, b.len() as int)[0] == bytes[0]);
    assert(bytes.subrange(0, a.len() as int)[4] == bytes[4]);
    assert(bytes.subrange(0, b.len() as int)[4] == bytes[4]);
}

/// `status_len` finds a fixed line exactly where the bytes begin with one.
pub proof fn lemma_status_len(bytes: Seq<u8>, from: int)
    requires
        0 <= from,
    ensures
        status_len(bytes, from) is Some <==> exists|i: int|
            from <= i < STATUS_COUNT && #[trigger] stands_at(bytes, encode_utf8(status(i)), 0),
        forall|i: int|
            from <= i < STATUS_COUNT && #[trigger] stands_at(bytes, encode_utf8(status(i)), 0)
                ==> status_len(bytes, from) == Some(encode_utf8(status(i)).len()),
    decreases STATUS_COUNT - from,
{
    if from < STATUS_COUNT {
        lemma_status_len(bytes, from + 1);
        assert forall|i: int|
            from <= i < STATUS_COUNT && #[trigger] stands_at(bytes, encode_utf8(status(i)), 0)
            implies status_len(bytes, from) == Some(encode_utf8(status(i)).len()) by {
            if stands_at(bytes, encode_utf8(status(from)), 0) {
                lemma_one_status(bytes, from, i);
            }
        }
    }
}

/// `first_at` finds the first place, if there is any.
pub proof fn lemma_first_at(bytes: Seq<u8>, part: Seq<u8>, from: int)
    requires
        0 <= from,
    ensures
        match first_at(bytes, part, from) {
            Some(at) => {
                &&& from <= at
                &&& stands_at(bytes, part, at)
                &&& forall|k: int| from <= k < at ==> !#[trigger] stands_at(bytes, part, k)
            },
            None => forall|k: int| from <= k ==> !#[trigger] stands_at(bytes, part, k),
        },
    decreases bytes.len() + 1 - from,
{
    if from + part.len() <= bytes.len() && !stands_at(bytes, part, from) {
        lemma_first_at(bytes, part, from + 1);
    }
}

/// Bytes that follow do not change what stood before them.
proof fn lemma_stands_before_more(bytes: Seq<u8>, more: Seq<u8>, part: Seq<u8>, at: int)
    requires
        0 <= at,
        at + part.len() <= bytes.len(),
    ensures
        stands_at(bytes + more, part, at) == stands_at(bytes, part, at),
{
    assert((bytes + more).subrange(at, at + part.len()) =~= bytes.subrange(
        at,
        at + part.len(),
    ));
}

/// A response takes at least five bytes, and no more than there are. So decoding
/// gets on, and takes nothing that has not come in.
pub proof fn lemma_response_len(bytes: Seq<u8>)
    ensures
        response(bytes) matches Some(taken) ==> 5 <= taken.len <= bytes.len(),
{
    lemma_end_line();
    lemma_status_len(bytes, 0);
    if status_len(bytes, 0) is Some {
        let i = choose|i: int|
            0 <= i < STATUS_COUNT && #[trigger] stands_at(bytes, encode_utf8(status(i)), 0);
        lemma_status_bytes(i);
    } else {
        lemma_first_at(bytes, end_line(), 0);
    }
}

/// `first_at` finds the place before which `part` stands nowhere.
proof fn lemma_first_at_is(bytes: Seq<u8>, part: Seq<u8>, at: int)
    requires
        stands_at(bytes, part, at),
        forall|k: int| 0 <= k < at ==> !#[trigger] stands_at(bytes, part, k),
    ensures
        first_at(bytes, part, 0) == Some(at),
{
    lemma_first_at(bytes, part, 0);
    match first_at(bytes, part, 0) {
        Some(found) => {
            if found < at {
                assert(!stands_at(bytes, part, found));
            }
        },
        None => {
            assert(!stands_at(bytes, part, at));
        },
    }
}

/// Where an `END` line has come in, and no fixed line, none comes in with more bytes:
/// one that reached into them would hold the line feed of the `END` line before its
/// own.
proof fn lemma_no_status_behind_end_line(bytes: Seq<u8>, more: Seq<u8>, at: int, i: int)
    requires
        0 <= i < STATUS_COUNT,
        stands_at(bytes, end_line(), at),
        !stands_at(bytes, encode_utf8(status(i)), 0),
    ensures
        !stands_at(bytes + more, encode_utf8(status(i)), 0),
{
    let all = bytes + more;
    let line = encode_utf8(status(i));
    lemma_end_line();
    lemma_status_bytes(i);
    if line.len() <= bytes.len() {
        lemma_stands_before_more(bytes, more, line, 0);
    } else if stands_at(all, line, 0) {
        assert(bytes.subrange(at, at + 5)[4] == bytes[at + 4]);
        assert(all.subrange(0, line.len() as int)[at + 4] == bytes[at + 4]);
        assert(line[at + 4] == 0x0A);
    }
}

/// More bytes do not change where an `END` line stands first.
proof fn lemma_first_end_line_stays(bytes: Seq<u8>, more: Seq<u8>)
    requires
        first_at(bytes, end_line(), 0) is Some,
    ensures
        first_at(bytes + more, end_line(), 0) == first_at(bytes, end_line(), 0),
{
    let all = bytes + more;
    let part = end_line();
    let at = first_at(bytes, part, 0)->0;
    lemma_first_at(bytes, part, 0);
    lemma_stands_before_more(bytes, more, part, at);
    assert forall|k: int| 0 <= k < at implies !#[trigger] stands_at(all, part, k) by {
        lemma_stands_before_more(bytes, more, part, k);
        assert(!stands_at(bytes, part, k));
    }
    lemma_first_at_is(all, part, at);
}

/// It makes no difference in how many pieces a response comes in: once it is
/// found, bytes that follow do not change it, and as long as it is not found in
/// what came in, it is not found in less.
#[verifier::spinoff_prover]
pub proof fn lemma_more_bytes_change_no_response(bytes: Seq<u8>, more: Seq<u8>)
    ensures
        response(bytes) is Some ==> response(bytes + more) == response(bytes),
        response(bytes + more) is None ==> response(bytes) is None,
{
    let all = bytes + more;
    lemma_status_len(bytes, 0);
    lemma_status_len(all, 0);
    if status_len(bytes, 0) is Some {
        let i = choose|i: int|
            0 <= i < STATUS_COUNT && #[trigger] stands_at(bytes, encode_utf8(status(i)), 0);
        lemma_stands_before_more(bytes, more, encode_utf8(status(i)), 0);
        assert(stands_at(all, encode_utf8(status(i)), 0));
        assert(status_len(all, 0) == status_len(bytes, 0));
    } else if first_at(bytes, end_line(), 0) is Some {
        let at = first_at(bytes, end_line(), 0)->0;
        lemma_first_at(bytes, end_line(), 0);
        assert forall|i: int| 0 <= i < STATUS_COUNT implies !#[trigger] stands_at(
            all,
            encode_utf8(status(i)),
            0,
        ) by {
            assert(!stands_at(bytes, encode_utf8(status(i)), 0));
            lemma_no_status_behind_end_line(bytes, more, at, i);
        }
        assert(status_len(all, 0) is None);
        lemma_first_end_line_stays(bytes, more);
    }
}

/// A fixed line is taken as it is, whatever follows, and brings no value.
pub proof fn lemma_fixed_line_is_taken(i: int, more: Seq<u8>)
    requires
        0 <= i < STATUS_COUNT,
    ensures
        response(encode_utf8(status(i)) + more) == Some(
            Response { len: encode_utf8(status(i)).len(), hit: false },
        ),
{
    let line = encode_utf8(status(i));
    lemma_status_len(line + more, 0);
    assert((line + more).subrange(0, line.len() as int) =~= line);
    assert(stands_at(line + more, line, 0));
}

/// A response to a read is taken up to its first `END` line, whatever follows.
/// It brings a value exactly if something stands before that line.
#[verifier::spinoff_prover]
pub proof fn lemma_read_ends_with_end_line(body: Seq<u8>, more: Seq<u8>)
    requires
        status_len(body + end_line(), 0) is None,
        forall|k: int|
            0 <= k < body.len() ==> !#[trigger] stands_at(body + end_line(), end_line(), k),
    ensures
        response(body + end_line() + more) == Some(
            Response { len: body.len() + 5, hit: body.len() > 0 },
        ),
{
    let bytes = body + end_line();
    let at = body.len() as int;
    lemma_end_line();
    assert(bytes.subrange(at, at + end_line().len()) =~= end_line());
    lemma_first_at_is(bytes, end_line(), at);
    assert(response(bytes) == Some(Response { len: body.len() + 5, hit: body.len() > 0 }));
    lemma_more_bytes_change_no_response(bytes, more);
}

} // verus!
