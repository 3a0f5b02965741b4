//! What the library promises of its operations, told by what goes in and what comes
//! out: numbers and lines of a trace, records, requests and responses.

use crate::binary::{
    holds, le_value, lemma_le_ranges, lemma_le_value_splits, record_request, verb_of, Record,
};
use crate::decimal::{
    all_digits, decimal, digits_value, is_digit, lemma_decimal_digits,
    lemma_written_number_is_read_back, parsed, unsigned_part, zero_padded,
};
use crate::metrics::counted;
use crate::pacing::{advanced, tick, Tick};
use crate::protocol::{lemma_command_is_words, lemma_line_end};
use crate::request::{command, reads, requested, stores, wire, word, Request, RequestView, Verb};
use crate::response::{
    end_line, first_at, lemma_end_line, lemma_first_at, lemma_fixed_line_is_taken,
    lemma_more_bytes_change_no_response, lemma_read_ends_with_end_line, lemma_response_len,
    lemma_status_bytes, lemma_status_len, response, stands_at, status, status_len,
    Response, STATUS_COUNT,
};
use crate::split::{joined, lemma_joined_line_splits_back, lemma_parts_join_back};
use crate::text::{fields, line_request, line_time, verb_named, LineError};
use crate::values::{after, first};
use vstd::prelude::*;
use vstd::utf8::{encode_utf8, is_ascii_chars_encode_utf8};

verus! {

/// A number is read digit by digit. One digit stands for itself, and each further digit
/// makes ten of what was read and adds itself, up to `max`. Nothing, a lone sign and
/// any text with another character in it are no numbers, and what is no number does not
/// become one by what follows.
pub proof fn lemma_numbers_are_read_digit_by_digit(s: Seq<char>, c: char, max: nat)
    ensures
        parsed(Seq::empty(), max) is None,
        parsed(seq!['+'], max) is None,
        '0' <= c <= '9' ==> parsed(seq![c], max) == (if c as int - '0' as int <= max {
            Some((c as int - '0' as int) as nat)
        } else {
            None
        }),
        !('0' <= c <= '9') ==> parsed(seq![c], max) is None,
        !('0' <= c <= '9') ==> s.len() > 0 ==> parsed(s.push(c), max) is None,
        parsed(s, max) matches Some(n) ==> n <= max,
        '0' <= c <= '9' ==> (parsed(s, max) matches Some(n) ==> parsed(s.push(c), max) == (if n * 10
            + (c as int - '0' as int) <= max {
            Some((n * 10 + (c as int - '0' as int)) as nat)
        } else {
            None
        })),
        s.len() > 0 && s != seq!['+'] && parsed(s, max) is None ==> parsed(s.push(c), max) is None,
{
    reveal_with_fuel(digits_value, 3);
    let empty = Seq::<char>::empty();
    assert(unsigned_part(seq!['+']) =~= empty);
    assert(seq![c].drop_last() =~= empty);
    if !('0' <= c <= '9') {
        if c == '+' {
            assert(seq![c] =~= seq!['+']);
        } else {
            assert(!is_digit(seq![c][0]));
        }
    }
    if s.len() > 0 {
        let t = s.push(c);
        let before = unsigned_part(s);
        let now = unsigned_part(t);
        assert(now =~= before.push(c));
        assert(now.drop_last() =~= before);
        assert(is_digit(now.last()) == is_digit(c));
        assert(all_digits(now) ==> all_digits(before)) by {
            if all_digits(now) {
                assert forall|i: int| 0 <= i < before.len() implies is_digit(
                    #[trigger] before[i],
                ) by {
                    assert(is_digit(now[i]));
                }
            }
        }
        if before.len() == 0 {
            assert(s =~= seq!['+']);
        }
        if !('0' <= c <= '9') {
            assert(!is_digit(now[now.len() - 1]));
        }
    }
}

/// One plus sign in front changes no number.
pub proof fn lemma_a_plus_sign_changes_nothing(s: Seq<char>, max: nat)
    requires
        s.len() > 0,
        s[0] != '+',
    ensures
        parsed(seq!['+'] + s, max) == parsed(s, max),
{
    assert(unsigned_part(seq!['+'] + s) =~= s);
}

/// A number is written in digits only, with no zero in front but for zero itself, and
/// reads as itself. With a width it has as many zeros in front as that takes, and no
/// more.
pub proof fn lemma_numbers_are_written_plainly(n: nat, width: nat, max: nat)
    requires
        n <= max,
    ensures
        parsed(decimal(n), max) == Some(n),
        parsed(zero_padded(n, width), max) == Some(n),
        forall|i: int| 0 <= i < decimal(n).len() ==> '0' <= #[trigger] decimal(n)[i] <= '9',
        n > 0 ==> decimal(n)[0] != '0',
        n == 0 ==> decimal(n) == seq!['0'],
        zero_padded(n, width).len() == if decimal(n).len() >= width {
            decimal(n).len()
        } else {
            width
        },
        zero_padded(n, width).skip(zero_padded(n, width).len() - decimal(n).len()) == decimal(n),
        forall|i: int|
            0 <= i < zero_padded(n, width).len() - decimal(n).len() ==> #[trigger] zero_padded(
                n,
                width,
            )[i] == '0',
{
    lemma_written_number_is_read_back(n, width, max);
    lemma_decimal_digits(n);
    lemma_no_zero_in_front(n);
    assert forall|i: int| 0 <= i < decimal(n).len() implies '0' <= #[trigger] decimal(n)[i]
        <= '9' by {
        assert(is_digit(decimal(n)[i]));
    }
    assert(zero_padded(n, width).skip(zero_padded(n, width).len() - decimal(n).len())
        =~= decimal(n));
}

/// A number above zero has no zero in front.
proof fn lemma_no_zero_in_front(n: nat)
    ensures
        decimal(n).len() > 0,
        n > 0 ==> decimal(n)[0] != '0',
    decreases n,
{
    if n >= 10 {
        lemma_no_zero_in_front(n / 10);
    }
}

/// A request says what it was made of: its verb, its key and, where it stores, the
/// length of its value and its time to live, whatever these are.
pub proof fn lemma_a_request_says_what_it_is(key: String, vlen: usize, ttl: u32)
    ensures
        (Request::Get { key })@ == (RequestView { verb: Verb::Get, key: key@, vlen: 0, ttl: 0 }),
        (Request::Gets { key })@ == (RequestView { verb: Verb::Gets, key: key@, vlen: 0, ttl: 0 }),
        (Request::Delete { key })@ == (RequestView {
            verb: Verb::Delete,
            key: key@,
            vlen: 0,
            ttl: 0,
        }),
        (Request::Put { key, vlen, ttl })@ == (RequestView {
            verb: Verb::Put,
            key: key@,
            vlen: vlen as nat,
            ttl: ttl as nat,
        }),
        (Request::Add { key, vlen, ttl })@ == (RequestView {
            verb: Verb::Add,
            key: key@,
            vlen: vlen as nat,
            ttl: ttl as nat,
        }),
        (Request::Replace { key, vlen, ttl })@ == (RequestView {
            verb: Verb::Replace,
            key: key@,
            vlen: vlen as nat,
            ttl: ttl as nat,
        }),
{
}

/// A request that is built keeps all that it is built of and has a use for.
pub proof fn lemma_a_request_is_built_whole(verb: Verb, key: Seq<char>, vlen: nat, ttl: nat)
    ensures
        requested(verb, key, vlen, ttl).verb == verb,
        requested(verb, key, vlen, ttl).key == key,
        verb is Put || verb is Add || verb is Replace ==> requested(verb, key, vlen, ttl).vlen
            == vlen && requested(verb, key, vlen, ttl).ttl == ttl,
        verb is Get || verb is Gets || verb is Delete ==> requested(verb, key, vlen, ttl).vlen == 0
            && requested(verb, key, vlen, ttl).ttl == 0,
        stores(verb) <==> verb is Put || verb is Add || verb is Replace,
        reads(verb) <==> verb is Get || verb is Gets,
{
}

/// The words of the protocol.
pub proof fn lemma_verbs_have_their_words()
    ensures
        word(Verb::Get) == "get"@,
        word(Verb::Gets) == "gets"@,
        word(Verb::Put) == "set"@,
        word(Verb::Add) == "add"@,
        word(Verb::Replace) == "replace"@,
        word(Verb::Delete) == "delete"@,
{
}

/// A request goes on the wire as its words with spaces between them and the end of a
/// line, whatever its key, and then, where it stores, its value and the end of a line.
pub proof fn lemma_a_request_goes_on_the_wire_whole(request: RequestView, value: Seq<u8>)
    ensures
        request.verb is Put || request.verb is Add || request.verb is Replace ==> command(request)
            == joined(
            seq![
                word(request.verb),
                request.key,
                "0"@,
                decimal(request.ttl),
                decimal(request.vlen),
            ],
            ' ',
        ) + "\r\n"@ && wire(request, value) == encode_utf8(command(request)) + value + seq![
            0x0Du8,
            0x0A,
        ],
        request.verb is Get || request.verb is Gets || request.verb is Delete ==> command(request)
            == joined(seq![word(request.verb), request.key], ' ') + "\r\n"@ && wire(request, value)
            == encode_utf8(command(request)),
{
    lemma_command_is_words(request);
    lemma_line_end();
}

/// Joining goes part by part.
pub proof fn lemma_parts_are_joined_one_by_one(
    parts: Seq<Seq<char>>,
    part: Seq<char>,
    sep: char,
)
    ensures
        joined(seq![part], sep) == part,
        parts.len() > 0 ==> joined(parts.push(part), sep) == joined(parts, sep) + seq![sep] + part,
{
    assert(parts.push(part).drop_last() =~= parts);
}

/// Characters are taken from the front, in their order, and the others stay in theirs.
pub proof fn lemma_characters_are_taken_from_the_front(store: Map<nat, u8>, n: nat, i: nat)
    ensures
        first(store, n).len() == n,
        i < n ==> first(store, n)[i as int] == store[i],
        after(store, n).dom().contains(i) <==> store.dom().contains(i + n),
        store.dom().contains(i + n) ==> after(store, n)[i] == store[i + n],
{
}

/// A count goes up by one, and starts over behind the end of its range.
pub proof fn lemma_counts_go_up_by_one(n: u64)
    ensures
        counted(n) as int == (n + 1) % 0x1_0000_0000_0000_0000,
{
}

/// Every fixed line is a response of its own, whatever follows.
pub proof fn lemma_fixed_lines_are_responses(more: Seq<u8>)
    ensures
        response(encode_utf8("STORED\r\n"@) + more) == Some(Response { len: 8, hit: false }),
        response(encode_utf8("NOT_STORED\r\n"@) + more) == Some(Response { len: 12, hit: false }),
        response(encode_utf8("EXISTS\r\n"@) + more) == Some(Response { len: 8, hit: false }),
        response(encode_utf8("NOT_FOUND\r\n"@) + more) == Some(Response { len: 11, hit: false }),
        response(encode_utf8("DELETED\r\n"@) + more) == Some(Response { len: 9, hit: false }),
        response(encode_utf8("TOUCHED\r\n"@) + more) == Some(Response { len: 9, hit: false }),
{
    reveal_strlit("STORED\r\n");
    reveal_strlit("NOT_STORED\r\n");
    reveal_strlit("EXISTS\r\n");
    reveal_strlit("NOT_FOUND\r\n");
    reveal_strlit("DELETED\r\n");
    reveal_strlit("TOUCHED\r\n");
    is_ascii_chars_encode_utf8("STORED\r\n"@);
    is_ascii_chars_encode_utf8("NOT_STORED\r\n"@);
    is_ascii_chars_encode_utf8("EXISTS\r\n"@);
    is_ascii_chars_encode_utf8("NOT_FOUND\r\n"@);
    is_ascii_chars_encode_utf8("DELETED\r\n"@);
    is_ascii_chars_encode_utf8("TOUCHED\r\n"@);
    lemma_fixed_line_is_taken(0, more);
    lemma_fixed_line_is_taken(1, more);
    lemma_fixed_line_is_taken(2, more);
    lemma_fixed_line_is_taken(3, more);
    lemma_fixed_line_is_taken(4, more);
    lemma_fixed_line_is_taken(5, more);
}

/// What a server answers to a read is taken up to its first `END` line, however long it
/// is and whatever follows. It brings a value if anything stands before that line.
pub proof fn lemma_a_read_is_answered_up_to_its_end_line(
    body: Seq<u8>,
    end: Seq<u8>,
    more: Seq<u8>,
)
    requires
        end == seq![0x45u8, 0x4E, 0x44, 0x0D, 0x0A],
        body.len() > 0 ==> body[0] == 0x56,
        forall|k: int| 0 <= k < body.len() ==> #[trigger] (body + end).subrange(k, k + 5) != end,
    ensures
        response(body + end + more) == Some(
            Response { len: body.len() + 5, hit: body.len() > 0 },
        ),
{
    let bytes = body + end;
    lemma_end_line();
    lemma_status_len(bytes, 0);
    assert forall|i: int| 0 <= i < STATUS_COUNT implies !#[trigger] stands_at(
        bytes,
        encode_utf8(status(i)),
        0,
    ) by {
        let line = encode_utf8(status(i));
        lemma_status_bytes(i);
        if stands_at(bytes, line, 0) {
            assert(bytes.subrange(0, line.len() as int)[0] == bytes[0]);
            assert(bytes.subrange(0, line.len() as int)[1] == bytes[1]);
        }
    }
    assert forall|k: int| 0 <= k < body.len() implies !#[trigger] stands_at(
        body + end_line(),
        end_line(),
        k,
    ) by {
        assert(bytes.subrange(k, k + 5) != end);
    }
    lemma_read_ends_with_end_line(body, more);
}

/// There is no response exactly where the bytes begin with no fixed line and hold no
/// `END` line anywhere.
pub proof fn lemma_when_there_is_no_response(bytes: Seq<u8>)
    ensures
        response(bytes) is None <==> {
            &&& !encode_utf8("STORED\r\n"@).is_prefix_of(bytes)
            &&& !encode_utf8("NOT_STORED\r\n"@).is_prefix_of(bytes)
            &&& !encode_utf8("EXISTS\r\n"@).is_prefix_of(bytes)
            &&& !encode_utf8("NOT_FOUND\r\n"@).is_prefix_of(bytes)
            &&& !encode_utf8("DELETED\r\n"@).is_prefix_of(bytes)
            &&& !encode_utf8("TOUCHED\r\n"@).is_prefix_of(bytes)
            &&& forall|k: int|
                0 <= k <= bytes.len() - 5 ==> #[trigger] bytes.subrange(k, k + 5) != seq![
                    0x45u8,
                    0x4E,
                    0x44,
                    0x0D,
                    0x0A,
                ]
        },
{
    let end = seq![0x45u8, 0x4E, 0x44, 0x0D, 0x0A];
    lemma_end_line();
    lemma_status_len(bytes, 0);
    lemma_first_at(bytes, end_line(), 0);
    assert forall|i: int| 0 <= i < STATUS_COUNT implies (#[trigger] stands_at(
        bytes,
        encode_utf8(status(i)),
        0,
    ) <==> encode_utf8(status(i)).is_prefix_of(bytes)) by {}
    assert(stands_at(bytes, encode_utf8(status(0)), 0) == encode_utf8(
        "STORED\r\n"@,
    ).is_prefix_of(bytes));
    assert(stands_at(bytes, encode_utf8(status(1)), 0) == encode_utf8(
        "NOT_STORED\r\n"@,
    ).is_prefix_of(bytes));
    assert(stands_at(bytes, encode_utf8(status(2)), 0) == encode_utf8(
        "EXISTS\r\n"@,
    ).is_prefix_of(bytes));
    assert(stands_at(bytes, encode_utf8(status(3)), 0) == encode_utf8(
        "NOT_FOUND\r\n"@,
    ).is_prefix_of(bytes));
    assert(stands_at(bytes, encode_utf8(status(4)), 0) == encode_utf8(
        "DELETED\r\n"@,
    ).is_prefix_of(bytes));
    assert(stands_at(bytes, encode_utf8(status(5)), 0) == encode_utf8(
        "TOUCHED\r\n"@,
    ).is_prefix_of(bytes));
    if let Some(at) = first_at(bytes, end_line(), 0) {
        assert(bytes.subrange(at, at + 5) == end);
    } else {
        assert forall|k: int| 0 <= k <= bytes.len() - 5 implies #[trigger] bytes.subrange(
            k,
            k + 5,
        ) != end by {
            assert(!stands_at(bytes, end_line(), k));
        }
    }
}

/// Where a response is found, it is the first one: a fixed line at the front, or all up
/// to an `END` line before which there is none.
pub proof fn lemma_the_first_response_is_taken(bytes: Seq<u8>, taken: Response)
    requires
        response(bytes) == Some(taken),
    ensures
        5 <= taken.len <= bytes.len(),
        response(bytes.take(taken.len as int)) == Some(taken),
        forall|n: int| 0 <= n < taken.len ==> response(#[trigger] bytes.take(n)) is None,
{
    lemma_response_len(bytes);
    let front = bytes.take(taken.len as int);
    let rest = bytes.skip(taken.len as int);
    assert(front + rest =~= bytes);
    lemma_more_bytes_change_no_response(front, rest);
    assert forall|n: int| 0 <= n < taken.len implies response(
        #[trigger] bytes.take(n),
    ) is None by {
        let less = bytes.take(n);
        assert(less + bytes.skip(n) =~= bytes);
        lemma_more_bytes_change_no_response(less, bytes.skip(n));
        lemma_response_len(less);
    }
    lemma_end_line();
    lemma_status_len(bytes, 0);
    lemma_status_len(front, 0);
    lemma_first_at(bytes, end_line(), 0);
    lemma_first_at(front, end_line(), 0);
    if status_len(bytes, 0) is Some {
        let i = choose|i: int|
            0 <= i < STATUS_COUNT && #[trigger] stands_at(bytes, encode_utf8(status(i)), 0);
        let line = encode_utf8(status(i));
        assert(front.subrange(0, line.len() as int) =~= bytes.subrange(0, line.len() as int));
        assert(stands_at(front, line, 0));
    } else {
        let at = first_at(bytes, end_line(), 0)->0;
        assert(front.subrange(at, at + 5) =~= bytes.subrange(at, at + 5));
        assert(stands_at(front, end_line(), at));
    }
}

/// A record is read byte by byte, least significant byte first: four bytes of time,
/// eight of the number of the key, four with ten bits of the key's length above
/// twenty-two of the value's, and four with the operation above three bytes of the time
/// to live.
pub proof fn lemma_a_record_is_read_byte_by_byte(bytes: Seq<u8>, record: Record)
    requires
        holds(bytes, record),
    ensures
        bytes.len() == 20,
        record.ts == bytes[0] + 0x100 * bytes[1] + 0x1_0000 * bytes[2] + 0x100_0000 * bytes[3],
        record.keyid == bytes[4] + 0x100 * bytes[5] + 0x1_0000 * bytes[6] + 0x100_0000 * bytes[7]
            + 0x1_0000_0000 * (bytes[8] + 0x100 * bytes[9] + 0x1_0000 * bytes[10] + 0x100_0000
            * bytes[11]),
        record.klen * 0x40_0000 + record.vlen == bytes[12] + 0x100 * bytes[13] + 0x1_0000
            * bytes[14] + 0x100_0000 * bytes[15],
        record.vlen < 0x40_0000,
        record.ttl == bytes[16] + 0x100 * bytes[17] + 0x1_0000 * bytes[18],
        record.op == bytes[19],
{
    lemma_four_bytes(bytes, 0);
    lemma_four_bytes(bytes, 4);
    lemma_four_bytes(bytes, 8);
    lemma_four_bytes(bytes, 12);
    lemma_four_bytes(bytes, 16);
    lemma_le_ranges();
    let key = bytes.subrange(4, 12);
    lemma_le_value_splits(key, 4);
    assert(key.take(4) =~= bytes.subrange(4, 8));
    assert(key.skip(4) =~= bytes.subrange(8, 12));
}

/// What four bytes stand for.
proof fn lemma_four_bytes(bytes: Seq<u8>, at: int)
    requires
        0 <= at,
        at + 4 <= bytes.len(),
    ensures
        le_value(bytes.subrange(at, at + 4)) == bytes[at] + 0x100 * bytes[at + 1] + 0x1_0000
            * bytes[at + 2] + 0x100_0000 * bytes[at + 3],
{
    reveal_with_fuel(le_value, 5);
}

/// The codes of the operations that are replayed. No other is.
pub proof fn lemma_operations_have_their_codes(op: u8)
    ensures
        verb_of(op) == Some(Verb::Get) <==> op == 1,
        verb_of(op) == Some(Verb::Gets) <==> op == 2,
        verb_of(op) == Some(Verb::Put) <==> op == 3,
        verb_of(op) == Some(Verb::Add) <==> op == 4,
        verb_of(op) == Some(Verb::Replace) <==> op == 6,
        verb_of(op) == Some(Verb::Delete) <==> op == 9,
        verb_of(op) is None <==> op != 1 && op != 2 && op != 3 && op != 4 && op != 6 && op != 9,
{
}

/// A record asks for just what it holds: the operation of its code, on the key that its
/// number and length give, and, where a value is stored, with the record's own length
/// and time to live, whatever these are. Other operations ask for nothing.
pub proof fn lemma_a_record_asks_for_what_it_holds(record: Record)
    ensures
        record_request(record) is Some <==> record.op == 1 || record.op == 2 || record.op == 3
            || record.op == 4 || record.op == 6 || record.op == 9,
        record_request(record) matches Some(request) ==> {
            &&& request.verb is Get <==> record.op == 1
            &&& request.verb is Gets <==> record.op == 2
            &&& request.verb is Put <==> record.op == 3
            &&& request.verb is Add <==> record.op == 4
            &&& request.verb is Replace <==> record.op == 6
            &&& request.verb is Delete <==> record.op == 9
            &&& request.key == zero_padded(record.keyid as nat, record.klen as nat)
            &&& record.op == 3 || record.op == 4 || record.op == 6 ==> request.vlen == record.vlen
                && request.ttl == record.ttl
            &&& record.op == 1 || record.op == 2 || record.op == 9 ==> request.vlen == 0
                && request.ttl == 0
        },
{
}

/// What the bytes of a record say reaches the wire whole: a record that stores goes out
/// with the length and the time to live that its bytes hold.
pub proof fn lemma_a_stored_record_keeps_its_numbers(bytes: Seq<u8>, record: Record)
    requires
        holds(bytes, record),
        bytes[19] == 3 || bytes[19] == 4 || bytes[19] == 6,
    ensures
        ({
            let request = record_request(record)->0;
            &&& record_request(record) is Some
            &&& request.ttl == bytes[16] + 0x100 * bytes[17] + 0x1_0000 * bytes[18]
            &&& request.vlen == bytes[12] + 0x100 * bytes[13] + 0x1_0000 * (bytes[14] % 0x40)
            &&& command(request) == joined(
                seq![
                    word(request.verb),
                    zero_padded(record.keyid as nat, record.klen as nat),
                    "0"@,
                    decimal(request.ttl),
                    decimal(request.vlen),
                ],
                ' ',
            ) + "\r\n"@
        }),
{
    lemma_a_record_is_read_byte_by_byte(bytes, record);
    lemma_low_bits(
        record.klen as int,
        record.vlen as int,
        bytes[12] as int,
        bytes[13] as int,
        bytes[14] as int,
        bytes[15] as int,
    );
    lemma_a_record_asks_for_what_it_holds(record);
    lemma_a_request_goes_on_the_wire_whole(record_request(record)->0, Seq::empty());
}

/// The lower twenty-two bits of four bytes.
proof fn lemma_low_bits(high: int, low: int, a: int, b: int, c: int, d: int)
    requires
        0 <= a < 0x100,
        0 <= b < 0x100,
        0 <= c < 0x100,
        0 <= d < 0x100,
        0 <= low < 0x40_0000,
        high * 0x40_0000 + low == a + 0x100 * b + 0x1_0000 * c + 0x100_0000 * d,
    ensures
        low == a + 0x100 * b + 0x1_0000 * (c % 0x40),
{
    let q = c / 0x40;
    let m = c % 0x40;
    assert(c == 0x40 * q + m);
    let k = q + 4 * d - high;
    assert(low - (a + 0x100 * b + 0x1_0000 * m) == 0x40_0000 * k);
    assert(k == 0);
}

/// The time of a line is one more than what is written, whatever that is, as long as the
/// line holds an operation. Otherwise it is told what is wrong, the time first.
pub proof fn lemma_a_line_is_one_second_later_than_written(parts: Seq<Seq<char>>)
    ensures
        match parsed(parts[0], 0xFFFF_FFFF_FFFF_FFFF) {
            Some(written) => {
                &&& written < 0xFFFF_FFFF_FFFF_FFFF && parts.len() >= 6 ==> line_time(parts) == Ok::<
                    nat,
                    LineError,
                >(written + 1)
                &&& written < 0xFFFF_FFFF_FFFF_FFFF && parts.len() < 6 ==> line_time(parts)
                    == Err::<nat, LineError>(LineError::MissingVerb)
                &&& written == 0xFFFF_FFFF_FFFF_FFFF ==> line_time(parts) == Err::<nat, LineError>(
                    LineError::TimestampOverflow,
                )
            },
            None => line_time(parts) == Err::<nat, LineError>(LineError::InvalidTimestamp),
        },
{
}

/// Lines are as far apart as their written times are: nothing brings them closer
/// together. A time that is written plainly is the written one and one more.
pub proof fn lemma_lines_are_as_far_apart_as_written(
    a: Seq<Seq<char>>,
    b: Seq<Seq<char>>,
    s: nat,
    t: nat,
)
    requires
        a.len() >= 6,
        b.len() >= 6,
        s < u64::MAX,
        t < u64::MAX,
        a[0] == decimal(s),
        b[0] == decimal(t),
    ensures
        line_time(a) is Ok && line_time(b) is Ok,
        line_time(a)->Ok_0 - line_time(b)->Ok_0 == s - t,
        line_time(a)->Ok_0 == s + 1,
{
    lemma_written_number_is_read_back(s, 0, u64::MAX as nat);
    lemma_written_number_is_read_back(t, 0, u64::MAX as nat);
}

/// The words of the operations that are replayed. No other is.
pub proof fn lemma_operations_have_their_words(name: Seq<char>)
    ensures
        verb_named(name) == Some(Verb::Get) <==> name == "get"@,
        verb_named(name) == Some(Verb::Gets) <==> name == "gets"@,
        verb_named(name) == Some(Verb::Put) <==> name == "set"@,
        verb_named(name) == Some(Verb::Add) <==> name == "add"@,
        verb_named(name) == Some(Verb::Replace) <==> name == "replace"@,
        verb_named(name) == Some(Verb::Delete) <==> name == "delete"@,
        verb_named(name) is None <==> name != "get"@ && name != "gets"@ && name != "set"@ && name
            != "add"@ && name != "replace"@ && name != "delete"@,
{
    reveal_strlit("get");
    reveal_strlit("gets");
    reveal_strlit("set");
    reveal_strlit("add");
    reveal_strlit("replace");
    reveal_strlit("delete");
    assert("get"@.len() == 3 && "gets"@.len() == 4 && "set"@.len() == 3 && "add"@.len() == 3);
    assert("replace"@.len() == 7 && "delete"@.len() == 6);
    assert("get"@[0] == 'g' && "set"@[0] == 's' && "add"@[0] == 'a');
}

/// A line asks for just what its fields say: the operation, on the key as it is written,
/// and, where a value is stored, with the length and the time to live that are written,
/// whatever these are.
pub proof fn lemma_a_line_asks_for_what_it_says(parts: Seq<Seq<char>>, vlen: nat, ttl: nat)
    requires
        parts.len() >= 7,
        parsed(parts[3], usize::MAX as nat) == Some(vlen),
        parsed(parts[6], u32::MAX as nat) == Some(ttl),
    ensures
        line_request(parts) is Ok,
        line_request(parts)->Ok_0 is Some <==> parts[5] == "get"@ || parts[5] == "gets"@
            || parts[5] == "set"@ || parts[5] == "add"@ || parts[5] == "replace"@ || parts[5]
            == "delete"@,
        line_request(parts)->Ok_0 matches Some(request) ==> {
            &&& request.verb is Get <==> parts[5] == "get"@
            &&& request.verb is Gets <==> parts[5] == "gets"@
            &&& request.verb is Put <==> parts[5] == "set"@
            &&& request.verb is Add <==> parts[5] == "add"@
            &&& request.verb is Replace <==> parts[5] == "replace"@
            &&& request.verb is Delete <==> parts[5] == "delete"@
            &&& request.key == parts[1]
            &&& parts[5] == "set"@ || parts[5] == "add"@ || parts[5] == "replace"@
                ==> request.vlen == vlen && request.ttl == ttl
            &&& parts[5] == "get"@ || parts[5] == "gets"@ || parts[5] == "delete"@
                ==> request.vlen == 0 && request.ttl == 0
        },
{
    lemma_operations_have_their_words(parts[5]);
}

/// A line whose numbers are wrong is told so, whatever its operation, the length first.
pub proof fn lemma_a_line_with_wrong_numbers_is_refused(parts: Seq<Seq<char>>)
    requires
        parts.len() >= 6,
    ensures
        parsed(parts[3], usize::MAX as nat) is None <==> line_request(parts) == Err::<
            Option<RequestView>,
            LineError,
        >(LineError::InvalidLength),
        parsed(parts[3], usize::MAX as nat) is Some && parts.len() == 6 <==> line_request(parts)
            == Err::<Option<RequestView>, LineError>(LineError::MissingTtl),
        parsed(parts[3], usize::MAX as nat) is Some && parts.len() > 6 && parsed(
            parts[6],
            u32::MAX as nat,
        ) is None <==> line_request(parts) == Err::<Option<RequestView>, LineError>(
            LineError::InvalidTtl,
        ),
{
}

/// The fields of a line are what stands between its commas: joined by commas they are
/// the line again, and none holds one.
pub proof fn lemma_fields_stand_between_commas(line: Seq<char>)
    ensures
        fields(line).len() > 0,
        joined(fields(line), ',') == line,
        forall|i: int, j: int|
            0 <= i < fields(line).len() && 0 <= j < fields(line)[i].len() ==> #[trigger] fields(
                line,
            )[i][j] != ',',
{
    lemma_parts_join_back(line, ',');
}

/// A line is read back as it was written. Fields that hold no comma, with a time, a
/// length and a time to live in plain decimal, give the time and one more, and the
/// request with that key, length and time to live.
pub proof fn lemma_a_written_line_is_read_back(
    verb: Verb,
    key: Seq<char>,
    time: nat,
    vlen: nat,
    ttl: nat,
    other: Seq<char>,
    another: Seq<char>,
)
    requires
        time < u64::MAX,
        vlen <= usize::MAX,
        ttl <= u32::MAX,
        forall|i: int| 0 <= i < key.len() ==> key[i] != ',',
        forall|i: int| 0 <= i < other.len() ==> other[i] != ',',
        forall|i: int| 0 <= i < another.len() ==> another[i] != ',',
    ensures
        ({
            let line = joined(
                seq![decimal(time), key, other, decimal(vlen), another, word(verb), decimal(ttl)],
                ',',
            );
            &&& line_time(fields(line)) == Ok::<nat, LineError>(time + 1)
            &&& line_request(fields(line)) is Ok
            &&& line_request(fields(line))->Ok_0 is Some
            &&& ({
                let request = line_request(fields(line))->Ok_0->0;
                &&& request.verb == verb
                &&& request.key == key
                &&& verb is Put || verb is Add || verb is Replace ==> request.vlen == vlen
                    && request.ttl == ttl
            })
        }),
{
    let parts = seq![decimal(time), key, other, decimal(vlen), another, word(verb), decimal(ttl)];
    lemma_decimal_digits(time);
    lemma_decimal_digits(vlen);
    lemma_decimal_digits(ttl);
    reveal_strlit("get");
    reveal_strlit("gets");
    reveal_strlit("set");
    reveal_strlit("add");
    reveal_strlit("replace");
    reveal_strlit("delete");
    assert forall|i: int, j: int|
        0 <= i < parts.len() && 0 <= j < parts[i].len() implies #[trigger] parts[i][j] != ',' by {
        if i == 0 || i == 3 || i == 6 {
            assert(is_digit(parts[i][j]));
        }
    }
    lemma_joined_line_splits_back(parts, ',');
    lemma_written_number_is_read_back(time, 0, u64::MAX as nat);
    lemma_written_number_is_read_back(vlen, 0, usize::MAX as nat);
    lemma_written_number_is_read_back(ttl, 0, u32::MAX as nat);
    lemma_verbs_have_their_words();
    lemma_operations_have_their_words(word(verb));
}

/// What a time means to a replay: one that was reached already changes nothing, the
/// first starts the replay, and any later one puts it off by just as many seconds as
/// lie between.
pub proof fn lemma_a_gap_is_kept_whole(reached: nat, ts: nat)
    requires
        ts <= u64::MAX,
    ensures
        ts <= reached ==> tick(reached, ts) == Tick::Current && advanced(reached, ts) == reached,
        ts > reached ==> advanced(reached, ts) == ts,
        ts > reached && reached == 0 ==> tick(reached, ts) == Tick::Start,
        ts > reached && reached > 0 ==> (tick(reached, ts) matches Tick::Advance(secs) && reached
            + secs == ts),
{
}

} // verus!
