//! What a server reads of the bytes that a request puts on the wire.

use crate::decimal::{decimal, is_digit, lemma_decimal_digits};
use crate::request::{command, stores, wire, word, RequestView};
use crate::response::{first_at, lemma_first_at, stands_at};
use crate::split::{joined, lemma_joined_line_splits_back, split};
use crate::values::{first, lemma_values_are_alphanumeric};
use crate::worker::{sent, WorkerView};
use vstd::prelude::*;
use vstd::utf8::{
    char_is_scalar, decode_utf8, encode_scalar, encode_utf8, encode_utf8_decode_utf8,
    has_width_1_encoding, is_ascii_chars_encode_utf8,
};

verus! {

/// The bytes that end a line.
pub open spec fn line_end() -> Seq<u8> {
    encode_utf8("\r\n"@)
}

/// The words of the line that announces a request.
pub open spec fn words(request: RequestView) -> Seq<Seq<char>> {
    if stores(request.verb) {
        seq![
            word(request.verb),
            request.key,
            "0"@,
            decimal(request.ttl),
            decimal(request.vlen),
        ]
    } else {
        seq![word(request.verb), request.key]
    }
}

/// What ends a line, byte by byte.
pub proof fn lemma_line_end()
    ensures
        line_end() == seq![0x0Du8, 0x0A],
{
    reveal_strlit("\r\n");
    is_ascii_chars_encode_utf8("\r\n"@);
    assert(line_end() =~= seq![0x0Du8, 0x0A]);
}

/// Text that is joined is encoded part by part.
proof fn lemma_encode_joined(a: Seq<char>, b: Seq<char>)
    ensures
        encode_utf8(a + b) == encode_utf8(a) + encode_utf8(b),
    decreases a.len(),
{
    if a.len() == 0 {
        assert(a + b =~= b);
        assert(encode_utf8(a) + encode_utf8(b) =~= encode_utf8(b));
    } else {
        assert((a + b).drop_first() =~= a.drop_first() + b);
        lemma_encode_joined(a.drop_first(), b);
        assert(encode_utf8(a + b) =~= encode_utf8(a) + encode_utf8(b));
    }
}

/// A character other than a carriage return takes no byte that is one.
proof fn lemma_scalar_without_return(c: char, i: int)
    requires
        c != '\r',
        0 <= i < encode_scalar(c as u32).len(),
    ensures
        encode_scalar(c as u32)[i] != 0x0D,
{
    let v = c as u32;
    char_is_scalar(c);
    if has_width_1_encoding(v) {
        assert((v & 0x7F) as u8 == v) by (bit_vector)
            requires
                v <= 0x7F,
        ;
    } else {
        assert((0xC0 | ((v >> 6) & 0x1F) as u8) >= 0x80) by (bit_vector);
        assert((0xE0 | ((v >> 12) & 0x0F) as u8) >= 0x80) by (bit_vector);
        assert((0xF0 | ((v >> 18) & 0x7) as u8) >= 0x80) by (bit_vector);
        assert((0x80 | (v & 0x3F) as u8) >= 0x80) by (bit_vector);
        assert((0x80 | ((v >> 6) & 0x3F) as u8) >= 0x80) by (bit_vector);
        assert((0x80 | ((v >> 12) & 0x3F) as u8) >= 0x80) by (bit_vector);
    }
}

/// Text without a carriage return takes no byte that is one.
proof fn lemma_text_without_return(text: Seq<char>, i: int)
    requires
        forall|k: int| 0 <= k < text.len() ==> text[k] != '\r',
        0 <= i < encode_utf8(text).len(),
    ensures
        encode_utf8(text)[i] != 0x0D,
    decreases text.len(),
{
    let head = encode_scalar(text[0] as u32);
    if i < head.len() {
        lemma_scalar_without_return(text[0], i);
    } else {
        lemma_text_without_return(text.drop_first(), i - head.len());
    }
}

/// No word of a line holds a space or a carriage return, where the key holds none.
proof fn lemma_words(request: RequestView, i: int, j: int)
    requires
        forall|k: int|
            0 <= k < request.key.len() ==> #[trigger] request.key[k] != ' ' && request.key[k]
                != '\r',
        0 <= i < words(request).len(),
        0 <= j < words(request)[i].len(),
    ensures
        words(request)[i][j] != ' ',
        words(request)[i][j] != '\r',
{
    reveal_strlit("get");
    reveal_strlit("gets");
    reveal_strlit("set");
    reveal_strlit("add");
    reveal_strlit("replace");
    reveal_strlit("delete");
    reveal_strlit("0");
    lemma_decimal_digits(request.ttl);
    lemma_decimal_digits(request.vlen);
    if i == 1 {
        assert(request.key[j] != ' ');
    } else if i >= 3 {
        assert(is_digit(words(request)[i][j]));
    }
}

/// The line that announces a request is its words, with spaces between them, and the
/// end of a line.
pub proof fn lemma_command_is_words(request: RequestView)
    ensures
        command(request) == joined(words(request), ' ') + "\r\n"@,
{
    reveal_strlit(" ");
    reveal_strlit("0");
    reveal_strlit(" 0 ");
    reveal_with_fuel(joined, 5);
    let parts = words(request);
    assert(parts.drop_last().len() == parts.len() - 1);
    assert(command(request) =~= joined(parts, ' ') + "\r\n"@);
}

/// Joined words hold no carriage return, where none of the words does.
proof fn lemma_joined_without_return(parts: Seq<Seq<char>>, k: int)
    requires
        forall|i: int, j: int|
            0 <= i < parts.len() && 0 <= j < parts[i].len() ==> #[trigger] parts[i][j] != '\r',
        0 <= k < joined(parts, ' ').len(),
    ensures
        joined(parts, ' ')[k] != '\r',
    decreases parts.len(),
{
    if parts.len() == 1 {
        assert(parts[0][k] != '\r');
    } else {
        let front = parts.drop_last();
        let before = joined(front, ' ');
        if k < before.len() {
            assert forall|i: int, j: int|
                0 <= i < front.len() && 0 <= j < front[i].len() implies #[trigger] front[i][j]
                != '\r' by {
                assert(parts[i][j] != '\r');
            }
            lemma_joined_without_return(front, k);
        } else if k > before.len() {
            assert(parts[parts.len() - 1][k - before.len() - 1] != '\r');
        }
    }
}

/// Behind bytes that do not hold its first byte, `part` stands there first.
proof fn lemma_stands_first(head: Seq<u8>, part: Seq<u8>, rest: Seq<u8>)
    requires
        part.len() > 0,
        forall|k: int| 0 <= k < head.len() ==> head[k] != part[0],
    ensures
        first_at(head + part + rest, part, 0) == Some(head.len() as int),
{
    let bytes = head + part + rest;
    let end = head.len() as int;
    assert(bytes.subrange(end, end + part.len()) =~= part);
    assert(stands_at(bytes, part, end));
    assert forall|k: int| 0 <= k < end implies !stands_at(bytes, part, k) by {
        if stands_at(bytes, part, k) {
            assert(bytes.subrange(k, k + part.len())[0] == head[k]);
        }
    }
    lemma_first_at(bytes, part, 0);
}

/// A server reads the request back from what is put on the wire. The first line, split
/// at its spaces, gives the words of the request. Behind it come as many bytes as the
/// line says, which are the value, and the end of a line, or nothing where there is no
/// value. The key must hold no space and no carriage return.
pub proof fn lemma_request_is_read_back(request: RequestView, value: Seq<u8>)
    requires
        forall|k: int|
            0 <= k < request.key.len() ==> #[trigger] request.key[k] != ' ' && request.key[k]
                != '\r',
        value.len() == request.vlen,
    ensures
        first_at(wire(request, value), line_end(), 0) is Some,
        ({
            let bytes = wire(request, value);
            let end = first_at(bytes, line_end(), 0)->0;
            let rest = bytes.skip(end + 2);
            &&& split(decode_utf8(bytes.take(end)), ' ') == words(request)
            &&& stores(request.verb) ==> rest.take(request.vlen as int) == value && rest.skip(
                request.vlen as int,
            ) == line_end()
            &&& !stores(request.verb) ==> rest.len() == 0
        }),
{
    let bytes = wire(request, value);
    let parts = words(request);
    let line = joined(parts, ' ');
    let head = encode_utf8(line);
    let end = head.len() as int;
    let rest = if stores(request.verb) {
        value + line_end()
    } else {
        Seq::<u8>::empty()
    };
    assert(bytes == head + line_end() + rest) by {
        lemma_command_is_words(request);
        lemma_encode_joined(line, "\r\n"@);
        assert(bytes =~= head + line_end() + rest);
    }
    assert forall|i: int, j: int|
        0 <= i < parts.len() && 0 <= j < parts[i].len() implies #[trigger] parts[i][j] != ' '
        && parts[i][j] != '\r' by {
        lemma_words(request, i, j);
    }
    assert forall|k: int| 0 <= k < line.len() implies line[k] != '\r' by {
        lemma_joined_without_return(parts, k);
    }
    lemma_line_end();
    assert forall|k: int| 0 <= k < head.len() implies head[k] != line_end()[0] by {
        lemma_text_without_return(line, k);
    }
    lemma_stands_first(head, line_end(), rest);
    assert(bytes.take(end) =~= head);
    assert(bytes.skip(end + 2) =~= rest);
    encode_utf8_decode_utf8(line);
    lemma_joined_line_splits_back(parts, ' ');
    if stores(request.verb) {
        assert(rest.take(request.vlen as int) =~= value);
        assert(rest.skip(request.vlen as int) =~= line_end());
    }
}

/// What `Worker::send_request` appends is read back as the request, and the value in
/// it is made of bytes of which none ends a line.
pub proof fn lemma_sent_request_is_read_back(
    worker: WorkerView,
    token: usize,
    request: RequestView,
)
    requires
        worker.valid(),
        stores(request.verb),
        forall|k: int|
            0 <= k < request.key.len() ==> #[trigger] request.key[k] != ' ' && request.key[k]
                != '\r',
    ensures
        ({
            let pending = worker.sessions[token].pending;
            let bytes = sent(worker, token, request).sessions[token].pending.skip(
                pending.len() as int,
            );
            let end = first_at(bytes, line_end(), 0)->0;
            let value = bytes.skip(end + 2).take(request.vlen as int);
            &&& first_at(bytes, line_end(), 0) is Some
            &&& split(decode_utf8(bytes.take(end)), ' ') == words(request)
            &&& value.len() == request.vlen
            &&& forall|i: int|
                0 <= i < value.len() ==> #[trigger] value[i] != 0x0D && value[i] != 0x0A
            &&& bytes.skip(end + 2).skip(request.vlen as int) == line_end()
        }),
{
    let pending = worker.sessions[token].pending;
    let value = first(worker.values, request.vlen);
    lemma_values_are_alphanumeric(worker.values, request.vlen);
    lemma_request_is_read_back(request, value);
    assert((pending + wire(request, value)).skip(pending.len() as int) =~= wire(request, value));
}

} // verus!
