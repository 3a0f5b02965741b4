//! The binary form of a trace: records of a fixed length.

use crate::decimal::{
    decimal, format_zero_padded, lemma_padded_width, lemma_written_number_is_read_back, parsed,
    zero_padded,
};
use crate::request::{requested, Request, RequestView, Verb};
use vstd::arithmetic::power::pow;
use vstd::prelude::*;

verus! {

/// How many bytes a record takes.
pub const RECORD_LEN: usize = 20;

/// How many lengths of a value there are: what the key's length is a multiple of
/// in the word that holds both.
pub const VLEN_RANGE: u32 = 0x40_0000;

/// How many times to live there are: what the operation is a multiple of in the
/// word that holds both.
pub const TTL_RANGE: u32 = 0x100_0000;

/// The number that `bytes` stand for, least significant byte first.
pub open spec fn le_value(bytes: Seq<u8>) -> nat
    decreases bytes.len(),
{
    if bytes.len() == 0 {
        0
    } else {
        bytes[0] as nat + 256 * le_value(bytes.drop_first())
    }
}

/// `n` in `len` bytes, least significant byte first.
pub open spec fn le_bytes(n: nat, len: nat) -> Seq<u8>
    decreases len,
{
    if len == 0 {
        seq![]
    } else {
        seq![(n % 256) as u8] + le_bytes(n / 256, (len - 1) as nat)
    }
}

/// A record of a binary trace.
#[derive(Clone, Copy, Debug, PartialEq, Eq, Structural)]
pub struct Record {
    /// When the request was made, in seconds.
    pub ts: u64,
    /// The number that stands for the key.
    pub keyid: u64,
    /// The length of the key.
    pub klen: u32,
    /// The length of the value.
    pub vlen: usize,
    /// The code of the operation.
    pub op: u8,
    /// The time to live.
    pub ttl: u32,
}

/// Whether `bytes` hold `record`: the time and the number of the key, then a word
/// with both lengths and a word with the operation and the time to live.
pub open spec fn holds(bytes: Seq<u8>, record: Record) -> bool {
    let lengths = le_value(bytes.subrange(12, 16));
    let op_ttl = le_value(bytes.subrange(16, 20));
    &&& bytes.len() == RECORD_LEN
    &&& record.ts == le_value(bytes.subrange(0, 4))
    &&& record.keyid == le_value(bytes.subrange(4, 12))
    &&& record.klen == lengths / VLEN_RANGE as nat
    &&& record.vlen == lengths % VLEN_RANGE as nat
    &&& record.op == op_ttl / TTL_RANGE as nat
    &&& record.ttl == op_ttl % TTL_RANGE as nat
}

/// The bytes that hold `record`.
pub open spec fn packed(record: Record) -> Seq<u8> {
    le_bytes(record.ts as nat, 4) + le_bytes(record.keyid as nat, 8) + le_bytes(
        (record.klen * VLEN_RANGE + record.vlen) as nat,
        4,
    ) + le_bytes((record.op * TTL_RANGE + record.ttl) as nat, 4)
}

/// Whether each field of `record` fits its place.
pub open spec fn packable(record: Record) -> bool {
    &&& record.ts < 0x1_0000_0000
    &&& record.klen < 0x400
    &&& record.vlen < VLEN_RANGE
    &&& record.ttl < TTL_RANGE
}

/// The verb for the code of an operation. Other operations are not replayed.
pub open spec fn verb_of(op: u8) -> Option<Verb> {
    if op == 1 {
        Some(Verb::Get)
    } else if op == 2 {
        Some(Verb::Gets)
    } else if op == 3 {
        Some(Verb::Put)
    } else if op == 4 {
        Some(Verb::Add)
    } else if op == 6 {
        Some(Verb::Replace)
    } else if op == 9 {
        Some(Verb::Delete)
    } else {
        None
    }
}

/// The request that a record asks for, if it is one to replay. Its key is the
/// number of the key, filled up with zeros to the length of the key.
pub open spec fn record_request(record: Record) -> Option<RequestView> {
    match verb_of(record.op) {
        Some(verb) => Some(
            requested(
                verb,
                zero_padded(record.keyid as nat, record.klen as nat),
                record.vlen as nat,
                record.ttl as nat,
            ),
        ),
        None => None,
    }
}

/// Four bytes as a number.
fn le_u32(bytes: &[u8; RECORD_LEN], at: usize) -> (r: u32)
    requires
        at <= 16,
    ensures
        r == le_value(bytes@.subrange(at as int, at + 4)),
{
    proof {
        reveal_with_fuel(le_value, 5);
    }
    bytes[at] as u32 + 0x100 * (bytes[at + 1] as u32) + 0x1_0000 * (bytes[at + 2] as u32)
        + 0x100_0000 * (bytes[at + 3] as u32)
}

/// Reads a record.
pub fn parse_record(bytes: &[u8; RECORD_LEN]) -> (r: Record)
    ensures
        holds(bytes@, r),
{
    let ts: u64 = le_u32(bytes, 0) as u64;
    let low: u64 = le_u32(bytes, 4) as u64;
    let high: u64 = le_u32(bytes, 8) as u64;
    let keyid: u64 = low + 0x1_0000_0000 * high;
    let klen_vlen: u32 = le_u32(bytes, 12);
    let op_ttl: u32 = le_u32(bytes, 16);
    assert(klen_vlen >> 22 == klen_vlen / 0x40_0000) by (bit_vector);
    assert(klen_vlen & 0x003F_FFFF == klen_vlen % 0x40_0000) by (bit_vector);
    assert(op_ttl >> 24 == op_ttl / 0x100_0000) by (bit_vector);
    assert(op_ttl & 0x00FF_FFFF == op_ttl % 0x100_0000) by (bit_vector);
    proof {
        lemma_le_value_splits(bytes@.subrange(4, 12), 4);
        assert(bytes@.subrange(4, 12).take(4) =~= bytes@.subrange(4, 8));
        assert(bytes@.subrange(4, 12).skip(4) =~= bytes@.subrange(8, 12));
        lemma_le_ranges();
    }
    let op: u8 = (op_ttl >> 24) as u8;
    let ttl: u32 = op_ttl & 0x00FF_FFFF;
    let klen: u32 = klen_vlen >> 22;
    let vlen: usize = (klen_vlen & 0x003F_FFFF) as usize;
    Record { ts, keyid, klen, vlen, op, ttl }
}

impl Record {
    /// The request that the record asks for, if it is one to replay.
    pub fn request(&self) -> (r: Option<Request>)
        ensures
            match record_request(*self) {
                Some(request) => (r matches Some(found) && found@ == request),
                None => r is None,
            },
    {
        let key: String = format_zero_padded(self.keyid, self.klen);
        let verb: Verb = match self.op {
            1 => Verb::Get,
            2 => Verb::Gets,
            3 => Verb::Put,
            4 => Verb::Add,
            6 => Verb::Replace,
            9 => Verb::Delete,
            _ => {
                return None;
            },
        };
        Some(Request::build(verb, key, self.vlen, self.ttl))
    }
}

/// Bytes stand for their first `n` and, above these, the others.
pub proof fn lemma_le_value_splits(bytes: Seq<u8>, n: nat)
    requires
        n <= bytes.len(),
    ensures
        le_value(bytes) == le_value(bytes.take(n as int)) + pow(256, n)
            * le_value(bytes.skip(n as int)),
    decreases n,
{
    reveal(pow);
    if n == 0 {
        assert(bytes.skip(0) =~= bytes);
    } else {
        let m = (n - 1) as nat;
        lemma_le_value_splits(bytes.drop_first(), m);
        assert(bytes.drop_first().take(m as int) =~= bytes.take(n as int).drop_first());
        assert(bytes.drop_first().skip(m as int) =~= bytes.skip(n as int));
        let p = pow(256, m);
        let v = le_value(bytes.skip(n as int));
        assert(256 * (p * v) == (256 * p) * v) by (nonlinear_arith);
    }
}

/// A number of `len` bytes is the value of its bytes.
proof fn lemma_le_bytes_value(n: nat, len: nat)
    requires
        n < pow(256, len),
    ensures
        le_bytes(n, len).len() == len,
        le_value(le_bytes(n, len)) == n,
    decreases len,
{
    reveal(pow);
    if len > 0 {
        let m = (len - 1) as nat;
        lemma_le_bytes_value(n / 256, m);
        assert(le_bytes(n, len).drop_first() =~= le_bytes(n / 256, m));
    }
}

/// Bytes are the bytes of their value.
proof fn lemma_le_value_bytes(bytes: Seq<u8>)
    ensures
        le_bytes(le_value(bytes), bytes.len()) == bytes,
    decreases bytes.len(),
{
    if bytes.len() > 0 {
        let rest = bytes.drop_first();
        lemma_le_value_bytes(rest);
        assert(le_value(bytes) / 256 == le_value(rest));
        assert(le_value(bytes) % 256 == bytes[0]);
        assert(le_bytes(le_value(bytes), bytes.len()) =~= seq![bytes[0]] + rest);
        assert(seq![bytes[0]] + rest =~= bytes);
    } else {
        assert(le_bytes(le_value(bytes), bytes.len()) =~= bytes);
    }
}

/// How large numbers of four and of eight bytes can be.
pub proof fn lemma_le_ranges()
    ensures
        pow(256, 4) == 0x1_0000_0000,
        pow(256, 8) == 0x1_0000_0000_0000_0000,
{
    reveal_with_fuel(pow, 9);
}

/// The form of a record loses nothing: the bytes for a record hold that record,
/// and hold no other.
pub proof fn lemma_packed_record_is_read_back(record: Record, other: Record)
    requires
        packable(record),
    ensures
        holds(packed(record), record),
        holds(packed(record), other) ==> other == record,
{
    lemma_le_ranges();
    let lengths = (record.klen * VLEN_RANGE + record.vlen) as nat;
    let op_ttl = (record.op * TTL_RANGE + record.ttl) as nat;
    lemma_le_bytes_value(record.ts as nat, 4);
    lemma_le_bytes_value(record.keyid as nat, 8);
    lemma_le_bytes_value(lengths, 4);
    lemma_le_bytes_value(op_ttl, 4);
    let bytes = packed(record);
    assert(bytes.subrange(0, 4) =~= le_bytes(record.ts as nat, 4));
    assert(bytes.subrange(4, 12) =~= le_bytes(record.keyid as nat, 8));
    assert(bytes.subrange(12, 16) =~= le_bytes(lengths, 4));
    assert(bytes.subrange(16, 20) =~= le_bytes(op_ttl, 4));
}

/// Every record that bytes hold fits its place, and the bytes are the ones for
/// that record.
pub proof fn lemma_held_record_packs_back(bytes: Seq<u8>, record: Record)
    requires
        holds(bytes, record),
    ensures
        packable(record),
        packed(record) == bytes,
{
    lemma_le_ranges();
    lemma_le_value_bytes(bytes.subrange(0, 4));
    lemma_le_value_bytes(bytes.subrange(4, 12));
    lemma_le_value_bytes(bytes.subrange(12, 16));
    lemma_le_value_bytes(bytes.subrange(16, 20));
    lemma_le_value_bound(bytes.subrange(0, 4));
    lemma_le_value_bound(bytes.subrange(12, 16));
    assert(packed(record) =~= bytes);
}

/// Bytes stand for less than the next longer number.
proof fn lemma_le_value_bound(bytes: Seq<u8>)
    ensures
        le_value(bytes) < pow(256, bytes.len()),
    decreases bytes.len(),
{
    reveal(pow);
    if bytes.len() > 0 {
        lemma_le_value_bound(bytes.drop_first());
    }
}

/// The key of a record tells the number that the record holds, and is as long as
/// the record says unless that number alone is longer.
pub proof fn lemma_key_tells_its_number(record: Record)
    requires
        verb_of(record.op) is Some,
    ensures
        parsed(record_request(record)->0.key, u64::MAX as nat) == Some(record.keyid as nat),
        record_request(record)->0.key.len() >= record.klen,
        record_request(record)->0.key.len() > record.klen ==> record_request(record)->0.key
            == decimal(record.keyid as nat),
{
    lemma_written_number_is_read_back(
        record.keyid as nat,
        record.klen as nat,
        u64::MAX as nat,
    );
    lemma_padded_width(record.keyid as nat, record.klen as nat);
}

} // verus!
