//! The text form of a trace: lines of fields with commas between them.

use crate::binary::{record_request, verb_of, Record};
use crate::decimal::{parse_up_to, parse_usize, parsed, zero_padded};
use crate::request::{requested, word, Request, RequestView, Verb};
use crate::split::{lemma_split_len, split};
use vstd::prelude::*;
use vstd::utf8::{encode_utf8, encode_utf8_decode_utf8};

verus! {

/// The fields of a line: what stands before, between and after its commas.
pub open spec fn fields(line: Seq<char>) -> Seq<Seq<char>> {
    split(line, ',')
}

/// The field that holds the time, in seconds.
pub const TIME_FIELD: usize = 0;

/// The field that holds the key.
pub const KEY_FIELD: usize = 1;

/// The field that holds the length of the value.
pub const LENGTH_FIELD: usize = 3;

/// The field that holds the word for the operation.
pub const VERB_FIELD: usize = 5;

/// The field that holds the time to live.
pub const TTL_FIELD: usize = 6;

/// Why a line cannot be replayed.
#[derive(Clone, Copy, Debug, PartialEq, Eq, Structural)]
pub enum LineError {
    /// The time is no number.
    InvalidTimestamp,
    /// The time is the last of its range.
    TimestampOverflow,
    /// The line ends before the operation.
    MissingVerb,
    /// The length of the value is no number.
    InvalidLength,
    /// The line ends before the time to live.
    MissingTtl,
    /// The time to live is no number.
    InvalidTtl,
}

/// The time of a line with these fields, or why it has none. It is one more than
/// what is written, so it is never zero.
pub open spec fn line_time(parts: Seq<Seq<char>>) -> Result<nat, LineError> {
    match parsed(parts[TIME_FIELD as int], u64::MAX as nat) {
        Some(written) => if written == u64::MAX {
            Err(LineError::TimestampOverflow)
        } else if parts.len() <= VERB_FIELD {
            Err(LineError::MissingVerb)
        } else {
            Ok(written + 1)
        },
        None => Err(LineError::InvalidTimestamp),
    }
}

/// The verb that a word stands for. Other operations are not replayed.
pub open spec fn verb_named(name: Seq<char>) -> Option<Verb> {
    if name == word(Verb::Get) {
        Some(Verb::Get)
    } else if name == word(Verb::Gets) {
        Some(Verb::Gets)
    } else if name == word(Verb::Put) {
        Some(Verb::Put)
    } else if name == word(Verb::Add) {
        Some(Verb::Add)
    } else if name == word(Verb::Replace) {
        Some(Verb::Replace)
    } else if name == word(Verb::Delete) {
        Some(Verb::Delete)
    } else {
        None
    }
}

/// The request that a line with these fields asks for, none where it is not one
/// to replay, or why it cannot be told. The numbers have to be right even where
/// the operation has no use for them.
pub open spec fn line_request(parts: Seq<Seq<char>>) -> Result<Option<RequestView>, LineError> {
    match parsed(parts[LENGTH_FIELD as int], usize::MAX as nat) {
        Some(vlen) => if parts.len() <= TTL_FIELD {
            Err(LineError::MissingTtl)
        } else {
            match parsed(parts[TTL_FIELD as int], u32::MAX as nat) {
                Some(ttl) => match verb_named(parts[VERB_FIELD as int]) {
                    Some(verb) => Ok(Some(requested(verb, parts[KEY_FIELD as int], vlen, ttl))),
                    None => Ok(None),
                },
                None => Err(LineError::InvalidTtl),
            }
        },
        None => Err(LineError::InvalidLength),
    }
}

/// A line of a text trace, of which the time is known.
pub struct Line<'a> {
    parts: Vec<&'a str>,
    ts: u64,
}

/// The texts of some strings.
pub open spec fn texts(parts: Seq<&str>) -> Seq<Seq<char>> {
    parts.map_values(|part: &str| part@)
}

/// The fields of a line.
fn split_fields<'a>(line: &'a str) -> (r: Vec<&'a str>)
    ensures
        texts(r@) == fields(line@),
{
    let total: usize = line.unicode_len();
    let mut parts: Vec<&'a str> = Vec::new();
    let mut start: usize = 0;
    let mut pos: usize = 0;
    for c in it: line.chars()
        invariant
            it.seq() == line@,
            total == line@.len(),
            pos == it.index(),
            start <= pos <= total,
            fields(line@.take(pos as int)) == texts(parts@).push(
                line@.subrange(start as int, pos as int),
            ),
    {
        proof {
            let read = line@.take(pos + 1);
            assert(read.drop_last() =~= line@.take(pos as int));
            assert(read.last() == c);
            let whole = texts(parts@).push(line@.subrange(start as int, pos as int));
            assert(whole.drop_last() =~= texts(parts@));
            assert(line@.subrange(start as int, pos as int).push(c) =~= line@.subrange(
                start as int,
                pos + 1,
            ));
        }
        if c == ',' {
            let part: &'a str = line.substring_char(start, pos);
            let ghost before = parts@;
            parts.push(part);
            assert(texts(parts@) =~= texts(before).push(part@));
            start = pos + 1;
            assert(line@.subrange(start as int, pos + 1) =~= Seq::<char>::empty());
        }
        pos = pos + 1;
    }
    let part: &'a str = line.substring_char(start, total);
    assert(line@.take(total as int) =~= line@);
    let ghost before = parts@;
    parts.push(part);
    assert(texts(parts@) =~= texts(before).push(part@));
    parts
}

/// Whether two strings are the same.
fn same(a: &str, b: &str) -> (r: bool)
    ensures
        r == (a@ == b@),
{
    let x: &[u8] = a.as_bytes();
    let y: &[u8] = b.as_bytes();
    proof {
        encode_utf8_decode_utf8(a@);
        encode_utf8_decode_utf8(b@);
    }
    if x.len() != y.len() {
        return false;
    }
    for i in 0..x.len()
        invariant
            x@.len() == y@.len(),
            x@ == encode_utf8(a@),
            y@ == encode_utf8(b@),
            forall|j: int| 0 <= j < i ==> x@[j] == y@[j],
    {
        if x[i] != y[i] {
            return false;
        }
    }
    assert(x@ =~= y@);
    true
}

/// The verb that a word stands for.
fn find_verb(name: &str) -> (r: Option<Verb>)
    ensures
        r == verb_named(name@),
{
    if same(name, "get") {
        Some(Verb::Get)
    } else if same(name, "gets") {
        Some(Verb::Gets)
    } else if same(name, "set") {
        Some(Verb::Put)
    } else if same(name, "add") {
        Some(Verb::Add)
    } else if same(name, "replace") {
        Some(Verb::Replace)
    } else if same(name, "delete") {
        Some(Verb::Delete)
    } else {
        None
    }
}

/// Reads the time of a line. What the line asks for is looked at later, when its
/// time has come.
pub fn parse_line<'a>(line: &'a str) -> (r: Result<Line<'a>, LineError>)
    ensures
        match line_time(fields(line@)) {
            Ok(ts) => (r matches Ok(read) && read.time() == ts && read.parts() == fields(line@)),
            Err(e) => (r matches Err(found) && found == e),
        },
        r matches Ok(read) ==> read.valid(),
{
    let parts: Vec<&'a str> = split_fields(line);
    proof {
        lemma_split_len(line@, ',');
        assert(texts(parts@)[0] == parts@[0]@);
    }
    let written: u64 = match parse_up_to(parts[TIME_FIELD], u64::MAX) {
        Some(n) => n,
        None => {
            return Err(LineError::InvalidTimestamp);
        },
    };
    if written == u64::MAX {
        return Err(LineError::TimestampOverflow);
    }
    if parts.len() <= VERB_FIELD {
        return Err(LineError::MissingVerb);
    }
    Ok(Line { parts, ts: written + 1 })
}

impl<'a> Line<'a> {
    /// The fields of the line.
    pub closed spec fn parts(&self) -> Seq<Seq<char>> {
        texts(self.parts@)
    }

    /// The time of the line.
    pub closed spec fn time(&self) -> nat {
        self.ts as nat
    }

    /// What holds of every line whose time was read.
    pub open spec fn valid(&self) -> bool {
        self.parts().len() > VERB_FIELD
    }

    /// The time of the line, in seconds.
    pub fn timestamp(&self) -> (r: u64)
        ensures
            r == self.time(),
    {
        self.ts
    }

    /// The request that the line asks for, if it is one to replay.
    pub fn request(&self) -> (r: Result<Option<Request>, LineError>)
        requires
            self.valid(),
        ensures
            match line_request(self.parts()) {
                Ok(Some(request)) => (r matches Ok(Some(found)) && found@ == request),
                Ok(None) => (r matches Ok(None)),
                Err(e) => (r matches Err(found) && found == e),
            },
    {
        assert forall|i: int| 0 <= i < self.parts@.len() implies self.parts()[i]
            == #[trigger] self.parts@[i]@ by {}
        let key: String = self.parts[KEY_FIELD].to_owned();
        let vlen: usize = match parse_usize(self.parts[LENGTH_FIELD]) {
            Some(n) => n,
            None => {
                return Err(LineError::InvalidLength);
            },
        };
        if self.parts.len() <= TTL_FIELD {
            return Err(LineError::MissingTtl);
        }
        let ttl: u32 = match parse_up_to(self.parts[TTL_FIELD], u32::MAX as u64) {
            Some(n) => n as u32,
            None => {
                return Err(LineError::InvalidTtl);
            },
        };
        match find_verb(self.parts[VERB_FIELD]) {
            Some(verb) => Ok(Some(Request::build(verb, key, vlen, ttl))),
            None => Ok(None),
        }
    }
}

/// Both forms of a trace know the same verbs: each has a word and a code.
pub proof fn lemma_every_verb_has_word_and_code(verb: Verb)
    ensures
        verb_named(word(verb)) == Some(verb),
        exists|op: u8| verb_of(op) == Some(verb),
{
    reveal_strlit("get");
    reveal_strlit("gets");
    reveal_strlit("set");
    reveal_strlit("add");
    reveal_strlit("replace");
    reveal_strlit("delete");
    assert("get"@.len() == 3 && "gets"@.len() == 4 && "set"@.len() == 3 && "add"@.len() == 3);
    assert("replace"@.len() == 7 && "delete"@.len() == 6);
    assert("get"@[0] == 'g' && "set"@[0] == 's' && "add"@[0] == 'a');
    let op: u8 = match verb {
        Verb::Get => 1,
        Verb::Gets => 2,
        Verb::Put => 3,
        Verb::Add => 4,
        Verb::Replace => 6,
        Verb::Delete => 9,
    };
    assert(verb_of(op) == Some(verb));
}

/// Both forms of a trace ask for the same: a line whose fields say what a record
/// says is replayed as that record is.
pub proof fn lemma_line_and_record_agree(parts: Seq<Seq<char>>, record: Record)
    requires
        parts.len() > TTL_FIELD,
        parts[KEY_FIELD as int] == zero_padded(record.keyid as nat, record.klen as nat),
        parsed(parts[LENGTH_FIELD as int], usize::MAX as nat) == Some(record.vlen as nat),
        parsed(parts[TTL_FIELD as int], u32::MAX as nat) == Some(record.ttl as nat),
        verb_named(parts[VERB_FIELD as int]) == verb_of(record.op),
    ensures
        line_request(parts) == Ok::<Option<RequestView>, LineError>(record_request(record)),
{
}

} // verus!
