//! The requests that a trace asks for, and how they are put on the wire.

use crate::decimal::{decimal, is_digit, lemma_decimal_digits, push_decimal};
use vstd::prelude::*;
use vstd::utf8::encode_utf8;

verus! {

/// A request to the cache.
#[derive(Debug, PartialEq, Eq)]
pub enum Request {
    Get { key: String },
    Gets { key: String },
    /// `set` of the protocol.
    Put { key: String, vlen: usize, ttl: u32 },
    Add { key: String, vlen: usize, ttl: u32 },
    Replace { key: String, vlen: usize, ttl: u32 },
    Delete { key: String },
}

/// What a request does, without what it does it to.
#[derive(Clone, Copy, Debug, PartialEq, Eq, Structural)]
pub enum Verb {
    Get,
    Gets,
    /// `set` of the protocol.
    Put,
    Add,
    Replace,
    Delete,
}

/// A request as a mathematical value. A verb that stores nothing has no use
/// for a length or a time to live: both are zero there.
#[verifier::ext_equal]
pub struct RequestView {
    pub verb: Verb,
    pub key: Seq<char>,
    pub vlen: nat,
    pub ttl: nat,
}

/// Whether a verb carries a value for the cache to store.
pub open spec fn stores(verb: Verb) -> bool {
    verb == Verb::Put || verb == Verb::Add || verb == Verb::Replace
}

/// Whether a verb counts as a read.
pub open spec fn reads(verb: Verb) -> bool {
    verb == Verb::Get || verb == Verb::Gets
}

/// The request for `verb` on `key`.
pub open spec fn requested(verb: Verb, key: Seq<char>, vlen: nat, ttl: nat) -> RequestView {
    if stores(verb) {
        RequestView { verb, key, vlen, ttl }
    } else {
        RequestView { verb, key, vlen: 0, ttl: 0 }
    }
}

impl View for Request {
    type V = RequestView;

    open spec fn view(&self) -> RequestView {
        match self {
            Request::Get { key } => requested(Verb::Get, key@, 0, 0),
            Request::Gets { key } => requested(Verb::Gets, key@, 0, 0),
            Request::Put { key, vlen, ttl } => requested(
                Verb::Put,
                key@,
                *vlen as nat,
                *ttl as nat,
            ),
            Request::Add { key, vlen, ttl } => requested(
                Verb::Add,
                key@,
                *vlen as nat,
                *ttl as nat,
            ),
            Request::Replace { key, vlen, ttl } => requested(
                Verb::Replace,
                key@,
                *vlen as nat,
                *ttl as nat,
            ),
            Request::Delete { key } => requested(Verb::Delete, key@, 0, 0),
        }
    }
}

/// The word of the protocol for a verb.
pub open spec fn word(verb: Verb) -> Seq<char> {
    match verb {
        Verb::Get => "get"@,
        Verb::Gets => "gets"@,
        Verb::Put => "set"@,
        Verb::Add => "add"@,
        Verb::Replace => "replace"@,
        Verb::Delete => "delete"@,
    }
}

/// The line that announces a request: the word and the key, and for a verb that
/// stores also flags of zero, the time to live and the length of the value.
pub open spec fn command(request: RequestView) -> Seq<char> {
    let addressed = word(request.verb) + " "@ + request.key;
    if stores(request.verb) {
        addressed + " 0 "@ + decimal(request.ttl) + " "@ + decimal(request.vlen) + "\r\n"@
    } else {
        addressed + "\r\n"@
    }
}

/// All that goes on the wire for a request: its line and, for a verb that
/// stores, the value and the end of a line.
pub open spec fn wire(request: RequestView, value: Seq<u8>) -> Seq<u8> {
    if stores(request.verb) {
        encode_utf8(command(request)) + value + encode_utf8("\r\n"@)
    } else {
        encode_utf8(command(request))
    }
}

impl Request {
    /// The request for `verb` on `key`; `vlen` and `ttl` are of use only where
    /// a value is stored.
    pub fn build(verb: Verb, key: String, vlen: usize, ttl: u32) -> (r: Request)
        ensures
            r@ == requested(verb, key@, vlen as nat, ttl as nat),
    {
        match verb {
            Verb::Get => Request::Get { key },
            Verb::Gets => Request::Gets { key },
            Verb::Put => Request::Put { key, vlen, ttl },
            Verb::Add => Request::Add { key, vlen, ttl },
            Verb::Replace => Request::Replace { key, vlen, ttl },
            Verb::Delete => Request::Delete { key },
        }
    }

    /// What the request does.
    pub fn verb(&self) -> (r: Verb)
        ensures
            r == self@.verb,
    {
        match self {
            Request::Get { .. } => Verb::Get,
            Request::Gets { .. } => Verb::Gets,
            Request::Put { .. } => Verb::Put,
            Request::Add { .. } => Verb::Add,
            Request::Replace { .. } => Verb::Replace,
            Request::Delete { .. } => Verb::Delete,
        }
    }

    /// How many bytes of value the request carries, where it stores one.
    pub fn value_len(&self) -> (r: Option<usize>)
        ensures
            r is Some <==> stores(self@.verb),
            r matches Some(n) ==> n == self@.vlen,
            self@.vlen <= usize::MAX,
    {
        match self {
            Request::Put { vlen, .. } => Some(*vlen),
            Request::Add { vlen, .. } => Some(*vlen),
            Request::Replace { vlen, .. } => Some(*vlen),
            _ => None,
        }
    }

    /// The line that announces the request.
    pub fn command_line(&self) -> (r: String)
        ensures
            r@ == command(self@),
    {
        match self {
            Request::Get { key } => plain_line("get", key),
            Request::Gets { key } => plain_line("gets", key),
            Request::Put { key, vlen, ttl } => storage_line("set", key, *vlen, *ttl),
            Request::Add { key, vlen, ttl } => storage_line("add", key, *vlen, *ttl),
            Request::Replace { key, vlen, ttl } => storage_line("replace", key, *vlen, *ttl),
            Request::Delete { key } => plain_line("delete", key),
        }
    }
}

/// A line of a word and a key.
fn plain_line(verb: &str, key: &String) -> (r: String)
    ensures
        r@ == verb@ + " "@ + key@ + "\r\n"@,
{
    let mut line: String = String::new();
    line.append(verb);
    line.append(" ");
    line.append(key.as_str());
    line.append("\r\n");
    assert(Seq::<char>::empty() + verb@ =~= verb@);
    line
}

/// A line of a word, a key, flags of zero, a time to live and a length.
fn storage_line(verb: &str, key: &String, vlen: usize, ttl: u32) -> (r: String)
    ensures
        r@ == verb@ + " "@ + key@ + " 0 "@ + decimal(ttl as nat) + " "@ + decimal(vlen as nat)
            + "\r\n"@,
{
    let mut line: String = String::new();
    line.append(verb);
    line.append(" ");
    line.append(key.as_str());
    line.append(" 0 ");
    push_decimal(&mut line, ttl as u64);
    line.append(" ");
    push_decimal(&mut line, vlen as u64);
    line.append("\r\n");
    assert(Seq::<char>::empty() + verb@ =~= verb@);
    line
}

/// Whether a request holds no more than its verb has a use for.
pub open spec fn well_formed(request: RequestView) -> bool {
    !stores(request.verb) ==> request.vlen == 0 && request.ttl == 0
}

/// How a line begins tells the verb.
proof fn lemma_command_start(request: RequestView)
    ensures
        command(request).len() >= 4,
        command(request)[0] == word(request.verb)[0],
        request.verb == Verb::Get ==> command(request)[3] == ' ',
        request.verb == Verb::Gets ==> command(request)[3] == 's',
        word(request.verb).len() > 0,
        word(request.verb)[0] == (match request.verb {
            Verb::Get => 'g',
            Verb::Gets => 'g',
            Verb::Put => 's',
            Verb::Add => 'a',
            Verb::Replace => 'r',
            Verb::Delete => 'd',
        }),
{
    reveal_strlit("get");
    reveal_strlit("gets");
    reveal_strlit("set");
    reveal_strlit("add");
    reveal_strlit("replace");
    reveal_strlit("delete");
    reveal_strlit(" ");
    reveal_strlit("\r\n");
}

/// What two lines have in common at their ends may be left away.
proof fn lemma_same_end(a: Seq<char>, b: Seq<char>, end: Seq<char>)
    requires
        a + end == b + end,
    ensures
        a == b,
{
    assert((a + end).len() == a.len() + end.len());
    assert((b + end).len() == b.len() + end.len());
    assert((a + end).take(a.len() as int) =~= a);
    assert((b + end).take(b.len() as int) =~= b);
}

/// What two lines have in common at their starts may be left away.
proof fn lemma_same_start(start: Seq<char>, a: Seq<char>, b: Seq<char>)
    requires
        start + a == start + b,
    ensures
        a == b,
{
    assert((start + a).len() == start.len() + a.len());
    assert((start + b).len() == start.len() + b.len());
    assert((start + a).skip(start.len() as int) =~= a);
    assert((start + b).skip(start.len() as int) =~= b);
}

/// Behind its last space a line holds one number only.
proof fn lemma_last_number(a: Seq<char>, m: nat, b: Seq<char>, n: nat)
    requires
        a + " "@ + decimal(m) == b + " "@ + decimal(n),
    ensures
        a == b,
        m == n,
{
    reveal_strlit(" ");
    lemma_decimal_digits(m);
    lemma_decimal_digits(n);
    let x = a + " "@ + decimal(m);
    let y = b + " "@ + decimal(n);
    assert(x.len() == a.len() + 1 + decimal(m).len());
    assert(y.len() == b.len() + 1 + decimal(n).len());
    assert(x[a.len() as int] == ' ');
    assert(y[b.len() as int] == ' ');
    if a.len() < b.len() {
        assert(x[b.len() as int] == decimal(m)[b.len() - a.len() - 1]);
        assert(is_digit(decimal(m)[b.len() - a.len() - 1]));
    } else if b.len() < a.len() {
        assert(y[a.len() as int] == decimal(n)[a.len() - b.len() - 1]);
        assert(is_digit(decimal(n)[a.len() - b.len() - 1]));
    }
    assert(x.take(a.len() as int) =~= a);
    assert(y.take(a.len() as int) =~= b);
    assert(x.skip(a.len() as int + 1) =~= decimal(m));
    assert(y.skip(a.len() as int + 1) =~= decimal(n));
}

/// No two requests have the same line: the line tells the verb, the key, the
/// time to live and the length of the value, whatever characters the key holds.
pub proof fn lemma_line_tells_the_request(a: RequestView, b: RequestView)
    requires
        well_formed(a),
        well_formed(b),
        command(a) == command(b),
    ensures
        a == b,
{
    lemma_command_start(a);
    lemma_command_start(b);
    assert(a.verb == b.verb);
    let start = word(a.verb) + " "@;
    if stores(a.verb) {
        let x = start + a.key + " 0 "@ + decimal(a.ttl) + " "@ + decimal(a.vlen);
        let y = start + b.key + " 0 "@ + decimal(b.ttl) + " "@ + decimal(b.vlen);
        lemma_same_end(x, y, "\r\n"@);
        lemma_last_number(
            start + a.key + " 0 "@ + decimal(a.ttl),
            a.vlen,
            start + b.key + " 0 "@ + decimal(b.ttl),
            b.vlen,
        );
        reveal_strlit(" 0 ");
        reveal_strlit(" ");
        let flags = seq![' ', '0'];
        assert(start + a.key + " 0 "@ =~= start + a.key + flags + " "@);
        assert(start + b.key + " 0 "@ =~= start + b.key + flags + " "@);
        lemma_last_number(start + a.key + flags, a.ttl, start + b.key + flags, b.ttl);
        lemma_same_end(start + a.key, start + b.key, flags);
    } else {
        lemma_same_end(start + a.key, start + b.key, "\r\n"@);
    }
    lemma_same_start(start, a.key, b.key);
}

/// A request is announced in one line: as long as its key holds no line feed, the
/// only one is the last character.
pub proof fn lemma_one_line(request: RequestView, i: int)
    requires
        forall|k: int| 0 <= k < request.key.len() ==> request.key[k] != '\n',
        0 <= i < command(request).len(),
    ensures
        command(request)[i] == '\n' <==> i == command(request).len() - 1,
{
    reveal_strlit("get");
    reveal_strlit("gets");
    reveal_strlit("set");
    reveal_strlit("add");
    reveal_strlit("replace");
    reveal_strlit("delete");
    reveal_strlit(" ");
    reveal_strlit(" 0 ");
    reveal_strlit("\r\n");
    lemma_decimal_digits(request.ttl);
    lemma_decimal_digits(request.vlen);
    let line = command(request);
    let name = word(request.verb);
    let key_end = name.len() + 1 + request.key.len();
    if i < name.len() {
        assert(line[i] == name[i]);
    } else if i < key_end {
        if i > name.len() {
            assert(line[i] == request.key[i - name.len() - 1]);
        }
    } else if stores(request.verb) {
        let ttl_end = key_end + 3 + decimal(request.ttl).len();
        let vlen_end = ttl_end + 1 + decimal(request.vlen).len();
        if key_end + 3 <= i < ttl_end {
            assert(line[i] == decimal(request.ttl)[i - key_end - 3]);
            assert(is_digit(decimal(request.ttl)[i - key_end - 3]));
        } else if ttl_end + 1 <= i < vlen_end {
            assert(line[i] == decimal(request.vlen)[i - ttl_end - 1]);
            assert(is_digit(decimal(request.vlen)[i - ttl_end - 1]));
        }
    }
}

} // verus!
