//! What the command line leaves to decide.

use crate::decimal::{decimal, lemma_written_number_is_read_back, parse_usize, parsed};
use vstd::prelude::*;

verus! {

/// The files that encrypted connections need.
#[derive(Clone, Copy, Debug, PartialEq, Eq)]
pub struct TlsFiles<'a> {
    /// The private key.
    pub key: &'a str,
    /// The certificate.
    pub cert: &'a str,
    /// The chain of root certificates.
    pub chain: &'a str,
}

/// Whether, and with which files, connections are encrypted.
#[derive(Clone, Copy, Debug, PartialEq, Eq)]
pub enum TlsChoice<'a> {
    /// They are, with these files.
    Files(TlsFiles<'a>),
    /// They are not.
    Plain,
    /// Some of the files were given and some were not.
    Incomplete,
}

/// The choice that these files leave.
pub open spec fn tls_choice<'a>(
    key: Option<&'a str>,
    cert: Option<&'a str>,
    chain: Option<&'a str>,
) -> TlsChoice<'a> {
    if key is Some && cert is Some && chain is Some {
        TlsChoice::Files(TlsFiles { key: key->0, cert: cert->0, chain: chain->0 })
    } else if key is None && cert is None && chain is None {
        TlsChoice::Plain
    } else {
        TlsChoice::Incomplete
    }
}

/// The count that was given, if it is a number, or one where none was.
pub open spec fn given_count(value: Option<Seq<char>>) -> Option<nat> {
    match value {
        Some(text) => parsed(text, usize::MAX as nat),
        None => Some(1),
    }
}

/// Connections are encrypted where all three files were given, and plain where
/// none was. Anything between is a mistake.
pub fn choose_tls<'a>(
    key: Option<&'a str>,
    cert: Option<&'a str>,
    chain: Option<&'a str>,
) -> (r: TlsChoice<'a>)
    ensures
        match (key, cert, chain) {
            (Some(key), Some(cert), Some(chain)) => r == TlsChoice::Files(
                (TlsFiles { key, cert, chain }),
            ),
            (None, None, None) => r == TlsChoice::Plain,
            _ => r == TlsChoice::Incomplete,
        },
        r == tls_choice(key, cert, chain),
{
    match (key, cert, chain) {
        (Some(key), Some(cert), Some(chain)) => TlsChoice::Files(TlsFiles { key, cert, chain }),
        (None, None, None) => TlsChoice::Plain,
        _ => TlsChoice::Incomplete,
    }
}

/// A count that may be given on the command line: how many workers, or how many
/// connections for each. It is one where it was not given, and there is none
/// where what was given is no number.
pub fn parse_count(value: Option<&str>) -> (r: Option<usize>)
    ensures
        match value {
            Some(text) => match parsed(text@, usize::MAX as nat) {
                Some(n) => (r matches Some(found) && found == n),
                None => r is None,
            },
            None => r == Some(1usize),
        },
        match given_count(
            match value {
                Some(text) => Some(text@),
                None => None,
            },
        ) {
            Some(n) => (r matches Some(found) && found == n),
            None => r is None,
        },
{
    match value {
        Some(text) => parse_usize(text),
        None => Some(1),
    }
}

/// Encryption takes all the files, each for what it was given for. With none it is left
/// out, and with some but not all it is a mistake, whichever are missing.
pub proof fn lemma_encryption_takes_all_files<'a>(key: &'a str, cert: &'a str, chain: &'a str)
    ensures
        tls_choice(Some(key), Some(cert), Some(chain)) matches TlsChoice::Files(files) && files.key
            == key && files.cert == cert && files.chain == chain,
        tls_choice(None, None, None) is Plain,
        tls_choice(Some(key), None, None) is Incomplete,
        tls_choice(None, Some(cert), None) is Incomplete,
        tls_choice(None, None, Some(chain)) is Incomplete,
        tls_choice(Some(key), Some(cert), None) is Incomplete,
        tls_choice(Some(key), None, Some(chain)) is Incomplete,
        tls_choice(None, Some(cert), Some(chain)) is Incomplete,
{
}

/// Every count can be given: one that is written in decimal is that count, whatever it
/// is, and where none is given it is one.
pub proof fn lemma_every_count_can_be_given(n: nat, text: Seq<char>)
    requires
        n <= usize::MAX,
    ensures
        given_count(Some(decimal(n))) == Some(n),
        given_count(Some(text)) == parsed(text, usize::MAX as nat),
        given_count(None) == Some(1nat),
{
    lemma_written_number_is_read_back(n, 0, usize::MAX as nat);
}

} // verus!
