//! What the command-line client prints for each answer of the service.

use vstd::prelude::*;
use vstd::string::StringExecFns;
use vstd::utf8::{decode_utf8, valid_utf8};

use crate::models::{Keyspace, Record};
use crate::text::{byte_list, push_byte_list, push_char};

verus! {

/// An answer of the service, as the client shows it.
pub enum QueryResult {
    Record(Record),
    Keyspace(Keyspace),
    KeyspaceList(Vec<Keyspace>),
    Empty,
}

/// Bytes shown as text where they are UTF-8, else as a list of numbers.
pub open spec fn shown_bytes(b: Seq<u8>) -> Seq<char> {
    if valid_utf8(b) {
        decode_utf8(b)
    } else {
        byte_list(b)
    }
}

/// Names, one per line.
pub open spec fn lines(names: Seq<Seq<char>>) -> Seq<char>
    decreases names.len(),
{
    if names.len() == 0 {
        Seq::empty()
    } else if names.len() == 1 {
        names[0]
    } else {
        lines(names.drop_last()) + seq!['\n'] + names.last()
    }
}

/// What the client prints for `q`.
pub open spec fn rendered(q: QueryResult) -> Seq<char> {
    match q {
        QueryResult::Record(rec) => shown_bytes(rec.key@) + seq!['='] + shown_bytes(rec.value@),
        QueryResult::Keyspace(ks) => ks.name@,
        QueryResult::KeyspaceList(v) => lines(v@.map_values(|k: Keyspace| k.name@)),
        QueryResult::Empty => Seq::empty(),
    }
}

/// Relies on `std::str::from_utf8`: the text of `b` exactly where `b` is
/// valid UTF-8.
#[verifier::external_body]
fn utf8_text(b: &[u8]) -> (r: Option<String>)
    ensures
        r matches Some(s) ==> valid_utf8(b@) && s@ == decode_utf8(b@),
        r is None ==> !valid_utf8(b@),
{
    match std::str::from_utf8(b) {
        Ok(s) => Some(String::from(s)),
        Err(_) => None,
    }
}

/// Bytes as the client shows them: as text where they are UTF-8, else as a
/// list of numbers.
pub fn format_bytes(bytes: &[u8]) -> (r: String)
    ensures
        r@ == shown_bytes(bytes@),
{
    match utf8_text(bytes) {
        Some(s) => s,
        None => {
            let mut out = String::new();
            push_byte_list(&mut out, bytes);
            assert(out@ =~= byte_list(bytes@));
            out
        },
    }
}

impl QueryResult {
    /// The text the client prints for this answer: `key=value` for a
    /// record, the name for a keyspace, one name per line for a list, and
    /// nothing for an acknowledgement.
    pub fn render(&self) -> (r: String)
        ensures
            r@ == rendered(*self),
    {
        match self {
            QueryResult::Record(rec) => {
                let mut out = format_bytes(rec.key.as_slice());
                push_char(&mut out, '=');
                let value = format_bytes(rec.value.as_slice());
                out.append(value.as_str());
                out
            },
            QueryResult::Keyspace(ks) => ks.name.clone(),
            QueryResult::KeyspaceList(v) => {
                let ghost names = v@.map_values(|k: Keyspace| k.name@);
                let mut out = String::new();
                let mut i: usize = 0;
                while i < v.len()
                    invariant
                        i <= v@.len(),
                        names == v@.map_values(|k: Keyspace| k.name@),
                        out@ == lines(names.take(i as int)),
                    decreases v@.len() - i,
                {
                    if i > 0 {
                        push_char(&mut out, '\n');
                    }
                    out.append(v[i].name.as_str());
                    proof {
                        assert(names.take(i + 1).drop_last() =~= names.take(i as int));
                        if i == 0 {
                            assert(out@ =~= names.take(1)[0]);
                        }
                    }
                    i = i + 1;
                }
                assert(names.take(i as int) =~= names);
                out
            },
            QueryResult::Empty => String::new(),
        }
    }
}

} // verus!
