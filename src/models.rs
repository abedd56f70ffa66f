//! The messages exchanged with clients.

use vstd::prelude::*;
use vstd::string::{StrSliceExecFns, StringExecFns};
use vstd::utf8::encode_utf8;

use crate::text::{byte_list, chars_of, push_byte_list};

verus! {

/// A key and its value, both opaque bytes.
#[derive(Clone, Debug, PartialEq, Eq)]
pub struct Record {
    pub key: Vec<u8>,
    pub value: Vec<u8>,
}

impl View for Record {
    type V = (Seq<u8>, Seq<u8>);

    open spec fn view(&self) -> (Seq<u8>, Seq<u8>) {
        (self.key@, self.value@)
    }
}

/// A keyspace as clients see it: its name.
#[derive(Clone, Debug, PartialEq, Eq)]
pub struct Keyspace {
    pub name: String,
}

} // verus!

verus! {

/// Asks for one keyspace.
#[derive(Clone, Debug, PartialEq, Eq)]
pub struct GetKeyspaceQuery {
    pub keyspace: String,
}

/// Asks to delete one keyspace.
#[derive(Clone, Debug, PartialEq, Eq)]
pub struct DeleteKeyspaceQuery {
    pub keyspace: String,
}

/// Asks to empty one keyspace.
#[derive(Clone, Debug, PartialEq, Eq)]
pub struct TruncateKeyspaceQuery {
    pub keyspace: String,
}

/// Every keyspace, sorted by name.
#[derive(Clone, Debug, PartialEq, Eq)]
pub struct ListKeyspacesResponse {
    pub keyspaces: Vec<Keyspace>,
}

/// Asks for the value of one key.
#[derive(Clone, Debug, PartialEq, Eq)]
pub struct GetKeyQuery {
    pub keyspace: String,
    pub key: Vec<u8>,
}

/// Asks to write one record; a request without a record is malformed.
#[derive(Clone, Debug, PartialEq, Eq)]
pub struct InsertKeyQuery {
    pub keyspace: String,
    pub record: Option<Record>,
}

/// Asks to delete one key.
#[derive(Clone, Debug, PartialEq, Eq)]
pub struct DeleteKeyQuery {
    pub keyspace: String,
    pub key: Vec<u8>,
}

/// Asks for the values of several keys, answered as a stream.
#[derive(Clone, Debug, PartialEq, Eq)]
pub struct GetKeysQuery {
    pub keyspace: String,
    pub keys: Vec<Vec<u8>>,
}

/// Asks to write several records at once.
#[derive(Clone, Debug, PartialEq, Eq)]
pub struct InsertKeysQuery {
    pub keyspace: String,
    pub records: Vec<Record>,
}

/// Asks to delete several keys at once.
#[derive(Clone, Debug, PartialEq, Eq)]
pub struct DeleteKeysQuery {
    pub keyspace: String,
    pub keys: Vec<Vec<u8>>,
}

} // verus!

verus! {

/// A request of the line protocol: `GET <key>` or `SET <key> <value>`.
#[derive(Debug, PartialEq, Eq)]
pub enum Request {
    Get { key: Vec<u8> },
    Put { key: Vec<u8>, value: Vec<u8> },
}

/// What a request asks, over byte strings.
pub enum RequestView {
    Get { key: Seq<u8> },
    Put { key: Seq<u8>, value: Seq<u8> },
}

impl View for Request {
    type V = RequestView;

    open spec fn view(&self) -> RequestView {
        match self {
            Request::Get { key } => RequestView::Get { key: key@ },
            Request::Put { key, value } => RequestView::Put { key: key@, value: value@ },
        }
    }
}

/// The answer to a request of the line protocol.
#[derive(Debug)]
pub enum Response {
    Value { key: Vec<u8>, value: Vec<u8> },
    Put { key: Vec<u8>, value: Vec<u8> },
    Error { msg: String },
}

/// The position of the first space of `s`, or its length where it holds
/// none.
pub open spec fn first_space(s: Seq<char>) -> int
    decreases s.len(),
{
    if s.len() == 0 {
        0
    } else if s[0] == ' ' {
        0
    } else {
        1 + first_space(s.drop_first())
    }
}

/// `s` cut at its first two spaces: at most three parts, the last of which
/// keeps any further spaces.
pub open spec fn split3(s: Seq<char>) -> Seq<Seq<char>> {
    let a = first_space(s);
    if a == s.len() {
        seq![s]
    } else {
        let rest = s.subrange(a + 1, s.len() as int);
        let b = first_space(rest);
        if b == rest.len() {
            seq![s.subrange(0, a), rest]
        } else {
            seq![s.subrange(0, a), rest.subrange(0, b), rest.subrange(b + 1, rest.len() as int)]
        }
    }
}

/// What parsing the line `s` gives: the request, or the reason it is
/// refused.
pub open spec fn parse_spec(s: Seq<char>) -> Result<RequestView, Seq<char>> {
    let parts = split3(s);
    let cmd = parts[0];
    if cmd == seq!['G', 'E', 'T'] {
        if parts.len() < 2 {
            Err("GET must be followed by a key"@)
        } else if parts.len() > 2 {
            Err("GET's key must not be followed by anything"@)
        } else {
            Ok(RequestView::Get { key: encode_utf8(parts[1]) })
        }
    } else if cmd == seq!['S', 'E', 'T'] {
        if parts.len() < 2 {
            Err("SET must be followed by a key"@)
        } else if parts.len() < 3 {
            Err("SET needs a value"@)
        } else {
            Ok(RequestView::Put { key: encode_utf8(parts[1]), value: encode_utf8(parts[2]) })
        }
    } else {
        Err("unknown command: "@ + cmd)
    }
}

/// The line that answers with `r`.
pub open spec fn serialize_spec(r: Response) -> Seq<char> {
    match r {
        Response::Value { key, value } => byte_list(key@) + " = "@ + byte_list(value@),
        Response::Put { key, value } => "set "@ + byte_list(key@) + " = `"@ + byte_list(value@)
            + "`"@,
        Response::Error { msg } => "error: "@ + msg@,
    }
}

proof fn lemma_first_space(s: Seq<char>, i: int)
    requires
        0 <= i <= s.len(),
        forall|j: int| 0 <= j < i ==> s[j] != ' ',
        i == s.len() || s[i] == ' ',
    ensures
        first_space(s) == i,
    decreases i,
{
    if i > 0 {
        lemma_first_space(s.drop_first(), i - 1);
    }
}

/// The first position from `from` on that holds a space, or the length.
fn find_space(chars: &Vec<char>, from: usize) -> (r: usize)
    requires
        from <= chars@.len(),
    ensures
        from <= r <= chars@.len(),
        first_space(chars@.subrange(from as int, chars@.len() as int)) == r - from,
{
    let mut i = from;
    while i < chars.len() && chars[i] != ' '
        invariant
            from <= i <= chars@.len(),
            forall|j: int| from <= j < i ==> chars@[j] != ' ',
        decreases chars@.len() - i,
    {
        i = i + 1;
    }
    proof {
        lemma_first_space(chars@.subrange(from as int, chars@.len() as int), i - from);
    }
    i
}

/// The UTF-8 bytes of characters `from..to` of `s`.
fn bytes_between(s: &str, from: usize, to: usize) -> (r: Vec<u8>)
    requires
        from <= to <= s@.len(),
    ensures
        r@ == encode_utf8(s@.subrange(from as int, to as int)),
{
    s.substring_char(from, to).as_bytes_vec()
}

impl Request {
    /// Parses one line: `GET <key>`, or `SET <key> <value>` where the value
    /// runs to the end of the line.
    pub fn parse(input: &str) -> (r: Result<Request, String>)
        ensures
            match r {
                Ok(req) => parse_spec(input@) == Ok::<RequestView, Seq<char>>(req@),
                Err(msg) => parse_spec(input@) == Err::<RequestView, Seq<char>>(msg@),
            },
    {
        let chars = chars_of(input);
        let n = chars.len();
        let a = find_space(&chars, 0);
        proof {
            assert(chars@.subrange(0, n as int) =~= chars@);
        }
        let ghost s = input@;
        let ghost cmd = s.subrange(0, a as int);
        assert(split3(s)[0] == cmd || (a == n && split3(s)[0] == s));
        let is_get = a == 3 && chars[0] == 'G' && chars[1] == 'E' && chars[2] == 'T';
        let is_set = a == 3 && chars[0] == 'S' && chars[1] == 'E' && chars[2] == 'T';
        proof {
            if a == n {
                assert(cmd =~= s);
            }
            if is_get {
                assert(cmd =~= seq!['G', 'E', 'T']);
            }
            if is_set {
                assert(cmd =~= seq!['S', 'E', 'T']);
            }
            if a == 3 && !is_get {
                assert(cmd[0] != 'G' || cmd[1] != 'E' || cmd[2] != 'T');
            }
            if a == 3 && !is_set {
                assert(cmd[0] != 'S' || cmd[1] != 'E' || cmd[2] != 'T');
            }
        }
        if !is_get && !is_set {
            let mut msg = String::from_str("unknown command: ");
            msg.append(input.substring_char(0, a));
            return Err(msg);
        }
        if a == n {
            if is_get {
                return Err(String::from_str("GET must be followed by a key"));
            } else {
                return Err(String::from_str("SET must be followed by a key"));
            }
        }
        let b = find_space(&chars, a + 1);
        let ghost rest = s.subrange(a + 1, n as int);
        proof {
            assert(chars@.subrange(a + 1, n as int) =~= rest);
            assert(s.subrange(a + 1, b as int) =~= rest.subrange(0, b - (a + 1)));
            if b < n {
                assert(s.subrange(b + 1, n as int) =~= rest.subrange(b - a, rest.len() as int));
            }
        }
        let key = bytes_between(input, a + 1, b);
        if is_get {
            if b < n {
                return Err(String::from_str("GET's key must not be followed by anything"));
            }
            Ok(Request::Get { key })
        } else {
            if b == n {
                return Err(String::from_str("SET needs a value"));
            }
            let value = bytes_between(input, b + 1, n);
            Ok(Request::Put { key, value })
        }
    }
}

impl Response {
    /// The line that answers with this response.
    pub fn serialize(&self) -> (r: String)
        ensures
            r@ == serialize_spec(*self),
    {
        match self {
            Response::Value { key, value } => {
                let mut out = String::new();
                push_byte_list(&mut out, key.as_slice());
                out.append(" = ");
                push_byte_list(&mut out, value.as_slice());
                out
            },
            Response::Put { key, value } => {
                let mut out = String::from_str("set ");
                push_byte_list(&mut out, key.as_slice());
                out.append(" = `");
                push_byte_list(&mut out, value.as_slice());
                out.append("`");
                out
            },
            Response::Error { msg } => {
                let mut out = String::from_str("error: ");
                out.append(msg.as_str());
                out
            },
        }
    }
}

} // verus!
