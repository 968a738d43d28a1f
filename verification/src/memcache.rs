//! The text protocol: parsing one request from the bytes a connection read,
//! and serializing one response to the bytes it writes. Requests are CRLF
//! lines split on ASCII whitespace; a `set` may carry its payload in the
//! same read or announce its length and have the payload read separately.

use vstd::prelude::*;
use vstd::utf8::encode_utf8;

use crate::db::Value;
use crate::num::{dec_bytes, format_u64, spec_parse_u32, spec_parse_usize, parse_u32, parse_usize};
use crate::text::{lossy_string, lower, push_bytes, spec_tokens, to_lower, tokenize, utf8_lossy};
use crate::types::HorcruxError;

verus! {

/// A parsed client request. `Put` is the wire's `set`: the `exptime` field
/// is carried through parsing and then discarded.
#[derive(Debug)]
pub enum Request {
    Put { key: String, flags: u32, exptime: u32, data: String },
    Get { key: String },
    Snapshot,
}

/// What one read's worth of request bytes means: either a complete request,
/// or a `set` whose payload of `len` bytes must still be read.
#[derive(Debug)]
pub enum Parsed {
    Done(Request),
    NeedData { key: String, flags: u32, exptime: u32, len: usize },
}

pub open spec fn cmd_set() -> Seq<u8> {
    seq![0x73u8, 0x65, 0x74]
}

pub open spec fn cmd_get() -> Seq<u8> {
    seq![0x67u8, 0x65, 0x74]
}

pub open spec fn cmd_snapshot() -> Seq<u8> {
    seq![0x73u8, 0x6e, 0x61, 0x70, 0x73, 0x68, 0x6f, 0x74]
}

pub open spec fn cmd_quit() -> Seq<u8> {
    seq![0x71u8, 0x75, 0x69, 0x74]
}

pub open spec fn is_parse_err(r: Result<Parsed, HorcruxError>, msg: Seq<char>) -> bool {
    r matches Err(HorcruxError::ParseRequest(m)) && m@ == msg
}

/// The grammar of a `set` line: `set <key> <flags> <exptime> <bytes>`, with
/// the payload either inline as a sixth token or still to be read. `flags`
/// and `exptime` are unsigned 32-bit decimals, `bytes` a decimal length;
/// keys longer than 255 bytes are rejected here, at the protocol layer.
pub open spec fn spec_parse_set(toks: Seq<Seq<u8>>, r: Result<Parsed, HorcruxError>) -> bool {
    if toks.len() != 5 && toks.len() != 6 {
        is_parse_err(r, "Invalid request"@)
    } else if spec_parse_u32(toks[2]) is None {
        is_parse_err(r, "Invalid flags"@)
    } else if spec_parse_u32(toks[3]) is None {
        is_parse_err(r, "Invalid exptime"@)
    } else if spec_parse_usize(toks[4]) is None {
        is_parse_err(r, "Invalid data length"@)
    } else {
        let key = utf8_lossy(toks[1]);
        let flags = spec_parse_u32(toks[2])->Some_0;
        let exptime = spec_parse_u32(toks[3])->Some_0;
        let len = spec_parse_usize(toks[4])->Some_0;
        if encode_utf8(key).len() > 255 {
            is_parse_err(r, "Key too long"@)
        } else if toks.len() == 6 {
            let data = utf8_lossy(toks[5]);
            if encode_utf8(data).len() > u32::MAX {
                is_parse_err(r, "Data too long"@)
            } else {
                r matches Ok(Parsed::Done(Request::Put { key: k, flags: f, exptime: e, data: d }))
                    && k@ == key && f == flags && e == exptime && d@ == data
            }
        } else {
            r matches Ok(Parsed::NeedData { key: k, flags: f, exptime: e, len: l }) && k@ == key
                && f == flags && e == exptime && l == len
        }
    }
}

/// What parsing one read's bytes must produce: empty or all-whitespace input
/// is ignorable; otherwise the first token, lower-cased, selects the verb;
/// `quit` closes the connection; anything else is a protocol error that
/// leaves the connection open.
pub open spec fn spec_parse(s: Seq<u8>, r: Result<Parsed, HorcruxError>) -> bool {
    let toks = spec_tokens(s);
    if s.len() == 0 || toks.len() == 0 {
        r matches Err(HorcruxError::Ignorable)
    } else {
        let cmd = lower(toks[0]);
        if cmd == cmd_set() {
            spec_parse_set(toks, r)
        } else if cmd == cmd_get() {
            if toks.len() != 2 {
                is_parse_err(r, "Invalid request"@)
            } else {
                r matches Ok(Parsed::Done(Request::Get { key: k })) && k@ == utf8_lossy(toks[1])
            }
        } else if cmd == cmd_snapshot() {
            r matches Ok(Parsed::Done(Request::Snapshot))
        } else if cmd == cmd_quit() {
            r matches Err(HorcruxError::Connection(m)) && m@ == "Client quit"@
        } else {
            is_parse_err(r, "Invalid command"@)
        }
    }
}

/// Parses the bytes of one read into a request, a still-incomplete `set`,
/// or the error the connection handler acts on.
pub fn parse_request(buf: &[u8]) -> (r: Result<Parsed, HorcruxError>)
    ensures
        spec_parse(buf@, r),
{
    let toks = tokenize(buf);
    if buf.len() == 0 || toks.len() == 0 {
        return Err(HorcruxError::Ignorable);
    }
    let cmd = to_lower(toks[0].as_slice());
    proof {
        assert(toks.deep_view()[0] == toks@[0]@);
        assert(cmd@ == lower(spec_tokens(buf@)[0]));
    }
    let is_set = cmd.len() == 3 && cmd[0] == 0x73 && cmd[1] == 0x65 && cmd[2] == 0x74;
    let is_get = cmd.len() == 3 && cmd[0] == 0x67 && cmd[1] == 0x65 && cmd[2] == 0x74;
    let is_snapshot = cmd.len() == 8 && cmd[0] == 0x73 && cmd[1] == 0x6e && cmd[2] == 0x61
        && cmd[3] == 0x70 && cmd[4] == 0x73 && cmd[5] == 0x68 && cmd[6] == 0x6f && cmd[7] == 0x74;
    let is_quit = cmd.len() == 4 && cmd[0] == 0x71 && cmd[1] == 0x75 && cmd[2] == 0x69 && cmd[3]
        == 0x74;
    proof {
        if is_set {
            assert(cmd@ =~= cmd_set());
        }
        if is_get {
            assert(cmd@ =~= cmd_get());
        }
        if is_snapshot {
            assert(cmd@ =~= cmd_snapshot());
        }
        if is_quit {
            assert(cmd@ =~= cmd_quit());
        }
        assert(is_set == (cmd@ == cmd_set()));
        assert(is_get == (cmd@ == cmd_get()));
        assert(is_snapshot == (cmd@ == cmd_snapshot()));
        assert(is_quit == (cmd@ == cmd_quit()));
    }
    if is_set {
        parse_set(buf, &toks)
    } else if is_get {
        if toks.len() != 2 {
            return Err(HorcruxError::ParseRequest("Invalid request".to_owned()));
        }
        proof {
            assert(toks.deep_view()[1] == toks@[1]@);
        }
        let key = lossy_string(toks[1].as_slice());
        Ok(Parsed::Done(Request::Get { key }))
    } else if is_snapshot {
        Ok(Parsed::Done(Request::Snapshot))
    } else if is_quit {
        Err(HorcruxError::Connection("Client quit".to_owned()))
    } else {
        Err(HorcruxError::ParseRequest("Invalid command".to_owned()))
    }
}

/// The `set` arm of `parse_request`.
fn parse_set(buf: &[u8], toks: &Vec<Vec<u8>>) -> (r: Result<Parsed, HorcruxError>)
    requires
        toks.deep_view() == spec_tokens(buf@),
        buf@.len() != 0,
        spec_tokens(buf@).len() != 0,
        lower(spec_tokens(buf@)[0]) == cmd_set(),
    ensures
        spec_parse(buf@, r),
{
    proof {
        assert forall|i: int| 0 <= i < toks@.len() implies toks.deep_view()[i] == (
        #[trigger] toks@[i])@ by {}
    }
    if toks.len() != 5 && toks.len() != 6 {
        return Err(HorcruxError::ParseRequest("Invalid request".to_owned()));
    }
    let flags = match parse_u32(toks[2].as_slice()) {
        Some(f) => f,
        None => {
            return Err(HorcruxError::ParseRequest("Invalid flags".to_owned()));
        },
    };
    let exptime = match parse_u32(toks[3].as_slice()) {
        Some(e) => e,
        None => {
            return Err(HorcruxError::ParseRequest("Invalid exptime".to_owned()));
        },
    };
    let len = match parse_usize(toks[4].as_slice()) {
        Some(l) => l,
        None => {
            return Err(HorcruxError::ParseRequest("Invalid data length".to_owned()));
        },
    };
    let key = lossy_string(toks[1].as_slice());
    if key.as_str().as_bytes().len() > 255 {
        return Err(HorcruxError::ParseRequest("Key too long".to_owned()));
    }
    if toks.len() == 6 {
        let data = lossy_string(toks[5].as_slice());
        if data.as_str().as_bytes().len() > u32::MAX as usize {
            return Err(HorcruxError::ParseRequest("Data too long".to_owned()));
        }
        Ok(Parsed::Done(Request::Put { key, flags, exptime, data }))
    } else {
        Ok(Parsed::NeedData { key, flags, exptime, len })
    }
}

/// Completes a `set` whose payload was not in the first read, from the
/// payload bytes the connection read afterwards. The same bounds hold as in
/// `parse_request`: the key and payload must fit the snapshot format.
pub fn set_from_data(key: String, flags: u32, exptime: u32, data: Vec<u8>) -> (r: Result<
    Request,
    HorcruxError,
>)
    ensures
        r is Ok <==> encode_utf8(key@).len() <= 255 && encode_utf8(utf8_lossy(data@)).len()
            <= u32::MAX,
        r matches Ok(Request::Put { key: k, flags: f, exptime: e, data: d }) ==> k@ == key@ && f
            == flags && e == exptime && d@ == utf8_lossy(data@),
        r is Ok ==> r matches Ok(Request::Put { .. }),
        r matches Err(e) ==> e is ParseRequest,
{
    if key.as_str().as_bytes().len() > 255 {
        return Err(HorcruxError::ParseRequest("Key too long".to_owned()));
    }
    let data_s = lossy_string(data.as_slice());
    if data_s.as_str().as_bytes().len() > u32::MAX as usize {
        return Err(HorcruxError::ParseRequest("Data too long".to_owned()));
    }
    Ok(Request::Put { key, flags, exptime, data: data_s })
}

/// A response as the connection handler writes it back.
#[derive(Debug)]
pub enum Response {
    Stored,
    Value(String, Option<Value>),
    Error,
    SnapshotFinished,
}

/// The exact bytes of each response. A hit on `get` is
/// `VALUE <key> <flags> <bytes>\r\n<data>\r\nEND\r\n`; a miss is `END\r\n`.
pub open spec fn spec_response_bytes(r: Response) -> Seq<u8> {
    match r {
        Response::Stored => encode_utf8("STORED\r\n"@),
        Response::Value(key, Some(v)) => encode_utf8("VALUE "@) + encode_utf8(key@) + encode_utf8(
            " "@,
        ) + dec_bytes(v.flags as nat) + encode_utf8(" "@) + dec_bytes(encode_utf8(v.data@).len())
            + encode_utf8("\r\n"@) + encode_utf8(v.data@) + encode_utf8("\r\nEND\r\n"@),
        Response::Value(key, None) => encode_utf8("END\r\n"@),
        Response::Error => encode_utf8("ERROR\r\n"@),
        Response::SnapshotFinished => encode_utf8("SNAPSHOT FINISHED\r\n"@),
    }
}

impl Response {
    /// Serializes the response to the bytes the connection writes.
    pub fn as_bytes(&self) -> (r: Vec<u8>)
        ensures
            r@ == spec_response_bytes(*self),
    {
        let mut out: Vec<u8> = Vec::new();
        match self {
            Response::Stored => {
                push_bytes(&mut out, "STORED\r\n".as_bytes());
            },
            Response::Value(key, Some(v)) => {
                push_bytes(&mut out, "VALUE ".as_bytes());
                push_bytes(&mut out, key.as_str().as_bytes());
                push_bytes(&mut out, " ".as_bytes());
                let flag_digits = format_u64(v.flags as u64);
                push_bytes(&mut out, flag_digits.as_slice());
                push_bytes(&mut out, " ".as_bytes());
                let data_bytes = v.data.as_str().as_bytes();
                let len_digits = format_u64(data_bytes.len() as u64);
                push_bytes(&mut out, len_digits.as_slice());
                push_bytes(&mut out, "\r\n".as_bytes());
                push_bytes(&mut out, data_bytes);
                push_bytes(&mut out, "\r\nEND\r\n".as_bytes());
            },
            Response::Value(_, None) => {
                push_bytes(&mut out, "END\r\n".as_bytes());
            },
            Response::Error => {
                push_bytes(&mut out, "ERROR\r\n".as_bytes());
            },
            Response::SnapshotFinished => {
                push_bytes(&mut out, "SNAPSHOT FINISHED\r\n".as_bytes());
            },
        }
        proof {
            assert(out@ =~= spec_response_bytes(*self));
        }
        out
    }
}

/// What the connection handler does next: write a reply and keep going,
/// close the connection, or keep going without replying.
#[derive(Debug)]
pub enum Action {
    Reply(Response),
    Close,
    Continue,
}

/// The recovery policy for a failed read: a malformed request is answered
/// `ERROR` with the connection kept open; an empty or whitespace-only read
/// is skipped; a connection fault, a quit, or an internal fault closes the
/// connection.
pub fn action_on_error(e: &HorcruxError) -> (a: Action)
    ensures
        e is ParseRequest ==> a matches Action::Reply(Response::Error),
        e is Ignorable ==> a is Continue,
        e is Connection || e is RestoreDB || e is Internal ==> a is Close,
{
    match e {
        HorcruxError::ParseRequest(_) => Action::Reply(Response::Error),
        HorcruxError::Ignorable => Action::Continue,
        _ => Action::Close,
    }
}

/// What the handler writes after a `set` reached its worker: `STORED` on
/// success; a worker fault closes the connection.
pub fn action_after_set(r: &Result<(), HorcruxError>) -> (a: Action)
    ensures
        r is Ok ==> a matches Action::Reply(Response::Stored),
        r is Err ==> a is Close,
{
    match r {
        Ok(_) => Action::Reply(Response::Stored),
        Err(_) => Action::Close,
    }
}

/// What the handler writes after a client `snapshot` was broadcast:
/// `SNAPSHOT FINISHED` once every shard acknowledged, `ERROR` otherwise,
/// keeping the connection either way.
pub fn action_after_snapshot(r: &Result<(), HorcruxError>) -> (a: Action)
    ensures
        r is Ok ==> a matches Action::Reply(Response::SnapshotFinished),
        r is Err ==> a matches Action::Reply(Response::Error),
{
    match r {
        Ok(_) => Action::Reply(Response::SnapshotFinished),
        Err(_) => Action::Reply(Response::Error),
    }
}

} // verus!
