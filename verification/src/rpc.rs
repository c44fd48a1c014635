//! JSON-RPC 2.0 replies of the agent's daemon (newline-delimited JSON over
//! TCP); the socket handling itself lives with the program.

use vstd::prelude::*;

use crate::codec::{trim, trim_spec};
use crate::storage::ExJsonValue;

verus! {

/// The JSON-RPC server handle.
pub struct RpcServer;

impl RpcServer {
    pub fn new() -> (s: RpcServer) {
        RpcServer
    }
}

/// JSON-RPC error code of a request that is not valid JSON.
pub const PARSE_ERROR: i32 = -32700;

/// JSON-RPC error code of a method that failed.
pub const SERVER_ERROR: i32 = -32000;

/// JSON-RPC error code of a reply that could not be serialized.
pub const INTERNAL_ERROR: i32 = -32603;

/// The error object of a reply.
pub struct RpcError {
    pub code: i32,
    pub message: String,
    pub data: Option<serde_json::Value>,
}

/// A JSON-RPC reply: a result or an error, echoing the request id.
pub struct Response {
    pub jsonrpc: String,
    pub result: Option<serde_json::Value>,
    pub error: Option<RpcError>,
    pub id: Option<serde_json::Value>,
}

impl Response {
    /// A successful reply.
    pub fn ok(id: Option<serde_json::Value>, result: serde_json::Value) -> (r: Response)
        ensures
            r.jsonrpc@ == "2.0"@,
            r.result == Some(result),
            r.error is None,
            r.id == id,
    {
        Response { jsonrpc: String::from_str("2.0"), result: Some(result), error: None, id }
    }

    /// An error reply.
    pub fn err(id: Option<serde_json::Value>, code: i32, message: String) -> (r: Response)
        ensures
            r.jsonrpc@ == "2.0"@,
            r.result is None,
            r.error matches Some(e) && e.code == code && e.message@ == message@ && e.data is None,
            r.id == id,
    {
        Response {
            jsonrpc: String::from_str("2.0"),
            result: None,
            error: Some(RpcError { code, message, data: None }),
            id,
        }
    }

    /// The reply to a request that is not valid JSON: no id, code -32700.
    pub fn parse_error(detail: &str) -> (r: Response)
        ensures
            r.jsonrpc@ == "2.0"@,
            r.result is None,
            r.error matches Some(e) && e.code == -32700 && e.message@ == "Parse error: "@
                + detail@ && e.data is None,
            r.id is None,
    {
        let mut m = String::from_str("Parse error: ");
        m.append(detail);
        Response::err(None, PARSE_ERROR, m)
    }

    /// The reply sent when a response could not be serialized: an internal
    /// error (code -32603) for the same request.
    pub fn internal_error(id: Option<serde_json::Value>, detail: &str) -> (r: Response)
        ensures
            r.jsonrpc@ == "2.0"@,
            r.result is None,
            r.error matches Some(e) && e.code == -32603 && e.message@ == "Internal error: "@
                + detail@ && e.data is None,
            r.id == id,
    {
        let mut m = String::from_str("Internal error: ");
        m.append(detail);
        Response::err(id, INTERNAL_ERROR, m)
    }

    /// The reply to a request once its method has run: its result, or its
    /// failure with code -32000.
    pub fn for_outcome(id: Option<serde_json::Value>, outcome: Result<serde_json::Value, String>) -> (r:
        Response)
        ensures
            r.jsonrpc@ == "2.0"@,
            r.id == id,
            match outcome {
                Ok(v) => r.result == Some(v) && r.error is None,
                Err(msg) => r.result is None && (r.error matches Some(e) && e.code == -32000
                    && e.message@ == msg@ && e.data is None),
            },
    {
        match outcome {
            Ok(v) => Response::ok(id, v),
            Err(msg) => Response::err(id, SERVER_ERROR, msg),
        }
    }
}

/// Whether a request line carries nothing but whitespace (and is skipped).
pub fn is_blank_line(line: &str) -> (b: bool)
    ensures
        b == (trim_spec(line@).len() == 0),
{
    trim(line).unicode_len() == 0
}

/// What a client connection does with what it read next.
#[derive(Debug, Clone, Copy, PartialEq, Eq, Structural)]
pub enum LineAction {
    /// The client is gone (end of input, or the read failed): stop serving it.
    Stop,
    /// A blank line: read the next one.
    Skip,
    /// Parse the line as a request and answer it.
    Handle,
}

/// The next step of a client connection, given the line read (`None` at the
/// end of input or when reading failed).
pub open spec fn line_action_spec(read: Option<Seq<char>>) -> LineAction {
    match read {
        None => LineAction::Stop,
        Some(line) => if trim_spec(line).len() == 0 {
            LineAction::Skip
        } else {
            LineAction::Handle
        },
    }
}

/// The next step of a client connection, given the line read (`None` at the
/// end of input or when reading failed).
pub fn line_action(read: Option<&str>) -> (a: LineAction)
    ensures
        a == line_action_spec(match read {
            Some(line) => Some(line@),
            None => None,
        }),
        read is None ==> a == LineAction::Stop,
        read matches Some(line) ==> a == if trim_spec(line@).len() == 0 {
            LineAction::Skip
        } else {
            LineAction::Handle
        },
{
    match read {
        None => LineAction::Stop,
        Some(line) => {
            if is_blank_line(line) {
                LineAction::Skip
            } else {
                LineAction::Handle
            }
        },
    }
}

/// The methods the daemon answers.
#[derive(Debug, Clone, Copy, PartialEq, Eq, Structural)]
pub enum RpcMethod {
    Ping,
    IdentityNpub,
    ListGroups,
    SendMessage,
}

/// The method a request names; any other name is refused with
/// `Unknown method: ` and the name.
pub fn rpc_method(name: &str) -> (r: Result<RpcMethod, String>)
    ensures
        name@ == "ping"@ <==> r == Ok::<RpcMethod, String>(RpcMethod::Ping),
        name@ == "identity_npub"@ <==> r == Ok::<RpcMethod, String>(RpcMethod::IdentityNpub),
        name@ == "list_groups"@ <==> r == Ok::<RpcMethod, String>(RpcMethod::ListGroups),
        name@ == "send_message"@ <==> r == Ok::<RpcMethod, String>(RpcMethod::SendMessage),
        r matches Err(m) ==> m@ == "Unknown method: "@ + name@,
{
    let n = String::from_str(name);
    proof {
        reveal_strlit("ping");
        reveal_strlit("identity_npub");
        reveal_strlit("list_groups");
        reveal_strlit("send_message");
        assert("ping"@.len() == 4);
        assert("identity_npub"@.len() == 13);
        assert("list_groups"@.len() == 11);
        assert("send_message"@.len() == 12);
        assert("list_groups"@[0] != "send_message"@[0]);
    }
    if n == String::from_str("ping") {
        Ok(RpcMethod::Ping)
    } else if n == String::from_str("identity_npub") {
        Ok(RpcMethod::IdentityNpub)
    } else if n == String::from_str("list_groups") {
        Ok(RpcMethod::ListGroups)
    } else if n == String::from_str("send_message") {
        Ok(RpcMethod::SendMessage)
    } else {
        let mut m = String::from_str("Unknown method: ");
        m.append(name);
        Err(m)
    }
}

/// The lines a client connection answers, one reply each and in order, when
/// it is handed `reads` one after another and steps by `line_action`: the
/// lines it handles until it stops.
pub open spec fn answered_lines(reads: Seq<Option<Seq<char>>>) -> Seq<Seq<char>>
    decreases reads.len(),
{
    if reads.len() == 0 {
        seq![]
    } else {
        match line_action_spec(reads[0]) {
            LineAction::Stop => seq![],
            LineAction::Skip => answered_lines(reads.drop_first()),
            LineAction::Handle => seq![reads[0]->0] + answered_lines(reads.drop_first()),
        }
    }
}

/// Whether a line carries more than whitespace.
pub open spec fn non_blank(line: Seq<char>) -> bool {
    trim_spec(line).len() > 0
}

/// A connection that reads the lines `lines` and then reaches the end of
/// its input (or a read error) answers exactly its non-blank lines, once
/// each and in the order read, and nothing that might follow.
pub proof fn law_one_answer_per_line(lines: Seq<Seq<char>>, after: Seq<Option<Seq<char>>>)
    ensures
        answered_lines(lines.map_values(|l: Seq<char>| Some(l)).push(None) + after) == lines.filter(
            |l: Seq<char>| non_blank(l),
        ),
    decreases lines.len(),
{
    let reads = lines.map_values(|l: Seq<char>| Some(l)).push(None) + after;
    let p = |l: Seq<char>| non_blank(l);
    if lines.len() == 0 {
        assert(reads[0] == None::<Seq<char>>);
        assert(lines.filter(p) =~= Seq::<Seq<char>>::empty());
    } else {
        let rest = lines.drop_first();
        law_one_answer_per_line(rest, after);
        assert(reads.drop_first() =~= rest.map_values(|l: Seq<char>| Some(l)).push(None) + after);
        assert(reads[0] == Some(lines[0]));
        assert(lines =~= seq![lines[0]] + rest);
        rest.lemma_filter_prepend(lines[0], p);
        if non_blank(lines[0]) {
            assert(answered_lines(reads) =~= seq![lines[0]] + rest.filter(p));
        } else {
            assert(answered_lines(reads) =~= Seq::<Seq<char>>::empty() + rest.filter(p));
        }
    }
}

} // verus!
