//! Node identities, which are UUIDs held as their 128-bit value.

use vstd::prelude::*;

verus! {

/// The error type of the `uuid` crate, carried as an opaque value.
#[verifier::external_type_specification]
#[verifier::external_body]
pub struct ExUuidError(uuid::Error);

/// What `uuid::Uuid::try_parse` makes of a string: the UUID's 128-bit value
/// (big-endian, as `Uuid::as_u128` gives it) when the text is a valid UUID,
/// and nothing otherwise.
pub uninterp spec fn uuid_parse(text: Seq<char>) -> Option<u128>;

/// Calls `uuid::Uuid::try_parse` and hands back the parsed UUID's 128-bit value.
/// Trusted: the result is `Ok(v)` exactly when `uuid_parse` gives `Some(v)`
/// for the same text, and an error exactly when it gives `None`.
#[verifier::external_body]
fn try_parse_uuid(text: &str) -> (r: Result<u128, uuid::Error>)
    ensures
        match r {
            Ok(v) => uuid_parse(text@) == Some(v),
            Err(_) => uuid_parse(text@) is None,
        },
{
    uuid::Uuid::try_parse(text).map(|u| u.as_u128())
}

/// Calls `uuid::Uuid::new_v4` and hands back the fresh UUID's 128-bit value.
/// Trusted: the value is random; the only thing claimed of it is what the
/// crate's source fixes in every version-4 UUID, namely the version nibble
/// (`4`) and the two variant bits (`10`).
#[verifier::external_body]
pub(crate) fn fresh_uuid() -> (r: u128)
    ensures
        r & 0xF000C000000000000000u128 == 0x40008000000000000000u128,
{
    uuid::Uuid::new_v4().as_u128()
}

/// The identity of a node in the cluster: a UUID, held as its 128-bit value.
#[derive(Debug, Clone, Copy, PartialEq, Eq, Structural, Hash)]
pub struct NodeId(u128);

impl View for NodeId {
    type V = u128;

    /// The UUID's 128-bit value.
    closed spec fn view(&self) -> u128 {
        self.0
    }
}

/// Returned when a string is not a valid UUID.
#[derive(Debug)]
pub struct NodeIdError {
    source: uuid::Error,
}

/// Two node ids are equal exactly when their UUID values are; so equal
/// UUIDs give equal ids, and distinct UUIDs distinct ones.
pub proof fn lemma_node_id_view_injective(a: NodeId, b: NodeId)
    ensures
        (a@ == b@) <==> (a == b),
{
}

impl NodeIdError {
    /// The parser's error that this error wraps.
    pub closed spec fn parse_error(&self) -> uuid::Error {
        self.source
    }

    /// The parser's error that this error wraps.
    pub fn source(&self) -> (r: &uuid::Error)
        ensures
            *r == self.parse_error(),
    {
        &self.source
    }
}

impl NodeId {
    /// Parses a node id from its textual UUID form.
    pub fn new(id: &str) -> (r: Result<NodeId, NodeIdError>)
        ensures
            match r {
                Ok(n) => uuid_parse(id@) == Some(n@),
                Err(_) => uuid_parse(id@) is None,
            },
    {
        NodeId::from_parse_result(try_parse_uuid(id))
    }

    /// Turns the outcome of parsing a UUID into a node id, or into the
    /// error that wraps the parser's error.
    pub fn from_parse_result(parsed: Result<u128, uuid::Error>) -> (r: Result<NodeId, NodeIdError>)
        ensures
            match parsed {
                Ok(v) => r is Ok && r->Ok_0@ == v,
                Err(e) => r is Err && r->Err_0.parse_error() == e,
            },
    {
        match parsed {
            Ok(valid_id) => Ok(NodeId(valid_id)),
            Err(err) => Err(NodeIdError { source: err }),
        }
    }

    /// The node id of a UUID, given as the UUID's 128-bit value.
    pub fn from_uuid(id: u128) -> (r: NodeId)
        ensures
            r@ == id,
    {
        NodeId(id)
    }
}

} // verus!
