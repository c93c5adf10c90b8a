//! The messages exchanged with the server, as plain values.
use uuid::Uuid;
use vstd::prelude::*;

verus! {

/// A payload tagged with its type: `(type, revision, data)`.
#[derive(Clone, Debug, PartialEq, Eq)]
pub struct SerializedObject {
    pub payload_type: String,
    pub revision: String,
    pub data: Vec<u8>,
}

/// An inbound command.
#[derive(Clone, Debug, PartialEq, Eq)]
pub struct Command {
    pub message_identifier: String,
    pub name: String,
    pub payload: Option<SerializedObject>,
    /// Meta data as `(key, value)` pairs.
    pub meta_data: Vec<(String, String)>,
}

/// An event of an aggregate, as the event store keeps it.
#[derive(Clone, Debug, PartialEq, Eq)]
pub struct Event {
    pub message_identifier: String,
    pub timestamp: i64,
    pub aggregate_identifier: String,
    pub aggregate_sequence_number: i64,
    pub aggregate_type: String,
    pub payload: Option<SerializedObject>,
    /// Meta data as `(key, value)` pairs.
    pub meta_data: Vec<(String, String)>,
    pub snapshot: bool,
}

pub open spec fn is_lower_hex_digit(c: char) -> bool {
    ('0' <= c && c <= '9') || ('a' <= c && c <= 'f')
}

/// A canonical random (version 4) UUID: 36 characters, hyphens at 8, 13, 18 and 23,
/// lower-case hex digits elsewhere, version digit `4` and an RFC 4122 variant digit.
pub open spec fn is_canonical_uuid_v4(s: Seq<char>) -> bool {
    &&& s.len() == 36
    &&& forall|i: int|
        0 <= i < 36 ==> if i == 8 || i == 13 || i == 18 || i == 23 {
            s[i] == '-'
        } else {
            is_lower_hex_digit(#[trigger] s[i])
        }
    &&& s[14] == '4'
    &&& (s[19] == '8' || s[19] == '9' || s[19] == 'a' || s[19] == 'b')
}

/// Relies on `uuid::Uuid::new_v4` and its `Display`: a fresh random identifier in
/// canonical hyphenated lower-case form. (It panics only where the system gives no
/// random bytes.)
#[verifier::external_body]
pub(crate) fn new_message_id() -> (r: String)
    ensures
        is_canonical_uuid_v4(r@),
{
    Uuid::new_v4().to_string()
}

/// A copy of a byte vector.
pub fn copy_bytes(v: &Vec<u8>) -> (r: Vec<u8>)
    ensures
        r@ == v@,
{
    let r = v.clone();
    assert(r@ =~= v@);
    r
}

impl SerializedObject {
    /// A copy of the object.
    pub fn duplicate(&self) -> (r: SerializedObject)
        ensures
            r.payload_type@ == self.payload_type@,
            r.revision@ == self.revision@,
            r.data@ == self.data@,
    {
        SerializedObject {
            payload_type: self.payload_type.clone(),
            revision: self.revision.clone(),
            data: copy_bytes(&self.data),
        }
    }
}

} // verus!
