//! What the library asks of `greentic_types` about a pack manifest: whether
//! `manifest.cbor` decodes, how many flows it already carries, and whether a
//! pack id is a valid identifier.
use greentic_types::PackId;
use vstd::prelude::*;
use crate::text::is_ascii_alnum;

verus! {

/// `greentic_types::PackId`, held opaque.
#[verifier::external_type_specification]
#[verifier::external_body]
pub struct ExPackId(PackId);

/// What `greentic_types::decode_pack_manifest` makes of `bytes`: the number
/// of flow entries of the decoded manifest, or the decode error's message.
pub uninterp spec fn decoded_manifest(bytes: Seq<u8>) -> Result<nat, Seq<char>>;

/// `greentic_types::decode_pack_manifest`, keeping the number of flows the
/// decoded manifest carries (or the error's message).
#[verifier::external_body]
pub(crate) fn manifest_flow_count(bytes: &[u8]) -> (r: Result<usize, String>)
    ensures
        decoded_manifest(bytes@) == match r {
            Ok(n) => Ok::<nat, Seq<char>>(n as nat),
            Err(m) => Err::<nat, Seq<char>>(m@),
        },
{
    match greentic_types::decode_pack_manifest(bytes) {
        Ok(m) => Ok(m.flows.len()),
        Err(e) => Err(format!("{e}")),
    }
}

/// A character `greentic_types` accepts in an identifier.
pub open spec fn is_identifier_char(c: char) -> bool {
    is_ascii_alnum(c) || c == '.' || c == '_' || c == '-'
}

/// `greentic_types` identifier rules: not empty, and only ASCII letters,
/// digits, `.`, `_` and `-`.
pub open spec fn valid_identifier(s: Seq<char>) -> bool {
    s.len() > 0 && forall|i: int| 0 <= i < s.len() ==> is_identifier_char(#[trigger] s[i])
}

/// `greentic_types::PackId::new`: accepts exactly the valid identifiers;
/// a refusal comes with the error's message.
#[verifier::external_body]
pub(crate) fn pack_id_new(value: &str) -> (r: Result<PackId, String>)
    ensures
        r is Ok <==> valid_identifier(value@),
{
    match PackId::new(value) {
        Ok(id) => Ok(id),
        Err(e) => Err(format!("{e}")),
    }
}

} // verus!
