//! Identifier minting for sessions, tokens and synthetic file entries.
//!
//! Identifiers are drawn from a random generator, so nothing useful can be
//! promised about their values; the session manager is verified to behave
//! correctly whatever identifier comes back.

use vstd::prelude::*;

verus! {

/// Relies on `uuid::Uuid::new_v4` and its `Display` impl: a fresh random
/// version-4 UUID, rendered in the hyphenated lowercase form, which is
/// always 36 characters long. The value is random; no more is promised.
#[verifier::external_body]
pub(crate) fn new_uuid_string() -> (r: String)
    ensures
        r@.len() == 36,
{
    uuid::Uuid::new_v4().to_string()
}

/// A fresh identifier for a synthetic text-payload file entry.
pub fn fresh_sync_file_id() -> (r: String)
    ensures
        r@.len() == 41,
        crate::strutil::is_prefix(r@, "sync_"@),
{
    let base: String = "sync_".to_owned();
    let tail = new_uuid_string();
    let r = base.concat(tail.as_str());
    proof {
        reveal_strlit("sync_");
        assert(r@.subrange(0, 5) =~= "sync_"@);
    }
    r
}

} // verus!
