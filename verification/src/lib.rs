//! Verified core of a postal-code directory updater.
//!
//! The library ingests the official bulk postal-code table: it decodes the
//! zipped, Shift-JIS encoded CSV feed, normalizes rows that the source splits
//! across several physical lines, orders and groups the records by
//! administrative code, derives content hashes for change detection, merges
//! records that share one postal code, and plans bounded-size batches of
//! store writes.  Network transfer and the key-value store itself stay
//! outside; everything that decides or computes is specified and verified
//! here.

use vstd::prelude::*;

pub mod archive;
pub mod batch;
pub mod detect;
pub mod hash;
pub mod lookup;
pub mod merge;
pub mod pipeline;
pub mod plan;
pub mod record;
pub mod normalize;
pub mod parse;
pub mod sort;
pub mod text;

verus! {

/// Fatal failure classes of one ingestion run.
///
/// An undecodable byte sequence and a row with too few columns are recovered
/// from (substitution and skipping), so they never appear here.
#[derive(Clone, Copy, Debug, PartialEq, Eq, Structural)]
pub enum UpdateError {
    /// The archive was corrupt or did not hold exactly one file.
    Archive,
    /// A row carried a change-status value outside the known set,
    /// which signals an incompatible upstream format change.
    Schema,
}

/// Identifier under which the whole-dataset hash is stored.
pub open spec fn sentinel_id() -> Seq<char> {
    "#hash#"@
}

/// The reserved key of the whole-dataset hash in the hash store.
pub fn hash_item_key() -> (s: String)
    ensures
        s@ == sentinel_id(),
{
    "#hash#".to_owned()
}

/// Administrative codes are digit strings.
pub open spec fn all_digits(s: Seq<char>) -> bool {
    forall|i: int| 0 <= i < s.len() ==> '0' <= #[trigger] s[i] <= '9'
}

/// The sentinel identifier never equals an administrative code: those are
/// all-digit strings, while the sentinel starts with a non-digit.
pub proof fn lemma_sentinel_not_admin_code(s: Seq<char>)
    requires
        all_digits(s),
    ensures
        s != sentinel_id(),
{
    reveal_strlit("#hash#");
    if s == sentinel_id() {
        assert('0' <= s[0] <= '9');
    }
}

} // verus!
