//! Human-readable byte counts, from the `bytesize` crate, trusted and named.

use vstd::prelude::*;

verus! {

/// The human-readable text for a byte count, e.g. `7 B` or `1.0 KB`: a
/// deterministic function of the count.
pub uninterp spec fn human_of(bytes: u64) -> Seq<char>;

/// Relies on `bytesize::ByteSize`'s `Display` (`bytesize::to_string`): the
/// text depends on the byte count alone.
#[verifier::external_body]
pub(crate) fn human_size(size: u64) -> (r: String)
    ensures
        r@ == human_of(size),
{
    bytesize::ByteSize(size).to_string()
}

} // verus!
