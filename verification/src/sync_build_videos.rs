//! Keeping the published copies of the videos in step with the content
//! store.

use vstd::prelude::*;

verus! {

/// Whether a video of `source_size` bytes has to be copied over a published
/// copy of `destination_size` bytes, or over none: it has unless a copy of
/// the same size is there.
pub fn needs_copy(source_size: u64, destination_size: Option<u64>) -> (r: bool)
    ensures
        r == (destination_size != Some(source_size)),
{
    match destination_size {
        None => true,
        Some(size) => size != source_size,
    }
}

} // verus!
