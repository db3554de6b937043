//! The settings of a build.

use vstd::prelude::*;

verus! {

#[derive(Debug)]
/// What a build is configured with.
pub struct Config {
    /// The iteration count of the key derivation. Raising it makes every
    /// earlier access token unreadable.
    pub file_access_iterations: u32,
    /// The salt of the key derivation.
    pub file_access_salt: String,
    /// The height of a thumbnail, in pixels.
    pub thumbnail_height: u32,
    /// How many characters of a video's fingerprint name its thumbnail.
    pub thumbnail_hex_chars_prefix: usize,
}

} // verus!
