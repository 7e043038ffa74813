//! Error construction for callers that feed the histogram from an input
//! stream and need to surface failures as `std::io::Error` values.

use vstd::prelude::*;

verus! {

/// `std::io::Error`, declared so that it can appear in signatures; the
/// library never looks inside a value of it.
#[verifier::external_type_specification]
#[verifier::external_body]
pub struct ExIoError(std::io::Error);

/// Relies on `std::io::Error::other`: packs a message into an I/O error
/// value whose display text is the message.
#[verifier::external_body]
fn other_error(message: String) -> std::io::Error {
    std::io::Error::other(message)
}

/// Wraps a message as an `std::io::Error` for the surrounding command-line
/// tool to report.
pub fn io_error(message: String) -> std::io::Error {
    other_error(message)
}

} // verus!
