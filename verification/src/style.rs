//! Terminal styling for CLI output, colored only where the stream supports
//! it.

use vstd::prelude::*;

use owo_colors::OwoColorize;

verus! {

/// Relies on owo-colors' `if_supports_color` with `bold`: the text, wrapped
/// in styling escapes when the stream supports color; whether it does
/// depends on the terminal.
#[verifier::external_body]
pub fn heading(text: &str) -> String {
    text.if_supports_color(owo_colors::Stream::Stdout, |t| t.bold()).to_string()
}

/// Relies on owo-colors' `if_supports_color` with `green`; see `heading`.
#[verifier::external_body]
pub fn success(text: &str) -> String {
    text.if_supports_color(owo_colors::Stream::Stdout, |t| t.green()).to_string()
}

/// Relies on owo-colors' `if_supports_color` with `dimmed`; see `heading`.
#[verifier::external_body]
pub fn info(text: &str) -> String {
    text.if_supports_color(owo_colors::Stream::Stdout, |t| t.dimmed()).to_string()
}

/// Relies on owo-colors' `if_supports_color` with `yellow`; see `heading`.
#[verifier::external_body]
pub fn warn(text: &str) -> String {
    text.if_supports_color(owo_colors::Stream::Stdout, |t| t.yellow()).to_string()
}

/// Relies on owo-colors' `if_supports_color` with `red`; see `heading`.
#[verifier::external_body]
pub fn error(text: &str) -> String {
    text.if_supports_color(owo_colors::Stream::Stdout, |t| t.red()).to_string()
}

/// The word `done`, in green where the terminal takes color.
pub fn done() -> String {
    success("done")
}

} // verus!
