//! Literal decoding, delegated to the `syn` crate: a marker payload is the
//! exact source span of a Rust string or integer literal, and only its
//! decoded value matters to the renderers.
//!
//! The decoded values are named by uninterpreted spec functions: what the
//! decoders return is a function of the payload bytes alone, but spelling
//! out Rust's literal grammar here would only duplicate `syn` without a way
//! to hold the copy to it.

use vstd::prelude::*;

verus! {

/// The decoded value of the byte span `v` read as one Rust string literal
/// (surrounding whitespace tolerated), or nothing when `v` is not valid
/// UTF-8 or not a well-formed string literal.
pub uninterp spec fn str_lit_value(v: Seq<u8>) -> Option<Seq<u8>>;

/// The value of the byte span `v` read as one Rust integer literal
/// (surrounding whitespace tolerated) in the range of `u32`, or nothing
/// when `v` is not such a literal.
pub uninterp spec fn int_lit_value(v: Seq<u8>) -> Option<u32>;

/// Relies on `syn::parse_str::<syn::LitStr>` and `syn::LitStr::value`:
/// parsing and decoding a string literal depend on the bytes alone, and
/// decoding succeeds exactly when parsing does.
#[verifier::external_body]
pub fn parse_str_lit(v: &[u8]) -> (r: Result<Vec<u8>, String>)
    ensures
        r is Ok <==> str_lit_value(v@) is Some,
        r is Ok ==> r.unwrap()@ == str_lit_value(v@).unwrap(),
{
    let text = match std::str::from_utf8(v) {
        Ok(text) => text,
        Err(e) => return Err(e.to_string()),
    };
    match syn::parse_str::<syn::LitStr>(text) {
        Ok(lit) => Ok(lit.value().into_bytes()),
        Err(e) => Err(e.to_string()),
    }
}

/// Relies on `syn::parse_str::<syn::LitInt>` and
/// `syn::LitInt::base10_parse::<u32>`: parsing and evaluating an integer
/// literal depend on the bytes alone, and evaluation succeeds exactly when
/// the literal is well formed and its value fits.
#[verifier::external_body]
pub fn parse_int_lit(v: &[u8]) -> (r: Result<u32, String>)
    ensures
        r is Ok <==> int_lit_value(v@) is Some,
        r is Ok ==> r.unwrap() == int_lit_value(v@).unwrap(),
{
    let text = match std::str::from_utf8(v) {
        Ok(text) => text,
        Err(e) => return Err(e.to_string()),
    };
    let lit = match syn::parse_str::<syn::LitInt>(text) {
        Ok(lit) => lit,
        Err(e) => return Err(e.to_string()),
    };
    match lit.base10_parse::<u32>() {
        Ok(n) => Ok(n),
        Err(e) => Err(e.to_string()),
    }
}

} // verus!
