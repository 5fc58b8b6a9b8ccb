//! The single error kind: an opaque, message-carrying failure.
//!
//! Every failure of the codec is one of a few message templates. The
//! templates are stated here as spec functions over the message bytes, so
//! that a contract can say exactly which failure a function returns and on
//! which inputs.

use vstd::prelude::*;
use vstd::string::StringSliceAdditionalSpecFns;
use vstd::utf8::encode_utf8;

verus! {

/// The UTF-8 bytes of a piece of message text.
pub open spec fn lit(s: Seq<char>) -> Seq<u8> {
    encode_utf8(s)
}

/// `invalid value: <token>, expected <kind>`: the token does not parse as
/// the requested primitive kind.
pub open spec fn msg_invalid_value(tok: Seq<u8>, kind: Seq<char>) -> Seq<u8> {
    lit("invalid value: "@) + tok + lit(", expected "@) + lit(kind)
}

/// `invalid length 0, expected length > 0`: a required string or identifier
/// received an empty token.
pub open spec fn msg_invalid_length() -> Seq<u8> {
    lit("invalid length 0, expected length > 0"@)
}

/// `not over yet`: bytes remain after the top-level value was decoded.
pub open spec fn msg_trailing() -> Seq<u8> {
    lit("not over yet"@)
}

/// `unsupported <shape>`: the caller's type needs a structural feature the
/// format cannot express.
pub open spec fn msg_unsupported(what: Seq<char>) -> Seq<u8> {
    lit("unsupported "@) + lit(what)
}

/// `unknown variant <token>`: the token matches no name in the variant
/// table.
pub open spec fn msg_unknown_variant(tok: Seq<u8>) -> Seq<u8> {
    lit("unknown variant "@) + tok
}

/// `missing field <name>`: the document ended without an entry for a
/// required field.
pub open spec fn msg_missing_field(name: Seq<u8>) -> Seq<u8> {
    lit("missing field "@) + name
}

/// `duplicate field <name>`: a second entry arrived for a field already
/// decoded.
pub open spec fn msg_duplicate_field(name: Seq<u8>) -> Seq<u8> {
    lit("duplicate field "@) + name
}

/// `invalid type: unit variant, expected <kind>`: the matched variant wants
/// a payload, which the format cannot carry.
pub open spec fn msg_payload_variant(kind: Seq<char>) -> Seq<u8> {
    lit("invalid type: unit variant, expected "@) + lit(kind)
}

/// `invalid type: unit, expected unit`: a unit target received a non-empty
/// token.
pub open spec fn msg_unit_nonempty() -> Seq<u8> {
    lit("invalid type: unit, expected unit"@)
}

/// An opaque failure carrying a message assembled from one of the templates
/// above. Its view is the message bytes.
#[derive(Debug)]
pub struct Error {
    msg: Vec<u8>,
}

impl View for Error {
    type V = Seq<u8>;

    closed spec fn view(&self) -> Seq<u8> {
        self.msg@
    }
}

impl Error {
    /// Wrap already-assembled message bytes.
    pub fn msg(msg: Vec<u8>) -> (r: Error)
        ensures
            r@ == msg@,
    {
        Error { msg }
    }

    /// The message bytes.
    pub fn message(&self) -> (r: &Vec<u8>)
        ensures
            r@ == self@,
    {
        &self.msg
    }
}

/// Append the UTF-8 bytes of `s` to `m`.
fn push_lit(m: &mut Vec<u8>, s: &str)
    ensures
        final(m)@ == old(m)@ + lit(s@),
{
    let bs = s.as_bytes();
    let mut v = vstd::slice::slice_to_vec(bs);
    m.append(&mut v);
}

/// Append a copy of `tok` to `m`.
fn push_tok(m: &mut Vec<u8>, tok: &[u8])
    ensures
        final(m)@ == old(m)@ + tok@,
{
    let mut v = vstd::slice::slice_to_vec(tok);
    m.append(&mut v);
}

/// The `invalid value` failure for `tok`, expecting `kind`.
pub fn err_invalid_value(tok: &[u8], kind: &str) -> (r: Error)
    ensures
        r@ == msg_invalid_value(tok@, kind@),
{
    let mut m: Vec<u8> = Vec::new();
    push_lit(&mut m, "invalid value: ");
    push_tok(&mut m, tok);
    push_lit(&mut m, ", expected ");
    push_lit(&mut m, kind);
    Error::msg(m)
}

/// The empty-token failure.
pub fn err_invalid_length() -> (r: Error)
    ensures
        r@ == msg_invalid_length(),
{
    let mut m: Vec<u8> = Vec::new();
    push_lit(&mut m, "invalid length 0, expected length > 0");
    proof {
        assert(m@ =~= msg_invalid_length());
    }
    Error::msg(m)
}

/// The trailing-data failure.
pub fn err_trailing() -> (r: Error)
    ensures
        r@ == msg_trailing(),
{
    let mut m: Vec<u8> = Vec::new();
    push_lit(&mut m, "not over yet");
    proof {
        assert(m@ =~= msg_trailing());
    }
    Error::msg(m)
}

/// The unsupported-shape failure, naming the shape.
pub fn err_unsupported(what: &str) -> (r: Error)
    ensures
        r@ == msg_unsupported(what@),
{
    let mut m: Vec<u8> = Vec::new();
    push_lit(&mut m, "unsupported ");
    push_lit(&mut m, what);
    Error::msg(m)
}

/// The unknown-variant failure for `tok`.
pub fn err_unknown_variant(tok: &[u8]) -> (r: Error)
    ensures
        r@ == msg_unknown_variant(tok@),
{
    let mut m: Vec<u8> = Vec::new();
    push_lit(&mut m, "unknown variant ");
    push_tok(&mut m, tok);
    Error::msg(m)
}

/// The missing-field failure for `name`.
pub fn err_missing_field(name: &[u8]) -> (r: Error)
    ensures
        r@ == msg_missing_field(name@),
{
    let mut m: Vec<u8> = Vec::new();
    push_lit(&mut m, "missing field ");
    push_tok(&mut m, name);
    Error::msg(m)
}

/// The duplicate-field failure for `name`.
pub fn err_duplicate_field(name: &[u8]) -> (r: Error)
    ensures
        r@ == msg_duplicate_field(name@),
{
    let mut m: Vec<u8> = Vec::new();
    push_lit(&mut m, "duplicate field ");
    push_tok(&mut m, name);
    Error::msg(m)
}

/// The payload-bearing-variant failure, naming the wanted payload kind.
pub fn err_payload_variant(kind: &str) -> (r: Error)
    ensures
        r@ == msg_payload_variant(kind@),
{
    let mut m: Vec<u8> = Vec::new();
    push_lit(&mut m, "invalid type: unit variant, expected ");
    push_lit(&mut m, kind);
    Error::msg(m)
}

/// The non-empty-unit failure.
pub fn err_unit_nonempty() -> (r: Error)
    ensures
        r@ == msg_unit_nonempty(),
{
    let mut m: Vec<u8> = Vec::new();
    push_lit(&mut m, "invalid type: unit, expected unit");
    proof {
        assert(m@ =~= msg_unit_nonempty());
    }
    Error::msg(m)
}

} // verus!
