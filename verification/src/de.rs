//! The read side: a streaming line parser and the shape-driven decoder.
//!
//! The `Deserializer` owns a cursor and the transient token buffer. The
//! parse methods are the line parser: they skip whitespace and comments,
//! split keys from values, and are proved equal to the scanner functions of
//! [`crate::scan`]. The decode methods convert the current token according
//! to a requested [`Shape`].

use vstd::prelude::*;
use vstd::string::StringSliceAdditionalSpecFns;

use crate::error::{
    err_duplicate_field, err_invalid_length, err_invalid_value, err_missing_field,
    err_payload_variant, err_trailing, err_unit_nonempty, err_unknown_variant, err_unsupported,
    msg_duplicate_field, msg_invalid_length, msg_invalid_value, msg_missing_field,
    msg_payload_variant, msg_trailing, msg_unit_nonempty, msg_unknown_variant, msg_unsupported,
    Error,
};
use crate::read::{Read, SliceRead, StrRead};
use crate::scan::{
    lemma_after_line_len, lemma_drop_junk_len, lemma_drop_spaces_len, lemma_value_rest_len,
    after_line, drop_junk, drop_spaces, is_term, line_text, scan_key, strip_pad, value_rest,
    value_text,
};
use crate::shape::{
    variants_model, FieldShape, Shape, ShapeModel, Value, ValueModel, VariantKind, VariantShape,
};

verus! {

/// The streaming reader: a cursor plus the one in-flight token.
pub struct Deserializer<R> {
    read: R,
    inner: Vec<u8>,
}

impl<R: Read> Deserializer<R> {
    /// The whole byte source.
    pub closed spec fn src(&self) -> Seq<u8> {
        self.read.src()
    }

    /// The current offset into the source.
    pub closed spec fn pos(&self) -> int {
        self.read.pos()
    }

    /// The bytes not yet consumed.
    pub open spec fn suffix(&self) -> Seq<u8> {
        self.src().skip(self.pos())
    }

    /// The token buffer: the most recently extracted key or value text.
    pub closed spec fn token(&self) -> Seq<u8> {
        self.inner@
    }

    pub closed spec fn wf(&self) -> bool {
        self.read.wf() && 0 <= self.read.pos() <= self.read.src().len()
    }

    /// Wrap a cursor, with an empty token buffer.
    pub fn new(read: R) -> (r: Self)
        requires
            read.wf(),
        ensures
            r.wf(),
            r.src() == read.src(),
            r.pos() == read.pos(),
            r.token() == Seq::<u8>::empty(),
    {
        proof {
            read.wf_bounds();
        }
        Deserializer { read, inner: Vec::new() }
    }

    /// Return and consume the next byte, or `None` at end of input.
    fn next_char(&mut self) -> (r: Option<u8>)
        requires
            old(self).wf(),
        ensures
            final(self).wf(),
            final(self).src() == old(self).src(),
            final(self).token() == old(self).token(),
            old(self).pos() < old(self).src().len() ==> {
                &&& r == Some(old(self).src()[old(self).pos()])
                &&& final(self).pos() == old(self).pos() + 1
            },
            old(self).pos() >= old(self).src().len() ==> {
                &&& r is None
                &&& final(self).pos() == old(self).pos()
            },
    {
        self.read.next()
    }

    /// Consume a byte already seen through `peek`.
    fn eat_char(&mut self)
        requires
            old(self).wf(),
            old(self).pos() < old(self).src().len(),
        ensures
            final(self).wf(),
            final(self).src() == old(self).src(),
            final(self).token() == old(self).token(),
            final(self).pos() == old(self).pos() + 1,
    {
        self.read.discard()
    }

    /// Look at the next byte without consuming it.
    fn peek(&mut self) -> (r: Option<u8>)
        requires
            old(self).wf(),
        ensures
            final(self).wf(),
            final(self).src() == old(self).src(),
            final(self).pos() == old(self).pos(),
            final(self).token() == old(self).token(),
            old(self).pos() < old(self).src().len() ==> r == Some(
                old(self).src()[old(self).pos()],
            ),
            old(self).pos() >= old(self).src().len() ==> r is None,
    {
        self.read.peek()
    }

    /// After the top-level value: fail with the trailing-data error if any
    /// byte remains unconsumed.
    pub fn end(&mut self) -> (r: Result<(), Error>)
        requires
            old(self).wf(),
        ensures
            final(self).wf(),
            final(self).src() == old(self).src(),
            final(self).pos() == old(self).pos(),
            final(self).token() == old(self).token(),
            old(self).suffix().len() == 0 ==> r is Ok,
            old(self).suffix().len() > 0 ==> (r matches Err(e) && e@ == msg_trailing()),
    {
        match self.peek() {
            Some(_) => Err(err_trailing()),
            None => Ok(()),
        }
    }

    /// Consume whitespace; return the first byte of content, consumed, or
    /// `None` when input ends first.
    pub fn parse_whitespace(&mut self) -> (r: Option<u8>)
        requires
            old(self).wf(),
        ensures
            final(self).wf(),
            final(self).src() == old(self).src(),
            final(self).token() == old(self).token(),
            ({
                let t = drop_spaces(old(self).suffix());
                if t.len() == 0 {
                    r is None && final(self).suffix().len() == 0
                } else {
                    r == Some(t[0]) && final(self).suffix() == t.skip(1)
                }
            }),
    {
        loop
            invariant
                self.wf(),
                self.src() == old(self).src(),
                self.token() == old(self).token(),
                drop_spaces(self.suffix()) == drop_spaces(old(self).suffix()),
            decreases self.src().len() - self.pos(),
        {
            let ghost pre = self.suffix();
            match self.next_char() {
                None => {
                    return None;
                },
                Some(b) => {
                    proof {
                        assert(pre.len() > 0 && pre[0] == b);
                        assert(pre.skip(1) =~= self.suffix());
                    }
                    if b == 32 || b == 10 || b == 9 || b == 13 {
                    } else {
                        proof {
                            assert(drop_spaces(pre) == pre);
                        }
                        return Some(b);
                    }
                },
            }
        }
    }

    /// Extract the value token: one conventional padding space is dropped,
    /// then bytes accumulate until a line terminator (consumed) or end of
    /// input.
    pub fn parse_value(&mut self) -> (r: Vec<u8>)
        requires
            old(self).wf(),
        ensures
            final(self).wf(),
            final(self).src() == old(self).src(),
            final(self).token() == old(self).token(),
            r@ == value_text(old(self).suffix()),
            final(self).suffix() == value_rest(old(self).suffix()),
    {
        let ghost suf = self.suffix();
        if let Some(b) = self.peek() {
            if b == 32 {
                self.eat_char();
                proof {
                    assert(strip_pad(suf) =~= self.suffix());
                }
            }
        }
        proof {
            assert(strip_pad(suf) =~= self.suffix());
        }
        let ghost t = strip_pad(suf);

        let mut slice: Vec<u8> = Vec::new();
        loop
            invariant
                self.wf(),
                self.src() == old(self).src(),
                self.token() == old(self).token(),
                t == strip_pad(old(self).suffix()),
                line_text(t) == slice@ + line_text(self.suffix()),
                after_line(t) == after_line(self.suffix()),
            decreases self.src().len() - self.pos(),
        {
            let ghost pre = self.suffix();
            match self.next_char() {
                None => {
                    proof {
                        assert(pre.len() == 0);
                        assert(line_text(t) =~= slice@);
                    }
                    return slice;
                },
                Some(b) => {
                    proof {
                        assert(pre.len() > 0 && pre[0] == b);
                        assert(pre.skip(1) =~= self.suffix());
                    }
                    if b == 10 || b == 9 || b == 13 {
                        proof {
                            assert(line_text(t) =~= slice@);
                        }
                        return slice;
                    }
                    slice.push(b);
                    proof {
                        assert(line_text(pre) == seq![b] + line_text(pre.skip(1)));
                        assert(line_text(t) =~= slice@ + line_text(self.suffix()));
                    }
                },
            }
        }
    }

    /// Consume whitespace and whole comment lines; return the first byte of
    /// real content, consumed, or `None` when input ends first.
    pub fn parse_comment(&mut self) -> (r: Option<u8>)
        requires
            old(self).wf(),
        ensures
            final(self).wf(),
            final(self).src() == old(self).src(),
            final(self).token() == old(self).token(),
            ({
                let t = drop_junk(old(self).suffix());
                if t.len() == 0 {
                    r is None && final(self).suffix().len() == 0
                } else {
                    r == Some(t[0]) && final(self).suffix() == t.skip(1)
                }
            }),
    {
        loop
            invariant
                self.wf(),
                self.src() == old(self).src(),
                self.token() == old(self).token(),
                drop_junk(self.suffix()) == drop_junk(old(self).suffix()),
            decreases self.src().len() - self.pos(),
        {
            let ghost pre = self.suffix();
            match self.parse_whitespace() {
                None => {
                    proof {
                        assert(drop_spaces(pre).len() == 0);
                        assert(drop_junk(pre) == drop_spaces(pre));
                    }
                    return None;
                },
                Some(b) => {
                    let ghost t = drop_spaces(pre);
                    if b == 35 || b == 33 {
                        self.parse_value();
                        proof {
                            assert(value_rest(t.skip(1)) == after_line(strip_pad(t.skip(1))));
                            if t.skip(1).len() > 0 && t.skip(1)[0] == 32 {
                                assert(!is_term(t.skip(1)[0]));
                                assert(after_line(strip_pad(t.skip(1))) == after_line(t.skip(1)));
                            } else {
                                assert(strip_pad(t.skip(1)) == t.skip(1));
                            }
                            assert(self.suffix() == after_line(t.skip(1)));
                            assert(drop_junk(pre) == drop_junk(after_line(t.skip(1))));
                            lemma_drop_spaces_len(pre);
                            lemma_after_line_len(t.skip(1));
                            assert(self.suffix().len() < pre.len());
                        }
                    } else {
                        proof {
                            assert(drop_junk(pre) == t);
                        }
                        return Some(b);
                    }
                },
            }
        }
    }

    /// Extract the next key token: bytes accumulate, each fetched through
    /// the whitespace-and-comment step, until a separator (consumed, not
    /// part of the key). `None` when input ends before a separator.
    pub fn parse_key(&mut self) -> (r: Option<Vec<u8>>)
        requires
            old(self).wf(),
        ensures
            final(self).wf(),
            final(self).src() == old(self).src(),
            final(self).token() == old(self).token(),
            ({
                match scan_key(old(self).suffix()) {
                    None => r is None && final(self).suffix().len() == 0,
                    Some((k, rest)) => {
                        &&& r matches Some(key) && key@ == k
                        &&& final(self).suffix() == rest
                    },
                }
            }),
    {
        let mut slice: Vec<u8> = Vec::new();
        loop
            invariant
                self.wf(),
                self.src() == old(self).src(),
                self.token() == old(self).token(),
                scan_key(old(self).suffix()) == key_join(slice@, scan_key(self.suffix())),
            decreases self.src().len() - self.pos(),
        {
            let ghost pre = self.suffix();
            match self.parse_comment() {
                None => {
                    proof {
                        assert(drop_junk(pre).len() == 0);
                        assert(scan_key(pre) is None);
                    }
                    return None;
                },
                Some(b) => {
                    let ghost t = drop_junk(pre);
                    if b == 61 || b == 58 {
                        proof {
                            assert(scan_key(pre) == Some((Seq::<u8>::empty(), t.skip(1))));
                            assert(slice@ + Seq::<u8>::empty() =~= slice@);
                        }
                        return Some(slice);
                    }
                    slice.push(b);
                    proof {
                        lemma_key_join_assoc(slice@.drop_last(), seq![b], scan_key(t.skip(1)));
                        assert(slice@.drop_last() + seq![b] =~= slice@);
                        assert(scan_key(pre) == key_join(seq![t[0]], scan_key(t.skip(1))));
                        lemma_drop_junk_len(pre);
                        assert(self.suffix().len() < pre.len());
                    }
                },
            }
        }
    }
}

/// Relies on `core::str::from_utf8`: it succeeds exactly on valid UTF-8,
/// and the string then views as the decoded characters.
#[verifier::external_body]
fn utf8_str(v: &[u8]) -> (r: Option<&str>)
    ensures
        r is Some <==> vstd::utf8::valid_utf8(v@),
        r matches Some(s) ==> s@ == vstd::utf8::decode_utf8(v@),
{
    core::str::from_utf8(v).ok()
}

/// A token usable as an identifier (a key or a variant name): nonempty and
/// valid UTF-8.
pub open spec fn ident_ok(tok: Seq<u8>) -> bool {
    tok.len() > 0 && vstd::utf8::valid_utf8(tok)
}

/// The first variant whose name is `tok`, from position `i` on.
pub open spec fn variant_index(
    vars: Seq<(Seq<u8>, VariantKind)>,
    tok: Seq<u8>,
    i: int,
) -> Option<int>
    decreases vars.len() - i,
{
    if i >= vars.len() {
        None
    } else if vars[i].0 == tok {
        Some(i)
    } else {
        variant_index(vars, tok, i + 1)
    }
}

/// What a token decodes to against an enumeration's variant table: the
/// token is the selected variant's name and must carry no payload.
pub open spec fn token_variant(vars: Seq<(Seq<u8>, VariantKind)>, tok: Seq<u8>) -> Result<
    ValueModel,
    Seq<u8>,
> {
    if !ident_ok(tok) {
        Err(msg_invalid_length())
    } else {
        match variant_index(vars, tok, 0) {
            None => Err(msg_unknown_variant(tok)),
            Some(j) => match vars[j].1 {
                VariantKind::Unit => Ok(ValueModel::Variant(tok)),
                VariantKind::Newtype => Err(msg_payload_variant("newtype variant"@)),
                VariantKind::Tuple => Err(msg_payload_variant("tuple variant"@)),
                VariantKind::Struct => Err(msg_payload_variant("struct variant"@)),
            },
        }
    }
}

/// What a token decodes to for each requested shape: the read-side
/// dispatcher, as mathematics. Shapes the format cannot express always
/// fail, whatever the token.
pub open spec fn token_value(sh: ShapeModel, tok: Seq<u8>) -> Result<ValueModel, Seq<u8>>
    decreases sh,
{
    match sh {
        ShapeModel::Bool => match crate::num::bool_token(tok) {
            Some(b) => Ok(ValueModel::Bool(b)),
            None => Err(msg_invalid_value(tok, "boolean"@)),
        },
        ShapeModel::SInt => match crate::num::sint_token(tok) {
            Some(i) => Ok(ValueModel::SInt(i)),
            None => Err(msg_invalid_value(tok, "signed integer"@)),
        },
        ShapeModel::UInt => match crate::num::uint_token(tok) {
            Some(u) => Ok(ValueModel::UInt(u)),
            None => Err(msg_invalid_value(tok, "unsigned integer"@)),
        },
        ShapeModel::Float => if ident_ok(tok) {
            Ok(ValueModel::Float(tok))
        } else {
            Err(msg_invalid_value(tok, "float"@))
        },
        ShapeModel::Text => if ident_ok(tok) {
            Ok(ValueModel::Text(tok))
        } else {
            Err(msg_invalid_length())
        },
        ShapeModel::Unit => if tok.len() == 0 {
            Ok(ValueModel::Unit)
        } else {
            Err(msg_unit_nonempty())
        },
        ShapeModel::Optional(inner) => if tok.len() == 0 {
            Ok(ValueModel::Absent)
        } else {
            match token_value(*inner, tok) {
                Ok(v) => Ok(ValueModel::Present(Box::new(v))),
                Err(e) => Err(e),
            }
        },
        ShapeModel::Choice(vars) => token_variant(vars, tok),
        ShapeModel::Chr => Err(msg_unsupported("char"@)),
        ShapeModel::Bytes => Err(msg_unsupported("bytes"@)),
        ShapeModel::List => Err(msg_unsupported("seq"@)),
        ShapeModel::Tuple => Err(msg_unsupported("tuple"@)),
        ShapeModel::TupleStruct => Err(msg_unsupported("tuple struct"@)),
        ShapeModel::Newtype => Err(msg_unsupported("newtype struct"@)),
    }
}

/// Byte-for-byte equality of two slices.
fn bytes_eq(a: &[u8], b: &[u8]) -> (r: bool)
    ensures
        r == (a@ == b@),
{
    if a.len() != b.len() {
        return false;
    }
    let n = a.len();
    let mut i: usize = 0;
    while i < n
        invariant
            n == a@.len() == b@.len(),
            0 <= i <= n,
            forall|j: int| 0 <= j < i ==> a@[j] == b@[j],
        decreases n - i,
    {
        if a[i] != b[i] {
            return false;
        }
        i = i + 1;
    }
    proof {
        assert(a@ =~= b@);
    }
    true
}

/// The first variant of the table whose name equals `tok`.
fn find_variant(vars: &Vec<VariantShape>, tok: &[u8]) -> (r: Option<usize>)
    ensures
        r matches Some(j) ==> j < vars@.len() && variant_index(variants_model(vars@), tok@, 0)
            == Some(j as int),
        r is None ==> variant_index(variants_model(vars@), tok@, 0) is None,
{
    let ghost m = variants_model(vars@);
    let n = vars.len();
    let mut i: usize = 0;
    while i < n
        invariant
            n == vars@.len(),
            0 <= i <= n,
            m == variants_model(vars@),
            variant_index(m, tok@, 0) == variant_index(m, tok@, i as int),
        decreases n - i,
    {
        proof {
            assert(m[i as int] == vars@[i as int]@);
        }
        if bytes_eq(vars[i].name.as_slice(), tok) {
            proof {
                assert(variant_index(m, tok@, i as int) == Some(i as int));
            }
            return Some(i);
        }
        i = i + 1;
    }
    None
}

/// Prepend accumulated key bytes onto a scan result.
pub open spec fn key_join(pre: Seq<u8>, o: Option<(Seq<u8>, Seq<u8>)>) -> Option<
    (Seq<u8>, Seq<u8>),
> {
    match o {
        Some((k, r)) => Some((pre + k, r)),
        None => None,
    }
}

proof fn lemma_key_join_assoc(a: Seq<u8>, b: Seq<u8>, o: Option<(Seq<u8>, Seq<u8>)>)
    ensures
        key_join(a, key_join(b, o)) == key_join(a + b, o),
{
    match o {
        Some((k, r)) => {
            assert(a + (b + k) =~= (a + b) + k);
        },
        None => {},
    }
}

impl<R: Read> Deserializer<R> {
    /// The current token as text: `None` when it is empty or not UTF-8.
    pub fn parse_str(&self) -> (r: Option<&str>)
        ensures
            r is Some <==> ident_ok(self.token()),
            r matches Some(s) ==> s@ == vstd::utf8::decode_utf8(self.token()),
    {
        if self.inner.len() == 0 {
            None
        } else {
            utf8_str(self.inner.as_slice())
        }
    }

    /// Decode the current token as a boolean.
    pub fn deserialize_bool(&self) -> (r: Result<Value, Error>)
        ensures
            decoded(token_value(ShapeModel::Bool, self.token()), r),
    {
        match crate::num::parse_bool(self.inner.as_slice()) {
            Some(b) => Ok(Value::Bool(b)),
            None => Err(err_invalid_value(self.inner.as_slice(), "boolean")),
        }
    }

    /// Decode the current token as a signed integer.
    pub fn deserialize_sint(&self) -> (r: Result<Value, Error>)
        ensures
            decoded(token_value(ShapeModel::SInt, self.token()), r),
    {
        match crate::num::parse_sint(self.inner.as_slice()) {
            Some(i) => Ok(Value::SInt(i)),
            None => Err(err_invalid_value(self.inner.as_slice(), "signed integer")),
        }
    }

    /// Decode the current token as an unsigned integer.
    pub fn deserialize_uint(&self) -> (r: Result<Value, Error>)
        ensures
            decoded(token_value(ShapeModel::UInt, self.token()), r),
    {
        match crate::num::parse_uint(self.inner.as_slice()) {
            Some(u) => Ok(Value::UInt(u)),
            None => Err(err_invalid_value(self.inner.as_slice(), "unsigned integer")),
        }
    }

    /// Decode the current token as a floating-point value, kept as its
    /// text: the boundary that owns floating point interprets it further.
    pub fn deserialize_float(&self) -> (r: Result<Value, Error>)
        ensures
            decoded(token_value(ShapeModel::Float, self.token()), r),
    {
        match self.parse_str() {
            None => Err(err_invalid_value(self.inner.as_slice(), "float")),
            Some(_) => Ok(Value::Float(vstd::slice::slice_to_vec(self.inner.as_slice()))),
        }
    }

    /// Decode the current token as a required string: empty is a failure.
    pub fn deserialize_str(&self) -> (r: Result<Value, Error>)
        ensures
            decoded(token_value(ShapeModel::Text, self.token()), r),
    {
        match self.parse_str() {
            None => Err(err_invalid_length()),
            Some(_) => Ok(Value::Text(vstd::slice::slice_to_vec(self.inner.as_slice()))),
        }
    }

    /// Decode the current token as a unit: only emptiness succeeds.
    pub fn deserialize_unit(&self) -> (r: Result<Value, Error>)
        ensures
            decoded(token_value(ShapeModel::Unit, self.token()), r),
    {
        if self.inner.len() == 0 {
            Ok(Value::Unit)
        } else {
            Err(err_unit_nonempty())
        }
    }

    /// Decode the current token against an enumeration's variant table.
    pub fn deserialize_enum(&self, vars: &Vec<VariantShape>) -> (r: Result<Value, Error>)
        ensures
            decoded(token_variant(variants_model(vars@), self.token()), r),
    {
        match self.parse_str() {
            None => Err(err_invalid_length()),
            Some(_) => match find_variant(vars, self.inner.as_slice()) {
                None => Err(err_unknown_variant(self.inner.as_slice())),
                Some(j) => {
                    proof {
                        assert(variants_model(vars@)[j as int] == vars@[j as int]@);
                    }
                    match vars[j].kind {
                        VariantKind::Unit => Ok(
                            Value::Variant(vstd::slice::slice_to_vec(self.inner.as_slice())),
                        ),
                        VariantKind::Newtype => Err(err_payload_variant("newtype variant")),
                        VariantKind::Tuple => Err(err_payload_variant("tuple variant")),
                        VariantKind::Struct => Err(err_payload_variant("struct variant")),
                    }
                },
            },
        }
    }

    /// Decode the current token against any requested shape: the read-side
    /// dispatcher.
    pub fn decode_scalar(&self, shape: &Shape) -> (r: Result<Value, Error>)
        ensures
            decoded(token_value(shape@, self.token()), r),
        decreases shape,
    {
        match shape {
            Shape::Bool => self.deserialize_bool(),
            Shape::SInt => self.deserialize_sint(),
            Shape::UInt => self.deserialize_uint(),
            Shape::Float => self.deserialize_float(),
            Shape::Text => self.deserialize_str(),
            Shape::Unit => self.deserialize_unit(),
            Shape::Optional(inner) => {
                if self.inner.len() == 0 {
                    Ok(Value::Absent)
                } else {
                    match self.decode_scalar(inner) {
                        Ok(v) => Ok(Value::Present(Box::new(v))),
                        Err(e) => Err(e),
                    }
                }
            },
            Shape::Choice(vars) => self.deserialize_enum(vars),
            Shape::Chr => Err(err_unsupported("char")),
            Shape::Bytes => Err(err_unsupported("bytes")),
            Shape::List => Err(err_unsupported("seq")),
            Shape::Tuple => Err(err_unsupported("tuple")),
            Shape::TupleStruct => Err(err_unsupported("tuple struct")),
            Shape::Newtype => Err(err_unsupported("newtype struct")),
        }
    }
}

/// How an executable decode result realises a mathematical one: same
/// success or failure, same value or message.
pub open spec fn decoded(m: Result<ValueModel, Seq<u8>>, r: Result<Value, Error>) -> bool {
    match m {
        Ok(vm) => r matches Ok(v) && v@ == vm,
        Err(em) => r matches Err(e) && e@ == em,
    }
}

/// The field table as mathematics: each field's name and shape.
pub open spec fn fields_model(fields: Seq<FieldShape>) -> Seq<(Seq<u8>, ShapeModel)> {
    fields.map_values(|f: FieldShape| f@)
}

/// A sequence of values as mathematics.
pub open spec fn values_model(vs: Seq<Value>) -> Seq<ValueModel> {
    vs.map_values(|v: Value| v@)
}

/// Decoded-so-far slots as mathematics.
pub open spec fn slots_model(s: Seq<Option<Value>>) -> Seq<Option<ValueModel>> {
    s.map_values(
        |o: Option<Value>|
            match o {
                Some(v) => Some(v@),
                None => None,
            },
    )
}

/// The first field whose name is `k`, from position `i` on.
pub open spec fn field_index(fields: Seq<(Seq<u8>, ShapeModel)>, k: Seq<u8>, i: int) -> Option<
    int,
>
    decreases fields.len() - i,
{
    if i >= fields.len() {
        None
    } else if fields[i].0 == k {
        Some(i)
    } else {
        field_index(fields, k, i + 1)
    }
}

/// The record's values once the document is exhausted: each decoded entry
/// in its slot, a missing optional field decodes to absent, and the first
/// still-missing required field, in field order, is the failure.
pub open spec fn finish_fields(
    fields: Seq<(Seq<u8>, ShapeModel)>,
    acc: Seq<Option<ValueModel>>,
    i: int,
) -> Result<Seq<ValueModel>, Seq<u8>>
    decreases fields.len() - i,
{
    if i >= fields.len() {
        Ok(Seq::empty())
    } else {
        let slot = match acc[i] {
            Some(v) => Some(v),
            None => if fields[i].1 is Optional {
                Some(ValueModel::Absent)
            } else {
                None
            },
        };
        match slot {
            None => Err(msg_missing_field(fields[i].0)),
            Some(v) => match finish_fields(fields, acc, i + 1) {
                Ok(rest) => Ok(seq![v] + rest),
                Err(e) => Err(e),
            },
        }
    }
}

/// The record decoder over the remaining document: extract a key, require
/// it to be an identifier, match it to a field, decode the value into that
/// field's slot; consume and ignore entries under unknown keys; at end of
/// input, finish the slots.
pub open spec fn decode_fields(
    fields: Seq<(Seq<u8>, ShapeModel)>,
    acc: Seq<Option<ValueModel>>,
    s: Seq<u8>,
) -> Result<Seq<ValueModel>, Seq<u8>>
    decreases s.len(),
    via decode_fields_dec
{
    match scan_key(s) {
        None => finish_fields(fields, acc, 0),
        Some((k, r1)) => {
            if !ident_ok(k) {
                Err(msg_invalid_length())
            } else {
                let v = value_text(r1);
                let r2 = value_rest(r1);
                match field_index(fields, k, 0) {
                    Some(j) => if acc[j] is Some {
                        Err(msg_duplicate_field(k))
                    } else {
                        match token_value(fields[j].1, v) {
                            Ok(val) => decode_fields(fields, acc.update(j, Some(val)), r2),
                            Err(e) => Err(e),
                        }
                    },
                    None => decode_fields(fields, acc, r2),
                }
            }
        },
    }
}

#[via_fn]
proof fn decode_fields_dec(
    fields: Seq<(Seq<u8>, ShapeModel)>,
    acc: Seq<Option<ValueModel>>,
    s: Seq<u8>,
) {
    crate::scan::lemma_scan_key_rest_len(s);
    if let Some((k, r1)) = scan_key(s) {
        crate::scan::lemma_value_rest_len(r1);
    }
}

/// What a whole record document decodes to: every slot starts empty.
pub open spec fn decode_doc(fields: Seq<(Seq<u8>, ShapeModel)>, s: Seq<u8>) -> Result<
    Seq<ValueModel>,
    Seq<u8>,
> {
    decode_fields(fields, Seq::new(fields.len(), |i: int| None::<ValueModel>), s)
}

/// What a scalar top-level document decodes to: the in-flight token is
/// empty, and any unconsumed byte is trailing data.
pub open spec fn decode_value_doc(sh: ShapeModel, s: Seq<u8>) -> Result<ValueModel, Seq<u8>> {
    match token_value(sh, Seq::<u8>::empty()) {
        Ok(v) => if s.len() == 0 {
            Ok(v)
        } else {
            Err(msg_trailing())
        },
        Err(e) => Err(e),
    }
}

/// How an executable record decode realises the mathematical one.
pub open spec fn decoded_record(m: Result<Seq<ValueModel>, Seq<u8>>, r: Result<
    Vec<Value>,
    Error,
>) -> bool {
    match m {
        Ok(vs) => r matches Ok(out) && values_model(out@) == vs,
        Err(em) => r matches Err(e) && e@ == em,
    }
}

/// The first field of the table whose name equals `k`.
fn find_field(fields: &Vec<FieldShape>, k: &[u8]) -> (r: Option<usize>)
    ensures
        r matches Some(j) ==> j < fields@.len() && field_index(fields_model(fields@), k@, 0)
            == Some(j as int),
        r is None ==> field_index(fields_model(fields@), k@, 0) is None,
{
    let ghost m = fields_model(fields@);
    let n = fields.len();
    let mut i: usize = 0;
    while i < n
        invariant
            n == fields@.len(),
            0 <= i <= n,
            m == fields_model(fields@),
            field_index(m, k@, 0) == field_index(m, k@, i as int),
        decreases n - i,
    {
        proof {
            assert(m[i as int] == fields@[i as int]@);
        }
        if bytes_eq(fields[i].name.as_slice(), k) {
            proof {
                assert(field_index(m, k@, i as int) == Some(i as int));
            }
            return Some(i);
        }
        i = i + 1;
    }
    None
}

/// Prepend already-finished values onto a finishing result.
pub open spec fn finish_join(pre: Seq<ValueModel>, r: Result<Seq<ValueModel>, Seq<u8>>) -> Result<
    Seq<ValueModel>,
    Seq<u8>,
> {
    match r {
        Ok(rest) => Ok(pre + rest),
        Err(e) => Err(e),
    }
}

proof fn lemma_finish_join_assoc(a: Seq<ValueModel>, b: Seq<ValueModel>, r: Result<
    Seq<ValueModel>,
    Seq<u8>,
>)
    ensures
        finish_join(a, finish_join(b, r)) == finish_join(a + b, r),
{
    match r {
        Ok(rest) => {
            assert(a + (b + rest) =~= (a + b) + rest);
        },
        Err(e) => {},
    }
}

impl<R: Read> Deserializer<R> {
    /// Decode a whole flat record: repeatedly extract a key, match it to a
    /// field, and decode the entry's value as that field's shape. Entries
    /// under unknown keys are consumed and ignored. When the input is
    /// exhausted, a missing optional field becomes absent and a missing
    /// required field is the failure.
    pub fn decode_struct(&mut self, fields: &Vec<FieldShape>) -> (r: Result<Vec<Value>, Error>)
        requires
            old(self).wf(),
        ensures
            final(self).wf(),
            final(self).src() == old(self).src(),
            decoded_record(decode_doc(fields_model(fields@), old(self).suffix()), r),
            r is Ok ==> final(self).suffix().len() == 0,
    {
        let ghost fm = fields_model(fields@);
        let n = fields.len();
        let mut acc: Vec<Option<Value>> = Vec::new();
        while acc.len() < n
            invariant
                acc@.len() <= n,
                forall|j: int| 0 <= j < acc@.len() ==> acc@[j] is None,
            decreases n - acc@.len(),
        {
            acc.push(None);
        }
        proof {
            assert(slots_model(acc@) =~= Seq::new(fm.len(), |i: int| None::<ValueModel>));
        }
        loop
            invariant
                self.wf(),
                self.src() == old(self).src(),
                n == fields@.len(),
                acc@.len() == n,
                fm == fields_model(fields@),
                decode_fields(fm, slots_model(acc@), self.suffix()) == decode_doc(
                    fm,
                    old(self).suffix(),
                ),
            decreases self.src().len() - self.pos(),
        {
            let ghost s_pre = self.suffix();
            let ghost accm = slots_model(acc@);
            match self.parse_key() {
                None => {
                    proof {
                        assert(scan_key(self.suffix()) is None);
                        assert(decode_doc(fm, old(self).suffix()) == finish_fields(fm, accm, 0));
                    }
                    let ghost accm0 = slots_model(acc@);
                    let mut out: Vec<Value> = Vec::new();
                    let mut i: usize = 0;
                    while i < n
                        invariant
                            self.wf(),
                            self.src() == old(self).src(),
                            self.suffix().len() == 0,
                            0 <= i <= n,
                            n == fields@.len(),
                            fm == fields_model(fields@),
                            acc@.len() == n - i,
                            accm0.len() == n,
                            slots_model(acc@) == accm0.skip(i as int),
                            decode_doc(fm, old(self).suffix()) == finish_fields(fm, accm0, 0),
                            finish_fields(fm, accm0, 0) == finish_join(
                                values_model(out@),
                                finish_fields(fm, accm0, i as int),
                            ),
                        decreases n - i,
                    {
                        let ghost out_pre = values_model(out@);
                        let ghost accv = acc@;
                        let slot = acc.remove(0);
                        proof {
                            assert(slot == accv[0]);
                            assert(slots_model(accv)[0] == accm0.skip(i as int)[0]);
                            assert(accm0[i as int] == match slot {
                                Some(v) => Some(v@),
                                None => None::<ValueModel>,
                            });
                            assert forall|j: int| 0 <= j < acc@.len() implies slots_model(acc@)[j]
                                == accm0.skip(i + 1)[j] by {
                                assert(acc@[j] == accv[j + 1]);
                                assert(slots_model(accv)[j + 1] == accm0.skip(i as int)[j + 1]);
                            }
                            assert(slots_model(acc@) =~= accm0.skip(i + 1));
                            assert(fm[i as int] == fields@[i as int]@);
                        }
                        match slot {
                            Some(v) => {
                                out.push(v);
                                proof {
                                    assert(values_model(out@) =~= out_pre + seq![v@]);
                                    lemma_finish_join_assoc(
                                        out_pre,
                                        seq![v@],
                                        finish_fields(fm, accm0, i + 1),
                                    );
                                }
                            },
                            None => {
                                match &fields[i].shape {
                                    Shape::Optional(_) => {
                                        out.push(Value::Absent);
                                        proof {
                                            assert(values_model(out@) =~= out_pre + seq![
                                                ValueModel::Absent,
                                            ]);
                                            lemma_finish_join_assoc(
                                                out_pre,
                                                seq![ValueModel::Absent],
                                                finish_fields(fm, accm0, i + 1),
                                            );
                                        }
                                    },
                                    _ => {
                                        proof {
                                            assert(finish_fields(fm, accm0, i as int) == Err::<
                                                Seq<ValueModel>,
                                                Seq<u8>,
                                            >(msg_missing_field(fm[i as int].0)));
                                        }
                                        return Err(err_missing_field(fields[i].name.as_slice()));
                                    },
                                }
                            },
                        }
                        i = i + 1;
                    }
                    proof {
                        assert(finish_fields(fm, accm0, n as int) == Ok::<
                            Seq<ValueModel>,
                            Seq<u8>,
                        >(Seq::empty()));
                        assert(values_model(out@) + Seq::<ValueModel>::empty() =~= values_model(
                            out@,
                        ));
                    }
                    return Ok(out);
                },
                Some(k) => {
                    let ghost rest = self.suffix();
                    self.inner = k;
                    let mut ident = false;
                    match self.parse_str() {
                        None => {},
                        Some(_) => {
                            ident = true;
                        },
                    }
                    if !ident {
                        return Err(err_invalid_length());
                    }
                    match find_field(fields, self.inner.as_slice()) {
                        Some(j) => {
                            proof {
                                assert(fm[j as int] == fields@[j as int]@);
                                assert(accm[j as int] == match acc@[j as int] {
                                    Some(v) => Some(v@),
                                    None => None::<ValueModel>,
                                });
                            }
                            if acc[j].is_some() {
                                return Err(err_duplicate_field(self.inner.as_slice()));
                            }
                            let v = self.parse_value();
                            self.inner = v;
                            match self.decode_scalar(&fields[j].shape) {
                                Ok(val) => {
                                    let ghost valm = val@;
                                    acc.set(j, Some(val));
                                    proof {
                                        assert(slots_model(acc@) =~= accm.update(
                                            j as int,
                                            Some(valm),
                                        ));
                                        lemma_value_rest_len(rest);
                                        crate::scan::lemma_scan_key_rest_len(s_pre);
                                        assert(self.suffix().len() < s_pre.len());
                                    }
                                },
                                Err(e) => {
                                    return Err(e);
                                },
                            }
                        },
                        None => {
                            let v = self.parse_value();
                            self.inner = v;
                            proof {
                                lemma_value_rest_len(rest);
                                crate::scan::lemma_scan_key_rest_len(s_pre);
                                assert(self.suffix().len() < s_pre.len());
                            }
                        },
                    }
                },
            }
        }
    }
}

/// Decode a record document from a byte slice.
pub fn from_slice(bytes: &[u8], fields: &Vec<FieldShape>) -> (r: Result<Vec<Value>, Error>)
    ensures
        decoded_record(decode_doc(fields_model(fields@), bytes@), r),
{
    let mut de = Deserializer::from_slice(bytes);
    proof {
        assert(de.suffix() =~= bytes@);
    }
    match de.decode_struct(fields) {
        Ok(v) => match de.end() {
            Ok(_) => Ok(v),
            Err(e) => Err(e),
        },
        Err(e) => Err(e),
    }
}

/// Decode a record document from a string.
pub fn from_str(s: &str, fields: &Vec<FieldShape>) -> (r: Result<Vec<Value>, Error>)
    ensures
        decoded_record(decode_doc(fields_model(fields@), s.spec_bytes()), r),
{
    let mut de = Deserializer::from_str(s);
    proof {
        assert(de.suffix() =~= s.spec_bytes());
    }
    match de.decode_struct(fields) {
        Ok(v) => match de.end() {
            Ok(_) => Ok(v),
            Err(e) => Err(e),
        },
        Err(e) => Err(e),
    }
}

/// Decode a scalar-shaped top-level document from a byte slice: the token
/// in flight is empty, and any remaining byte is trailing data.
pub fn from_slice_value(bytes: &[u8], shape: &Shape) -> (r: Result<Value, Error>)
    ensures
        decoded(decode_value_doc(shape@, bytes@), r),
{
    let mut de = Deserializer::from_slice(bytes);
    proof {
        assert(de.suffix() =~= bytes@);
    }
    match de.decode_scalar(shape) {
        Ok(v) => match de.end() {
            Ok(_) => Ok(v),
            Err(e) => Err(e),
        },
        Err(e) => Err(e),
    }
}

/// Decode a scalar-shaped top-level document from a string.
pub fn from_str_value(s: &str, shape: &Shape) -> (r: Result<Value, Error>)
    ensures
        decoded(decode_value_doc(shape@, s.spec_bytes()), r),
{
    let mut de = Deserializer::from_str(s);
    proof {
        assert(de.suffix() =~= s.spec_bytes());
    }
    match de.decode_scalar(shape) {
        Ok(v) => match de.end() {
            Ok(_) => Ok(v),
            Err(e) => Err(e),
        },
        Err(e) => Err(e),
    }
}

impl<'a> Deserializer<SliceRead<'a>> {
    /// Read from a byte slice.
    pub fn from_slice(bytes: &'a [u8]) -> (r: Self)
        ensures
            r.wf(),
            r.src() == bytes@,
            r.pos() == 0,
            r.token() == Seq::<u8>::empty(),
    {
        Deserializer::new(SliceRead::new(bytes))
    }
}

impl<'a> Deserializer<StrRead<'a>> {
    /// Read from the UTF-8 bytes of a string.
    pub fn from_str(s: &'a str) -> (r: Self)
        ensures
            r.wf(),
            r.src() == s.spec_bytes(),
            r.pos() == 0,
            r.token() == Seq::<u8>::empty(),
    {
        Deserializer::new(StrRead::new(s))
    }
}

} // verus!
