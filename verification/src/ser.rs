//! The write side: the pluggable rendering policy and the encoder.
//!
//! A [`Formatter`] says how each primitive and each structural delimiter
//! becomes bytes; each rendering is also stated as a spec function, so the
//! encoder's output is pinned down exactly. The default [`CompactFormatter`]
//! renders booleans as `true`/`false`, integers as minimal decimal text,
//! strings verbatim, and separates entries with `\n` around a `=`.

use vstd::prelude::*;

use crate::error::{err_unsupported, msg_unsupported, Error};
use crate::num::{dec_digits, dec_sint, false_bytes, fmt_sint, fmt_uint, true_bytes};
use crate::shape::{Entry, Value, ValueModel};

verus! {

/// The rendering policy: one method per primitive, plus the four
/// structural hooks. Each rendering is a pure function of the value, stated
/// by the `*_rep` spec functions.
pub trait Formatter: Sized {
    /// The rendering of "nothing": an absent option or a unit.
    spec fn null_rep(&self) -> Seq<u8>;

    spec fn bool_rep(&self, value: bool) -> Seq<u8>;

    spec fn sint_rep(&self, value: i64) -> Seq<u8>;

    spec fn uint_rep(&self, value: u64) -> Seq<u8>;

    /// The rendering of a floating-point value, given its decimal text.
    spec fn float_rep(&self, text: Seq<u8>) -> Seq<u8>;

    spec fn text_rep(&self, value: Seq<u8>) -> Seq<u8>;

    /// Emitted before every key except the first.
    spec fn begin_key_rep(&self) -> Seq<u8>;

    /// Emitted after a key.
    spec fn end_key_rep(&self) -> Seq<u8>;

    /// Emitted before a value.
    spec fn begin_value_rep(&self) -> Seq<u8>;

    /// Emitted after a value.
    spec fn end_value_rep(&self) -> Seq<u8>;

    fn write_null(&self, writer: &mut Vec<u8>)
        ensures
            final(writer)@ == old(writer)@ + self.null_rep(),
    ;

    fn write_bool(&self, writer: &mut Vec<u8>, value: bool)
        ensures
            final(writer)@ == old(writer)@ + self.bool_rep(value),
    ;

    fn write_i64(&self, writer: &mut Vec<u8>, value: i64)
        ensures
            final(writer)@ == old(writer)@ + self.sint_rep(value),
    ;

    fn write_u64(&self, writer: &mut Vec<u8>, value: u64)
        ensures
            final(writer)@ == old(writer)@ + self.uint_rep(value),
    ;

    fn write_float(&self, writer: &mut Vec<u8>, text: &[u8])
        ensures
            final(writer)@ == old(writer)@ + self.float_rep(text@),
    ;

    fn write_str(&self, writer: &mut Vec<u8>, value: &[u8])
        ensures
            final(writer)@ == old(writer)@ + self.text_rep(value@),
    ;

    fn begin_key(&self, writer: &mut Vec<u8>)
        ensures
            final(writer)@ == old(writer)@ + self.begin_key_rep(),
    ;

    fn end_key(&self, writer: &mut Vec<u8>)
        ensures
            final(writer)@ == old(writer)@ + self.end_key_rep(),
    ;

    fn begin_value(&self, writer: &mut Vec<u8>)
        ensures
            final(writer)@ == old(writer)@ + self.begin_value_rep(),
    ;

    fn end_value(&self, writer: &mut Vec<u8>)
        ensures
            final(writer)@ == old(writer)@ + self.end_value_rep(),
    ;
}

/// The default policy: minimal text, `\n` between entries, `=` after keys.
#[derive(Clone, Debug)]
pub struct CompactFormatter;

impl Formatter for CompactFormatter {
    open spec fn null_rep(&self) -> Seq<u8> {
        Seq::empty()
    }

    open spec fn bool_rep(&self, value: bool) -> Seq<u8> {
        if value {
            true_bytes()
        } else {
            false_bytes()
        }
    }

    open spec fn sint_rep(&self, value: i64) -> Seq<u8> {
        dec_sint(value as int)
    }

    open spec fn uint_rep(&self, value: u64) -> Seq<u8> {
        dec_digits(value as nat)
    }

    open spec fn float_rep(&self, text: Seq<u8>) -> Seq<u8> {
        text
    }

    open spec fn text_rep(&self, value: Seq<u8>) -> Seq<u8> {
        value
    }

    open spec fn begin_key_rep(&self) -> Seq<u8> {
        seq![10u8]
    }

    open spec fn end_key_rep(&self) -> Seq<u8> {
        seq![61u8]
    }

    open spec fn begin_value_rep(&self) -> Seq<u8> {
        Seq::empty()
    }

    open spec fn end_value_rep(&self) -> Seq<u8> {
        Seq::empty()
    }

    fn write_null(&self, writer: &mut Vec<u8>) {
        proof {
            assert(old(writer)@ + Seq::<u8>::empty() =~= old(writer)@);
        }
    }

    fn write_bool(&self, writer: &mut Vec<u8>, value: bool) {
        if value {
            let t: [u8; 4] = [116, 114, 117, 101];
            let mut v = vstd::slice::slice_to_vec(t.as_slice());
            writer.append(&mut v);
            proof {
                assert(final(writer)@ =~= old(writer)@ + true_bytes());
            }
        } else {
            let f: [u8; 5] = [102, 97, 108, 115, 101];
            let mut v = vstd::slice::slice_to_vec(f.as_slice());
            writer.append(&mut v);
            proof {
                assert(final(writer)@ =~= old(writer)@ + false_bytes());
            }
        }
    }

    fn write_i64(&self, writer: &mut Vec<u8>, value: i64) {
        let mut v = fmt_sint(value);
        writer.append(&mut v);
    }

    fn write_u64(&self, writer: &mut Vec<u8>, value: u64) {
        let mut v = fmt_uint(value);
        writer.append(&mut v);
    }

    fn write_float(&self, writer: &mut Vec<u8>, text: &[u8]) {
        let mut v = vstd::slice::slice_to_vec(text);
        writer.append(&mut v);
    }

    fn write_str(&self, writer: &mut Vec<u8>, value: &[u8]) {
        let mut v = vstd::slice::slice_to_vec(value);
        writer.append(&mut v);
    }

    fn begin_key(&self, writer: &mut Vec<u8>) {
        writer.push(10);
        proof {
            assert(final(writer)@ =~= old(writer)@ + seq![10u8]);
        }
    }

    fn end_key(&self, writer: &mut Vec<u8>) {
        writer.push(61);
        proof {
            assert(final(writer)@ =~= old(writer)@ + seq![61u8]);
        }
    }

    fn begin_value(&self, writer: &mut Vec<u8>) {
        proof {
            assert(old(writer)@ + Seq::<u8>::empty() =~= old(writer)@);
        }
    }

    fn end_value(&self, writer: &mut Vec<u8>) {
        proof {
            assert(old(writer)@ + Seq::<u8>::empty() =~= old(writer)@);
        }
    }
}

/// The rendering of one value under a policy, or nothing when the wire
/// format cannot carry the value's shape.
pub open spec fn value_rep<F: Formatter>(f: F, v: ValueModel) -> Option<Seq<u8>>
    decreases v,
{
    match v {
        ValueModel::Bool(b) => Some(f.bool_rep(b)),
        ValueModel::SInt(i) => Some(f.sint_rep(i)),
        ValueModel::UInt(u) => Some(f.uint_rep(u)),
        ValueModel::Float(t) => Some(f.float_rep(t)),
        ValueModel::Text(s) => Some(f.text_rep(s)),
        ValueModel::Unit => Some(f.null_rep()),
        ValueModel::Absent => Some(f.null_rep()),
        ValueModel::Present(inner) => value_rep(f, *inner),
        ValueModel::Variant(n) => Some(f.text_rep(n)),
        ValueModel::Chr(_) => None,
        ValueModel::Bytes(_) => None,
        ValueModel::List => None,
        ValueModel::Tuple => None,
        ValueModel::TupleStruct => None,
        ValueModel::Newtype(_) => None,
        ValueModel::NewtypeVariant => None,
        ValueModel::TupleVariant => None,
        ValueModel::StructVariant => None,
    }
}

/// The failure message for a value the wire format cannot carry.
pub open spec fn value_unsupported_msg(v: ValueModel) -> Seq<u8>
    decreases v,
{
    match v {
        ValueModel::Chr(_) => msg_unsupported("char"@),
        ValueModel::Bytes(_) => msg_unsupported("bytes"@),
        ValueModel::List => msg_unsupported("seq"@),
        ValueModel::Tuple => msg_unsupported("tuple"@),
        ValueModel::TupleStruct => msg_unsupported("tuple struct"@),
        ValueModel::Newtype(_) => msg_unsupported("newtype struct"@),
        ValueModel::NewtypeVariant => msg_unsupported("newtype variant"@),
        ValueModel::TupleVariant => msg_unsupported("tuple variant"@),
        ValueModel::StructVariant => msg_unsupported("struct variant"@),
        ValueModel::Present(inner) => value_unsupported_msg(*inner),
        _ => Seq::empty(),
    }
}

/// The rendering of a key: strings and enumeration variants render
/// directly; every other key shape is rejected.
pub open spec fn key_rep<F: Formatter>(f: F, k: ValueModel) -> Option<Seq<u8>> {
    match k {
        ValueModel::Text(s) => Some(f.text_rep(s)),
        ValueModel::Variant(n) => Some(f.text_rep(n)),
        _ => None,
    }
}

/// The writer: an output buffer plus the rendering policy.
pub struct Serializer<F = CompactFormatter> {
    writer: Vec<u8>,
    formatter: F,
}

impl<F: Formatter> Serializer<F> {
    /// The bytes written so far.
    pub closed spec fn out(&self) -> Seq<u8> {
        self.writer@
    }

    /// The rendering policy in use.
    pub closed spec fn fmt(&self) -> F {
        self.formatter
    }

    /// Write into `writer` under the given policy.
    pub fn with_formatter(writer: Vec<u8>, formatter: F) -> (r: Self)
        ensures
            r.out() == writer@,
            r.fmt() == formatter,
    {
        Serializer { writer, formatter }
    }

    /// Give the output buffer back.
    pub fn into_inner(self) -> (r: Vec<u8>)
        ensures
            r@ == self.out(),
    {
        self.writer
    }

    /// Render a boolean into the output.
    pub fn serialize_bool(&mut self, v: bool) -> (r: Result<(), Error>)
        ensures
            r is Ok,
            final(self).fmt() == old(self).fmt(),
            final(self).out() == old(self).out() + old(self).fmt().bool_rep(v),
    {
        self.formatter.write_bool(&mut self.writer, v);
        Ok(())
    }

    /// Render a signed integer into the output.
    pub fn serialize_i64(&mut self, v: i64) -> (r: Result<(), Error>)
        ensures
            r is Ok,
            final(self).fmt() == old(self).fmt(),
            final(self).out() == old(self).out() + old(self).fmt().sint_rep(v),
    {
        self.formatter.write_i64(&mut self.writer, v);
        Ok(())
    }

    /// Render an unsigned integer into the output.
    pub fn serialize_u64(&mut self, v: u64) -> (r: Result<(), Error>)
        ensures
            r is Ok,
            final(self).fmt() == old(self).fmt(),
            final(self).out() == old(self).out() + old(self).fmt().uint_rep(v),
    {
        self.formatter.write_u64(&mut self.writer, v);
        Ok(())
    }

    /// Render a string into the output, verbatim under the default policy.
    pub fn serialize_str(&mut self, v: &[u8]) -> (r: Result<(), Error>)
        ensures
            r is Ok,
            final(self).fmt() == old(self).fmt(),
            final(self).out() == old(self).out() + old(self).fmt().text_rep(v@),
    {
        self.formatter.write_str(&mut self.writer, v);
        Ok(())
    }

    /// Render nothing: a unit.
    pub fn serialize_unit(&mut self) -> (r: Result<(), Error>)
        ensures
            r is Ok,
            final(self).fmt() == old(self).fmt(),
            final(self).out() == old(self).out() + old(self).fmt().null_rep(),
    {
        self.formatter.write_null(&mut self.writer);
        Ok(())
    }

    /// An absent option renders as a unit.
    pub fn serialize_none(&mut self) -> (r: Result<(), Error>)
        ensures
            r is Ok,
            final(self).fmt() == old(self).fmt(),
            final(self).out() == old(self).out() + old(self).fmt().null_rep(),
    {
        self.serialize_unit()
    }

    /// A unit enumeration variant renders as its name.
    pub fn serialize_unit_variant(&mut self, variant: &[u8]) -> (r: Result<(), Error>)
        ensures
            r is Ok,
            final(self).fmt() == old(self).fmt(),
            final(self).out() == old(self).out() + old(self).fmt().text_rep(variant@),
    {
        self.serialize_str(variant)
    }

    /// Render any value: the write-side dispatcher. Shapes the format
    /// cannot carry fail, and then nothing has been written.
    pub fn write_value(&mut self, v: &Value) -> (r: Result<(), Error>)
        ensures
            final(self).fmt() == old(self).fmt(),
            ({
                match value_rep(old(self).fmt(), v@) {
                    Some(bs) => r is Ok && final(self).out() == old(self).out() + bs,
                    None => {
                        &&& r matches Err(e) && e@ == value_unsupported_msg(v@)
                        &&& final(self).out() == old(self).out()
                    },
                }
            }),
        decreases v,
    {
        match v {
            Value::Bool(b) => self.serialize_bool(*b),
            Value::SInt(i) => self.serialize_i64(*i),
            Value::UInt(u) => self.serialize_u64(*u),
            Value::Float(t) => {
                self.formatter.write_float(&mut self.writer, t.as_slice());
                Ok(())
            },
            Value::Text(s) => self.serialize_str(s.as_slice()),
            Value::Unit => self.serialize_unit(),
            Value::Absent => self.serialize_none(),
            Value::Present(inner) => self.write_value(inner),
            Value::Variant(n) => self.serialize_unit_variant(n.as_slice()),
            Value::Chr(_) => Err(err_unsupported("char")),
            Value::Bytes(_) => Err(err_unsupported("bytes")),
            Value::List => Err(err_unsupported("seq")),
            Value::Tuple => Err(err_unsupported("tuple")),
            Value::TupleStruct => Err(err_unsupported("tuple struct")),
            Value::Newtype(_) => Err(err_unsupported("newtype struct")),
            Value::NewtypeVariant => Err(err_unsupported("newtype variant")),
            Value::TupleVariant => Err(err_unsupported("tuple variant")),
            Value::StructVariant => Err(err_unsupported("struct variant")),
        }
    }

    /// Render a key: strings and enumeration variants only.
    pub fn write_key(&mut self, k: &Value) -> (r: Result<(), Error>)
        ensures
            final(self).fmt() == old(self).fmt(),
            ({
                match key_rep(old(self).fmt(), k@) {
                    Some(bs) => r is Ok && final(self).out() == old(self).out() + bs,
                    None => {
                        &&& r matches Err(e) && e@ == msg_unsupported("key"@)
                        &&& final(self).out() == old(self).out()
                    },
                }
            }),
    {
        match k {
            Value::Text(s) => self.serialize_str(s.as_slice()),
            Value::Variant(n) => self.serialize_unit_variant(n.as_slice()),
            _ => Err(err_unsupported("key")),
        }
    }

    /// A character cannot be represented.
    pub fn serialize_char(&self, _v: char) -> (r: Result<(), Error>)
        ensures
            r matches Err(e) && e@ == msg_unsupported("char"@),
    {
        Err(err_unsupported("char"))
    }

    /// A byte string cannot be represented.
    pub fn serialize_bytes(&self, _v: &[u8]) -> (r: Result<(), Error>)
        ensures
            r matches Err(e) && e@ == msg_unsupported("bytes"@),
    {
        Err(err_unsupported("bytes"))
    }

    /// A sequence cannot be represented.
    pub fn serialize_seq(&self, _len: Option<usize>) -> (r: Result<(), Error>)
        ensures
            r matches Err(e) && e@ == msg_unsupported("seq"@),
    {
        Err(err_unsupported("seq"))
    }

    /// A tuple cannot be represented.
    pub fn serialize_tuple(&self, _len: usize) -> (r: Result<(), Error>)
        ensures
            r matches Err(e) && e@ == msg_unsupported("tuple"@),
    {
        Err(err_unsupported("tuple"))
    }

    /// A tuple struct cannot be represented.
    pub fn serialize_tuple_struct(&self, _len: usize) -> (r: Result<(), Error>)
        ensures
            r matches Err(e) && e@ == msg_unsupported("tuple struct"@),
    {
        Err(err_unsupported("tuple struct"))
    }

    /// A newtype struct cannot be represented.
    pub fn serialize_newtype_struct(&self) -> (r: Result<(), Error>)
        ensures
            r matches Err(e) && e@ == msg_unsupported("newtype struct"@),
    {
        Err(err_unsupported("newtype struct"))
    }

    /// A payload-bearing newtype variant cannot be represented.
    pub fn serialize_newtype_variant(&self) -> (r: Result<(), Error>)
        ensures
            r matches Err(e) && e@ == msg_unsupported("newtype variant"@),
    {
        Err(err_unsupported("newtype variant"))
    }

    /// A payload-bearing tuple variant cannot be represented.
    pub fn serialize_tuple_variant(&self) -> (r: Result<(), Error>)
        ensures
            r matches Err(e) && e@ == msg_unsupported("tuple variant"@),
    {
        Err(err_unsupported("tuple variant"))
    }

    /// A payload-bearing struct variant cannot be represented.
    pub fn serialize_struct_variant(&self) -> (r: Result<(), Error>)
        ensures
            r matches Err(e) && e@ == msg_unsupported("struct variant"@),
    {
        Err(err_unsupported("struct variant"))
    }

    /// Open the compound writer for a top-level map or record.
    pub fn serialize_map(self) -> (r: Compound<F>)
        ensures
            r.out() == self.out(),
            r.fmt() == self.fmt(),
            r.is_first(),
    {
        Compound::Record { ser: self, first: true }
    }
}

impl Serializer<CompactFormatter> {
    /// Write into `writer` under the default compact policy.
    pub fn new(writer: Vec<u8>) -> (r: Self)
        ensures
            r.out() == writer@,
            r.fmt() == CompactFormatter,
    {
        Serializer::with_formatter(writer, CompactFormatter)
    }
}

/// The in-progress compound writer for a map or record: tracks whether the
/// next entry is the first, so that the entry separator is emitted before
/// every key except the first.
pub enum Compound<F> {
    Record { ser: Serializer<F>, first: bool },
}

impl<F: Formatter> Compound<F> {
    /// The bytes written so far.
    pub open spec fn out(&self) -> Seq<u8> {
        match self {
            Compound::Record { ser, .. } => ser.out(),
        }
    }

    /// The rendering policy in use.
    pub open spec fn fmt(&self) -> F {
        match self {
            Compound::Record { ser, .. } => ser.fmt(),
        }
    }

    /// Whether no entry has been started yet.
    pub open spec fn is_first(&self) -> bool {
        match self {
            Compound::Record { first, .. } => *first,
        }
    }

    /// Write one entry's key: the entry separator (except before the first
    /// entry), the key's own rendering, then the key/value separator.
    pub fn serialize_key(&mut self, key: &Value) -> (r: Result<(), Error>)
        ensures
            final(self).fmt() == old(self).fmt(),
            !final(self).is_first(),
            ({
                let pre = if old(self).is_first() {
                    Seq::<u8>::empty()
                } else {
                    old(self).fmt().begin_key_rep()
                };
                match key_rep(old(self).fmt(), key@) {
                    Some(bs) => r is Ok && final(self).out() == old(self).out() + pre + bs
                        + old(self).fmt().end_key_rep(),
                    None => {
                        &&& r matches Err(e) && e@ == msg_unsupported("key"@)
                        &&& final(self).out() == old(self).out() + pre
                    },
                }
            }),
    {
        match self {
            Compound::Record { ser, first } => {
                let ghost pre_out = ser.out();
                if !*first {
                    ser.formatter.begin_key(&mut ser.writer);
                } else {
                    *first = false;
                    proof {
                        assert(ser.out() =~= pre_out + Seq::<u8>::empty());
                    }
                }
                match ser.write_key(key) {
                    Ok(_) => {
                        ser.formatter.end_key(&mut ser.writer);
                        Ok(())
                    },
                    Err(e) => Err(e),
                }
            },
        }
    }

    /// Write one entry's value between the value hooks.
    pub fn serialize_value(&mut self, value: &Value) -> (r: Result<(), Error>)
        ensures
            final(self).fmt() == old(self).fmt(),
            final(self).is_first() == old(self).is_first(),
            ({
                match value_rep(old(self).fmt(), value@) {
                    Some(bs) => r is Ok && final(self).out() == old(self).out() + old(
                        self,
                    ).fmt().begin_value_rep() + bs + old(self).fmt().end_value_rep(),
                    None => {
                        &&& r matches Err(e) && e@ == value_unsupported_msg(value@)
                        &&& final(self).out() == old(self).out() + old(
                            self,
                        ).fmt().begin_value_rep()
                    },
                }
            }),
    {
        match self {
            Compound::Record { ser, .. } => {
                ser.formatter.begin_value(&mut ser.writer);
                match ser.write_value(value) {
                    Ok(_) => {
                        ser.formatter.end_value(&mut ser.writer);
                        Ok(())
                    },
                    Err(e) => Err(e),
                }
            },
        }
    }

    /// Close the compound writer, giving the writer back.
    pub fn end(self) -> (r: Serializer<F>)
        ensures
            r.out() == self.out(),
            r.fmt() == self.fmt(),
    {
        match self {
            Compound::Record { ser, .. } => ser,
        }
    }
}

/// The entries of a record as mathematics.
pub open spec fn entries_model(es: Seq<Entry>) -> Seq<(ValueModel, ValueModel)> {
    es.map_values(|e: Entry| e@)
}

/// The rendering of a record's entries under a policy, or the failure of
/// the first entry the format cannot carry: a rejected key, then a rejected
/// value, in entry order.
pub open spec fn entries_rep<F: Formatter>(
    f: F,
    entries: Seq<(ValueModel, ValueModel)>,
    first: bool,
) -> Result<Seq<u8>, Seq<u8>>
    decreases entries.len(),
{
    if entries.len() == 0 {
        Ok(Seq::empty())
    } else {
        let pre = if first {
            Seq::<u8>::empty()
        } else {
            f.begin_key_rep()
        };
        match key_rep(f, entries[0].0) {
            None => Err(msg_unsupported("key"@)),
            Some(kb) => match value_rep(f, entries[0].1) {
                None => Err(value_unsupported_msg(entries[0].1)),
                Some(vb) => match entries_rep(f, entries.skip(1), false) {
                    Ok(rest) => Ok(
                        pre + kb + f.end_key_rep() + f.begin_value_rep() + vb
                            + f.end_value_rep() + rest,
                    ),
                    Err(e) => Err(e),
                },
            },
        }
    }
}

/// Prepend already-written bytes onto a rendering result.
pub open spec fn rep_join(pre: Seq<u8>, r: Result<Seq<u8>, Seq<u8>>) -> Result<Seq<u8>, Seq<u8>> {
    match r {
        Ok(bs) => Ok(pre + bs),
        Err(e) => Err(e),
    }
}

proof fn lemma_rep_join_assoc(a: Seq<u8>, b: Seq<u8>, r: Result<Seq<u8>, Seq<u8>>)
    ensures
        rep_join(a, rep_join(b, r)) == rep_join(a + b, r),
{
    match r {
        Ok(bs) => {
            assert(a + (b + bs) =~= (a + b) + bs);
        },
        Err(e) => {},
    }
}

/// Encode a record's entries, in order, under the default compact policy:
/// first entry without a leading terminator, every further entry preceded
/// by one `\n`, each entry `key=value`, no trailing terminator.
pub fn to_vec(entries: &Vec<Entry>) -> (r: Result<Vec<u8>, Error>)
    ensures
        ({
            match entries_rep(CompactFormatter, entries_model(entries@), true) {
                Ok(bs) => r matches Ok(out) && out@ == bs,
                Err(em) => r matches Err(e) && e@ == em,
            }
        }),
{
    let ghost em = entries_model(entries@);
    let ser = Serializer::new(Vec::new());
    let mut com = ser.serialize_map();
    proof {
        assert(em.skip(0) =~= em);
        match entries_rep(CompactFormatter, em, true) {
            Ok(bs) => {
                assert(Seq::<u8>::empty() + bs =~= bs);
            },
            Err(_) => {},
        }
    }
    let n = entries.len();
    let mut i: usize = 0;
    while i < n
        invariant
            0 <= i <= n,
            n == entries@.len(),
            em == entries_model(entries@),
            com.fmt() == CompactFormatter,
            com.is_first() == (i == 0),
            entries_rep(CompactFormatter, em, true) == rep_join(
                com.out(),
                entries_rep(CompactFormatter, em.skip(i as int), i == 0),
            ),
        decreases n - i,
    {
        let ghost out0 = com.out();
        proof {
            assert(em[i as int] == entries@[i as int]@);
            assert(em.skip(i as int)[0] == em[i as int]);
        }
        match com.serialize_key(&entries[i].key) {
            Ok(_) => {},
            Err(e) => {
                return Err(e);
            },
        }
        match com.serialize_value(&entries[i].value) {
            Ok(_) => {},
            Err(e) => {
                return Err(e);
            },
        }
        proof {
            let f = CompactFormatter;
            let pre = if i == 0 {
                Seq::<u8>::empty()
            } else {
                f.begin_key_rep()
            };
            let kb = key_rep(f, em[i as int].0)->0;
            let vb = value_rep(f, em[i as int].1)->0;
            assert(em.skip(i as int).skip(1) =~= em.skip(i + 1));
            assert(com.out() =~= out0 + (pre + kb + f.end_key_rep() + f.begin_value_rep() + vb
                + f.end_value_rep()));
            lemma_rep_join_assoc(
                out0,
                pre + kb + f.end_key_rep() + f.begin_value_rep() + vb + f.end_value_rep(),
                entries_rep(f, em.skip(i + 1), false),
            );
        }
        i = i + 1;
    }
    proof {
        assert(em.skip(n as int).len() == 0);
        assert(com.out() + Seq::<u8>::empty() =~= com.out());
    }
    let ser = com.end();
    Ok(ser.into_inner())
}

/// Encode one scalar value alone, as a top-level document, under the
/// default compact policy.
pub fn to_vec_value(v: &Value) -> (r: Result<Vec<u8>, Error>)
    ensures
        ({
            match value_rep(CompactFormatter, v@) {
                Some(bs) => r matches Ok(out) && out@ == bs,
                None => r matches Err(e) && e@ == value_unsupported_msg(v@),
            }
        }),
{
    let mut ser = Serializer::new(Vec::new());
    match ser.write_value(v) {
        Ok(_) => Ok(ser.into_inner()),
        Err(e) => Err(e),
    }
}

} // verus!
