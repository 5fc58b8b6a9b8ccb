//! The laws of the codec, stated over its mathematical model and proved
//! once and for all. Each law speaks of the same spec functions that the
//! executable functions' contracts use, so it carries over to every call.

use vstd::prelude::*;

use crate::de::{
    decode_doc, decode_fields, decode_value_doc, field_index, finish_fields, ident_ok,
    token_value, token_variant, variant_index,
};
use crate::error::{msg_invalid_length, msg_trailing};
use crate::num::{
    lemma_bool_round_trip, lemma_dec_digits_wf, lemma_sint_round_trip, lemma_uint_round_trip,
    all_digits, dec_digits, dec_sint, false_bytes, is_digit, true_bytes,
};
use crate::scan::{
    is_junk, is_plain_key, lemma_line_concat, lemma_line_whole, lemma_scan_key_prepend,
    lemma_scan_plain_key, scan_entries, scan_key, term_free, value_rest, value_text,
};
use crate::ser::{entries_rep, key_rep, value_rep, CompactFormatter, Formatter};
use crate::shape::{ShapeModel, ValueModel, VariantKind};

verus! {

/// Comment and whitespace tolerance: a block of blank lines and terminated
/// comment lines, inserted at any entry boundary, changes neither the
/// scanned entries nor what a record document decodes to. The scanner's
/// whole state between entries is the unread suffix, so prepending the
/// block to that suffix covers insertion at every boundary.
pub proof fn junk_insertion(
    fields: Seq<(Seq<u8>, ShapeModel)>,
    j: Seq<u8>,
    s: Seq<u8>,
)
    requires
        is_junk(j),
    ensures
        scan_entries(j + s) == scan_entries(s),
        decode_doc(fields, j + s) == decode_doc(fields, s),
{
    lemma_scan_key_prepend(j, s);
}

/// Separator equivalence: under a plain key, `key=rest` and `key:rest`
/// scan and decode identically.
pub proof fn separator_equivalence(
    fields: Seq<(Seq<u8>, ShapeModel)>,
    k: Seq<u8>,
    r: Seq<u8>,
)
    requires
        is_plain_key(k),
    ensures
        scan_entries(k + seq![61u8] + r) == scan_entries(k + seq![58u8] + r),
        decode_doc(fields, k + seq![61u8] + r) == decode_doc(fields, k + seq![58u8] + r),
{
    lemma_scan_plain_key(k, 61, r);
    lemma_scan_plain_key(k, 58, r);
}

/// Absent against empty: an empty token decodes an optional target to
/// "not there", while the same empty token fails a required string target
/// with the empty-length failure.
pub proof fn absent_vs_empty(sh: ShapeModel)
    ensures
        sh is Optional ==> token_value(sh, Seq::<u8>::empty()) == Ok::<ValueModel, Seq<u8>>(
            ValueModel::Absent,
        ),
        token_value(ShapeModel::Text, Seq::<u8>::empty()) == Err::<ValueModel, Seq<u8>>(
            msg_invalid_length(),
        ),
{
}

/// Unsupported shape rejection, read side: a target shape the wire format
/// cannot express fails on every token, and a matched enumeration variant
/// that wants a payload fails too.
pub proof fn unsupported_shape_decode(sh: ShapeModel, tok: Seq<u8>)
    ensures
        (sh is Chr || sh is Bytes || sh is List || sh is Tuple || sh is TupleStruct
            || sh is Newtype) ==> token_value(sh, tok) is Err,
        (sh matches ShapeModel::Choice(vars) && variant_index(vars, tok, 0) matches Some(
            jx,
        ) && !(vars[jx].1 is Unit)) ==> token_value(sh, tok) is Err,
{
}

/// Unsupported shape rejection, write side: a value the wire format cannot
/// carry has no rendering under any policy, so writing it always fails.
pub proof fn unsupported_shape_encode<F: crate::ser::Formatter>(f: F, v: ValueModel)
    ensures
        (v is Chr || v is Bytes || v is List || v is Tuple || v is TupleStruct || v is Newtype
            || v is NewtypeVariant || v is TupleVariant || v is StructVariant)
            ==> crate::ser::value_rep(f, v) is None,
{
}

/// Trailing-data detection: when a scalar-shaped top-level target decodes
/// (from the empty in-flight token) but the document still holds bytes,
/// the decode fails with the trailing-data failure.
pub proof fn trailing_data(sh: ShapeModel, s: Seq<u8>)
    ensures
        (s.len() > 0 && token_value(sh, Seq::<u8>::empty()) is Ok) ==> decode_value_doc(sh, s)
            == Err::<ValueModel, Seq<u8>>(msg_trailing()),
{
}

/// Value text that survives a line unharmed: no terminator byte, and no
/// leading padding space for the decoder to strip.
pub open spec fn plain_value(t: Seq<u8>) -> bool {
    term_free(t) && (t.len() > 0 ==> t[0] != 32)
}

/// Whether a value's rendering is nonempty. Inside an optional target an
/// empty rendering reads back as "not there", so only values with a
/// nonempty rendering survive there.
pub open spec fn nonempty_rep(v: ValueModel) -> bool
    decreases v,
{
    match v {
        ValueModel::Absent => false,
        ValueModel::Unit => false,
        ValueModel::Present(w) => nonempty_rep(*w),
        _ => true,
    }
}

/// The values of a given shape that survive the wire: scalars whose text
/// carries no line structure, optional values whose payload renders
/// nonempty, and unit variants found in the table.
pub open spec fn rt_value(sh: ShapeModel, v: ValueModel) -> bool
    decreases sh,
{
    match sh {
        ShapeModel::Bool => v is Bool,
        ShapeModel::SInt => v is SInt,
        ShapeModel::UInt => v is UInt,
        ShapeModel::Float => v matches ValueModel::Float(t) && plain_value(t) && ident_ok(t),
        ShapeModel::Text => v matches ValueModel::Text(t) && plain_value(t) && ident_ok(t),
        ShapeModel::Unit => v is Unit,
        ShapeModel::Optional(inner) => v is Absent || (v matches ValueModel::Present(w)
            && rt_value(*inner, *w) && nonempty_rep(*w)),
        ShapeModel::Choice(vars) => v matches ValueModel::Variant(n) && plain_value(n)
            && ident_ok(n) && (variant_index(vars, n, 0) matches Some(jx) && vars[jx].1 is Unit),
        _ => false,
    }
}

/// A record that survives the wire: as many values as fields, plain
/// distinct identifier keys, and a surviving value for each field's shape.
pub open spec fn rt_record(fields: Seq<(Seq<u8>, ShapeModel)>, values: Seq<ValueModel>) -> bool {
    &&& fields.len() == values.len()
    &&& forall|i: int|
        0 <= i < fields.len() ==> {
            &&& is_plain_key(#[trigger] fields[i].0)
            &&& ident_ok(fields[i].0)
            &&& rt_value(fields[i].1, values[i])
        }
    &&& forall|i: int, j: int| 0 <= i < j < fields.len() ==> fields[i].0 != fields[j].0
}

/// The entries the writer is handed for a record: each field's name as a
/// string key, beside its value, in field order.
pub open spec fn record_entries(fields: Seq<(Seq<u8>, ShapeModel)>, values: Seq<ValueModel>)
    -> Seq<(ValueModel, ValueModel)> {
    Seq::new(fields.len(), |i: int| (ValueModel::Text(fields[i].0), values[i]))
}

/// The minimal decimal digits hold no line structure.
proof fn lemma_digits_plain(s: Seq<u8>)
    requires
        all_digits(s),
    ensures
        term_free(s),
        s.len() > 0 ==> s[0] != 32,
{
    assert forall|i: int| 0 <= i < s.len() implies !crate::scan::is_term(#[trigger] s[i]) by {
        assert(is_digit(s[i]));
    }
    if s.len() > 0 {
        assert(is_digit(s[0]));
    }
}

/// The rendering of `true` or `false` holds no line structure.
proof fn lemma_bool_rep_plain(b: bool)
    ensures
        plain_value(if b {
            true_bytes()
        } else {
            false_bytes()
        }),
{
    if b {
        let s = true_bytes();
        assert forall|i: int| 0 <= i < s.len() implies !crate::scan::is_term(#[trigger] s[i]) by {
            if i == 0 {
            } else if i == 1 {
            } else if i == 2 {
            } else {
                assert(i == 3);
            }
        }
    } else {
        let s = false_bytes();
        assert forall|i: int| 0 <= i < s.len() implies !crate::scan::is_term(#[trigger] s[i]) by {
            if i == 0 {
            } else if i == 1 {
            } else if i == 2 {
            } else if i == 3 {
            } else {
                assert(i == 4);
            }
        }
    }
}

/// One value of a surviving shape round trips through its rendering: the
/// default policy renders it, the rendering carries no line structure, it
/// is nonempty where required, and decoding it as the same shape gives the
/// value back.
proof fn lemma_value_round_trip(sh: ShapeModel, v: ValueModel)
    requires
        rt_value(sh, v),
    ensures
        ({
            let rep = value_rep(CompactFormatter, v);
            &&& rep matches Some(bs)
            &&& plain_value(rep->0)
            &&& nonempty_rep(v) ==> rep->0.len() > 0
            &&& token_value(sh, rep->0) == Ok::<ValueModel, Seq<u8>>(v)
        }),
    decreases sh,
{
    match sh {
        ShapeModel::Bool => {
            let b = v->Bool_0;
            lemma_bool_round_trip(b);
            lemma_bool_rep_plain(b);
        },
        ShapeModel::SInt => {
            let i = v->SInt_0;
            lemma_sint_round_trip(i);
            let s = dec_sint(i as int);
            if i < 0 {
                lemma_dec_digits_wf((-(i as int)) as nat);
                lemma_digits_plain(dec_digits((-(i as int)) as nat));
                assert forall|jx: int| 0 <= jx < s.len() implies !crate::scan::is_term(
                    #[trigger] s[jx],
                ) by {
                    if jx > 0 {
                        assert(s[jx] == dec_digits((-(i as int)) as nat)[jx - 1]);
                    }
                }
                assert(s[0] == 45);
            } else {
                lemma_dec_digits_wf(i as nat);
                lemma_digits_plain(dec_digits(i as nat));
            }
        },
        ShapeModel::UInt => {
            let u = v->UInt_0;
            lemma_uint_round_trip(u);
            lemma_dec_digits_wf(u as nat);
            lemma_digits_plain(dec_digits(u as nat));
        },
        ShapeModel::Float => {},
        ShapeModel::Text => {},
        ShapeModel::Unit => {},
        ShapeModel::Optional(inner) => {
            if v is Absent {
            } else {
                let w = *v->Present_0;
                lemma_value_round_trip(*inner, w);
            }
        },
        ShapeModel::Choice(vars) => {
            let n = v->Variant_0;
            assert(token_variant(vars, n) == Ok::<ValueModel, Seq<u8>>(ValueModel::Variant(n)));
        },
        _ => {},
    }
}

/// The rendering of the value under the default policy, where it exists.
pub open spec fn rep_of(v: ValueModel) -> Seq<u8> {
    value_rep(CompactFormatter, v)->0
}

/// The document the writer produces for the record's entries from field
/// `i` on: each entry `key=value`, a single `\n` before every following
/// entry, nothing after the last.
pub open spec fn encoded_tail(
    fields: Seq<(Seq<u8>, ShapeModel)>,
    values: Seq<ValueModel>,
    i: int,
) -> Seq<u8>
    decreases fields.len() - i,
{
    if i < 0 || i >= fields.len() {
        Seq::empty()
    } else {
        let line = fields[i].0 + seq![61u8] + rep_of(values[i]);
        if i + 1 < fields.len() {
            line + seq![10u8] + encoded_tail(fields, values, i + 1)
        } else {
            line
        }
    }
}

/// What the writer emits for the record's entries from field `i` on is
/// exactly the document `encoded_tail` describes.
proof fn lemma_encode_tail(fields: Seq<(Seq<u8>, ShapeModel)>, values: Seq<ValueModel>, i: int)
    requires
        rt_record(fields, values),
        0 <= i <= fields.len(),
    ensures
        entries_rep(CompactFormatter, record_entries(fields, values).skip(i), true) == Ok::<
            Seq<u8>,
            Seq<u8>,
        >(encoded_tail(fields, values, i)),
        i < fields.len() ==> entries_rep(CompactFormatter, record_entries(fields, values).skip(i),
            false) == Ok::<Seq<u8>, Seq<u8>>(seq![10u8] + encoded_tail(fields, values, i)),
    decreases fields.len() - i,
{
    let f = CompactFormatter;
    let re = record_entries(fields, values);
    if i == fields.len() {
        assert(re.skip(i).len() == 0);
        assert(encoded_tail(fields, values, i) =~= Seq::<u8>::empty());
    } else {
        lemma_encode_tail(fields, values, i + 1);
        lemma_value_round_trip(fields[i].1, values[i]);
        let es = re.skip(i);
        assert(es[0] == re[i]);
        assert(es.skip(1) =~= re.skip(i + 1));
        assert(key_rep(f, es[0].0) == Some(fields[i].0));
        let kb = fields[i].0;
        let vb = rep_of(values[i]);
        let tail = encoded_tail(fields, values, i + 1);
        if i + 1 < fields.len() {
            assert(entries_rep(f, es.skip(1), false) == Ok::<Seq<u8>, Seq<u8>>(
                seq![10u8] + tail,
            ));
            assert(Seq::<u8>::empty() + kb + seq![61u8] + Seq::<u8>::empty() + vb
                + Seq::<u8>::empty() + (seq![10u8] + tail) =~= encoded_tail(fields, values, i));
            assert(f.begin_key_rep() + kb + seq![61u8] + Seq::<u8>::empty() + vb
                + Seq::<u8>::empty() + (seq![10u8] + tail) =~= seq![10u8] + encoded_tail(
                fields,
                values,
                i,
            ));
        } else {
            assert(entries_rep(f, es.skip(1), false) == Ok::<Seq<u8>, Seq<u8>>(Seq::empty()));
            assert(Seq::<u8>::empty() + kb + seq![61u8] + Seq::<u8>::empty() + vb
                + Seq::<u8>::empty() + Seq::<u8>::empty() =~= encoded_tail(fields, values, i));
            assert(f.begin_key_rep() + kb + seq![61u8] + Seq::<u8>::empty() + vb
                + Seq::<u8>::empty() + Seq::<u8>::empty() =~= seq![10u8] + encoded_tail(
                fields,
                values,
                i,
            ));
        }
    }
}

/// A slot table filled with every value finishes to exactly those values.
proof fn lemma_finish_all(
    fields: Seq<(Seq<u8>, ShapeModel)>,
    acc: Seq<Option<ValueModel>>,
    values: Seq<ValueModel>,
    l: int,
)
    requires
        fields.len() == values.len(),
        acc.len() == fields.len(),
        forall|j: int| 0 <= j < fields.len() ==> acc[j] == Some(values[j]),
        0 <= l <= fields.len(),
    ensures
        finish_fields(fields, acc, l) == Ok::<Seq<ValueModel>, Seq<u8>>(values.skip(l)),
    decreases fields.len() - l,
{
    if l == fields.len() {
        assert(values.skip(l) =~= Seq::<ValueModel>::empty());
    } else {
        lemma_finish_all(fields, acc, values, l + 1);
        assert(seq![values[l]] + values.skip(l + 1) =~= values.skip(l));
    }
}

/// With distinct field names, the name of field `i` finds field `i`.
proof fn lemma_field_index_distinct(fields: Seq<(Seq<u8>, ShapeModel)>, i: int, l: int)
    requires
        0 <= l <= i < fields.len(),
        forall|j: int| l <= j < i ==> fields[j].0 != fields[i].0,
    ensures
        field_index(fields, fields[i].0, l) == Some(i),
    decreases i - l,
{
    if l < i {
        lemma_field_index_distinct(fields, i, l + 1);
    }
}

/// Decoding the document for the entries from field `i` on, with the
/// earlier slots already filled, completes the whole record.
proof fn lemma_decode_tail(
    fields: Seq<(Seq<u8>, ShapeModel)>,
    values: Seq<ValueModel>,
    acc: Seq<Option<ValueModel>>,
    i: int,
)
    requires
        rt_record(fields, values),
        0 <= i <= fields.len(),
        acc.len() == fields.len(),
        forall|j: int| 0 <= j < i ==> acc[j] == Some(values[j]),
        forall|j: int| i <= j < fields.len() ==> acc[j] is None,
    ensures
        decode_fields(fields, acc, encoded_tail(fields, values, i)) == Ok::<
            Seq<ValueModel>,
            Seq<u8>,
        >(values),
    decreases fields.len() - i,
{
    if i == fields.len() {
        assert(encoded_tail(fields, values, i).len() == 0);
        assert(scan_key(encoded_tail(fields, values, i)) is None);
        lemma_finish_all(fields, acc, values, 0);
        assert(values.skip(0) =~= values);
    } else {
        let s = encoded_tail(fields, values, i);
        let k = fields[i].0;
        lemma_value_round_trip(fields[i].1, values[i]);
        let bs = rep_of(values[i]);
        let rest: Seq<u8> = if i + 1 < fields.len() {
            bs + seq![10u8] + encoded_tail(fields, values, i + 1)
        } else {
            bs
        };
        assert(s =~= k + seq![61u8] + rest);
        lemma_scan_plain_key(k, 61, rest);
        assert(ident_ok(k));

        // the value token is exactly the rendering, and the rest of the
        // document follows it
        if i + 1 < fields.len() {
            assert(rest =~= bs + seq![10u8] + encoded_tail(fields, values, i + 1));
            lemma_line_concat(bs, 10, encoded_tail(fields, values, i + 1));
            if bs.len() > 0 {
                assert(rest[0] == bs[0]);
                assert(crate::scan::strip_pad(rest) == rest);
            } else {
                assert(rest[0] == 10);
                assert(crate::scan::strip_pad(rest) == rest);
            }
            assert(value_text(rest) == bs);
            assert(value_rest(rest) == encoded_tail(fields, values, i + 1));
        } else {
            lemma_line_whole(bs);
            if bs.len() > 0 {
                assert(crate::scan::strip_pad(rest) == rest);
            } else {
                assert(crate::scan::strip_pad(rest) == rest);
            }
            assert(value_text(rest) == bs);
            assert(value_rest(rest).len() == 0);
            assert(value_rest(rest) =~= encoded_tail(fields, values, i + 1));
        }

        assert(forall|j: int| 0 <= j < i ==> fields[j].0 != fields[i].0);
        lemma_field_index_distinct(fields, i, 0);
        assert(acc[i] is None);
        assert(token_value(fields[i].1, bs) == Ok::<ValueModel, Seq<u8>>(values[i]));

        let acc2 = acc.update(i, Some(values[i]));
        lemma_decode_tail(fields, values, acc2, i + 1);
    }
}

/// Round trip: encoding a flat record of booleans, integers, floating
/// point texts, strings, optional values and unit enumeration variants,
/// then decoding the produced document with the same field shapes, gives
/// back the same values, field for field.
pub proof fn round_trip(fields: Seq<(Seq<u8>, ShapeModel)>, values: Seq<ValueModel>)
    requires
        rt_record(fields, values),
    ensures
        ({
            match entries_rep(CompactFormatter, record_entries(fields, values), true) {
                Ok(doc) => decode_doc(fields, doc) == Ok::<Seq<ValueModel>, Seq<u8>>(values),
                Err(_) => false,
            }
        }),
{
    lemma_encode_tail(fields, values, 0);
    assert(record_entries(fields, values).skip(0) =~= record_entries(fields, values));
    let init = Seq::new(fields.len(), |i: int| None::<ValueModel>);
    lemma_decode_tail(fields, values, init, 0);
}

} // verus!
