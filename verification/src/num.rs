//! Decimal text: the numeric and boolean token grammar of the format.
//!
//! The decode side accepts exactly what the standard textual parsers of
//! `bool`, `u64` and `i64` accept: `true`/`false`, and decimal digits with an
//! optional single leading sign, rejected on overflow. The encode side
//! renders minimal decimal text.

use vstd::prelude::*;

verus! {

/// An ASCII decimal digit.
pub open spec fn is_digit(b: u8) -> bool {
    48 <= b <= 57
}

pub open spec fn all_digits(s: Seq<u8>) -> bool {
    forall|i: int| 0 <= i < s.len() ==> is_digit(#[trigger] s[i])
}

/// The numeric value of a digit byte (zero on a non-digit, which the token
/// predicates rule out).
pub open spec fn digit_of(b: u8) -> nat {
    if is_digit(b) {
        (b - 48) as nat
    } else {
        0
    }
}

/// The number a digit string denotes.
pub open spec fn dec_val(s: Seq<u8>) -> nat
    decreases s.len(),
{
    if s.len() == 0 {
        0
    } else {
        dec_val(s.drop_last()) * 10 + digit_of(s.last())
    }
}

/// What a run of decimal digits parses to as a `u64`: the digits must be
/// nonempty, all digits, and denote a value in range.
pub open spec fn digits_val(s: Seq<u8>) -> Option<u64> {
    if s.len() > 0 && all_digits(s) && dec_val(s) <= u64::MAX {
        Some(dec_val(s) as u64)
    } else {
        None
    }
}

/// What a token parses to as a `u64`: an optional single `+`, then digits.
pub open spec fn uint_token(s: Seq<u8>) -> Option<u64> {
    if s.len() > 0 && s[0] == 43 {
        digits_val(s.skip(1))
    } else {
        digits_val(s)
    }
}

/// What a token parses to as an `i64`: an optional single `+` or `-`, then
/// digits, with the asymmetric two's-complement range.
pub open spec fn sint_token(s: Seq<u8>) -> Option<i64> {
    if s.len() > 0 && s[0] == 45 {
        let d = s.skip(1);
        if d.len() > 0 && all_digits(d) && dec_val(d) <= 0x8000000000000000 {
            Some((-(dec_val(d) as int)) as i64)
        } else {
            None
        }
    } else {
        let d = if s.len() > 0 && s[0] == 43 {
            s.skip(1)
        } else {
            s
        };
        if d.len() > 0 && all_digits(d) && dec_val(d) <= i64::MAX {
            Some(dec_val(d) as i64)
        } else {
            None
        }
    }
}

/// The bytes of `true`.
pub open spec fn true_bytes() -> Seq<u8> {
    seq![116u8, 114u8, 117u8, 101u8]
}

/// The bytes of `false`.
pub open spec fn false_bytes() -> Seq<u8> {
    seq![102u8, 97u8, 108u8, 115u8, 101u8]
}

/// What a token parses to as a `bool`: exactly `true` or `false`.
pub open spec fn bool_token(s: Seq<u8>) -> Option<bool> {
    if s == true_bytes() {
        Some(true)
    } else if s == false_bytes() {
        Some(false)
    } else {
        None
    }
}

/// Appending digits to a digit string never shrinks its value.
proof fn lemma_dec_val_extend(p: Seq<u8>, q: Seq<u8>)
    ensures
        dec_val(p + q) >= dec_val(p),
    decreases q.len(),
{
    if q.len() == 0 {
        assert(p + q =~= p);
    } else {
        lemma_dec_val_extend(p, q.drop_last());
        assert((p + q).drop_last() =~= p + q.drop_last());
    }
}

/// Parse a run of decimal digits beginning at `from`, to the end of `tok`.
fn parse_digits(tok: &[u8], from: usize) -> (r: Option<u64>)
    requires
        from <= tok@.len(),
    ensures
        r == digits_val(tok@.skip(from as int)),
{
    let ghost d = tok@.skip(from as int);
    let n = tok.len();
    if from == n {
        return None;
    }
    let mut acc: u64 = 0;
    let mut i: usize = from;
    while i < n
        invariant
            from <= i <= n,
            n == tok@.len(),
            d == tok@.skip(from as int),
            all_digits(d.take(i - from)),
            acc == dec_val(d.take(i - from)),
        decreases n - i,
    {
        let b = tok[i];
        proof {
            assert(d[i - from] == tok@[i as int]);
        }
        if !(48 <= b && b <= 57) {
            proof {
                assert(!is_digit(d[i - from]));
            }
            return None;
        }
        let dv: u64 = (b - 48) as u64;
        let ghost pre = d.take(i - from);
        let ghost pre1 = d.take(i - from + 1);
        proof {
            assert(pre1.drop_last() =~= pre);
            assert(pre1.last() == d[i - from]);
            assert(dec_val(pre1) == dec_val(pre) * 10 + digit_of(d[i - from]));
        }
        if acc > (u64::MAX - dv) / 10 {
            proof {
                assert(dec_val(pre1) > u64::MAX) by {
                    assert(acc * 10 + dv > u64::MAX) by (nonlinear_arith)
                        requires
                            acc > (u64::MAX - dv) / 10,
                            dv <= 9,
                    ;
                }
                if all_digits(d) {
                    lemma_dec_val_extend(pre1, d.skip(i - from + 1));
                    assert(pre1 + d.skip(i - from + 1) =~= d);
                }
            }
            return None;
        }
        acc = acc * 10 + dv;
        i = i + 1;
    }
    proof {
        assert(d.take(n - from) =~= d);
    }
    Some(acc)
}

/// Parse a token as the standard `u64` parser does.
pub fn parse_uint(tok: &[u8]) -> (r: Option<u64>)
    ensures
        r == uint_token(tok@),
{
    proof {
        assert(tok@.skip(0) =~= tok@);
    }
    if tok.len() > 0 && tok[0] == 43 {
        parse_digits(tok, 1)
    } else {
        parse_digits(tok, 0)
    }
}

/// Parse a token as the standard `i64` parser does.
pub fn parse_sint(tok: &[u8]) -> (r: Option<i64>)
    ensures
        r == sint_token(tok@),
{
    proof {
        assert(tok@.skip(0) =~= tok@);
    }
    if tok.len() > 0 && tok[0] == 45 {
        match parse_digits(tok, 1) {
            None => None,
            Some(mag) => {
                if mag > 0x8000000000000000 {
                    None
                } else if mag == 0x8000000000000000 {
                    Some(i64::MIN)
                } else {
                    Some(-(mag as i64))
                }
            },
        }
    } else if tok.len() > 0 && tok[0] == 43 {
        match parse_digits(tok, 1) {
            None => None,
            Some(mag) => {
                if mag > i64::MAX as u64 {
                    None
                } else {
                    Some(mag as i64)
                }
            },
        }
    } else {
        match parse_digits(tok, 0) {
            None => None,
            Some(mag) => {
                if mag > i64::MAX as u64 {
                    None
                } else {
                    Some(mag as i64)
                }
            },
        }
    }
}

/// Parse a token as the standard `bool` parser does.
pub fn parse_bool(tok: &[u8]) -> (r: Option<bool>)
    ensures
        r == bool_token(tok@),
{
    if tok.len() == 4 && tok[0] == 116 && tok[1] == 114 && tok[2] == 117 && tok[3] == 101 {
        proof {
            assert(tok@ =~= true_bytes());
        }
        Some(true)
    } else if tok.len() == 5 && tok[0] == 102 && tok[1] == 97 && tok[2] == 108 && tok[3] == 115
        && tok[4] == 101 {
        proof {
            assert(tok@ =~= false_bytes());
        }
        Some(false)
    } else {
        proof {
            if tok@ == true_bytes() {
                assert(tok@.len() == 4 && tok@[0] == 116 && tok@[1] == 114 && tok@[2] == 117
                    && tok@[3] == 101);
            }
            if tok@ == false_bytes() {
                assert(tok@.len() == 5 && tok@[0] == 102 && tok@[1] == 97 && tok@[2] == 108
                    && tok@[3] == 115 && tok@[4] == 101);
            }
        }
        None
    }
}

/// The minimal decimal digits of a number.
pub open spec fn dec_digits(n: nat) -> Seq<u8>
    decreases n,
{
    if n < 10 {
        seq![(48 + n) as u8]
    } else {
        dec_digits(n / 10) + seq![(48 + n % 10) as u8]
    }
}

/// The minimal decimal text of a signed number: a `-` before the digits of
/// the magnitude when negative.
pub open spec fn dec_sint(v: int) -> Seq<u8> {
    if v < 0 {
        seq![45u8] + dec_digits((-v) as nat)
    } else {
        dec_digits(v as nat)
    }
}

/// The minimal decimal digits are nonempty and all digits.
pub proof fn lemma_dec_digits_wf(n: nat)
    ensures
        dec_digits(n).len() >= 1,
        all_digits(dec_digits(n)),
    decreases n,
{
    if n < 10 {
        assert(is_digit((48 + n) as u8));
    } else {
        lemma_dec_digits_wf(n / 10);
        assert(0 <= n % 10 < 10);
        assert(is_digit((48 + n % 10) as u8));
        assert forall|i: int| 0 <= i < dec_digits(n).len() implies is_digit(
            #[trigger] dec_digits(n)[i],
        ) by {
            if i < dec_digits(n / 10).len() {
                assert(dec_digits(n)[i] == dec_digits(n / 10)[i]);
            } else {
                assert(dec_digits(n)[i] == (48 + n % 10) as u8);
            }
        }
    }
}

/// The minimal decimal digits denote the number they came from.
pub proof fn lemma_dec_val_digits(n: nat)
    ensures
        dec_val(dec_digits(n)) == n,
    decreases n,
{
    if n < 10 {
        let s = dec_digits(n);
        assert(s =~= seq![(48 + n) as u8]);
        assert(s.drop_last() =~= Seq::<u8>::empty());
        assert(dec_val(s.drop_last()) == 0);
        assert(s.last() == (48 + n) as u8);
        assert(digit_of(s.last()) == n);
        assert(dec_val(s) == dec_val(s.drop_last()) * 10 + digit_of(s.last()));
    } else {
        lemma_dec_val_digits(n / 10);
        let s = dec_digits(n);
        assert(s == dec_digits(n / 10) + seq![(48 + n % 10) as u8]);
        assert(s.len() > 0);
        assert(s.drop_last() =~= dec_digits(n / 10));
        assert(s.last() == (48 + n % 10) as u8);
        assert(0 <= n % 10 < 10);
        assert(digit_of(s.last()) == n % 10);
        assert(dec_val(s) == dec_val(s.drop_last()) * 10 + digit_of(s.last()));
        assert(dec_val(s.drop_last()) == n / 10);
        vstd::arithmetic::div_mod::lemma_fundamental_div_mod(n as int, 10);
        assert(n == 10 * (n as int / 10) + n as int % 10);
    }
}

/// Decoding the minimal decimal digits of a `u64` gives the value back.
pub proof fn lemma_uint_round_trip(u: u64)
    ensures
        uint_token(dec_digits(u as nat)) == Some(u),
{
    lemma_dec_digits_wf(u as nat);
    lemma_dec_val_digits(u as nat);
    let s = dec_digits(u as nat);
    assert(is_digit(s[0]));
    assert(s[0] != 43);
}

/// Decoding the minimal decimal text of an `i64` gives the value back.
pub proof fn lemma_sint_round_trip(i: i64)
    ensures
        sint_token(dec_sint(i as int)) == Some(i),
{
    if i < 0 {
        let m = (-(i as int)) as nat;
        lemma_dec_digits_wf(m);
        lemma_dec_val_digits(m);
        let s = dec_sint(i as int);
        assert(s[0] == 45);
        assert(s.skip(1) =~= dec_digits(m));
        assert(m <= 0x8000000000000000);
    } else {
        lemma_dec_digits_wf(i as nat);
        lemma_dec_val_digits(i as nat);
        let s = dec_sint(i as int);
        assert(s =~= dec_digits(i as nat));
        assert(is_digit(s[0]));
        assert(s[0] != 45 && s[0] != 43);
    }
}

/// Decoding the rendering of a boolean gives the value back.
pub proof fn lemma_bool_round_trip(b: bool)
    ensures
        bool_token(if b {
            true_bytes()
        } else {
            false_bytes()
        }) == Some(b),
{
    assert(true_bytes().len() != false_bytes().len());
}

/// Relies on `itoa::Buffer::format` for `u64`: it writes the value's minimal
/// decimal digits.
#[verifier::external_body]
pub(crate) fn fmt_uint(v: u64) -> (r: Vec<u8>)
    ensures
        r@ == dec_digits(v as nat),
{
    let mut buffer = itoa::Buffer::new();
    buffer.format(v).as_bytes().to_vec()
}

/// Relies on `itoa::Buffer::format` for `i64`: it writes the value's minimal
/// decimal digits, with a leading `-` when the value is negative.
#[verifier::external_body]
pub(crate) fn fmt_sint(v: i64) -> (r: Vec<u8>)
    ensures
        r@ == dec_sint(v as int),
{
    let mut buffer = itoa::Buffer::new();
    buffer.format(v).as_bytes().to_vec()
}

} // verus!
