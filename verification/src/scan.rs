//! The wire format, as mathematics.
//!
//! A document is a byte sequence. Lines end at `\n`, `\t` or `\r`. A line
//! whose first non-whitespace byte is `#` or `!` is a comment. A data line is
//! `<key><sep><value>` where `<sep>` is the first `=` or `:`; one space right
//! after the separator is conventional padding and not part of the value.
//!
//! The functions here describe the scanner as it consumes a suffix of the
//! document: each takes the unread suffix and returns what is read together
//! with the suffix that remains. The executable parser is proved against
//! them.

use vstd::prelude::*;

verus! {

/// Bytes that end a line: newline, tab, carriage return.
pub open spec fn is_term(b: u8) -> bool {
    b == 10 || b == 9 || b == 13
}

/// Bytes skipped between tokens: space and the line terminators.
pub open spec fn is_space(b: u8) -> bool {
    b == 32 || is_term(b)
}

/// The two key/value separators, `=` and `:`.
pub open spec fn is_sep(b: u8) -> bool {
    b == 61 || b == 58
}

/// The two bytes that open a full-line comment, `#` and `!`.
pub open spec fn is_comment_start(b: u8) -> bool {
    b == 35 || b == 33
}

/// The suffix left after consuming every leading whitespace byte.
pub open spec fn drop_spaces(s: Seq<u8>) -> Seq<u8>
    decreases s.len(),
{
    if s.len() > 0 && is_space(s[0]) {
        drop_spaces(s.skip(1))
    } else {
        s
    }
}

/// The bytes of the current line, up to but not including its terminator
/// (or up to end of input).
pub open spec fn line_text(s: Seq<u8>) -> Seq<u8>
    decreases s.len(),
{
    if s.len() == 0 || is_term(s[0]) {
        Seq::empty()
    } else {
        seq![s[0]] + line_text(s.skip(1))
    }
}

/// The suffix left after consuming the current line, terminator included.
pub open spec fn after_line(s: Seq<u8>) -> Seq<u8>
    decreases s.len(),
{
    if s.len() == 0 {
        s
    } else if is_term(s[0]) {
        s.skip(1)
    } else {
        after_line(s.skip(1))
    }
}

pub proof fn lemma_drop_spaces_len(s: Seq<u8>)
    ensures
        drop_spaces(s).len() <= s.len(),
    decreases s.len(),
{
    if s.len() > 0 && is_space(s[0]) {
        lemma_drop_spaces_len(s.skip(1));
    }
}

pub proof fn lemma_after_line_len(s: Seq<u8>)
    ensures
        after_line(s).len() <= s.len(),
    decreases s.len(),
{
    if s.len() > 0 && !is_term(s[0]) {
        lemma_after_line_len(s.skip(1));
    }
}

/// The suffix left after consuming leading whitespace and full-line
/// comments, repeatedly, until a content byte or end of input.
pub open spec fn drop_junk(s: Seq<u8>) -> Seq<u8>
    decreases s.len(),
    via drop_junk_dec
{
    let t = drop_spaces(s);
    if t.len() > 0 && is_comment_start(t[0]) {
        drop_junk(after_line(t.skip(1)))
    } else {
        t
    }
}

#[via_fn]
proof fn drop_junk_dec(s: Seq<u8>) {
    lemma_drop_spaces_len(s);
    let t = drop_spaces(s);
    if t.len() > 0 && is_comment_start(t[0]) {
        lemma_after_line_len(t.skip(1));
    }
}

pub proof fn lemma_drop_junk_len(s: Seq<u8>)
    ensures
        drop_junk(s).len() <= s.len(),
    decreases s.len(),
{
    lemma_drop_spaces_len(s);
    let t = drop_spaces(s);
    if t.len() > 0 && is_comment_start(t[0]) {
        lemma_after_line_len(t.skip(1));
        lemma_drop_junk_len(after_line(t.skip(1)));
    }
}

/// The next key token: whitespace and comments are skipped around its bytes,
/// which are accumulated until the first separator. The separator is
/// consumed and not part of the key. `None` when input ends before a
/// separator: the scan is over, whatever bytes remain.
pub open spec fn scan_key(s: Seq<u8>) -> Option<(Seq<u8>, Seq<u8>)>
    decreases s.len(),
    via scan_key_dec
{
    let t = drop_junk(s);
    if t.len() == 0 {
        None
    } else if is_sep(t[0]) {
        Some((Seq::empty(), t.skip(1)))
    } else {
        match scan_key(t.skip(1)) {
            Some((k, r)) => Some((seq![t[0]] + k, r)),
            None => None,
        }
    }
}

#[via_fn]
proof fn scan_key_dec(s: Seq<u8>) {
    lemma_drop_junk_len(s);
}

/// One conventional padding space after the separator is not part of the
/// value.
pub open spec fn strip_pad(s: Seq<u8>) -> Seq<u8> {
    if s.len() > 0 && s[0] == 32 {
        s.skip(1)
    } else {
        s
    }
}

/// The value token that follows a separator.
pub open spec fn value_text(s: Seq<u8>) -> Seq<u8> {
    line_text(strip_pad(s))
}

/// The suffix left after consuming the value token and its terminator.
pub open spec fn value_rest(s: Seq<u8>) -> Seq<u8> {
    after_line(strip_pad(s))
}

pub proof fn lemma_scan_key_rest_len(s: Seq<u8>)
    ensures
        scan_key(s) matches Some((k, r)) ==> r.len() < s.len(),
    decreases s.len(),
{
    lemma_drop_junk_len(s);
    let t = drop_junk(s);
    if t.len() == 0 {
    } else if is_sep(t[0]) {
    } else {
        lemma_scan_key_rest_len(t.skip(1));
    }
}

pub proof fn lemma_value_rest_len(s: Seq<u8>)
    ensures
        value_rest(s).len() <= s.len(),
{
    lemma_after_line_len(strip_pad(s));
}

/// Every (key, value) token pair of the document suffix, in order.
pub open spec fn scan_entries(s: Seq<u8>) -> Seq<(Seq<u8>, Seq<u8>)>
    decreases s.len(),
    via scan_entries_dec
{
    match scan_key(s) {
        None => Seq::empty(),
        Some((k, r1)) => seq![(k, value_text(r1))] + scan_entries(value_rest(r1)),
    }
}

#[via_fn]
proof fn scan_entries_dec(s: Seq<u8>) {
    lemma_scan_key_rest_len(s);
    if let Some((k, r1)) = scan_key(s) {
        lemma_value_rest_len(r1);
    }
}

/// A junk block: a run of blank lines and full-line comments, such as the
/// scanner skips between entries. Comment lines must carry their terminator,
/// so that a comment cannot swallow what follows the block.
pub open spec fn is_junk(j: Seq<u8>) -> bool
    decreases j.len(),
    via is_junk_dec
{
    if j.len() == 0 {
        true
    } else if is_space(j[0]) {
        is_junk(j.skip(1))
    } else if is_comment_start(j[0]) {
        has_term(j.skip(1)) && is_junk(after_line(j.skip(1)))
    } else {
        false
    }
}

#[via_fn]
proof fn is_junk_dec(j: Seq<u8>) {
    if j.len() > 0 && !is_space(j[0]) && is_comment_start(j[0]) {
        lemma_after_line_len(j.skip(1));
    }
}

/// Whether the suffix still holds a line terminator.
pub open spec fn has_term(s: Seq<u8>) -> bool {
    exists|i: int| 0 <= i < s.len() && is_term(s[i])
}

/// Whether no byte is a line terminator.
pub open spec fn term_free(s: Seq<u8>) -> bool {
    forall|i: int| 0 <= i < s.len() ==> !is_term(#[trigger] s[i])
}

/// A key made of plain bytes only: no whitespace, no separator, no comment
/// opener.
pub open spec fn is_plain_key(k: Seq<u8>) -> bool {
    forall|i: int|
        0 <= i < k.len() ==> {
            &&& !is_space(#[trigger] k[i])
            &&& !is_sep(k[i])
            &&& !is_comment_start(k[i])
        }
}

/// Consuming a line stops at the terminator, so what follows a terminated
/// prefix is untouched.
pub proof fn lemma_after_line_concat(u: Seq<u8>, s: Seq<u8>)
    requires
        has_term(u),
    ensures
        after_line(u + s) == after_line(u) + s,
    decreases u.len(),
{
    let w = u + s;
    assert(u.len() > 0);
    if is_term(u[0]) {
        assert(w[0] == u[0]);
        assert(w.skip(1) =~= u.skip(1) + s);
    } else {
        let i = choose|i: int| 0 <= i < u.len() && is_term(u[i]);
        assert(is_term(u.skip(1)[i - 1]));
        assert(has_term(u.skip(1)));
        lemma_after_line_concat(u.skip(1), s);
        assert(w[0] == u[0]);
        assert(w.skip(1) =~= u.skip(1) + s);
    }
}

/// The scanner's state between entries is the unread suffix alone, so a
/// junk block in front of any suffix is skipped whole.
pub proof fn lemma_drop_junk_prepend(j: Seq<u8>, s: Seq<u8>)
    requires
        is_junk(j),
    ensures
        drop_junk(j + s) == drop_junk(s),
    decreases j.len(),
{
    if j.len() == 0 {
        assert(j + s =~= s);
    } else if is_space(j[0]) {
        assert((j + s)[0] == j[0]);
        assert((j + s).skip(1) =~= j.skip(1) + s);
        lemma_drop_junk_prepend(j.skip(1), s);
        assert(drop_spaces(j + s) == drop_spaces(j.skip(1) + s));
        assert(drop_junk(j + s) == drop_junk(j.skip(1) + s));
    } else {
        assert(is_comment_start(j[0]));
        assert((j + s)[0] == j[0]);
        assert(drop_spaces(j + s) == j + s);
        assert((j + s).skip(1) =~= j.skip(1) + s);
        lemma_after_line_concat(j.skip(1), s);
        lemma_after_line_len(j.skip(1));
        lemma_drop_junk_prepend(after_line(j.skip(1)), s);
    }
}

/// A junk block in front of any suffix does not change the next key.
pub proof fn lemma_scan_key_prepend(j: Seq<u8>, s: Seq<u8>)
    requires
        is_junk(j),
    ensures
        scan_key(j + s) == scan_key(s),
{
    lemma_drop_junk_prepend(j, s);
}

/// A plain key before a separator scans to exactly itself, with the
/// separator consumed.
pub proof fn lemma_scan_plain_key(k: Seq<u8>, sep: u8, r: Seq<u8>)
    requires
        is_plain_key(k),
        is_sep(sep),
    ensures
        scan_key(k + seq![sep] + r) == Some((k, r)),
    decreases k.len(),
{
    let s = k + seq![sep] + r;
    if k.len() == 0 {
        assert(s =~= seq![sep] + r);
        assert(s[0] == sep);
        assert(!is_space(sep) && !is_comment_start(sep));
        assert(drop_spaces(s) == s);
        assert(drop_junk(s) == s);
        assert(s.skip(1) =~= r);
        assert(Seq::<u8>::empty() =~= k);
    } else {
        assert(s[0] == k[0]);
        assert(drop_spaces(s) == s);
        assert(drop_junk(s) == s);
        assert(!is_sep(s[0]));
        assert(s.skip(1) =~= k.skip(1) + seq![sep] + r);
        lemma_scan_plain_key(k.skip(1), sep, r);
        assert(seq![k[0]] + k.skip(1) =~= k);
    }
}

/// A terminator-free value before a terminator reads to exactly itself,
/// with the terminator consumed.
pub proof fn lemma_line_concat(u: Seq<u8>, t: u8, s: Seq<u8>)
    requires
        term_free(u),
        is_term(t),
    ensures
        line_text(u + seq![t] + s) == u,
        after_line(u + seq![t] + s) == s,
    decreases u.len(),
{
    let w = u + seq![t] + s;
    if u.len() == 0 {
        assert(w =~= seq![t] + s);
        assert(w[0] == t);
        assert(w.skip(1) =~= s);
        assert(line_text(w) =~= u);
    } else {
        assert(w[0] == u[0] && !is_term(u[0]));
        assert(w.skip(1) =~= u.skip(1) + seq![t] + s);
        lemma_line_concat(u.skip(1), t, s);
        assert(seq![u[0]] + u.skip(1) =~= u);
    }
}

/// A terminator-free suffix reads whole as the final value, leaving
/// nothing.
pub proof fn lemma_line_whole(u: Seq<u8>)
    requires
        term_free(u),
    ensures
        line_text(u) == u,
        after_line(u).len() == 0,
    decreases u.len(),
{
    if u.len() > 0 {
        assert(!is_term(u[0]));
        lemma_line_whole(u.skip(1));
        assert(seq![u[0]] + u.skip(1) =~= u);
    }
}

} // verus!
