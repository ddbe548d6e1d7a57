//! The library's laws: properties that hold of the validator as a whole,
//! stated over the same spec functions its contracts use.

use vstd::prelude::*;

use crate::dataset::spec_dataset;
use crate::looks_like::LooksLikePostalCode;
use crate::table::{
    header_line, lemma_line_heads, lemma_loaded_from_row, lemma_table_key_from_pair,
    lemma_zero_row_starts_zero, spec_lines, spec_loaded_pairs, spec_table,
};
use crate::text::{digits_val, is_digits, text_code};
use crate::PostalCode;

verus! {

/// The code `0` is never in the embedded table — so every failed coercion,
/// which lands on `0`, misses the local lookup. A zero-valued key could
/// only come from a data line starting with `'0'`, and no line of the
/// embedded dataset starts with one.
pub proof fn lemma_zero_absent_from_table()
    ensures
        !spec_table(spec_dataset()).contains_key(0),
{
    let text = spec_dataset();
    if spec_table(text).contains_key(0) {
        let pairs = spec_loaded_pairs(text);
        let i = lemma_table_key_from_pair(pairs, 0);
        let lines = spec_lines(text);
        assert(lines.len() > 0 && lines[0] == header_line());
        let data = lines.drop_first();
        let k = lemma_loaded_from_row(data, i);
        lemma_zero_row_starts_zero(data[k]);
        assert(data[k] == lines[k + 1]);
        assert(lines[k + 1].len() > 0 && lines[k + 1][0] == '0');
        let p = lemma_line_heads(text, k + 1);
        proof_dataset_line_heads(p);
    }
}

/// No line of the embedded dataset starts with `'0'`: at every position
/// that opens a line — the start of the text, or one past a line feed —
/// the character is something else.
proof fn proof_dataset_line_heads(p: int)
    requires
        0 <= p < spec_dataset().len(),
        p == 0 || spec_dataset()[p - 1] == '\n',
    ensures
        spec_dataset()[p] != '0',
{
    reveal_strlit(
        "postal_code,city\n11220,Stockholm\n11221,Stockholm\n11346,Stockholm\n16440,Kista\n21115,Malmo\n25225,Helsingborg\n41103,Goteborg\n58330,Linkoping\n72211,Vasteras\n75236,Uppsala\n90325,Umea\n97231,Lulea\n98139,Kiruna",
    );
}

/// Text that reads as a numeral agrees with the numeral: a nonempty digit
/// string coerces to its value, so the check treats `"11220"` and `11220`
/// alike.
pub proof fn lemma_text_matches_numeric(s: Seq<char>, v: u32)
    requires
        s.len() > 0,
        is_digits(s),
        digits_val(s) == v,
    ensures
        text_code(s) == v,
{
}

/// Unparseable text coerces to `0`: empty text, any non-digit, or a value
/// beyond 32 bits.
pub proof fn lemma_unparseable_text_is_zero(s: Seq<char>)
    requires
        !(s.len() > 0 && is_digits(s) && digits_val(s) <= u32::MAX),
    ensures
        text_code(s) == 0,
{
}

/// A code is looked up the same way under any digit spelling of it: for a
/// digit string reading as `v`, the local lookup of the text's coercion is
/// the local lookup of `v` itself.
pub proof fn lemma_text_form_matches(pc: &PostalCode, s: Seq<char>, v: u32)
    requires
        s.len() > 0,
        is_digits(s),
        digits_val(s) == v,
    ensures
        pc.table().contains_key(text_code(s)) == pc.table().contains_key(v),
{
}

/// Repeated checks agree: with the fallback disabled, `valid`'s contract
/// pins the verdict to the table lookup alone, so any two results it can
/// return for the same code on the same instance are equal.
pub proof fn lemma_valid_idempotent(pc: &PostalCode, c: u32, r1: bool, r2: bool)
    requires
        !pc.fallback_enabled(),
        r1 == pc.table().contains_key(c),
        r2 == pc.table().contains_key(c),
    ensures
        r1 == r2,
{
}

/// Every accepted representation of the same logical value coerces to the
/// same canonical code: each integer width that can hold the value, and
/// any digit string reading as it.
pub proof fn lemma_cross_type_consistency(n: u32, s: Seq<char>)
    requires
        s.len() > 0,
        is_digits(s),
        digits_val(s) == n,
    ensures
        n <= u8::MAX ==> (n as u8).spec_as_u32() == n,
        n <= u16::MAX ==> (n as u16).spec_as_u32() == n,
        (n as u64).spec_as_u32() == n,
        n <= i8::MAX ==> (n as i8).spec_as_u32() == n,
        n <= i16::MAX ==> (n as i16).spec_as_u32() == n,
        n <= i32::MAX ==> (n as i32).spec_as_u32() == n,
        (n as i64).spec_as_u32() == n,
        text_code(s) == n,
{
    assert((n as int) % 0x1_0000_0000 == n as int);
}

} // verus!

