//! Orderings and numeric readings of free-text fields.
//!
//! Every textual field of a record is modelled as the sequence of its
//! characters. Two things are defined on such sequences here: the
//! lexicographic order by code point, and the reading of a decimal number
//! with a fallback for text that is not a number.

use vstd::prelude::*;
use vstd::std_specs::iter::IteratorSpec;

verus! {

/// Lexicographic "less than or equal" on texts: the first differing
/// character decides, by code point; a proper prefix comes first.
pub open spec fn text_le(a: Seq<char>, b: Seq<char>) -> bool
    decreases a.len(),
{
    if a.len() == 0 {
        true
    } else if b.len() == 0 {
        false
    } else if a[0] == b[0] {
        text_le(a.drop_first(), b.drop_first())
    } else {
        a[0] < b[0]
    }
}

/// Any two texts are comparable.
pub proof fn lemma_text_le_total(a: Seq<char>, b: Seq<char>)
    ensures
        text_le(a, b) || text_le(b, a),
    decreases a.len(),
{
    if a.len() > 0 && b.len() > 0 && a[0] == b[0] {
        lemma_text_le_total(a.drop_first(), b.drop_first());
    }
}

/// The order is transitive.
pub proof fn lemma_text_le_transitive(a: Seq<char>, b: Seq<char>, c: Seq<char>)
    requires
        text_le(a, b),
        text_le(b, c),
    ensures
        text_le(a, c),
    decreases a.len(),
{
    if a.len() > 0 && b.len() > 0 && c.len() > 0 && a[0] == b[0] && b[0] == c[0] {
        lemma_text_le_transitive(a.drop_first(), b.drop_first(), c.drop_first());
    }
}

/// Two texts that precede each other are the same text.
pub proof fn lemma_text_le_antisymmetric(a: Seq<char>, b: Seq<char>)
    requires
        text_le(a, b),
        text_le(b, a),
    ensures
        a == b,
    decreases a.len(),
{
    if a.len() == 0 || b.len() == 0 {
        assert(a =~= b);
    } else {
        lemma_text_le_antisymmetric(a.drop_first(), b.drop_first());
        assert(a =~= seq![a[0]] + a.drop_first());
        assert(b =~= seq![b[0]] + b.drop_first());
    }
}

/// Whether `a` sorts at or before `b`.
pub fn str_le(a: &str, b: &str) -> (r: bool)
    ensures
        r == text_le(a@, b@),
{
    let mut ia = a.chars();
    let mut ib = b.chars();
    loop
        invariant
            ia.obeys_prophetic_iter_laws(),
            ib.obeys_prophetic_iter_laws(),
            ia.decrease() is Some,
            text_le(a@, b@) == text_le(ia.remaining(), ib.remaining()),
        decreases ia.decrease()->0,
    {
        match ia.next() {
            None => {
                return true;
            },
            Some(ca) => {
                match ib.next() {
                    None => {
                        return false;
                    },
                    Some(cb) => {
                        if ca != cb {
                            return ca < cb;
                        }
                    },
                }
            },
        }
    }
}

/// Whether `a` and `b` are the same text.
pub fn str_eq(a: &str, b: &str) -> (r: bool)
    ensures
        r == (a@ == b@),
{
    let mut ia = a.chars();
    let mut ib = b.chars();
    loop
        invariant
            ia.obeys_prophetic_iter_laws(),
            ib.obeys_prophetic_iter_laws(),
            ia.decrease() is Some,
            (a@ == b@) == (ia.remaining() == ib.remaining()),
        decreases ia.decrease()->0,
    {
        let ghost ra = ia.remaining();
        let ghost rb = ib.remaining();
        let ca = ia.next();
        let cb = ib.next();
        match (ca, cb) {
            (None, None) => {
                proof {
                    assert(ra =~= rb);
                }
                return true;
            },
            (Some(x), Some(y)) => {
                if x != y {
                    return false;
                }
                proof {
                    assert(ra =~= seq![x] + ra.drop_first());
                    assert(rb =~= seq![y] + rb.drop_first());
                }
            },
            _ => {
                return false;
            },
        }
    }
}

/// Whether `c` is one of the ten ASCII decimal digits.
pub open spec fn is_digit(c: char) -> bool {
    '0' <= c <= '9'
}

/// The number a decimal digit stands for.
pub open spec fn digit_value(c: char) -> nat {
    (c as int - '0' as int) as nat
}

/// The number written by a run of decimal digits, most significant first.
pub open spec fn decimal_value(s: Seq<char>) -> nat
    decreases s.len(),
{
    if s.len() == 0 {
        0
    } else {
        10 * decimal_value(s.drop_last()) + digit_value(s.last())
    }
}

/// Whether every character of `s` is a decimal digit.
pub open spec fn all_digits(s: Seq<char>) -> bool {
    forall|i: int| 0 <= i < s.len() ==> is_digit(#[trigger] s[i])
}

/// What is left of a numeric text once one optional leading `+` is taken off.
pub open spec fn unsigned_part(s: Seq<char>) -> Seq<char> {
    if s.len() > 0 && s[0] == '+' {
        s.drop_first()
    } else {
        s
    }
}

/// The 32-bit unsigned number that a text spells out, if it spells one:
/// an optional `+`, then at least one decimal digit and nothing else, the
/// value no larger than `u32::MAX`.
pub open spec fn parse_u32_spec(s: Seq<char>) -> Option<u32> {
    let digits = unsigned_part(s);
    if digits.len() > 0 && all_digits(digits) && decimal_value(digits) <= u32::MAX {
        Some(decimal_value(digits) as u32)
    } else {
        None
    }
}

/// The number that a text spells out, or `default` where it spells none.
pub open spec fn number_or(s: Seq<char>, default: u32) -> u32 {
    match parse_u32_spec(s) {
        Some(n) => n,
        None => default,
    }
}

/// A run of digits is worth at least as much as any of its prefixes.
proof fn lemma_decimal_value_prefix(s: Seq<char>, k: int)
    requires
        0 <= k <= s.len(),
    ensures
        decimal_value(s.take(k)) <= decimal_value(s),
    decreases s.len() - k,
{
    if k == s.len() {
        assert(s.take(k) =~= s);
    } else {
        lemma_decimal_value_prefix(s.drop_last(), k);
        assert(s.drop_last().take(k) =~= s.take(k));
    }
}

/// Reads a 32-bit unsigned decimal number from a text.
pub fn parse_u32(s: &str) -> (r: Option<u32>)
    ensures
        r == parse_u32_spec(s@),
{
    let mut it = s.chars();
    let mut at_start = true;
    let mut any_digit = false;
    let mut acc: u32 = 0;
    let ghost mut k: int = 0;
    let ghost digits = unsigned_part(s@);
    loop
        invariant
            it.obeys_prophetic_iter_laws(),
            it.decrease() is Some,
            digits == unsigned_part(s@),
            at_start ==> k == 0 && it.remaining() == s@,
            !at_start ==> it.remaining() == digits.skip(k),
            0 <= k <= digits.len(),
            any_digit == (k > 0),
            all_digits(digits.take(k)),
            acc == decimal_value(digits.take(k)),
        decreases it.decrease()->0,
    {
        match it.next() {
            None => {
                proof {
                    if at_start {
                        assert(s@.len() == 0);
                        assert(digits.len() == 0);
                    } else {
                        assert(digits.skip(k).len() == 0);
                        assert(digits.take(k) =~= digits);
                    }
                }
                return if any_digit {
                    Some(acc)
                } else {
                    None
                };
            },
            Some(c) => {
                if at_start && c == '+' {
                    at_start = false;
                    proof {
                        assert(s@.drop_first() =~= digits.skip(0));
                    }
                } else {
                    proof {
                        if at_start {
                            assert(digits == s@);
                            assert(s@ =~= digits.skip(0));
                        }
                        assert(digits.skip(k)[0] == digits[k]);
                        assert(digits.skip(k).drop_first() =~= digits.skip(k + 1));
                        assert(digits.take(k + 1).drop_last() =~= digits.take(k));
                        assert(digits.take(k + 1).last() == c);
                    }
                    at_start = false;
                    if c < '0' || c > '9' {
                        proof {
                            assert(!is_digit(digits[k]));
                        }
                        return None;
                    }
                    let d: u32 = c as u32 - '0' as u32;
                    proof {
                        lemma_decimal_value_prefix(digits, k + 1);
                        assert forall|i: int| 0 <= i < k + 1 implies is_digit(
                            #[trigger] digits.take(k + 1)[i],
                        ) by {
                            if i < k {
                                assert(digits.take(k)[i] == digits.take(k + 1)[i]);
                            }
                        }
                    }
                    if acc > (u32::MAX - d) / 10 {
                        return None;
                    }
                    acc = acc * 10 + d;
                    any_digit = true;
                    proof {
                        k = k + 1;
                    }
                }
            },
        }
    }
}

/// Reads a number from a free-text field, falling back to `default` where
/// the text is not a number.
pub fn parse_or(s: &str, default: u32) -> (r: u32)
    ensures
        r == number_or(s@, default),
{
    match parse_u32(s) {
        Some(n) => n,
        None => default,
    }
}

} // verus!
