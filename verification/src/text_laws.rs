//! What the assembler's reading of text does, stated on explicit characters:
//! which bytes separate tokens and which are hexadecimal digits.
use vstd::prelude::*;
use crate::text::{is_space, split_from, split_whitespace};
use crate::hex::{hex_digit, spec_get_immediate};

verus! {

/// Whether `b` is one of the characters that separate tokens: tab, line
/// feed, vertical tab, form feed, carriage return, space, next line (0x85)
/// and no-break space (0xA0).
pub open spec fn is_separator(b: u8) -> bool {
    b == 0x09 || b == 0x0A || b == 0x0B || b == 0x0C || b == 0x0D || b == 0x20 || b == 0x85 || b == 0xA0
}

proof fn lemma_separator_is_space(b: u8)
    ensures
        is_separator(b) ==> is_space(b),
        !is_separator(b) ==> !is_space(b),
{
}

proof fn lemma_replace_space(s: Seq<u8>, k: int, i: int, cur: Seq<u8>)
    requires
        0 <= k < s.len(),
        0 <= i <= s.len(),
        is_space(s[k]),
    ensures
        split_from(s.update(k, 0x20), i, cur) == split_from(s, i, cur),
    decreases s.len() - i,
{
    let t = s.update(k, 0x20);
    if i < s.len() {
        assert(is_space(t[i]) == is_space(s[i]));
        if !is_space(s[i]) {
            assert(t[i] == s[i]);
            lemma_replace_space(s, k, i + 1, cur.push(s[i]));
        } else {
            lemma_replace_space(s, k, i + 1, Seq::empty());
        }
    }
}

/// Every separator separates alike: the tokens of a text do not change when
/// any separator in it is replaced by a space.
pub proof fn law_separators_split_like_space(s: Seq<u8>, k: int)
    requires
        0 <= k < s.len(),
        is_separator(s[k]),
    ensures
        split_whitespace(s.update(k, 0x20)) == split_whitespace(s),
{
    lemma_separator_is_space(s[k]);
    lemma_replace_space(s, k, 0, Seq::empty());
}

proof fn lemma_one_token(s: Seq<u8>, i: int, cur: Seq<u8>)
    requires
        0 <= i <= s.len(),
        forall|j: int| i <= j < s.len() ==> !is_separator(#[trigger] s[j]),
        cur.len() + (s.len() - i) > 0,
    ensures
        split_from(s, i, cur) == seq![cur + s.subrange(i, s.len() as int)],
    decreases s.len() - i,
{
    if i < s.len() {
        lemma_separator_is_space(s[i]);
        lemma_one_token(s, i + 1, cur.push(s[i]));
        assert(cur.push(s[i]) + s.subrange(i + 1, s.len() as int) =~= cur + s.subrange(i, s.len() as int));
    } else {
        assert(cur + s.subrange(i, s.len() as int) =~= cur);
    }
}

/// A non-empty text without separators is a single token, the whole text.
pub proof fn law_text_without_separators_is_one_token(s: Seq<u8>)
    requires
        s.len() > 0,
        forall|j: int| 0 <= j < s.len() ==> !is_separator(#[trigger] s[j]),
    ensures
        split_whitespace(s) == seq![s],
{
    lemma_one_token(s, 0, Seq::empty());
    assert(Seq::<u8>::empty() + s.subrange(0, s.len() as int) =~= s);
}

/// The hexadecimal digits in order of value: `0` to `9`, then `a` to `f`.
pub open spec fn hex_digits_lower() -> Seq<u8> {
    seq![0x30u8, 0x31, 0x32, 0x33, 0x34, 0x35, 0x36, 0x37, 0x38, 0x39, 0x61, 0x62, 0x63, 0x64, 0x65, 0x66]
}

/// The upper-case letter digits in order of value: `A` (10) to `F` (15).
pub open spec fn hex_letters_upper() -> Seq<u8> {
    seq![0x41u8, 0x42, 0x43, 0x44, 0x45, 0x46]
}

/// The character for digit value `i` (below 16), upper-case where `upper`
/// and the digit is a letter.
pub open spec fn hex_char(i: int, upper: bool) -> u8 {
    if upper && i >= 10 { hex_letters_upper()[i - 10] } else { hex_digits_lower()[i] }
}

/// The hexadecimal digits are exactly `0`-`9`, `a`-`f` and `A`-`F`, each
/// with its value (a letter counts the same in either case).
pub proof fn law_hex_digits(i: int, upper: bool, c: u8)
    requires
        0 <= i < 16,
    ensures
        hex_digit(hex_char(i, upper)) == Some(i as nat),
        hex_digit(c) is Some ==> exists|j: int, u: bool| 0 <= j < 16 && hex_char(j, u) == c,
{
    let l = hex_digits_lower();
    let u = hex_letters_upper();
    assert(l[0] == 0x30 && l[1] == 0x31 && l[2] == 0x32 && l[3] == 0x33 && l[4] == 0x34 && l[5] == 0x35
        && l[6] == 0x36 && l[7] == 0x37 && l[8] == 0x38 && l[9] == 0x39 && l[10] == 0x61 && l[11] == 0x62
        && l[12] == 0x63 && l[13] == 0x64 && l[14] == 0x65 && l[15] == 0x66);
    assert(u[0] == 0x41 && u[1] == 0x42 && u[2] == 0x43 && u[3] == 0x44 && u[4] == 0x45 && u[5] == 0x46);
    if hex_digit(c) is Some {
        if 0x30 <= c <= 0x39 {
            assert(hex_char(c - 0x30, false) == c);
        } else if 0x61 <= c <= 0x66 {
            assert(hex_char(c - 0x61 + 10, false) == c);
        } else {
            assert(hex_char(c - 0x41 + 10, true) == c);
        }
    }
}

/// A token of a kind character (ASCII) and one or two hexadecimal digits
/// holds the value they write: one digit is its value, two are 16 times the
/// first plus the second.
pub proof fn law_hex_immediates(kind: u8, i: int, j: int, u1: bool, u2: bool)
    requires
        kind < 0x80,
        0 <= i < 16,
        0 <= j < 16,
    ensures
        spec_get_immediate(seq![kind, hex_char(i, u1)]) == Some(i as u8),
        spec_get_immediate(seq![kind, hex_char(i, u1), hex_char(j, u2)]) == Some((16 * i + j) as u8),
{
    law_hex_digits(i, u1, 0);
    law_hex_digits(j, u2, 0);
    let d1 = hex_char(i, u1);
    let d2 = hex_char(j, u2);
    assert(d1 != 0x2B);
    let one = seq![kind, d1].drop_first();
    assert(one =~= seq![d1]);
    assert(one.drop_last() =~= Seq::<u8>::empty());
    assert(one.last() == d1);
    assert(crate::hex::hex_value(Seq::<u8>::empty()) == 0);
    assert(crate::hex::hex_value(one) == i);
    let two = seq![kind, d1, d2].drop_first();
    assert(two =~= seq![d1, d2]);
    assert(two.drop_last() =~= seq![d1]);
    assert(seq![d1].drop_last() =~= Seq::<u8>::empty());
    assert(seq![d1].last() == d1);
    assert(crate::hex::hex_value(seq![d1]) == i);
    assert(two.last() == d2);
    assert(crate::hex::hex_value(two) == 16 * i + j);
    assert(crate::hex::all_hex(two)) by {
        assert(forall|k: int| 0 <= k < 2 ==> two[k] == d1 || two[k] == d2);
    }
    assert(crate::hex::all_hex(one)) by {
        assert(forall|k: int| 0 <= k < 1 ==> one[k] == d1);
    }
}

/// A `+` sign before the digits is allowed and changes nothing; a token
/// with no digit after its kind character (and the sign) holds no
/// immediate.
pub proof fn law_hex_sign_and_empty(kind: u8, i: int, u: bool)
    requires
        kind < 0x80,
        0 <= i < 16,
    ensures
        spec_get_immediate(seq![kind, 0x2B, hex_char(i, u)]) == Some(i as u8),
        spec_get_immediate(seq![kind]) is None,
        spec_get_immediate(seq![kind, 0x2B]) is None,
{
    law_hex_digits(i, u, 0);
    let d = hex_char(i, u);
    let rest = seq![kind, 0x2Bu8, d].drop_first();
    assert(rest =~= seq![0x2Bu8, d]);
    assert(rest.drop_first() =~= seq![d]);
    assert(seq![d].drop_last() =~= Seq::<u8>::empty());
    assert(seq![d].last() == d);
    assert(crate::hex::hex_value(Seq::<u8>::empty()) == 0);
    assert(crate::hex::hex_value(seq![d]) == i);
    assert(crate::hex::all_hex(seq![d])) by {
        assert(forall|k: int| 0 <= k < 1 ==> seq![d][k] == d);
    }
    assert(seq![kind].drop_first() =~= Seq::<u8>::empty());
    assert(seq![kind, 0x2Bu8].drop_first() =~= seq![0x2Bu8]);
    assert(seq![0x2Bu8].drop_first() =~= Seq::<u8>::empty());
}

/// Three digits write 256 times the first plus 16 times the second plus
/// the third; the token holds that value when it is below 256 (so leading
/// zeros are allowed), and no immediate otherwise.
pub proof fn law_hex_three_digits(kind: u8, i: int, j: int, k: int, u: bool)
    requires
        kind < 0x80,
        0 <= i < 16,
        0 <= j < 16,
        0 <= k < 16,
    ensures
        ({
            let v = 256 * i + 16 * j + k;
            spec_get_immediate(seq![kind, hex_char(i, u), hex_char(j, u), hex_char(k, u)]) == if v < 256 {
                Some(v as u8)
            } else {
                None
            }
        }),
{
    law_hex_digits(i, u, 0);
    law_hex_digits(j, u, 0);
    law_hex_digits(k, u, 0);
    let d1 = hex_char(i, u);
    let d2 = hex_char(j, u);
    let d3 = hex_char(k, u);
    assert(d1 != 0x2B);
    let three = seq![kind, d1, d2, d3].drop_first();
    assert(three =~= seq![d1, d2, d3]);
    assert(three.drop_last() =~= seq![d1, d2]);
    assert(seq![d1, d2].drop_last() =~= seq![d1]);
    assert(seq![d1].drop_last() =~= Seq::<u8>::empty());
    assert(seq![d1].last() == d1);
    assert(seq![d1, d2].last() == d2);
    assert(three.last() == d3);
    assert(crate::hex::hex_value(Seq::<u8>::empty()) == 0);
    assert(crate::hex::hex_value(seq![d1]) == i);
    assert(crate::hex::hex_value(seq![d1, d2]) == 16 * i + j);
    assert(crate::hex::hex_value(three) == 256 * i + 16 * j + k);
    assert(crate::hex::all_hex(three)) by {
        assert(forall|x: int| 0 <= x < 3 ==> three[x] == d1 || three[x] == d2 || three[x] == d3);
    }
}

} // verus!
