//! The assembler's source text: comments are cut out and what is left is
//! split into whitespace-separated tokens. The text is handled byte by byte,
//! each byte standing for the character with that code.
use vstd::prelude::*;

verus! {

/// The comment character.
pub const HASH: u8 = 0x23;

/// The newline character, which ends a comment.
pub const NEWLINE: u8 = 0x0A;

/// Whether the character with code `b` is whitespace: tab, line feed,
/// vertical tab, form feed, carriage return, space, next line (0x85) and
/// no-break space (0xA0).
pub open spec fn is_space(b: u8) -> bool {
    (0x09 <= b && b <= 0x0D) || b == 0x20 || b == 0x85 || b == 0xA0
}

/// The text from index `i` on with its comments cut out: a comment runs from
/// `#` up to and including the next newline, or to the end of the text if no
/// newline follows. `in_comment` says whether index `i` is inside one.
pub open spec fn strip_from(s: Seq<u8>, i: int, in_comment: bool) -> Seq<u8>
    decreases s.len() - i,
{
    if i >= s.len() {
        Seq::empty()
    } else if in_comment {
        strip_from(s, i + 1, s[i] != NEWLINE)
    } else if s[i] == HASH {
        strip_from(s, i + 1, true)
    } else {
        seq![s[i]] + strip_from(s, i + 1, false)
    }
}

/// The whole text with its comments cut out.
pub open spec fn strip_comments(s: Seq<u8>) -> Seq<u8> {
    strip_from(s, 0, false)
}

/// The token being read, closed: nothing if it is empty.
pub open spec fn close_token(cur: Seq<u8>) -> Seq<Seq<u8>> {
    if cur.len() == 0 { Seq::empty() } else { seq![cur] }
}

/// The tokens of `s` from index `i` on, where `cur` holds the part of a
/// token already read.
pub open spec fn split_from(s: Seq<u8>, i: int, cur: Seq<u8>) -> Seq<Seq<u8>>
    decreases s.len() - i,
{
    if i >= s.len() {
        close_token(cur)
    } else if is_space(s[i]) {
        close_token(cur) + split_from(s, i + 1, Seq::empty())
    } else {
        split_from(s, i + 1, cur.push(s[i]))
    }
}

/// The maximal runs of non-whitespace characters of `s`, in order.
pub open spec fn split_whitespace(s: Seq<u8>) -> Seq<Seq<u8>> {
    split_from(s, 0, Seq::empty())
}

/// Cuts the comments out of `in_bytes`: each `#` up to and including the
/// next newline goes, or up to the end where no newline follows.
pub fn strip_comments_exec(in_bytes: &[u8]) -> (r: Vec<u8>)
    ensures
        r@ == strip_comments(in_bytes@),
{
    let mut index: usize = 0;
    let mut mod_bytes: Vec<u8> = Vec::new();
    while index < in_bytes.len()
        invariant
            index <= in_bytes@.len(),
            strip_comments(in_bytes@) == mod_bytes@ + strip_from(in_bytes@, index as int, false),
        decreases in_bytes@.len() - index,
    {
        if in_bytes[index] == HASH {
            let ghost start = index;
            index += 1;
            while index < in_bytes.len() && in_bytes[index] != NEWLINE
                invariant
                    start < index <= in_bytes@.len(),
                    strip_from(in_bytes@, start as int, false) == strip_from(in_bytes@, index as int, true),
                decreases in_bytes@.len() - index,
            {
                index += 1;
            }
            if index < in_bytes.len() {
                index += 1;
            }
            continue;
        }
        let ghost before = mod_bytes@;
        mod_bytes.push(in_bytes[index]);
        assert(before + (seq![in_bytes@[index as int]] + strip_from(in_bytes@, index + 1, false))
            =~= mod_bytes@ + strip_from(in_bytes@, index + 1, false));
        index += 1;
    }
    assert(mod_bytes@ + strip_from(in_bytes@, index as int, false) =~= mod_bytes@);
    mod_bytes
}

/// Splits `text` into its whitespace-separated tokens.
pub fn split_whitespace_exec(text: &[u8]) -> (r: Vec<Vec<u8>>)
    ensures
        views(r@) == split_whitespace(text@),
{
    let mut tokens: Vec<Vec<u8>> = Vec::new();
    let mut cur: Vec<u8> = Vec::new();
    let mut i: usize = 0;
    while i < text.len()
        invariant
            i <= text@.len(),
            split_whitespace(text@) == views(tokens@) + split_from(text@, i as int, cur@),
        decreases text@.len() - i,
    {
        let ghost old_tokens = views(tokens@);
        if is_space_exec(text[i]) {
            if cur.len() > 0 {
                let ghost c = cur@;
                tokens.push(cur);
                assert(views(tokens@) =~= old_tokens + seq![c]);
                cur = Vec::new();
                assert(old_tokens + (close_token(c) + split_from(text@, i + 1, Seq::empty()))
                    =~= views(tokens@) + split_from(text@, i + 1, cur@));
            } else {
                assert(close_token(cur@) =~= Seq::<Seq<u8>>::empty());
                assert(cur@ =~= Seq::<u8>::empty());
                assert(old_tokens + (close_token(cur@) + split_from(text@, i + 1, Seq::empty()))
                    =~= views(tokens@) + split_from(text@, i + 1, Seq::empty()));
            }
        } else {
            cur.push(text[i]);
        }
        i += 1;
    }
    if cur.len() > 0 {
        let ghost old_tokens = views(tokens@);
        let ghost c = cur@;
        tokens.push(cur);
        assert(views(tokens@) =~= old_tokens + seq![c]);
    } else {
        assert(split_whitespace(text@) =~= views(tokens@));
    }
    tokens
}

/// The byte sequences held by a list of byte vectors.
pub open spec fn views(ts: Seq<Vec<u8>>) -> Seq<Seq<u8>> {
    Seq::new(ts.len(), |i: int| ts[i]@)
}

/// Whether the character with code `b` is whitespace.
pub fn is_space_exec(b: u8) -> (r: bool)
    ensures
        r == is_space(b),
{
    (0x09 <= b && b <= 0x0D) || b == 0x20 || b == 0x85 || b == 0xA0
}

} // verus!
