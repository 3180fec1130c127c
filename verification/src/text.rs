//! Text helpers over `str`, stated over sequences of characters.

use vstd::prelude::*;
use vstd::utf8::{decode_utf8, encode_utf8, encode_utf8_decode_utf8, valid_utf8};

verus! {

/// `std::str::from_utf8`: the text that the bytes spell in UTF-8, or `None`
/// where they are not valid UTF-8. The error value of std is dropped.
#[verifier::external_body]
pub(crate) fn str_from_utf8(raw: &[u8]) -> (text: Option<&str>)
    ensures
        match text {
            Some(text) => valid_utf8(raw@) && text@ == decode_utf8(raw@),
            None => !valid_utf8(raw@),
        },
{
    std::str::from_utf8(raw).ok()
}

/// Whether two texts are the same sequence of characters.
pub fn same_text(left: &str, right: &str) -> (same: bool)
    ensures
        same == (left@ == right@),
{
    let a = left.as_bytes();
    let b = right.as_bytes();
    proof {
        encode_utf8_decode_utf8(left@);
        encode_utf8_decode_utf8(right@);
    }
    if a.len() != b.len() {
        return false;
    }
    let mut i: usize = 0;
    while i < a.len()
        invariant
            i <= a@.len(),
            a@.len() == b@.len(),
            a@.take(i as int) == b@.take(i as int),
            a@ == encode_utf8(left@),
            b@ == encode_utf8(right@),
            decode_utf8(encode_utf8(left@)) == left@,
            decode_utf8(encode_utf8(right@)) == right@,
        decreases a@.len() - i,
    {
        if a[i] != b[i] {
            assert(a@[i as int] != b@[i as int]);
            return false;
        }
        assert(a@.take(i + 1) =~= a@.take(i as int).push(a@[i as int]));
        assert(b@.take(i + 1) =~= b@.take(i as int).push(b@[i as int]));
        i += 1;
    }
    assert(a@ =~= a@.take(i as int));
    assert(b@ =~= b@.take(i as int));
    true
}

/// `text` with every match of `from` replaced by `to`, as `str::replace`
/// does it: matches are found from left to right and do not overlap. The
/// empty pattern matches before every character and at the end.
pub open spec fn replaced(text: Seq<char>, from: Seq<char>, to: Seq<char>) -> Seq<char>
    decreases text.len(),
{
    if from.len() == 0 {
        if text.len() == 0 {
            to
        } else {
            to + seq![text[0]] + replaced(text.drop_first(), from, to)
        }
    } else if text.len() < from.len() {
        text
    } else if text.take(from.len() as int) == from {
        to + replaced(text.skip(from.len() as int), from, to)
    } else {
        seq![text[0]] + replaced(text.drop_first(), from, to)
    }
}

/// `str::replace` of std, with a pattern that is a string.
#[verifier::external_body]
pub(crate) fn replace_all(text: &str, from: &str, to: &str) -> (out: String)
    ensures
        out@ == replaced(text@, from@, to@),
{
    text.replace(from, to)
}

/// `from` stands in `text` at position `at`.
pub open spec fn occurs_at(text: Seq<char>, from: Seq<char>, at: int) -> bool {
    0 <= at && at + from.len() <= text.len() && text.subrange(at, at + from.len()) == from
}

/// A text in which the pattern does not occur stays as it is.
pub proof fn lemma_replaced_without_match(text: Seq<char>, from: Seq<char>, to: Seq<char>)
    requires
        from.len() > 0,
        forall|at: int| !occurs_at(text, from, at),
    ensures
        replaced(text, from, to) == text,
    decreases text.len(),
{
    if text.len() >= from.len() {
        assert(!occurs_at(text, from, 0));
        assert(text.take(from.len() as int) =~= text.subrange(0int, 0int + from.len()));
        let rest = text.drop_first();
        assert forall|at: int| !occurs_at(rest, from, at) by {
            if occurs_at(rest, from, at) {
                assert(rest.subrange(at, at + from.len()) =~= text.subrange(
                    at + 1,
                    at + 1 + from.len(),
                ));
                assert(occurs_at(text, from, at + 1));
            }
        }
        lemma_replaced_without_match(rest, from, to);
        assert(seq![text[0]] + rest =~= text);
    }
}

/// The leftmost match is replaced, what stands before it is kept, and
/// what follows it is treated in the same way: every match is replaced
/// once, and the replacement itself is not searched.
pub proof fn lemma_replaced_first_match(
    text: Seq<char>,
    from: Seq<char>,
    to: Seq<char>,
    at: int,
)
    requires
        from.len() > 0,
        occurs_at(text, from, at),
        forall|before: int| 0 <= before < at ==> !occurs_at(text, from, before),
    ensures
        replaced(text, from, to) == text.take(at) + to + replaced(
            text.skip(at + from.len()),
            from,
            to,
        ),
    decreases at,
{
    assert(text.take(from.len() as int) =~= text.subrange(0int, 0int + from.len()));
    if at == 0 {
        assert(text.take(0) + to =~= to);
    } else {
        assert(!occurs_at(text, from, 0));
        let rest = text.drop_first();
        assert(rest.subrange(at - 1, at - 1 + from.len()) =~= text.subrange(at, at + from.len()));
        assert forall|before: int| 0 <= before < at - 1 implies !occurs_at(rest, from, before) by {
            if occurs_at(rest, from, before) {
                assert(rest.subrange(before, before + from.len()) =~= text.subrange(
                    before + 1,
                    before + 1 + from.len(),
                ));
                assert(occurs_at(text, from, before + 1));
            }
        }
        lemma_replaced_first_match(rest, from, to, at - 1);
        assert(rest.skip(at - 1 + from.len()) =~= text.skip(at + from.len()));
        assert(seq![text[0]] + (rest.take(at - 1) + to + replaced(
            text.skip(at + from.len()),
            from,
            to,
        )) =~= text.take(at) + to + replaced(text.skip(at + from.len()), from, to));
    }
}

/// Whether the text has a dot in it.
pub fn has_dot(text: &str) -> (found: bool)
    ensures
        found == text@.contains('.'),
{
    broadcast use vstd::string::group_string_axioms;

    let mut found = false;
    for c in it: text.chars()
        invariant
            it.seq() == text@,
            found == (exists|j: int| 0 <= j < it.index() && text@[j] == '.'),
    {
        if c == '.' {
            found = true;
        }
    }
    found
}

} // verus!
