//! The essence of a mime type: its type and subtype, without parameters.
//! Type and subtype are read without regard to the case of their letters.

use vstd::prelude::*;
use vstd::string::StrSliceExecFns;

verus! {

/// A space or a tab.
pub open spec fn is_blank(c: char) -> bool {
    c == ' ' || c == '\t'
}

/// The text before the first `;`, or all of it where there is none.
pub open spec fn before_parameters(mime: Seq<char>) -> Seq<char>
    decreases mime.len(),
{
    if mime.len() == 0 || mime[0] == ';' {
        Seq::empty()
    } else {
        seq![mime[0]] + before_parameters(mime.drop_first())
    }
}

/// The text without the blanks at its end.
pub open spec fn without_trailing_blanks(text: Seq<char>) -> Seq<char>
    decreases text.len(),
{
    if text.len() > 0 && is_blank(text.last()) {
        without_trailing_blanks(text.drop_last())
    } else {
        text
    }
}

/// The essence of a mime type: what stands before its parameters, without
/// the blanks that may stand before the `;`. The essence of
/// `text/html; charset=utf-8` is `text/html`.
pub open spec fn essence(mime: Seq<char>) -> Seq<char> {
    without_trailing_blanks(before_parameters(mime))
}

/// Where the first `;` stands at `cut`, or `cut` is the length of a text
/// without one, what stands before the parameters is the first `cut` characters.
pub proof fn lemma_before_parameters(mime: Seq<char>, cut: int)
    requires
        0 <= cut <= mime.len(),
        forall|i: int| 0 <= i < cut ==> mime[i] != ';',
        cut == mime.len() || mime[cut] == ';',
    ensures
        before_parameters(mime) == mime.take(cut),
    decreases cut,
{
    if cut == 0 {
        assert(mime.take(0) =~= Seq::empty());
    } else {
        let rest = mime.drop_first();
        assert forall|i: int| 0 <= i < cut - 1 implies rest[i] != ';' by {
            assert(rest[i] == mime[i + 1]);
        }
        lemma_before_parameters(rest, cut - 1);
        assert(seq![mime[0]] + rest.take(cut - 1) =~= mime.take(cut));
    }
}

/// Where only blanks stand from `end` on and none stands just before it,
/// the text without its trailing blanks is its first `end` characters.
pub proof fn lemma_without_trailing_blanks(text: Seq<char>, end: int)
    requires
        0 <= end <= text.len(),
        forall|i: int| end <= i < text.len() ==> is_blank(#[trigger] text[i]),
        end == 0 || !is_blank(text[end - 1]),
    ensures
        without_trailing_blanks(text) == text.take(end),
    decreases text.len() - end,
{
    if end == text.len() {
        assert(text.take(end) =~= text);
    } else {
        let shorter = text.drop_last();
        assert(is_blank(text[text.len() - 1]));
        lemma_without_trailing_blanks(shorter, end);
        assert(shorter.take(end) =~= text.take(end));
    }
}

/// Parameters make no difference to the essence: a type and subtype
/// without `;` in it and without a blank at its end is its own essence,
/// and the essence of itself followed by `;` and anything.
pub proof fn lemma_essence_ignores_parameters(kind: Seq<char>, parameters: Seq<char>)
    requires
        forall|i: int| 0 <= i < kind.len() ==> kind[i] != ';',
        kind.len() == 0 || !is_blank(kind.last()),
    ensures
        essence(kind) == kind,
        essence(kind + seq![';'] + parameters) == kind,
{
    let whole = kind + seq![';'] + parameters;
    lemma_before_parameters(kind, kind.len() as int);
    lemma_before_parameters(whole, kind.len() as int);
    assert(kind.take(kind.len() as int) =~= kind);
    assert(whole.take(kind.len() as int) =~= kind);
    lemma_without_trailing_blanks(kind, kind.len() as int);
}

/// The essence of a mime type, as a part of the text given.
pub fn essence_of(mime: &str) -> (found: &str)
    ensures
        found@ == essence(mime@),
{
    broadcast use vstd::string::group_string_axioms;

    let len = mime.unicode_len();
    let mut seen = false;
    let mut end: usize = 0;
    let mut at: usize = 0;
    let ghost mut cut: int = 0;
    for c in it: mime.chars()
        invariant
            it.seq() == mime@,
            len == mime@.len(),
            at == it.index(),
            end <= cut <= at,
            !seen ==> cut == at,
            seen ==> cut < at && mime@[cut] == ';',
            forall|i: int| 0 <= i < cut ==> mime@[i] != ';',
            forall|i: int| end <= i < cut ==> is_blank(#[trigger] mime@[i]),
            end == 0 || !is_blank(mime@[end - 1]),
    {
        if !seen {
            if c == ';' {
                seen = true;
            } else {
                if c != ' ' && c != '\t' {
                    end = at + 1;
                }
                proof {
                    cut = cut + 1;
                }
            }
        }
        at += 1;
    }
    proof {
        lemma_before_parameters(mime@, cut);
        lemma_without_trailing_blanks(mime@.take(cut), end as int);
        assert(mime@.take(cut).take(end as int) =~= mime@.subrange(0, end as int));
    }
    mime.substring_char(0, end)
}

/// A capital letter of ASCII as its small letter, any other character as it is.
pub open spec fn folded(c: char) -> char {
    if 'A' <= c && c <= 'Z' {
        ((c as u32) + 32) as char
    } else {
        c
    }
}

/// The text with its capital letters of ASCII made small.
pub open spec fn lowered(text: Seq<char>) -> Seq<char> {
    Seq::new(text.len(), |i: int| folded(text[i]))
}

/// A capital letter of ASCII as its small letter, any other character as it is.
pub fn fold(c: char) -> (small: char)
    ensures
        small == folded(c),
{
    if c >= 'A' && c <= 'Z' {
        let code: u8 = c as u8;
        (code + 32) as char
    } else {
        c
    }
}

/// Whether the text, with its capital letters made small, is `kind`.
pub fn is_kind(text: &str, kind: &str) -> (same: bool)
    ensures
        same == (lowered(text@) == kind@),
{
    let len = kind.unicode_len();
    if text.unicode_len() != len {
        return false;
    }
    let mut i: usize = 0;
    while i < len
        invariant
            i <= len,
            len == kind@.len(),
            len == text@.len(),
            forall|j: int| 0 <= j < i ==> folded(text@[j]) == kind@[j],
        decreases len - i,
    {
        if fold(text.get_char(i)) != kind.get_char(i) {
            assert(lowered(text@)[i as int] != kind@[i as int]);
            return false;
        }
        i += 1;
    }
    assert(lowered(text@) =~= kind@);
    true
}

} // verus!
