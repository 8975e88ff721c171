//! Text handling that the rest of the crate shares: strings as sequences of
//! characters, lower case, and the search for one text in another.

use vstd::prelude::*;
use vstd::string::StringSliceAdditionalSpecFns;

verus! {

/// `String::push` puts the character at the end of the string.
pub assume_specification[ String::push ](text: &mut String, ch: char)
    ensures
        final(text)@ == old(text)@.push(ch),
;

/// `String::pop` takes the last character off the string and returns it,
/// or returns `None` and leaves the string empty where it was empty.
pub assume_specification[ String::pop ](text: &mut String) -> (last: Option<char>)
    ensures
        old(text)@.len() > 0 ==> last == Some(old(text)@.last()) && final(text)@ == old(
            text,
        )@.drop_last(),
        old(text)@.len() == 0 ==> last is None && final(text)@ == old(text)@,
;

/// `String::clear` empties the string.
pub assume_specification[ String::clear ](text: &mut String)
    ensures
        final(text)@ == Seq::<char>::empty(),
;

/// The lower case of a text, as `str::to_lowercase` gives it.
pub uninterp spec fn lowercase(text: Seq<char>) -> Seq<char>;

/// The first character of the lower case of a character, as the iterator of
/// `char::to_lowercase` gives it.
pub uninterp spec fn lowercase_head(c: char) -> Option<char>;

/// Whether `needle` stands in `haystack` at the place `at`.
pub open spec fn occurs_at<A>(needle: Seq<A>, haystack: Seq<A>, at: int) -> bool {
    &&& 0 <= at
    &&& at + needle.len() <= haystack.len()
    &&& haystack.subrange(at, at + needle.len()) == needle
}

/// Whether `needle` stands somewhere in `haystack`.
pub open spec fn occurs_in<A>(needle: Seq<A>, haystack: Seq<A>) -> bool {
    exists|at: int| occurs_at(needle, haystack, at)
}

/// The first place at which `needle` stands in `haystack`.
pub open spec fn is_first_occurrence<A>(needle: Seq<A>, haystack: Seq<A>, at: int) -> bool {
    &&& occurs_at(needle, haystack, at)
    &&& forall|earlier: int| 0 <= earlier < at ==> !occurs_at(needle, haystack, earlier)
}

/// Whether `a` comes before `b` in the order of the dictionary, byte by
/// byte: at the first place where they differ `a` has the smaller byte, or
/// `a` ends there and `b` goes on.
pub open spec fn bytes_before(a: Seq<u8>, b: Seq<u8>) -> bool
    decreases a.len(),
{
    if b.len() == 0 {
        false
    } else if a.len() == 0 {
        true
    } else if a[0] != b[0] {
        a[0] < b[0]
    } else {
        bytes_before(a.skip(1), b.skip(1))
    }
}

/// The order of strings, `<` on `str`: whether `a` comes before `b`, the
/// strings being compared by the values of their bytes.
#[verifier::external_body]
pub(crate) fn is_before(a: &str, b: &str) -> (before: bool)
    ensures
        before == bytes_before(a.spec_bytes(), b.spec_bytes()),
{
    a < b
}

/// `str::to_lowercase`: the lower case of `text`. The contract gives the
/// result its name and claims nothing else of it.
#[verifier::external_body]
pub(crate) fn to_lowercase(text: &str) -> (lower: String)
    ensures
        lower@ == lowercase(text@),
{
    text.to_lowercase()
}

/// `char::to_lowercase`, of which the first character is taken. The contract
/// gives the result its name and claims nothing else of it.
#[verifier::external_body]
pub(crate) fn first_of_lowercase(c: char) -> (head: Option<char>)
    ensures
        head == lowercase_head(c),
{
    c.to_lowercase().next()
}

/// `str::contains` with a string as the pattern: whether the characters of
/// `needle` stand, one after the other, somewhere in `haystack`.
#[verifier::external_body]
pub(crate) fn contains(haystack: &str, needle: &str) -> (found: bool)
    ensures
        found == occurs_in(needle@, haystack@),
{
    haystack.contains(needle)
}

/// `str::find` with a string as the pattern: the index of the byte at which
/// `needle` first stands in `haystack`, or `None` where it stands nowhere.
#[verifier::external_body]
pub(crate) fn find(haystack: &str, needle: &str) -> (at: Option<usize>)
    ensures
        match at {
            Some(index) => is_first_occurrence(
                needle.spec_bytes(),
                haystack.spec_bytes(),
                index as int,
            ),
            None => !occurs_in(needle.spec_bytes(), haystack.spec_bytes()),
        },
{
    haystack.find(needle)
}

/// The characters of `text`.
pub fn chars_of(text: &str) -> (chars: Vec<char>)
    ensures
        chars@ == text@,
{
    let mut chars: Vec<char> = Vec::new();
    for c in it: text.chars()
        invariant
            chars@ == it.seq().take(it.index() as int),
            it.seq() == text@,
    {
        chars.push(c);
    }
    chars
}

/// The string made of the characters `chars[from..to]`.
pub fn string_of(chars: &Vec<char>, from: usize, to: usize) -> (text: String)
    requires
        from <= to <= chars@.len(),
    ensures
        text@ == chars@.subrange(from as int, to as int),
{
    let mut text = String::new();
    let mut i: usize = from;
    while i < to
        invariant
            from <= i <= to <= chars@.len(),
            text@ == chars@.subrange(from as int, i as int),
        decreases to - i,
    {
        text.push(chars[i]);
        proof {
            assert(chars@.subrange(from as int, i as int).push(chars@[i as int])
                =~= chars@.subrange(from as int, i + 1));
        }
        i += 1;
    }
    text
}

/// Puts the characters of `text` at the end of `out`.
pub fn push_str(out: &mut Vec<char>, text: &str)
    ensures
        final(out)@ == old(out)@ + text@,
{
    proof {
        assert(out@ + text@.take(0) =~= out@);
    }
    for c in it: text.chars()
        invariant
            out@ == old(out)@ + it.seq().take(it.index() as int),
            it.seq() == text@,
    {
        out.push(c);
        proof {
            assert(it.seq().take(it.index() as int).push(c) =~= it.seq().take(it.index() + 1));
        }
    }
    proof {
        assert(text@.take(text@.len() as int) =~= text@);
    }
}

} // verus!
