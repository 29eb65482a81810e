//! Work on texts: whether one occurs in another, and the decimal form of a number.

use vstd::prelude::*;
use vstd::string::*;
use vstd::utf8::*;

verus! {

/// `needle` stands in `hay` at the position `at`.
pub open spec fn occurs_at(hay: Seq<u8>, needle: Seq<u8>, at: int) -> bool {
    0 <= at && at + needle.len() <= hay.len() && hay.subrange(at, at + needle.len()) == needle
}

/// `needle` stands somewhere in `hay`.
pub open spec fn occurs(hay: Seq<u8>, needle: Seq<u8>) -> bool {
    exists|at: int| occurs_at(hay, needle, at)
}

/// The UTF-8 encoding of `needle` stands somewhere in that of `hay`: the match is
/// one of bytes, so letters of different case differ.
pub open spec fn text_contains(hay: Seq<char>, needle: Seq<char>) -> bool {
    occurs(encode_utf8(hay), encode_utf8(needle))
}

/// One of `texts` contains `needle`.
pub open spec fn any_contains(texts: Seq<Seq<char>>, needle: Seq<char>) -> bool {
    exists|i: int| 0 <= i < texts.len() && text_contains(#[trigger] texts[i], needle)
}

/// Whether `needle` stands in `hay` at the position `at`.
fn matches_at(hay: &[u8], needle: &[u8], at: usize) -> (found: bool)
    requires
        at + needle@.len() <= hay@.len(),
    ensures
        found == occurs_at(hay@, needle@, at as int),
{
    let len: usize = needle.len();
    let end: usize = hay.len();
    let mut k: usize = 0;
    while k < len
        invariant
            k <= len,
            len == needle@.len(),
            end == hay@.len(),
            at + len <= end,
            forall|j: int| 0 <= j < k ==> hay@[at + j] == needle@[j],
        decreases len - k,
    {
        if hay[at + k] != needle[k] {
            assert(hay@.subrange(at as int, at + len)[k as int] != needle@[k as int]);
            return false;
        }
        k += 1;
    }
    assert(hay@.subrange(at as int, at + len) =~= needle@);
    true
}

/// Whether `hay` contains `needle`.
pub fn contains(hay: &str, needle: &str) -> (found: bool)
    ensures
        found == text_contains(hay@, needle@),
{
    let all = hay.as_bytes();
    let part = needle.as_bytes();
    if part.len() > all.len() {
        return false;
    }
    let last: usize = all.len() - part.len();
    let mut at: usize = 0;
    loop
        invariant
            at <= last,
            last == all@.len() - part@.len(),
            all@ == encode_utf8(hay@),
            part@ == encode_utf8(needle@),
            forall|p: int| 0 <= p < at ==> !occurs_at(all@, part@, p),
        decreases last - at,
    {
        if matches_at(all, part, at) {
            return true;
        }
        if at == last {
            return false;
        }
        at += 1;
    }
}

/// Whether one of `texts` contains `needle`.
pub fn any_of_contains(texts: &Vec<String>, needle: &str) -> (found: bool)
    ensures
        found == any_contains(crate::record::texts(texts@), needle@),
{
    let mut i: usize = 0;
    while i < texts.len()
        invariant
            i <= texts.len(),
            forall|j: int| 0 <= j < i ==> !text_contains(texts[j]@, needle@),
        decreases texts.len() - i,
    {
        if contains(texts[i].as_str(), needle) {
            assert(crate::record::texts(texts@)[i as int] == texts[i as int]@);
            return true;
        }
        i += 1;
    }
    assert forall|j: int| 0 <= j < texts.len() implies !text_contains(
        #[trigger] crate::record::texts(texts@)[j],
        needle@,
    ) by {
        assert(crate::record::texts(texts@)[j] == texts[j]@);
    }
    false
}

/// The character of a decimal digit.
pub open spec fn digit(d: nat) -> char {
    if d == 0 {
        '0'
    } else if d == 1 {
        '1'
    } else if d == 2 {
        '2'
    } else if d == 3 {
        '3'
    } else if d == 4 {
        '4'
    } else if d == 5 {
        '5'
    } else if d == 6 {
        '6'
    } else if d == 7 {
        '7'
    } else if d == 8 {
        '8'
    } else {
        '9'
    }
}

/// The decimal form of `n`, without leading zeros.
pub open spec fn decimal(n: nat) -> Seq<char>
    decreases n,
{
    if n < 10 {
        seq![digit(n)]
    } else {
        decimal(n / 10).push(digit(n % 10))
    }
}

/// The text of a decimal digit.
fn digit_text(d: u64) -> (text: &'static str)
    requires
        d < 10,
    ensures
        text@ == seq![digit(d as nat)],
{
    proof {
        reveal_strlit("0");
        reveal_strlit("1");
        reveal_strlit("2");
        reveal_strlit("3");
        reveal_strlit("4");
        reveal_strlit("5");
        reveal_strlit("6");
        reveal_strlit("7");
        reveal_strlit("8");
        reveal_strlit("9");
    }
    let text = if d == 0 {
        "0"
    } else if d == 1 {
        "1"
    } else if d == 2 {
        "2"
    } else if d == 3 {
        "3"
    } else if d == 4 {
        "4"
    } else if d == 5 {
        "5"
    } else if d == 6 {
        "6"
    } else if d == 7 {
        "7"
    } else if d == 8 {
        "8"
    } else {
        "9"
    };
    assert(text@ =~= seq![digit(d as nat)]);
    text
}

/// The decimal form of `n`.
pub fn to_decimal(n: u64) -> (text: String)
    ensures
        text@ == decimal(n as nat),
    decreases n,
{
    if n < 10 {
        String::from_str(digit_text(n))
    } else {
        let mut text = to_decimal(n / 10);
        text.append(digit_text(n % 10));
        assert(text@ =~= decimal(n as nat));
        text
    }
}

} // verus!
