//! Text helpers: letter case, prefixes up to a marker, and decimal numbers.
use vstd::prelude::*;

verus! {

/// The ASCII lower case of one character: `A` to `Z` become `a` to `z`, all others stay.
pub open spec fn ascii_lower_char(c: char) -> char {
    if 'A' <= c && c <= 'Z' {
        ((c as u32 + 32) as u32) as char
    } else {
        c
    }
}

/// The ASCII lower case of a text.
pub open spec fn ascii_lower(s: Seq<char>) -> Seq<char> {
    Seq::new(s.len(), |i: int| ascii_lower_char(s[i]))
}

/// A text in ASCII lower case has itself for its ASCII lower case.
pub proof fn law_ascii_lower_idempotent(s: Seq<char>)
    ensures
        ascii_lower(ascii_lower(s)) == ascii_lower(s),
{
    assert(ascii_lower(ascii_lower(s)) =~= ascii_lower(s));
}

/// The Unicode lower case of a text, as `str::to_lowercase` gives it.
pub uninterp spec fn unicode_lower(s: Seq<char>) -> Seq<char>;

/// The lower case that paths are stored and looked up in.
pub open spec fn lower(s: Seq<char>) -> Seq<char> {
    if vstd::utf8::is_ascii_chars(s) {
        ascii_lower(s)
    } else {
        unicode_lower(s)
    }
}

/// Whether `s` is the lower case of some text.
pub open spec fn is_lowered(s: Seq<char>) -> bool {
    exists|raw: Seq<char>| #[trigger] lower(raw) == s
}

/// `str::to_ascii_lowercase`: each ASCII upper case letter is mapped to its lower case, and
/// every other character is kept.
pub assume_specification[ str::to_ascii_lowercase ](s: &str) -> (r: String)
    ensures
        r@ == ascii_lower(s@),
;

/// `str::eq_ignore_ascii_case`: whether the two texts have the same ASCII lower case.
pub assume_specification[ str::eq_ignore_ascii_case ](s: &str, other: &str) -> (r: bool)
    ensures
        r == (ascii_lower(s@) == ascii_lower(other@)),
;

/// `str::to_lowercase`: the lower case by Unicode's tables, in which no ASCII upper case letter is
/// left. What else it is on a given text is left to the name `unicode_lower`. That the lower case
/// of a lower case is the same again is not stated: the standard library does not promise it.
#[verifier::external_body]
fn unicode_lowercase(s: &str) -> (r: String)
    ensures
        r@ == unicode_lower(s@),
        ascii_lower(r@) == r@,
{
    s.to_lowercase()
}

/// The lower case of `s`: letter by letter for ASCII, by Unicode's tables otherwise.
pub fn to_lowercase(s: &str) -> (r: String)
    ensures
        r@ == lower(s@),
        ascii_lower(r@) == r@,
{
    proof {
        law_ascii_lower_idempotent(s@);
    }
    if s.is_ascii() {
        s.to_ascii_lowercase()
    } else {
        unicode_lowercase(s)
    }
}

/// The part of `s` before the first `mark`, or all of `s` where there is none.
pub open spec fn before(s: Seq<char>, mark: char) -> Seq<char> {
    match s.index_of_first(mark) {
        Some(i) => s.take(i),
        None => s,
    }
}

/// The characters of `s`.
pub fn chars_of(s: &str) -> (r: Vec<char>)
    ensures
        r@ == s@,
{
    let mut r: Vec<char> = Vec::new();
    for c in it: s.chars()
        invariant
            it.seq() == s@,
            r@ == s@.take(it.index() as int),
    {
        r.push(c);
        assert(r@ =~= s@.take(it.index() + 1));
    }
    assert(s@.take(s@.len() as int) =~= s@);
    r
}

/// The part of `s` before the first `mark`.
pub fn text_before(s: &str, mark: char) -> (r: String)
    ensures
        r@ == before(s@, mark),
{
    let chars = chars_of(s);
    let mut i: usize = 0;
    while i < chars.len()
        invariant
            i <= chars.len(),
            chars@ == s@,
            forall|j: int| 0 <= j < i ==> s@[j] != mark,
        decreases chars.len() - i,
    {
        if chars[i] == mark {
            proof {
                s@.index_of_first_ensures(mark);
                assert(s@.contains(mark));
            }
            return s.substring_char(0, i).to_owned();
        }
        i = i + 1;
    }
    proof {
        s@.index_of_first_ensures(mark);
    }
    s.to_owned()
}

/// The decimal digit `d`.
pub open spec fn digit(d: nat) -> char {
    ((d + 48) as u32) as char
}

/// The decimal digits of `n`, without leading zeros.
pub open spec fn digits(n: nat) -> Seq<char>
    decreases n,
{
    if n < 10 {
        seq![digit(n)]
    } else {
        digits(n / 10).push(digit(n % 10))
    }
}

fn digit_text(d: u64) -> (r: &'static str)
    requires
        d < 10,
    ensures
        r@ == seq![digit(d as nat)],
{
    proof {
        reveal_strlit("0");
        reveal_strlit("1");
        reveal_strlit("2");
        reveal_strlit("3");
        reveal_strlit("4");
        reveal_strlit("5");
        reveal_strlit("6");
        reveal_strlit("7");
        reveal_strlit("8");
        reveal_strlit("9");
    }
    if d == 0 {
        "0"
    } else if d == 1 {
        "1"
    } else if d == 2 {
        "2"
    } else if d == 3 {
        "3"
    } else if d == 4 {
        "4"
    } else if d == 5 {
        "5"
    } else if d == 6 {
        "6"
    } else if d == 7 {
        "7"
    } else if d == 8 {
        "8"
    } else {
        "9"
    }
}

/// `n` in decimal.
pub fn decimal(n: u64) -> (r: String)
    ensures
        r@ == digits(n as nat),
    decreases n,
{
    if n < 10 {
        digit_text(n).to_owned()
    } else {
        let mut s = decimal(n / 10);
        s.append(digit_text(n % 10));
        assert(s@ =~= digits(n as nat));
        s
    }
}

} // verus!
