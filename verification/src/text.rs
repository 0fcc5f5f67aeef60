//! Character classes, string comparison and whitespace trimming.
//!
//! The library works over ASCII character classes: `is_space_char` is the
//! ASCII whitespace set, `is_word_char` covers ASCII letters, digits and the
//! underscore, and `is_phrase_char` additionally admits spaces, commas and
//! hyphens. These are the classes of the command grammar in `classify`.

use vstd::prelude::*;

verus! {

/// The whitespace characters recognized by the grammar and by trimming.
pub open spec fn is_space_char(c: char) -> bool {
    c == ' ' || c == '\t' || c == '\n' || c == '\r' || c == '\x0b' || c == '\x0c'
}

/// An ASCII letter, digit or underscore: the characters of a mention token
/// and of a stored word.
pub open spec fn is_word_char(c: char) -> bool {
    (97 <= c as u32 && c as u32 <= 122)  // 'a'..='z'
    || (65 <= c as u32 && c as u32 <= 90)  // 'A'..='Z'
    || (48 <= c as u32 && c as u32 <= 57)  // '0'..='9'
    || c == '_'
}

/// A character allowed in the free-text tail of an add-word command.
pub open spec fn is_phrase_char(c: char) -> bool {
    is_word_char(c) || c == ' ' || c == ',' || c == '-'
}

/// A vowel, in either case: decides the article of a phrase.
pub open spec fn is_vowel(c: char) -> bool {
    c == 'a' || c == 'e' || c == 'i' || c == 'o' || c == 'u'
    || c == 'A' || c == 'E' || c == 'I' || c == 'O' || c == 'U'
}

pub fn space_char(c: char) -> (r: bool)
    ensures
        r == is_space_char(c),
{
    c == ' ' || c == '\t' || c == '\n' || c == '\r' || c == '\x0b' || c == '\x0c'
}

pub fn word_char(c: char) -> (r: bool)
    ensures
        r == is_word_char(c),
{
    let u: u32 = c as u32;
    (97 <= u && u <= 122) || (65 <= u && u <= 90) || (48 <= u && u <= 57) || c == '_'
}

pub fn phrase_char(c: char) -> (r: bool)
    ensures
        r == is_phrase_char(c),
{
    word_char(c) || c == ' ' || c == ',' || c == '-'
}

pub fn vowel(c: char) -> (r: bool)
    ensures
        r == is_vowel(c),
{
    c == 'a' || c == 'e' || c == 'i' || c == 'o' || c == 'u'
    || c == 'A' || c == 'E' || c == 'I' || c == 'O' || c == 'U'
}

/// Character-for-character string equality.
pub fn str_eq(a: &str, b: &str) -> (r: bool)
    ensures
        r == (a@ == b@),
{
    let na: usize = a.unicode_len();
    let nb: usize = b.unicode_len();
    if na != nb {
        return false;
    }
    let mut i: usize = 0;
    while i < na
        invariant
            na == a@.len(),
            na == b@.len(),
            i <= na,
            forall|k: int| 0 <= k < i ==> a@[k] == b@[k],
        decreases na - i,
    {
        if a.get_char(i) != b.get_char(i) {
            return false;
        }
        i = i + 1;
    }
    proof {
        assert(a@ =~= b@);
    }
    true
}

/// The string with leading and trailing whitespace removed.
pub open spec fn trimmed(s: Seq<char>) -> Seq<char>
    decreases s.len(),
{
    if s.len() == 0 {
        s
    } else if is_space_char(s[0]) {
        trimmed(s.drop_first())
    } else if is_space_char(s[s.len() - 1]) {
        trimmed(s.drop_last())
    } else {
        s
    }
}

/// A subrange that drops exactly the surrounding whitespace is the trimmed
/// string.
#[verifier::rlimit(60)]
proof fn lemma_trimmed_is_subrange(s: Seq<char>, a: int, b: int)
    requires
        0 <= a <= b <= s.len(),
        forall|k: int| 0 <= k < a ==> is_space_char(s[k]),
        forall|k: int| b <= k < s.len() ==> is_space_char(s[k]),
        a == b || (!is_space_char(s[a]) && !is_space_char(s[b - 1])),
    ensures
        trimmed(s) == s.subrange(a, b),
    decreases s.len(),
{
    if s.len() == 0 {
        assert(trimmed(s) =~= s.subrange(a, b));
    } else if is_space_char(s[0]) {
        if a == 0 {
            // Then a == b == 0 and every character of s is whitespace.
            assert(b == 0);
            lemma_trimmed_is_subrange(s.drop_first(), 0, 0);
            assert(trimmed(s) =~= s.subrange(a, b));
        } else {
            let t = s.drop_first();
            assert(forall|k: int| 0 <= k < a - 1 ==> is_space_char(t[k]));
            assert(forall|k: int| b - 1 <= k < t.len() ==> is_space_char(t[k]));
            lemma_trimmed_is_subrange(t, a - 1, b - 1);
            assert(trimmed(s) == trimmed(t));
            assert(t.subrange(a - 1, b - 1) =~= s.subrange(a, b));
        }
    } else {
        // s[0] is not whitespace, so a == 0.
        assert(a == 0);
        if is_space_char(s[s.len() - 1]) {
            assert(b < s.len());
            let t = s.drop_last();
            assert(forall|k: int| b <= k < t.len() ==> is_space_char(t[k]));
            lemma_trimmed_is_subrange(t, a, b);
            assert(t.subrange(a, b) =~= s.subrange(a, b));
        } else {
            assert(b == s.len());
            assert(trimmed(s) =~= s.subrange(a, b));
        }
    }
}

/// Trimming a trimmed string changes nothing.
pub proof fn lemma_trimmed_idempotent(s: Seq<char>)
    ensures
        trimmed(trimmed(s)) == trimmed(s),
    decreases s.len(),
{
    if s.len() == 0 {
    } else if is_space_char(s[0]) {
        lemma_trimmed_idempotent(s.drop_first());
    } else if is_space_char(s[s.len() - 1]) {
        lemma_trimmed_idempotent(s.drop_last());
    }
}

/// Removes the surrounding whitespace of `s`.
pub fn trim_str(s: &str) -> (r: String)
    ensures
        r@ == trimmed(s@),
{
    let n: usize = s.unicode_len();
    let mut a: usize = 0;
    while a < n && space_char(s.get_char(a))
        invariant
            n == s@.len(),
            a <= n,
            forall|k: int| 0 <= k < a ==> is_space_char(s@[k]),
        decreases n - a,
    {
        a = a + 1;
    }
    let mut b: usize = n;
    while b > a && space_char(s.get_char(b - 1))
        invariant
            n == s@.len(),
            a <= b <= n,
            forall|k: int| 0 <= k < a ==> is_space_char(s@[k]),
            forall|k: int| b <= k < n ==> is_space_char(s@[k]),
        decreases b,
    {
        b = b - 1;
    }
    proof {
        lemma_trimmed_is_subrange(s@, a as int, b as int);
    }
    let piece: &str = s.substring_char(a, b);
    String::from_str(piece)
}

} // verus!
