//! The command grammar: classifies one inbound message into a command.
//!
//! Three anchored patterns are tried in order, first match wins:
//! 1. `insult <mention>` at the end of the message, with a word boundary
//!    before `insult`, names a target to insult.
//! 2. `insult me` at the end of the message insults the requester.
//! 3. An optional leading mention, then `add`, then `adjective` or `noun`,
//!    then a free-text word running to the end of the message, adds a word.
//! Anything else is no command. A mention token is `<@U…>` with word
//! characters after the `U`; the character classes are the ASCII classes of
//! `crate::text`.

use vstd::prelude::*;
use crate::text::is_phrase_char;
use crate::text::is_space_char;
use crate::text::is_word_char;
use crate::text::trimmed;
use crate::words::Category;

verus! {

/// The classification of one inbound message.
#[derive(Debug, PartialEq)]
pub enum CommandMatch {
    /// A request to insult the named target.
    InsultRequest { target: String },
    /// A request to add `word` to the category.
    AddWord { category: Category, word: String },
    /// An add-word request whose word was empty after trimming.
    RejectedAddWord,
    /// Not a command.
    NoMatch,
}

/// The mention token that addresses a user.
pub open spec fn user_tag(u: Seq<char>) -> Seq<char> {
    seq!['<', '@'] + u + seq!['>']
}

/// The literal `insult` occupies `s[i..i+6)`.
pub open spec fn insult_lit_at(s: Seq<char>, i: int) -> bool {
    &&& 0 <= i
    &&& i + 6 <= s.len()
    &&& s[i] == 'i'
    &&& s[i + 1] == 'n'
    &&& s[i + 2] == 's'
    &&& s[i + 3] == 'u'
    &&& s[i + 4] == 'l'
    &&& s[i + 5] == 't'
}

/// A word boundary stands before position `i`.
pub open spec fn boundary_before(s: Seq<char>, i: int) -> bool {
    i == 0 || !is_word_char(s[i - 1])
}

/// A mention token `<@U…>` occupies `s[j..e)`, with at least one word
/// character after the `U`.
pub open spec fn mention_span(s: Seq<char>, j: int, e: int) -> bool {
    &&& 0 <= j
    &&& j + 5 <= e <= s.len()
    &&& s[j] == '<'
    &&& s[j + 1] == '@'
    &&& s[j + 2] == 'U'
    &&& s[e - 1] == '>'
    &&& forall|k: int| j + 3 <= k < e - 1 ==> is_word_char(s[k])
}

/// The first pattern matches with `insult` at `i` and the mention, the
/// capture, running from `j` to the end.
pub open spec fn insult_target_match_at(s: Seq<char>, i: int, j: int) -> bool {
    &&& insult_lit_at(s, i)
    &&& boundary_before(s, i)
    &&& i + 6 < j <= s.len()
    &&& forall|k: int| i + 6 <= k < j ==> is_space_char(s[k])
    &&& mention_span(s, j, s.len() as int)
}

pub open spec fn matches_insult_target(s: Seq<char>) -> bool {
    exists|i: int, j: int| insult_target_match_at(s, i, j)
}

/// The second pattern matches with `insult` at `i` and `me` at the end.
pub open spec fn insult_me_match_at(s: Seq<char>, i: int) -> bool {
    &&& insult_lit_at(s, i)
    &&& boundary_before(s, i)
    &&& i + 8 < s.len()
    &&& s[s.len() - 2] == 'm'
    &&& s[s.len() - 1] == 'e'
    &&& forall|k: int| i + 6 <= k < s.len() - 2 ==> is_space_char(s[k])
}

pub open spec fn matches_insult_me(s: Seq<char>) -> bool {
    exists|i: int| insult_me_match_at(s, i)
}

/// What may precede the `add` keyword at `p`: only whitespace, or a
/// mention token at the start followed by at least one whitespace
/// character.
pub open spec fn add_prefix_ok(s: Seq<char>, p: int) -> bool {
    ||| (forall|k: int| 0 <= k < p ==> is_space_char(s[k]))
    ||| (exists|e: int|
        mention_span(s, 0, e) && e < p && (forall|k: int| e <= k < p ==> is_space_char(s[k])))
}

/// The literal `add` occupies `s[p..p+3)`.
pub open spec fn lit_add_at(s: Seq<char>, p: int) -> bool {
    &&& 0 <= p
    &&& p + 3 <= s.len()
    &&& s[p] == 'a'
    &&& s[p + 1] == 'd'
    &&& s[p + 2] == 'd'
}

/// The category keyword at `c`: `adjective` names a descriptor, `noun` a
/// subject.
pub open spec fn category_lit_at(s: Seq<char>, c: int, cat: Category) -> bool {
    if cat == Category::Descriptor {
        &&& 0 <= c
        &&& c + 9 <= s.len()
        &&& s[c] == 'a'
        &&& s[c + 1] == 'd'
        &&& s[c + 2] == 'j'
        &&& s[c + 3] == 'e'
        &&& s[c + 4] == 'c'
        &&& s[c + 5] == 't'
        &&& s[c + 6] == 'i'
        &&& s[c + 7] == 'v'
        &&& s[c + 8] == 'e'
    } else {
        &&& 0 <= c
        &&& c + 4 <= s.len()
        &&& s[c] == 'n'
        &&& s[c + 1] == 'o'
        &&& s[c + 2] == 'u'
        &&& s[c + 3] == 'n'
    }
}

/// The length of the category keyword.
pub open spec fn cat_lit_len(cat: Category) -> int {
    if cat == Category::Descriptor {
        9
    } else {
        4
    }
}

/// The tail after the category keyword, from `q`, splits at `t` into at
/// least one whitespace character and a non-empty run of phrase characters
/// reaching the end.
pub open spec fn tail_split_at(s: Seq<char>, q: int, t: int) -> bool {
    &&& q < t < s.len()
    &&& (forall|k: int| q <= k < t ==> is_space_char(s[k]))
    &&& (forall|k: int| t <= k < s.len() ==> is_phrase_char(s[k]))
}

pub open spec fn tail_ok(s: Seq<char>, q: int) -> bool {
    exists|t: int| tail_split_at(s, q, t)
}

/// The third pattern matches with `add` at `p` and the category keyword at
/// `c`.
pub open spec fn add_match_at(s: Seq<char>, p: int, c: int, cat: Category) -> bool {
    &&& add_prefix_ok(s, p)
    &&& lit_add_at(s, p)
    &&& p + 3 < c <= s.len()
    &&& (forall|k: int| p + 3 <= k < c ==> is_space_char(s[k]))
    &&& category_lit_at(s, c, cat)
    &&& tail_ok(s, c + cat_lit_len(cat))
}

pub open spec fn matches_add(s: Seq<char>) -> bool {
    exists|p: int, c: int, cat: Category| add_match_at(s, p, c, cat)
}

/// The word an add command carries: the tail after the category keyword
/// with its surrounding whitespace removed.
pub open spec fn add_word_of(s: Seq<char>, c: int, cat: Category) -> Seq<char> {
    trimmed(s.subrange(c + cat_lit_len(cat), s.len() as int))
}

/// Two maximal runs of `pred`-characters starting at `lo` stop at the same
/// place.
proof fn lemma_first_stop(s: Seq<char>, pred: spec_fn(char) -> bool, lo: int, a: int, b: int)
    requires
        lo <= a <= s.len(),
        lo <= b <= s.len(),
        forall|k: int| lo <= k < a ==> pred(s[k]),
        a == s.len() || !pred(s[a]),
        forall|k: int| lo <= k < b ==> pred(s[k]),
        b == s.len() || !pred(s[b]),
    ensures
        a == b,
{
    if a < b {
        assert(pred(s[a]));
        assert(false);
    }
    if b < a {
        assert(pred(s[b]));
        assert(false);
    }
}

/// Two maximal runs of `pred`-characters ending at `hi` start at the same
/// place.
proof fn lemma_run_start(s: Seq<char>, pred: spec_fn(char) -> bool, hi: int, a: int, b: int)
    requires
        0 <= a <= hi <= s.len(),
        0 <= b <= hi,
        forall|k: int| a <= k < hi ==> pred(s[k]),
        a == 0 || !pred(s[a - 1]),
        forall|k: int| b <= k < hi ==> pred(s[k]),
        b == 0 || !pred(s[b - 1]),
    ensures
        a == b,
{
    if a < b {
        assert(pred(s[b - 1]));
        assert(false);
    }
    if b < a {
        assert(pred(s[a - 1]));
        assert(false);
    }
}

/// The first pattern's capture is unambiguous: any two matches agree on
/// where `insult` and the mention stand.
pub proof fn lemma_insult_target_unique(s: Seq<char>, i1: int, j1: int, i2: int, j2: int)
    requires
        insult_target_match_at(s, i1, j1),
        insult_target_match_at(s, i2, j2),
    ensures
        i1 == i2,
        j1 == j2,
{
    let n = s.len() as int;
    assert(j1 == j2) by {
        if j1 < j2 {
            if j2 == j1 + 1 {
                assert(s[j2] == '<' && s[j1 + 1] == '@');
            } else if j2 == j1 + 2 {
                assert(s[j2] == '<' && s[j1 + 2] == 'U');
            } else {
                assert(j1 + 3 <= j2 < n - 1);
                assert(is_word_char(s[j2]));
            }
            assert(false);
        }
        if j2 < j1 {
            if j1 == j2 + 1 {
                assert(s[j1] == '<' && s[j2 + 1] == '@');
            } else if j1 == j2 + 2 {
                assert(s[j1] == '<' && s[j2 + 2] == 'U');
            } else {
                assert(j2 + 3 <= j1 < n - 1);
                assert(is_word_char(s[j1]));
            }
            assert(false);
        }
    }
    assert(!is_space_char('t'));
    lemma_run_start(s, |c: char| is_space_char(c), j1, i1 + 6, i2 + 6);
}

/// The second pattern's position is unambiguous.
pub proof fn lemma_insult_me_unique(s: Seq<char>, i1: int, i2: int)
    requires
        insult_me_match_at(s, i1),
        insult_me_match_at(s, i2),
    ensures
        i1 == i2,
{
    assert(!is_space_char('t'));
    lemma_run_start(s, |c: char| is_space_char(c), s.len() - 2, i1 + 6, i2 + 6);
}

/// The third pattern's parse is unambiguous: any two matches agree on the
/// keyword positions and the category, hence on the captured word.
pub proof fn lemma_add_unique(
    s: Seq<char>,
    p1: int,
    c1: int,
    cat1: Category,
    p2: int,
    c2: int,
    cat2: Category,
)
    requires
        add_match_at(s, p1, c1, cat1),
        add_match_at(s, p2, c2, cat2),
    ensures
        p1 == p2,
        c1 == c2,
        cat1 == cat2,
{
    assert(!is_space_char('a') && !is_space_char('n') && !is_space_char('<'));
    assert(p1 == p2) by {
        lemma_add_start_unique(s, p1, p2);
    }
    assert(c1 == c2) by {
        lemma_first_stop(s, |c: char| is_space_char(c), p1 + 3, c1, c2);
    }
    if cat1 != cat2 {
        assert(s[c1] == 'a' && s[c1] == 'n');
    }
}

proof fn lemma_add_start_unique(s: Seq<char>, p1: int, p2: int)
    requires
        add_prefix_ok(s, p1),
        lit_add_at(s, p1),
        add_prefix_ok(s, p2),
        lit_add_at(s, p2),
    ensures
        p1 == p2,
{
    assert(!is_space_char('a') && !is_space_char('<') && !is_space_char('>'));
    let all1 = forall|k: int| 0 <= k < p1 ==> is_space_char(s[k]);
    let all2 = forall|k: int| 0 <= k < p2 ==> is_space_char(s[k]);
    if all1 && all2 {
        lemma_first_stop(s, |c: char| is_space_char(c), 0, p1, p2);
    } else if all1 && !all2 {
        let e2 = choose|e: int|
            mention_span(s, 0, e) && e < p2 && (forall|k: int|
                e <= k < p2 ==> is_space_char(s[k]));
        assert(s[0] == '<');
        if p1 > 0 {
            assert(is_space_char(s[0]));
        }
        assert(p1 == 0 && s[0] == 'a');
        assert(false);
    } else if !all1 && all2 {
        let e1 = choose|e: int|
            mention_span(s, 0, e) && e < p1 && (forall|k: int|
                e <= k < p1 ==> is_space_char(s[k]));
        assert(s[0] == '<');
        if p2 > 0 {
            assert(is_space_char(s[0]));
        }
        assert(p2 == 0 && s[0] == 'a');
        assert(false);
    } else {
        let e1 = choose|e: int|
            mention_span(s, 0, e) && e < p1 && (forall|k: int|
                e <= k < p1 ==> is_space_char(s[k]));
        let e2 = choose|e: int|
            mention_span(s, 0, e) && e < p2 && (forall|k: int|
                e <= k < p2 ==> is_space_char(s[k]));
        assert(e1 == e2) by {
            assert(is_word_char('U'));
            assert(!is_word_char('>'));
            lemma_first_stop(s, |c: char| is_word_char(c), 3, e1 - 1, e2 - 1);
        }
        lemma_first_stop(s, |c: char| is_space_char(c), e1, p1, p2);
    }
}

/// Copies the characters of `s` into a vector.
fn chars_of(s: &str) -> (v: Vec<char>)
    ensures
        v@ == s@,
{
    let n: usize = s.unicode_len();
    let mut v: Vec<char> = Vec::new();
    let mut i: usize = 0;
    while i < n
        invariant
            n == s@.len(),
            i <= n,
            v@.len() == i,
            forall|k: int| 0 <= k < i ==> v@[k] == s@[k],
        decreases n - i,
    {
        v.push(s.get_char(i));
        i = i + 1;
    }
    proof {
        assert(v@ =~= s@);
    }
    v
}

/// The mention token addressing the user with this identifier.
pub fn to_user_tag(user_id: &str) -> (r: String)
    ensures
        r@ == user_tag(user_id@),
{
    let mut out: String = String::from_str("<@");
    out.append(user_id);
    out.append(">");
    proof {
        reveal_strlit("<@");
        reveal_strlit(">");
        assert(out@ =~= user_tag(user_id@));
    }
    out
}

/// Finds the capture of the first pattern: the start of the trailing
/// mention token, if the pattern matches.
fn find_insult_target(v: &Vec<char>) -> (r: Option<usize>)
    ensures
        (r matches Some(j) ==> j < v@.len() && exists|i: int|
            insult_target_match_at(v@, i, j as int)),
        (r is None ==> !matches_insult_target(v@)),
{
    let ghost s = v@;
    let n: usize = v.len();
    if n < 12 || v[n - 1] != '>' {
        proof {
            if matches_insult_target(s) {
                let (i, j) = choose|i: int, j: int| insult_target_match_at(s, i, j);
                assert(s[s.len() - 1] == '>');
                assert(j >= i + 7 >= 7 && j + 5 <= s.len());
                assert(false);
            }
        }
        return None;
    }
    // The maximal run of word characters ending just before the final '>'.
    let mut m: usize = n - 1;
    while m > 0 && crate::text::word_char(v[m - 1])
        invariant
            n == v@.len(),
            m <= n - 1,
            forall|k: int| m <= k < n - 1 ==> is_word_char(v@[k]),
        decreases m,
    {
        m = m - 1;
    }
    if m < 2 || m > n - 3 || v[m] != 'U' || v[m - 1] != '@' || v[m - 2] != '<' {
        proof {
            if matches_insult_target(s) {
                let (i, j) = choose|i: int, j: int| insult_target_match_at(s, i, j);
                lemma_mention_run(s, j, m as int);
                assert(false);
            }
        }
        return None;
    }
    let j: usize = m - 2;
    // The maximal run of whitespace ending at the mention.
    let mut q: usize = j;
    while q > 0 && crate::text::space_char(v[q - 1])
        invariant
            n == v@.len(),
            q <= j,
            j == m - 2 < n,
            forall|k: int| q <= k < j ==> is_space_char(v@[k]),
        decreases q,
    {
        q = q - 1;
    }
    if q == j || q < 6 || !insult_lit_check(v, q - 6) || !boundary_check(v, q - 6) {
        proof {
            if matches_insult_target(s) {
                let (i, j2) = choose|i: int, j2: int| insult_target_match_at(s, i, j2);
                lemma_mention_run(s, j2, m as int);
                assert(j2 == j);
                assert(!is_space_char('t'));
                lemma_run_start(s, |c: char| is_space_char(c), j as int, i + 6, q as int);
                assert(false);
            }
        }
        return None;
    }
    proof {
        assert(mention_span(s, j as int, s.len() as int)) by {
            assert(is_word_char('U'));
        }
        assert(insult_target_match_at(s, q as int - 6, j as int));
    }
    Some(j)
}

/// From a first-pattern match and the maximal trailing word run starting at
/// `m`, the mention must start at `m - 2`.
proof fn lemma_mention_run(s: Seq<char>, j: int, m: int)
    requires
        mention_span(s, j, s.len() as int),
        0 <= m <= s.len() - 1,
        forall|k: int| m <= k < s.len() - 1 ==> is_word_char(s[k]),
        m == 0 || !is_word_char(s[m - 1]),
    ensures
        j == m - 2,
{
    assert(is_word_char('U'));
    assert(!is_word_char('@'));
    lemma_run_start(s, |c: char| is_word_char(c), s.len() - 1, j + 2, m);
}

/// Checks the literal `insult` at position `i`.
fn insult_lit_check(v: &Vec<char>, i: usize) -> (r: bool)
    requires
        i < v@.len(),
    ensures
        r == insult_lit_at(v@, i as int),
{
    let n: usize = v.len();
    if n - i < 6 {
        return false;
    }
    v[i] == 'i' && v[i + 1] == 'n' && v[i + 2] == 's' && v[i + 3] == 'u' && v[i + 4] == 'l' && v[i
        + 5] == 't'
}

/// Checks the word boundary before position `i`.
fn boundary_check(v: &Vec<char>, i: usize) -> (r: bool)
    requires
        i < v@.len(),
    ensures
        r == boundary_before(v@, i as int),
{
    i == 0 || !crate::text::word_char(v[i - 1])
}

/// Decides the second pattern.
fn find_insult_me(v: &Vec<char>) -> (r: bool)
    ensures
        r == matches_insult_me(v@),
{
    let ghost s = v@;
    let n: usize = v.len();
    if n < 9 || v[n - 2] != 'm' || v[n - 1] != 'e' {
        proof {
            if matches_insult_me(s) {
                let i = choose|i: int| insult_me_match_at(s, i);
                assert(false);
            }
        }
        return false;
    }
    // The maximal run of whitespace ending at the trailing "me".
    let mut q: usize = n - 2;
    while q > 0 && crate::text::space_char(v[q - 1])
        invariant
            n == v@.len(),
            q <= n - 2,
            forall|k: int| q <= k < n - 2 ==> is_space_char(v@[k]),
        decreases q,
    {
        q = q - 1;
    }
    if q == n - 2 || q < 6 || !insult_lit_check(v, q - 6) || !boundary_check(v, q - 6) {
        proof {
            if matches_insult_me(s) {
                let i = choose|i: int| insult_me_match_at(s, i);
                assert(!is_space_char('t'));
                lemma_run_start(s, |c: char| is_space_char(c), s.len() - 2, i + 6, q as int);
                assert(false);
            }
        }
        return false;
    }
    proof {
        assert(insult_me_match_at(s, q as int - 6));
    }
    true
}

/// Finds the third pattern's parse: the position just after the category
/// keyword, and the category, if the pattern matches.
#[verifier::rlimit(80)]
fn find_add(v: &Vec<char>) -> (r: Option<(usize, Category)>)
    ensures
        (r matches Some((after, cat)) ==> exists|p: int, c: int|
            add_match_at(v@, p, c, cat) && after == c + cat_lit_len(cat)),
        (r is None ==> !matches_add(v@)),
{
    let ghost s = v@;
    let n: usize = v.len();
    let mut p: usize = 0;
    if n > 0 && v[0] == '<' {
        // The prefix must be a mention token followed by whitespace.
        let e: usize = match mention_end_from_start(v) {
            Some(e) => e,
            None => {
                proof {
                    lemma_no_add_without_prefix(s);
                }
                return None;
            },
        };
        p = e;
        while p < n && crate::text::space_char(v[p])
            invariant
                n == v@.len(),
                e <= p <= n,
                forall|k: int| e <= k < p ==> is_space_char(v@[k]),
            decreases n - p,
        {
            p = p + 1;
        }
        if p == e {
            proof {
                if matches_add(s) {
                    let (p2, c2, cat2) = choose|p2: int, c2: int, cat2: Category|
                        add_match_at(s, p2, c2, cat2);
                    lemma_add_prefix_mention(s, p2, e as int);
                    let e2 = choose|e2: int|
                        mention_span(s, 0, e2) && e2 < p2 && (forall|k: int|
                            e2 <= k < p2 ==> is_space_char(s[k]));
                    assert(e2 == e);
                    assert(is_space_char(s[e as int]));
                    assert(false);
                }
            }
            return None;
        }
        proof {
            assert(add_prefix_ok(s, p as int)) by {
                assert(mention_span(s, 0, e as int) && (e as int) < p as int && (forall|k: int|
                    e as int <= k < p as int ==> is_space_char(s[k])));
            }
            assert forall|p2: int, c2: int, cat2: Category|
                add_match_at(s, p2, c2, cat2) implies p2 == p as int by {
                lemma_add_prefix_mention(s, p2, e as int);
                let e2 = choose|e2: int|
                    mention_span(s, 0, e2) && e2 < p2 && (forall|k: int|
                        e2 <= k < p2 ==> is_space_char(s[k]));
                assert(e2 == e);
                assert(!is_space_char('a'));
                lemma_first_stop(s, |ch: char| is_space_char(ch), e as int, p2, p as int);
            }
        }
    } else {
        while p < n && crate::text::space_char(v[p])
            invariant
                n == v@.len(),
                p <= n,
                forall|k: int| 0 <= k < p ==> is_space_char(v@[k]),
            decreases n - p,
        {
            p = p + 1;
        }
        proof {
            assert(add_prefix_ok(s, p as int));
            assert forall|p2: int, c2: int, cat2: Category|
                add_match_at(s, p2, c2, cat2) implies p2 == p as int by {
                lemma_add_prefix_plain(s, p2);
                assert(!is_space_char('a'));
                lemma_first_stop(s, |ch: char| is_space_char(ch), 0, p2, p as int);
            }
        }
    }
    // In either branch now: `add_prefix_ok(s, p)`, and any match must have
    // its `add` keyword exactly at `p`.
    if n - p < 3 || v[p] != 'a' || v[p + 1] != 'd' || v[p + 2] != 'd' {
        proof {
            if matches_add(s) {
                let (p2, c2, cat2) = choose|p2: int, c2: int, cat2: Category|
                    add_match_at(s, p2, c2, cat2);
                assert(p2 == p as int);
                assert(false);
            }
        }
        return None;
    }
    // The category keyword starts at the first non-whitespace after `add`.
    let mut c: usize = p + 3;
    while c < n && crate::text::space_char(v[c])
        invariant
            n == v@.len(),
            p + 3 <= c <= n,
            forall|k: int| p + 3 <= k < c ==> is_space_char(v@[k]),
        decreases n - c,
    {
        c = c + 1;
    }
    proof {
        assert forall|p2: int, c2: int, cat2: Category|
            add_match_at(s, p2, c2, cat2) implies c2 == c as int by {
            assert(p2 == p as int);
            assert(s[c2] == 'a' || s[c2] == 'n') by {
                if cat2 == Category::Descriptor {
                    assert(s[c2] == 'a');
                } else {
                    assert(s[c2] == 'n');
                }
            }
            assert(!is_space_char('a') && !is_space_char('n'));
            lemma_first_stop(s, |ch: char| is_space_char(ch), p as int + 3, c2, c as int);
        }
    }
    if c == p + 3 || c == n {
        proof {
            if matches_add(s) {
                let (p2, c2, cat2) = choose|p2: int, c2: int, cat2: Category|
                    add_match_at(s, p2, c2, cat2);
                assert(p2 == p as int && c2 == c as int);
                assert(false);
            }
        }
        return None;
    }
    let cat: Category;
    let q: usize;
    if adjective_lit_check(v, c) {
        cat = Category::Descriptor;
        q = c + 9;
    } else if noun_lit_check(v, c) {
        cat = Category::Subject;
        q = c + 4;
    } else {
        proof {
            if matches_add(s) {
                let (p2, c2, cat2) = choose|p2: int, c2: int, cat2: Category|
                    add_match_at(s, p2, c2, cat2);
                assert(c2 == c as int);
                assert(category_lit_at(s, c as int, cat2));
                assert(false);
            }
        }
        return None;
    }
    proof {
        assert forall|p2: int, c2: int, cat2: Category|
            add_match_at(s, p2, c2, cat2) implies cat2 == cat by {
            assert(c2 == c as int);
            if cat2 != cat {
                assert(category_lit_at(s, c as int, cat2));
                assert(category_lit_at(s, c as int, cat));
                assert(s[c as int] == 'a' && s[c as int] == 'n');
            }
        }
    }
    // The tail: at least one whitespace character, then phrase characters
    // to the end.
    if q >= n || !crate::text::space_char(v[q]) {
        proof {
            if matches_add(s) {
                let (p2, c2, cat2) = choose|p2: int, c2: int, cat2: Category|
                    add_match_at(s, p2, c2, cat2);
                assert(c2 == c as int && cat2 == cat);
                let t = choose|t: int| tail_split_at(s, q as int, t);
                assert(is_space_char(s[q as int]));
                assert(false);
            }
        }
        return None;
    }
    let mut t0: usize = q;
    while t0 < n && crate::text::space_char(v[t0])
        invariant
            n == v@.len(),
            q <= t0 <= n,
            forall|k: int| q <= k < t0 ==> is_space_char(v@[k]),
        decreases n - t0,
    {
        t0 = t0 + 1;
    }
    if t0 == n {
        // The whole tail is whitespace: only a run of plain spaces can
        // still serve as the capture, and only past the first position.
        if n - q >= 2 && v[n - 1] == ' ' {
            proof {
                assert(tail_split_at(s, q as int, s.len() - 1));
                assert(add_match_at(s, p as int, c as int, cat) && q as int == c as int
                    + cat_lit_len(cat));
                assert(exists|p2: int, c2: int|
                    add_match_at(v@, p2, c2, cat) && q as int == c2 + cat_lit_len(cat));
            }
            return Some((q, cat));
        } else {
            proof {
                if matches_add(s) {
                    let (p2, c2, cat2) = choose|p2: int, c2: int, cat2: Category|
                        add_match_at(s, p2, c2, cat2);
                    assert(c2 == c as int && cat2 == cat);
                    let t = choose|t: int| tail_split_at(s, q as int, t);
                    assert(is_phrase_char(s[s.len() - 1]));
                    assert(is_space_char(s[s.len() - 1]));
                    lemma_space_phrase(s[s.len() - 1]);
                    assert(false);
                }
            }
            return None;
        }
    }
    let mut y: usize = t0;
    while y < n && crate::text::phrase_char(v[y])
        invariant
            n == v@.len(),
            t0 <= y <= n,
            forall|k: int| t0 <= k < y ==> is_phrase_char(v@[k]),
        decreases n - y,
    {
        y = y + 1;
    }
    if y == n {
        proof {
            assert(tail_split_at(s, q as int, t0 as int));
            assert(add_match_at(s, p as int, c as int, cat) && q as int == c as int + cat_lit_len(
                cat,
            ));
            assert(exists|p2: int, c2: int|
                add_match_at(v@, p2, c2, cat) && q as int == c2 + cat_lit_len(cat));
        }
        Some((q, cat))
    } else {
        proof {
            if matches_add(s) {
                let (p2, c2, cat2) = choose|p2: int, c2: int, cat2: Category|
                    add_match_at(s, p2, c2, cat2);
                assert(c2 == c as int && cat2 == cat);
                let t = choose|t: int| tail_split_at(s, q as int, t);
                // The capture cannot start after the first non-whitespace.
                assert(t <= t0 as int) by {
                    if t > t0 as int {
                        assert(is_space_char(s[t0 as int]));
                    }
                }
                assert(is_phrase_char(s[y as int]));
                assert(false);
            }
        }
        None
    }
}


/// Whitespace within the phrase class is exactly the space character.
proof fn lemma_space_phrase(ch: char)
    requires
        is_space_char(ch),
    ensures
        ch == ' ' || !is_phrase_char(ch),
{
    assert(!is_word_char('\t') && !is_word_char('\n') && !is_word_char('\r') && !is_word_char(
        '\x0b',
    ) && !is_word_char('\x0c'));
}

/// If the message starts with `<` but no well-formed mention-plus-space
/// prefix, it is no add command.
proof fn lemma_no_add_without_prefix(s: Seq<char>)
    requires
        s.len() > 0,
        s[0] == '<',
        forall|e: int| !mention_span(s, 0, e),
    ensures
        !matches_add(s),
{
    if matches_add(s) {
        let (p2, c2, cat2) = choose|p2: int, c2: int, cat2: Category| add_match_at(s, p2, c2, cat2);
        assert(!is_space_char('<') && !is_space_char('a'));
        if forall|k: int| 0 <= k < p2 ==> is_space_char(s[k]) {
            if p2 > 0 {
                assert(is_space_char(s[0]));
            }
            assert(s[0] == 'a');
        } else {
            let e = choose|e: int|
                mention_span(s, 0, e) && e < p2 && (forall|k: int|
                    e <= k < p2 ==> is_space_char(s[k]));
        }
        assert(false);
    }
}

/// From a third-pattern match on a message that starts with `<`, the
/// prefix must be the mention ending at `e`.
proof fn lemma_add_prefix_mention(s: Seq<char>, p2: int, e: int)
    requires
        add_prefix_ok(s, p2),
        lit_add_at(s, p2),
        s.len() > 0,
        s[0] == '<',
        mention_span(s, 0, e),
    ensures
        exists|e2: int|
            mention_span(s, 0, e2) && e2 < p2 && (forall|k: int|
                e2 <= k < p2 ==> is_space_char(s[k])),
        forall|e2: int| mention_span(s, 0, e2) ==> e2 == e,
{
    assert(!is_space_char('<') && !is_space_char('a'));
    if forall|k: int| 0 <= k < p2 ==> is_space_char(s[k]) {
        if p2 > 0 {
            assert(is_space_char(s[0]));
        }
        assert(s[0] == 'a');
        assert(false);
    }
    assert forall|e2: int| mention_span(s, 0, e2) implies e2 == e by {
        assert(is_word_char('U'));
        assert(!is_word_char('>'));
        lemma_first_stop(s, |c: char| is_word_char(c), 3, e2 - 1, e - 1);
    }
}

/// From a third-pattern match on a message that does not start with `<`,
/// the prefix must be all whitespace.
proof fn lemma_add_prefix_plain(s: Seq<char>, p2: int)
    requires
        add_prefix_ok(s, p2),
        s.len() == 0 || s[0] != '<',
    ensures
        forall|k: int| 0 <= k < p2 ==> is_space_char(s[k]),
{
    if !(forall|k: int| 0 <= k < p2 ==> is_space_char(s[k])) {
        let e = choose|e: int|
            mention_span(s, 0, e) && e < p2 && (forall|k: int| e <= k < p2 ==> is_space_char(s[k]));
        assert(s[0] == '<');
        assert(false);
    }
}

/// Parses the mention token at the start of the message, returning the
/// position just after its `>`; `None` when no mention starts the message.
fn mention_end_from_start(v: &Vec<char>) -> (r: Option<usize>)
    requires
        v@.len() > 0,
        v@[0] == '<',
    ensures
        (r matches Some(e) ==> 0 < e <= v@.len() && mention_span(v@, 0, e as int)),
        (r is None ==> forall|e: int| !mention_span(v@, 0, e)),
{
    let ghost s = v@;
    let n: usize = v.len();
    if n < 5 || v[1] != '@' || v[2] != 'U' {
        proof {
            if exists|e: int| mention_span(s, 0, e) {
                let e = choose|e: int| mention_span(s, 0, e);
                assert(false);
            }
        }
        return None;
    }
    let mut x: usize = 3;
    while x < n && crate::text::word_char(v[x])
        invariant
            n == v@.len(),
            3 <= x <= n,
            forall|k: int| 3 <= k < x ==> is_word_char(v@[k]),
        decreases n - x,
    {
        x = x + 1;
    }
    if x == 3 || x == n || v[x] != '>' {
        proof {
            if exists|e: int| mention_span(s, 0, e) {
                let e = choose|e: int| mention_span(s, 0, e);
                assert(!is_word_char('>'));
                lemma_first_stop(s, |c: char| is_word_char(c), 3, e - 1, x as int);
                assert(false);
            }
        }
        return None;
    }
    proof {
        assert(mention_span(s, 0, x as int + 1));
    }
    Some(x + 1)
}

/// Checks the literal `adjective` at position `c`.
fn adjective_lit_check(v: &Vec<char>, c: usize) -> (r: bool)
    requires
        c <= v@.len(),
    ensures
        r == category_lit_at(v@, c as int, Category::Descriptor),
{
    let n: usize = v.len();
    if n - c < 9 {
        return false;
    }
    v[c] == 'a' && v[c + 1] == 'd' && v[c + 2] == 'j' && v[c + 3] == 'e' && v[c + 4] == 'c' && v[c
        + 5] == 't' && v[c + 6] == 'i' && v[c + 7] == 'v' && v[c + 8] == 'e'
}

/// Checks the literal `noun` at position `c`.
fn noun_lit_check(v: &Vec<char>, c: usize) -> (r: bool)
    requires
        c <= v@.len(),
    ensures
        r == category_lit_at(v@, c as int, Category::Subject),
{
    let n: usize = v.len();
    if n - c < 4 {
        return false;
    }
    v[c] == 'n' && v[c + 1] == 'o' && v[c + 2] == 'u' && v[c + 3] == 'n'
}

/// Classifies one inbound message, trying the three patterns in order.
pub fn classify(text: &str, requester_id: &str) -> (r: CommandMatch)
    ensures
        matches_insult_target(text@) ==> (r matches CommandMatch::InsultRequest { target }
            && exists|i: int, j: int|
            insult_target_match_at(text@, i, j) && target@ == text@.subrange(
                j,
                text@.len() as int,
            )),
        !matches_insult_target(text@) && matches_insult_me(text@) ==> (r
            matches CommandMatch::InsultRequest { target } && target@ == user_tag(requester_id@)),
        !matches_insult_target(text@) && !matches_insult_me(text@) && matches_add(text@)
            ==> exists|p: int, c: int, cat: Category|
            add_match_at(text@, p, c, cat) && (if add_word_of(text@, c, cat).len() == 0 {
                r == CommandMatch::RejectedAddWord
            } else {
                r matches CommandMatch::AddWord { category, word } && category == cat && word@
                    == add_word_of(text@, c, cat)
            }),
        !matches_insult_target(text@) && !matches_insult_me(text@) && !matches_add(text@) ==> r
            == CommandMatch::NoMatch,
{
    let v: Vec<char> = chars_of(text);
    let n: usize = v.len();
    if let Some(j) = find_insult_target(&v) {
        let target: String = String::from_str(text.substring_char(j, n));
        return CommandMatch::InsultRequest { target };
    }
    if find_insult_me(&v) {
        return CommandMatch::InsultRequest { target: to_user_tag(requester_id) };
    }
    if let Some((q, cat)) = find_add(&v) {
        proof {
            let (p, c) = choose|p: int, c: int|
                add_match_at(text@, p, c, cat) && q as int == c + cat_lit_len(cat);
            assert(q as int <= text@.len());
        }
        let region: &str = text.substring_char(q, n);
        let word: String = crate::text::trim_str(region);
        if word.as_str().unicode_len() == 0 {
            return CommandMatch::RejectedAddWord;
        }
        return CommandMatch::AddWord { category: cat, word };
    }
    CommandMatch::NoMatch
}

} // verus!
