//! The in-memory word cache: two categories of words, deduplicated
//! insertion, and random phrase selection.

use vstd::prelude::*;
use crate::text::is_vowel;
use crate::text::trimmed;
use crate::words::Category;

verus! {

/// The result of an insertion: a duplicate is a normal outcome, not an
/// error.
#[derive(Clone, Copy, Debug, PartialEq, Eq, Structural)]
pub enum InsertOutcome {
    Inserted,
    AlreadyPresent,
}

/// Whether the word list `ws` holds the word `w`.
pub open spec fn contains_word(ws: Seq<Seq<char>>, w: Seq<char>) -> bool {
    exists|k: int| 0 <= k < ws.len() && ws[k] == w
}

/// No word occurs twice in the list: the cache invariant of each category.
pub open spec fn no_dups(ws: Seq<Seq<char>>) -> bool {
    forall|i: int, j: int| 0 <= i < j < ws.len() ==> ws[i] != ws[j]
}

/// What one insertion of `w` leaves behind: the list unchanged when `w` is
/// already present, else the list with `w` appended.
pub open spec fn insert_model(ws: Seq<Seq<char>>, w: Seq<char>) -> Seq<Seq<char>> {
    if contains_word(ws, w) {
        ws
    } else {
        ws.push(w)
    }
}

/// The category other than `c`.
pub open spec fn other_category(c: Category) -> Category {
    if c == Category::Descriptor {
        Category::Subject
    } else {
        Category::Descriptor
    }
}

/// The article placed before a descriptor: "an" before a vowel, else "a";
/// an empty descriptor defensively gets "a".
pub open spec fn article_of(d: Seq<char>) -> Seq<char> {
    if d.len() > 0 && is_vowel(d[0]) {
        seq!['a', 'n']
    } else {
        seq!['a']
    }
}

/// The phrase built from a descriptor and a subject:
/// `<article> <descriptor> <subject>`.
pub open spec fn phrase_of(d: Seq<char>, s: Seq<char>) -> Seq<char> {
    article_of(d) + seq![' '] + d + seq![' '] + s
}

/// A phrase opens with "an " exactly when its descriptor starts with a
/// vowel.
pub proof fn lemma_phrase_article(d: Seq<char>, s: Seq<char>)
    ensures
        phrase_of(d, s).len() >= 3,
        (phrase_of(d, s).subrange(0, 3) == seq!['a', 'n', ' ']) <==> (d.len() > 0 && is_vowel(
            d[0],
        )),
{
    let p = phrase_of(d, s);
    if d.len() > 0 && is_vowel(d[0]) {
        assert(p.subrange(0, 3) =~= seq!['a', 'n', ' ']);
    } else {
        assert(p[1] == ' ');
        assert(p.subrange(0, 3) != seq!['a', 'n', ' ']) by {
            assert(p.subrange(0, 3)[1] == ' ');
        }
    }
}

/// Inserting a fresh word and then inserting it again: the first insertion
/// appends it, the second changes nothing, and the list grows by exactly
/// one word in all.
pub proof fn lemma_insert_twice(ws: Seq<Seq<char>>, w: Seq<char>)
    requires
        !contains_word(ws, w),
    ensures
        insert_model(ws, w).len() == ws.len() + 1,
        contains_word(insert_model(ws, w), w),
        insert_model(insert_model(ws, w), w) == insert_model(ws, w),
{
    assert(insert_model(ws, w)[ws.len() as int] == w);
}

/// The list after `n` successive insertions of `w`.
pub open spec fn insert_n(ws: Seq<Seq<char>>, w: Seq<char>, n: nat) -> Seq<Seq<char>>
    decreases n,
{
    if n == 0 {
        ws
    } else {
        insert_model(insert_n(ws, w, (n - 1) as nat), w)
    }
}

/// How many of `n` successive insertions of `w` report `Inserted`.
pub open spec fn inserted_count(ws: Seq<Seq<char>>, w: Seq<char>, n: nat) -> nat
    decreases n,
{
    if n == 0 {
        0
    } else {
        inserted_count(ws, w, (n - 1) as nat) + (if contains_word(
            insert_n(ws, w, (n - 1) as nat),
            w,
        ) {
            0nat
        } else {
            1nat
        })
    }
}

proof fn lemma_insert_n_fixed(ws: Seq<Seq<char>>, w: Seq<char>, n: nat)
    requires
        n >= 1,
        !contains_word(ws, w),
    ensures
        insert_n(ws, w, n) == ws.push(w),
        contains_word(insert_n(ws, w, n), w),
    decreases n,
{
    lemma_insert_twice(ws, w);
    if n == 1 {
        assert(insert_n(ws, w, 0) == ws);
        assert(insert_n(ws, w, 1) == insert_model(ws, w));
    } else {
        lemma_insert_n_fixed(ws, w, (n - 1) as nat);
        assert(insert_n(ws, w, n) == insert_model(ws.push(w), w));
        assert(contains_word(ws.push(w), w)) by {
            assert(ws.push(w)[ws.len() as int] == w);
        }
    }
}

/// Of `n >= 1` successive insertions of one fresh word — the serialized
/// order of `n` competing insertion calls — exactly one reports `Inserted`;
/// of a word already present, none does.
pub proof fn lemma_insert_single_winner(ws: Seq<Seq<char>>, w: Seq<char>, n: nat)
    requires
        n >= 1,
    ensures
        !contains_word(ws, w) ==> inserted_count(ws, w, n) == 1,
        contains_word(ws, w) ==> inserted_count(ws, w, n) == 0,
    decreases n,
{
    if n == 1 {
        assert(insert_n(ws, w, 0) == ws);
        assert(inserted_count(ws, w, 0) == 0);
        assert(inserted_count(ws, w, 1) == inserted_count(ws, w, 0) + (if contains_word(
            insert_n(ws, w, 0),
            w,
        ) {
            0nat
        } else {
            1nat
        }));
    } else {
        lemma_insert_single_winner(ws, w, (n - 1) as nat);
        if !contains_word(ws, w) {
            lemma_insert_n_fixed(ws, w, (n - 1) as nat);
        } else {
            assert(insert_n(ws, w, (n - 1) as nat) == ws) by {
                lemma_insert_n_stable(ws, w, (n - 1) as nat);
            }
        }
    }
}

proof fn lemma_insert_n_stable(ws: Seq<Seq<char>>, w: Seq<char>, n: nat)
    requires
        contains_word(ws, w),
    ensures
        insert_n(ws, w, n) == ws,
    decreases n,
{
    if n > 0 {
        lemma_insert_n_stable(ws, w, (n - 1) as nat);
    }
}

/// The word cache: the descriptors and the subjects known to the bot, each
/// free of duplicates while `wf()` holds.
pub struct WordCache {
    pub descriptors: Vec<String>,
    pub subjects: Vec<String>,
}

impl WordCache {
    /// The descriptor words, as sequences of characters.
    pub open spec fn descs(&self) -> Seq<Seq<char>> {
        self.descriptors.deep_view()
    }

    /// The subject words, as sequences of characters.
    pub open spec fn subjs(&self) -> Seq<Seq<char>> {
        self.subjects.deep_view()
    }

    /// The words of category `c`.
    pub open spec fn cat_view(&self, c: Category) -> Seq<Seq<char>> {
        if c == Category::Descriptor {
            self.descs()
        } else {
            self.subjs()
        }
    }

    /// The cache invariant: no category holds a word twice.
    pub open spec fn wf(&self) -> bool {
        no_dups(self.descs()) && no_dups(self.subjs())
    }

    /// An empty cache.
    pub fn new() -> (r: WordCache)
        ensures
            r.descs() == Seq::<Seq<char>>::empty(),
            r.subjs() == Seq::<Seq<char>>::empty(),
            r.wf(),
    {
        let r = WordCache { descriptors: Vec::new(), subjects: Vec::new() };
        proof {
            assert(r.descs() =~= Seq::<Seq<char>>::empty());
            assert(r.subjs() =~= Seq::<Seq<char>>::empty());
        }
        r
    }

    /// Decides the cache invariant at run time, for callers outside the
    /// verified library.
    pub fn wf_check(&self) -> (r: bool)
        ensures
            r == self.wf(),
    {
        list_no_dups(&self.descriptors) && list_no_dups(&self.subjects)
    }

    /// Trims the candidate word and appends it to the category `c` unless
    /// the category already holds it; a duplicate leaves the cache
    /// unchanged.
    pub fn insert(&mut self, c: Category, word: &str) -> (r: InsertOutcome)
        requires
            old(self).wf(),
        ensures
            final(self).wf(),
            (r == InsertOutcome::AlreadyPresent) <==> contains_word(
                old(self).cat_view(c),
                trimmed(word@),
            ),
            final(self).cat_view(c) == insert_model(old(self).cat_view(c), trimmed(word@)),
            final(self).cat_view(other_category(c)) == old(self).cat_view(other_category(c)),
    {
        let t = crate::text::trim_str(word);
        match c {
            Category::Descriptor => insert_into(&mut self.descriptors, t),
            Category::Subject => insert_into(&mut self.subjects, t),
        }
    }

    /// Draws one descriptor and one subject at random and formats the
    /// phrase; `None` exactly when a category is empty.
    pub fn pick_phrase(&self) -> (r: Option<String>)
        ensures
            (r is None) <==> (self.descs().len() == 0 || self.subjs().len() == 0),
            (r matches Some(p) ==> exists|i: int, j: int|
                0 <= i < self.descs().len() && 0 <= j < self.subjs().len() && p@ == phrase_of(
                    self.descs()[i],
                    self.subjs()[j],
                )),
    {
        let dn: usize = self.descriptors.len();
        let sn: usize = self.subjects.len();
        if dn == 0 || sn == 0 {
            return None;
        }
        let i: usize = crate::rng::random_index(dn);
        let j: usize = crate::rng::random_index(sn);
        let d: &String = &self.descriptors[i];
        let s: &String = &self.subjects[j];
        let article: &str = if d.as_str().unicode_len() > 0 && crate::text::vowel(
            d.as_str().get_char(0),
        ) {
            "an"
        } else {
            "a"
        };
        let mut out: String = String::from_str(article);
        out.append(" ");
        out.append(d.as_str());
        out.append(" ");
        out.append(s.as_str());
        proof {
            reveal_strlit("a");
            reveal_strlit("an");
            reveal_strlit(" ");
            assert(out@ =~= phrase_of(self.descs()[i as int], self.subjs()[j as int]));
        }
        Some(out)
    }
}

/// Decides `no_dups` for one word list.
fn list_no_dups(v: &Vec<String>) -> (r: bool)
    ensures
        r == no_dups(v.deep_view()),
{
    let n: usize = v.len();
    let mut i: usize = 0;
    while i < n
        invariant
            n == v@.len(),
            i <= n,
            forall|x: int, y: int| 0 <= x < y < n && x < i ==> v.deep_view()[x] != v.deep_view()[y],
        decreases n - i,
    {
        let mut j: usize = i + 1;
        while j < n
            invariant
                n == v@.len(),
                i < n,
                i < j <= n,
                forall|y: int| i < y < j ==> v.deep_view()[i as int] != v.deep_view()[y],
            decreases n - j,
        {
            if v[i] == v[j] {
                proof {
                    assert(v.deep_view()[i as int] == v.deep_view()[j as int]);
                    assert(!no_dups(v.deep_view()));
                }
                return false;
            }
            j = j + 1;
        }
        i = i + 1;
    }
    true
}

/// Appends `w` to the list unless it is already there.
pub(crate) fn insert_into(list: &mut Vec<String>, w: String) -> (r: InsertOutcome)
    requires
        no_dups(old(list).deep_view()),
    ensures
        no_dups(final(list).deep_view()),
        (r == InsertOutcome::AlreadyPresent) <==> contains_word(old(list).deep_view(), w@),
        final(list).deep_view() == insert_model(old(list).deep_view(), w@),
{
    let n: usize = list.len();
    let mut i: usize = 0;
    while i < n
        invariant
            n == list@.len(),
            i <= n,
            *list == *old(list),
            no_dups(list.deep_view()),
            forall|k: int| 0 <= k < i ==> list.deep_view()[k] != w@,
        decreases n - i,
    {
        if list[i] == w {
            proof {
                assert(list.deep_view()[i as int] == w@);
                assert(contains_word(list.deep_view(), w@));
                assert(list.deep_view() =~= old(list).deep_view());
            }
            return InsertOutcome::AlreadyPresent;
        }
        i = i + 1;
    }
    assert(!contains_word(list.deep_view(), w@));
    let ghost before = list.deep_view();
    list.push(w);
    proof {
        assert(list.deep_view() =~= before.push(w@));
        assert forall|x: int, y: int|
            0 <= x < y < list.deep_view().len() implies list.deep_view()[x]
            != list.deep_view()[y] by {
            if y == before.len() {
                assert(!contains_word(before, w@));
            }
        }
    }
    InsertOutcome::Inserted
}

} // verus!
