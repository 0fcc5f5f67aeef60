//! Loading the cache from the remote store's records.
//!
//! A record is a loosely typed pair of an optional word and an optional
//! category tag. A record lacking a word, or carrying a tag that names no
//! category, is malformed: it is skipped and counted, never fatal. A record
//! whose word its category already holds is skipped without being counted,
//! so that the cache invariant holds from the start.

use vstd::prelude::*;
use crate::cache::insert_into;
use crate::cache::insert_model;
use crate::cache::no_dups;
use crate::cache::WordCache;
use crate::words::category_of_tag;
use crate::words::Category;

verus! {

/// One record of the remote store, reduced to the two fields the cache
/// reads.
#[derive(Debug)]
pub struct WordRecord {
    pub word: Option<String>,
    pub category: Option<String>,
}

/// The word a record carries, if any.
pub open spec fn record_word(r: WordRecord) -> Option<Seq<char>> {
    match r.word {
        Some(w) => Some(w@),
        None => None,
    }
}

/// The category a record's tag denotes, if any.
pub open spec fn record_category(r: WordRecord) -> Option<Category> {
    match r.category {
        Some(c) => category_of_tag(c@),
        None => None,
    }
}

/// Folds one record into the loading state `(descriptors, subjects,
/// discarded)`.
pub open spec fn load_one(
    st: (Seq<Seq<char>>, Seq<Seq<char>>, nat),
    r: WordRecord,
) -> (Seq<Seq<char>>, Seq<Seq<char>>, nat) {
    match (record_word(r), record_category(r)) {
        (Some(w), Some(c)) => {
            if c == Category::Descriptor {
                (insert_model(st.0, w), st.1, st.2)
            } else {
                (st.0, insert_model(st.1, w), st.2)
            }
        },
        _ => (st.0, st.1, (st.2 + 1) as nat),
    }
}

/// The loading state after all of `rs`, in order.
pub open spec fn loaded(rs: Seq<WordRecord>) -> (Seq<Seq<char>>, Seq<Seq<char>>, nat)
    decreases rs.len(),
{
    if rs.len() == 0 {
        (Seq::<Seq<char>>::empty(), Seq::<Seq<char>>::empty(), 0nat)
    } else {
        load_one(loaded(rs.drop_last()), rs.last())
    }
}

/// Partitions the remote records into the two categories, skipping and
/// counting the malformed ones; returns the cache and that count.
pub fn build_cache(records: Vec<WordRecord>) -> (r: (WordCache, usize))
    ensures
        r.0.wf(),
        r.0.descs() == loaded(records@).0,
        r.0.subjs() == loaded(records@).1,
        r.1 == loaded(records@).2,
{
    let n: usize = records.len();
    let mut descriptors: Vec<String> = Vec::new();
    let mut subjects: Vec<String> = Vec::new();
    let mut discarded: usize = 0;
    proof {
        assert(descriptors.deep_view() =~= Seq::<Seq<char>>::empty());
        assert(subjects.deep_view() =~= Seq::<Seq<char>>::empty());
        assert(records@.subrange(0, 0) =~= Seq::<WordRecord>::empty());
    }
    let mut i: usize = 0;
    while i < n
        invariant
            n == records@.len(),
            i <= n,
            discarded <= i,
            no_dups(descriptors.deep_view()),
            no_dups(subjects.deep_view()),
            descriptors.deep_view() == loaded(records@.subrange(0, i as int)).0,
            subjects.deep_view() == loaded(records@.subrange(0, i as int)).1,
            discarded as nat == loaded(records@.subrange(0, i as int)).2,
        decreases n - i,
    {
        let ghost prefix = records@.subrange(0, i as int);
        let ghost longer = records@.subrange(0, i as int + 1);
        proof {
            assert(longer.drop_last() =~= prefix);
            assert(longer.last() == records@[i as int]);
        }
        let rec: &WordRecord = &records[i];
        let mut malformed: bool = true;
        if let Some(w) = &rec.word {
            if let Some(tag) = &rec.category {
                if let Some(c) = Category::from_tag(tag.as_str()) {
                    malformed = false;
                    match c {
                        Category::Descriptor => {
                            insert_into(&mut descriptors, w.clone());
                        },
                        Category::Subject => {
                            insert_into(&mut subjects, w.clone());
                        },
                    }
                }
            }
        }
        if malformed {
            discarded = discarded + 1;
        }
        i = i + 1;
    }
    proof {
        assert(records@.subrange(0, n as int) =~= records@);
    }
    (WordCache { descriptors, subjects }, discarded)
}

} // verus!
