//! The dispatch decisions for a classified command: what to reply and what
//! to persist. The surrounding program performs the sending and the remote
//! write; failures there are its own concern and never reach back into the
//! cache.

use vstd::prelude::*;
use crate::cache::contains_word;
use crate::cache::insert_model;
use crate::cache::other_category;
use crate::cache::phrase_of;
use crate::cache::InsertOutcome;
use crate::cache::WordCache;
use crate::classify::add_match_at;
use crate::classify::add_word_of;
use crate::classify::insult_target_match_at;
use crate::classify::matches_add;
use crate::classify::matches_insult_me;
use crate::classify::matches_insult_target;
use crate::classify::user_tag;
use crate::classify::CommandMatch;
use crate::events::MessageEvent;
use crate::text::trimmed;
use crate::words::Category;

verus! {

/// What the dispatcher decides for one command: the reply to send, if any,
/// and the freshly inserted word to persist remotely, if any.
pub struct DispatchOutcome {
    pub reply: Option<String>,
    pub persist: Option<(Category, String)>,
}

/// The reply to an insult request: `<target> is <phrase>`.
pub open spec fn insult_line(target: Seq<char>, phrase: Seq<char>) -> Seq<char> {
    target + " is "@ + phrase
}

/// The reply owed to an insult request against this cache: a phrase line
/// built from one word of each category, or `Shut up.` when a category is
/// empty.
pub open spec fn insult_reply_ok(cache: WordCache, target: Seq<char>, msg: Seq<char>) -> bool {
    if cache.descs().len() == 0 || cache.subjs().len() == 0 {
        msg == "Shut up."@
    } else {
        exists|i: int, j: int|
            0 <= i < cache.descs().len() && 0 <= j < cache.subjs().len() && msg == insult_line(
                target,
                phrase_of(cache.descs()[i], cache.subjs()[j]),
            )
    }
}

/// The outcome owed to an add-word command for the trimmed word `w`: the
/// category gains the word unless it holds it already; a fresh word is
/// confirmed and handed on for persistence, a duplicate is only reported.
pub open spec fn add_outcome_ok(
    old_cache: WordCache,
    new_cache: WordCache,
    cat: Category,
    w: Seq<char>,
    out: DispatchOutcome,
) -> bool {
    &&& new_cache.cat_view(cat) == insert_model(old_cache.cat_view(cat), w)
    &&& new_cache.cat_view(other_category(cat)) == old_cache.cat_view(other_category(cat))
    &&& (contains_word(old_cache.cat_view(cat), w) ==> {
        &&& out.persist is None
        &&& out.reply matches Some(msg) && msg@ == "I already have that word!"@
    })
    &&& (!contains_word(old_cache.cat_view(cat), w) ==> {
        &&& (out.reply matches Some(msg) && msg@ == "Added."@)
        &&& (out.persist matches Some((pc, pw)) && pc == cat && pw@ == w)
    })
}

/// Applies one classified command to the cache and decides the reply and
/// the remote write.
pub fn handle_command(cache: &mut WordCache, m: &CommandMatch) -> (out: DispatchOutcome)
    requires
        old(cache).wf(),
    ensures
        final(cache).wf(),
        (m matches CommandMatch::NoMatch ==> *final(cache) == *old(cache) && out.reply is None
            && out.persist is None),
        (m matches CommandMatch::RejectedAddWord ==> *final(cache) == *old(cache) && out.persist
            is None && (out.reply matches Some(msg) && msg@ == "Nice try wise guy."@)),
        (m matches CommandMatch::InsultRequest { target } ==> *final(cache) == *old(cache)
            && out.persist is None && (out.reply matches Some(msg) && insult_reply_ok(
            *old(cache),
            target@,
            msg@,
        ))),
        (m matches CommandMatch::AddWord { category, word } ==> add_outcome_ok(
            *old(cache),
            *final(cache),
            *category,
            trimmed(word@),
            out,
        )),
{
    match m {
        CommandMatch::NoMatch => DispatchOutcome { reply: None, persist: None },
        CommandMatch::RejectedAddWord => DispatchOutcome {
            reply: Some(String::from_str("Nice try wise guy.")),
            persist: None,
        },
        CommandMatch::InsultRequest { target } => {
            let msg: String = match cache.pick_phrase() {
                Some(phrase) => {
                    let mut line: String = target.clone();
                    line.append(" is ");
                    line.append(phrase.as_str());
                    line
                },
                None => String::from_str("Shut up."),
            };
            DispatchOutcome { reply: Some(msg), persist: None }
        },
        CommandMatch::AddWord { category, word } => {
            match cache.insert(*category, word.as_str()) {
                InsertOutcome::Inserted => DispatchOutcome {
                    reply: Some(String::from_str("Added.")),
                    persist: Some((*category, crate::text::trim_str(word.as_str()))),
                },
                InsertOutcome::AlreadyPresent => DispatchOutcome {
                    reply: Some(String::from_str("I already have that word!")),
                    persist: None,
                },
            }
        },
    }
}

/// Classifies one message event and applies the dispatch decision to the
/// cache: the command grammar, the cache operations and the reply texts in
/// one step.
pub fn handle_message(cache: &mut WordCache, event: &MessageEvent) -> (out: DispatchOutcome)
    requires
        old(cache).wf(),
    ensures
        final(cache).wf(),
        matches_insult_target(event.text@) ==> (*final(cache) == *old(cache) && out.persist
            is None && (out.reply matches Some(msg) && exists|i: int, j: int|
            insult_target_match_at(event.text@, i, j) && insult_reply_ok(
                *old(cache),
                event.text@.subrange(j, event.text@.len() as int),
                msg@,
            ))),
        !matches_insult_target(event.text@) && matches_insult_me(event.text@) ==> (*final(cache)
            == *old(cache) && out.persist is None && (out.reply matches Some(msg)
            && insult_reply_ok(*old(cache), user_tag(event.user@), msg@))),
        !matches_insult_target(event.text@) && !matches_insult_me(event.text@) && matches_add(
            event.text@,
        ) ==> exists|p: int, c: int, cat: Category|
            add_match_at(event.text@, p, c, cat) && (if add_word_of(event.text@, c, cat).len()
                == 0 {
                *final(cache) == *old(cache) && out.persist is None && (out.reply matches Some(msg)
                    && msg@ == "Nice try wise guy."@)
            } else {
                add_outcome_ok(
                    *old(cache),
                    *final(cache),
                    cat,
                    add_word_of(event.text@, c, cat),
                    out,
                )
            }),
        !matches_insult_target(event.text@) && !matches_insult_me(event.text@) && !matches_add(
            event.text@,
        ) ==> (*final(cache) == *old(cache) && out.reply is None && out.persist is None),
{
    let m: CommandMatch = crate::classify::classify(event.text.as_str(), event.user.as_str());
    let out = handle_command(cache, &m);
    proof {
        let s = event.text@;
        if !matches_insult_target(s) && !matches_insult_me(s) && matches_add(s) {
            let (p, c, cat) = choose|p: int, c: int, cat: Category|
                add_match_at(s, p, c, cat) && (if add_word_of(s, c, cat).len() == 0 {
                    m == CommandMatch::RejectedAddWord
                } else {
                    m matches CommandMatch::AddWord { category, word } && category == cat && word@
                        == add_word_of(s, c, cat)
                });
            if add_word_of(s, c, cat).len() != 0 {
                crate::text::lemma_trimmed_idempotent(
                    s.subrange(c + crate::classify::cat_lit_len(cat), s.len() as int),
                );
            }
            assert(add_match_at(s, p, c, cat) && (if add_word_of(s, c, cat).len() == 0 {
                *cache == *old(cache) && out.persist is None && (out.reply matches Some(msg)
                    && msg@ == "Nice try wise guy."@)
            } else {
                add_outcome_ok(*old(cache), *cache, cat, add_word_of(s, c, cat), out)
            }));
        }
    }
    out
}

} // verus!
