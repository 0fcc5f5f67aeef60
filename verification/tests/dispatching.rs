use insultbot::handle_command;
use insultbot::handle_message;
use insultbot::Category;
use insultbot::CommandMatch;
use insultbot::MessageEvent;
use insultbot::WordCache;

fn event(text: &str, user: &str) -> MessageEvent {
    MessageEvent {
        subtype: None,
        channel: String::from("C1"),
        user: String::from(user),
        text: String::from(text),
        ts: String::from("0.0"),
    }
}

fn stocked_cache() -> WordCache {
    WordCache {
        descriptors: vec![String::from("awful")],
        subjects: vec![String::from("jerk")],
    }
}

#[test]
fn insult_reply_end_to_end() {
    let mut cache = stocked_cache();
    let out = handle_message(&mut cache, &event("insult <@U456>", "U123"));
    assert_eq!(out.reply, Some(String::from("<@U456> is an awful jerk")));
    assert!(out.persist.is_none());
}

#[test]
fn insult_me_reply_end_to_end() {
    let mut cache = stocked_cache();
    let out = handle_message(&mut cache, &event("insult me", "U123"));
    assert_eq!(out.reply, Some(String::from("<@U123> is an awful jerk")));
    assert!(out.persist.is_none());
}

#[test]
fn empty_cache_shuts_up() {
    let mut cache = WordCache {
        descriptors: Vec::new(),
        subjects: vec![String::from("jerk")],
    };
    let out = handle_message(&mut cache, &event("insult me", "U123"));
    assert_eq!(out.reply, Some(String::from("Shut up.")));
    assert!(out.persist.is_none());
}

#[test]
fn add_word_confirms_and_persists() {
    let mut cache = stocked_cache();
    let out = handle_message(&mut cache, &event("add noun doorknob", "U123"));
    assert_eq!(out.reply, Some(String::from("Added.")));
    assert_eq!(out.persist, Some((Category::Subject, String::from("doorknob"))));
    assert_eq!(cache.subjects, vec![String::from("jerk"), String::from("doorknob")]);
}

#[test]
fn duplicate_word_is_reported_not_persisted() {
    let mut cache = stocked_cache();
    let out = handle_message(&mut cache, &event("add adjective awful", "U123"));
    assert_eq!(out.reply, Some(String::from("I already have that word!")));
    assert!(out.persist.is_none());
    assert_eq!(cache.descriptors, vec![String::from("awful")]);
}

#[test]
fn rejected_add_word_is_scolded() {
    let mut cache = stocked_cache();
    let out = handle_message(&mut cache, &event("add noun   ", "U123"));
    assert_eq!(out.reply, Some(String::from("Nice try wise guy.")));
    assert!(out.persist.is_none());
    assert_eq!(cache.subjects, vec![String::from("jerk")]);
}

#[test]
fn unrelated_text_is_ignored() {
    let mut cache = stocked_cache();
    let out = handle_message(&mut cache, &event("hello there", "U123"));
    assert!(out.reply.is_none());
    assert!(out.persist.is_none());
    assert_eq!(cache.descriptors, vec![String::from("awful")]);
    assert_eq!(cache.subjects, vec![String::from("jerk")]);
}

#[test]
fn handle_command_no_match_is_silent() {
    let mut cache = WordCache::new();
    let out = handle_command(&mut cache, &CommandMatch::NoMatch);
    assert!(out.reply.is_none());
    assert!(out.persist.is_none());
}

#[test]
fn handle_command_insult_empty_cache() {
    let mut cache = WordCache::new();
    let out = handle_command(
        &mut cache,
        &CommandMatch::InsultRequest { target: String::from("<@U1>") },
    );
    assert_eq!(out.reply, Some(String::from("Shut up.")));
}

#[test]
fn handle_command_add_trims_word() {
    let mut cache = WordCache::new();
    let out = handle_command(
        &mut cache,
        &CommandMatch::AddWord { category: Category::Descriptor, word: String::from(" odd ") },
    );
    assert_eq!(out.reply, Some(String::from("Added.")));
    assert_eq!(out.persist, Some((Category::Descriptor, String::from("odd"))));
    assert_eq!(cache.descriptors, vec![String::from("odd")]);
}

#[test]
fn callback_event_carries_a_message() {
    let callback = insultbot::CallbackEvent {
        event: insultbot::EventType::Message(event("insult me", "U2")),
    };
    match callback.event {
        insultbot::EventType::Message(m) => {
            assert_eq!(m.text, String::from("insult me"));
            assert_eq!(m.user, String::from("U2"));
        }
        insultbot::EventType::Unsupported => panic!("expected a message event"),
    }
}
