use insultbot::classify;
use insultbot::to_user_tag;
use insultbot::Category;
use insultbot::CommandMatch;

fn add_word(category: Category, word: &str) -> CommandMatch {
    CommandMatch::AddWord { category, word: String::from(word) }
}

fn insult(target: &str) -> CommandMatch {
    CommandMatch::InsultRequest { target: String::from(target) }
}

#[test]
fn classify_insult_me() {
    assert_eq!(classify("insult me", "U123"), insult("<@U123>"));
}

#[test]
fn classify_insult_target() {
    assert_eq!(classify("insult <@U456>", "U123"), insult("<@U456>"));
}

#[test]
fn classify_add_adjective() {
    assert_eq!(classify("add adjective slimy", "U123"), add_word(Category::Descriptor, "slimy"));
}

#[test]
fn classify_add_noun_with_mention() {
    assert_eq!(classify("<@UBOT> add noun doorknob", "U123"), add_word(Category::Subject, "doorknob"));
}

#[test]
fn classify_add_whitespace_word_rejected() {
    assert_eq!(classify("add noun   ", "U123"), CommandMatch::RejectedAddWord);
}

#[test]
fn classify_no_match() {
    assert_eq!(classify("hello there", "U123"), CommandMatch::NoMatch);
}

#[test]
fn classify_insult_me_needs_word_boundary() {
    assert_eq!(classify("xinsult me", "U123"), CommandMatch::NoMatch);
}

#[test]
fn classify_insult_me_within_sentence() {
    assert_eq!(classify("please insult me", "U7"), insult("<@U7>"));
}

#[test]
fn classify_insult_me_not_at_end() {
    assert_eq!(classify("insult me please", "U123"), CommandMatch::NoMatch);
}

#[test]
fn classify_add_single_trailing_space() {
    // One space after the category keyword leaves no room for a word.
    assert_eq!(classify("add noun ", "U123"), CommandMatch::NoMatch);
}

#[test]
fn classify_add_keyword_alone() {
    assert_eq!(classify("add noun", "U123"), CommandMatch::NoMatch);
}

#[test]
fn classify_mention_needs_a_word_character() {
    assert_eq!(classify("insult <@U>", "U123"), CommandMatch::NoMatch);
}

#[test]
fn classify_insult_wins_over_add() {
    assert_eq!(classify("add noun insult me", "U9"), insult("<@U9>"));
}

#[test]
fn classify_add_word_keeps_inner_spaces() {
    assert_eq!(
        classify("add noun utter doorknob", "U1"),
        add_word(Category::Subject, "utter doorknob"),
    );
}

#[test]
fn classify_add_word_trims_edges() {
    assert_eq!(classify("add adjective  slimy ", "U1"), add_word(Category::Descriptor, "slimy"));
}

#[test]
fn classify_add_rejects_other_characters() {
    assert_eq!(classify("add noun door!knob", "U1"), CommandMatch::NoMatch);
}

#[test]
fn classify_add_category_must_be_known() {
    assert_eq!(classify("add verb run", "U1"), CommandMatch::NoMatch);
}

#[test]
fn to_user_tag_format() {
    assert_eq!(to_user_tag("U123"), String::from("<@U123>"));
}

#[test]
fn classify_mention_prefix_needs_a_space() {
    assert_eq!(classify("<@UBOT>add noun doorknob", "U1"), CommandMatch::NoMatch);
}

#[test]
fn classify_insult_target_extra_spaces() {
    assert_eq!(classify("insult   <@U456>", "U123"), insult("<@U456>"));
}
