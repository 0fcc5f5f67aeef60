use insultbot::build_cache;
use insultbot::Category;
use insultbot::InsertOutcome;
use insultbot::WordCache;
use insultbot::WordRecord;

fn record(word: &str, category: &str) -> WordRecord {
    WordRecord { word: Some(String::from(word)), category: Some(String::from(category)) }
}

#[test]
fn insert_then_duplicate() {
    let mut cache = WordCache::new();
    assert_eq!(cache.insert(Category::Descriptor, "slimy"), InsertOutcome::Inserted);
    assert_eq!(cache.insert(Category::Descriptor, "slimy"), InsertOutcome::AlreadyPresent);
    assert_eq!(cache.descriptors.len(), 1);
    assert_eq!(cache.subjects.len(), 0);
}

#[test]
fn insert_compares_trimmed_values() {
    let mut cache = WordCache::new();
    assert_eq!(cache.insert(Category::Subject, "  jerk  "), InsertOutcome::Inserted);
    assert_eq!(cache.insert(Category::Subject, "jerk"), InsertOutcome::AlreadyPresent);
    assert_eq!(cache.subjects, vec![String::from("jerk")]);
}

#[test]
fn insert_is_case_sensitive_per_category() {
    let mut cache = WordCache::new();
    assert_eq!(cache.insert(Category::Subject, "Jerk"), InsertOutcome::Inserted);
    assert_eq!(cache.insert(Category::Subject, "jerk"), InsertOutcome::Inserted);
    assert_eq!(cache.subjects.len(), 2);
}

#[test]
fn insert_allows_cross_category_duplicates() {
    let mut cache = WordCache::new();
    assert_eq!(cache.insert(Category::Descriptor, "odd"), InsertOutcome::Inserted);
    assert_eq!(cache.insert(Category::Subject, "odd"), InsertOutcome::Inserted);
    assert_eq!(cache.descriptors.len(), 1);
    assert_eq!(cache.subjects.len(), 1);
}

#[test]
fn repeated_inserts_win_once() {
    let mut cache = WordCache::new();
    let mut inserted = 0;
    let mut already = 0;
    let mut n = 0;
    while n < 5 {
        match cache.insert(Category::Descriptor, "awful") {
            InsertOutcome::Inserted => inserted += 1,
            InsertOutcome::AlreadyPresent => already += 1,
        }
        n += 1;
    }
    assert_eq!(inserted, 1);
    assert_eq!(already, 4);
    assert_eq!(cache.descriptors.len(), 1);
}

#[test]
fn pick_phrase_empty_combinations() {
    let empty = WordCache::new();
    assert_eq!(empty.pick_phrase(), None);
    let only_descriptors = WordCache {
        descriptors: vec![String::from("awful")],
        subjects: Vec::new(),
    };
    assert_eq!(only_descriptors.pick_phrase(), None);
    let only_subjects = WordCache {
        descriptors: Vec::new(),
        subjects: vec![String::from("jerk")],
    };
    assert_eq!(only_subjects.pick_phrase(), None);
    let both = WordCache {
        descriptors: vec![String::from("awful")],
        subjects: vec![String::from("jerk")],
    };
    assert!(both.pick_phrase().is_some());
}

#[test]
fn pick_phrase_exact_single_pair() {
    let cache = WordCache {
        descriptors: vec![String::from("awful")],
        subjects: vec![String::from("jerk")],
    };
    let mut n = 0;
    while n < 25 {
        assert_eq!(cache.pick_phrase(), Some(String::from("an awful jerk")));
        n += 1;
    }
}

#[test]
fn pick_phrase_article_before_consonant() {
    let cache = WordCache {
        descriptors: vec![String::from("slimy")],
        subjects: vec![String::from("jerk")],
    };
    assert_eq!(cache.pick_phrase(), Some(String::from("a slimy jerk")));
}

#[test]
fn pick_phrase_article_before_capital_vowel() {
    let cache = WordCache {
        descriptors: vec![String::from("Odd")],
        subjects: vec![String::from("jerk")],
    };
    assert_eq!(cache.pick_phrase(), Some(String::from("an Odd jerk")));
}

#[test]
fn wf_check_spots_duplicates() {
    let good = WordCache {
        descriptors: vec![String::from("a"), String::from("b")],
        subjects: Vec::new(),
    };
    assert!(good.wf_check());
    let bad = WordCache {
        descriptors: vec![String::from("a"), String::from("a")],
        subjects: Vec::new(),
    };
    assert!(!bad.wf_check());
}

#[test]
fn build_cache_partitions_by_tag() {
    let records = vec![
        record("awful", "descriptor"),
        record("jerk", "subject"),
        record("slimy", "descriptor"),
    ];
    let (cache, discarded) = build_cache(records);
    assert_eq!(discarded, 0);
    assert_eq!(cache.descriptors, vec![String::from("awful"), String::from("slimy")]);
    assert_eq!(cache.subjects, vec![String::from("jerk")]);
}

#[test]
fn build_cache_counts_malformed_records() {
    let records = vec![
        WordRecord { word: None, category: Some(String::from("subject")) },
        WordRecord { word: Some(String::from("jerk")), category: None },
        record("jerk", "verb"),
        record("jerk", "subject"),
    ];
    let (cache, discarded) = build_cache(records);
    assert_eq!(discarded, 3);
    assert_eq!(cache.subjects, vec![String::from("jerk")]);
    assert_eq!(cache.descriptors.len(), 0);
}

#[test]
fn build_cache_skips_duplicates_without_counting() {
    let records = vec![
        record("jerk", "subject"),
        record("jerk", "subject"),
        record("jerk", "descriptor"),
    ];
    let (cache, discarded) = build_cache(records);
    assert_eq!(discarded, 0);
    assert_eq!(cache.subjects, vec![String::from("jerk")]);
    assert_eq!(cache.descriptors, vec![String::from("jerk")]);
    assert!(cache.wf_check());
}

#[test]
fn category_tags_round_trip() {
    assert_eq!(Category::Descriptor.tag(), String::from("descriptor"));
    assert_eq!(Category::Subject.tag(), String::from("subject"));
    assert_eq!(Category::from_tag("descriptor"), Some(Category::Descriptor));
    assert_eq!(Category::from_tag("subject"), Some(Category::Subject));
    assert_eq!(Category::from_tag("noun"), None);
    assert_eq!(Category::from_tag(""), None);
}

#[test]
fn trim_str_removes_surrounding_whitespace() {
    assert_eq!(insultbot::trim_str(" \t a b \n "), String::from("a b"));
    assert_eq!(insultbot::trim_str("   "), String::from(""));
    assert_eq!(insultbot::trim_str("ab"), String::from("ab"));
}
