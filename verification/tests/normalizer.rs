use focus_sampler::telegram_utils::{
    replaced_or_unchanged, strip_match, strip_message_counts, LEADING_BADGE, TRAILING_BADGE,
};

fn normalize(title: &str) -> String {
    strip_message_counts(title.to_string())
}

#[test]
fn leading_badge_is_stripped() {
    assert_eq!(normalize("(3) Bob"), "Bob");
}

#[test]
fn trailing_badge_is_stripped() {
    assert_eq!(normalize("Bob (3)"), "Bob");
}

#[test]
fn both_badges_are_stripped_from_one_title() {
    assert_eq!(normalize("(1) Family chat (22)"), "Family chat");
}

#[test]
fn title_without_badge_is_unchanged() {
    assert_eq!(normalize("Alice Smith"), "Alice Smith");
    assert_eq!(normalize(""), "");
    assert_eq!(normalize("Release (beta)"), "Release (beta)");
    assert_eq!(normalize("() empty"), "() empty");
    assert_eq!(normalize("(12"), "(12");
}

#[test]
fn badge_in_the_middle_stays() {
    assert_eq!(normalize("Call (2) notes"), "Call (2) notes");
}

#[test]
fn whitespace_around_a_badge_goes_with_it() {
    assert_eq!(normalize("(3)   Bob"), "Bob");
    assert_eq!(normalize("Bob   (3)"), "Bob");
    assert_eq!(normalize("(3)Bob"), "Bob");
    assert_eq!(normalize("Bob(3)"), "Bob");
    assert_eq!(normalize("  (3) Bob"), "Bob");
    assert_eq!(normalize("Bob (3)  "), "Bob");
}

#[test]
fn only_one_badge_goes_per_side() {
    assert_eq!(normalize("(1) (2) Bob"), "(2) Bob");
    assert_eq!(normalize("Bob (1) (2)"), "Bob (1)");
}

#[test]
fn title_that_is_only_a_badge_becomes_empty() {
    assert_eq!(normalize("(42)"), "");
}

#[test]
fn many_digits_form_one_badge() {
    assert_eq!(normalize("(1234567890) Work"), "Work");
    assert_eq!(normalize("(0) Work"), "Work");
}

#[test]
fn leading_badge_law_on_chosen_titles() {
    for s in ["Bob", "Alice Smith", "", "x (y)", "Team (9)", "a  b"] {
        for n in [0u32, 1, 9, 10, 4096] {
            let decorated = format!("({}) {}", n, s);
            assert_eq!(normalize(&decorated), normalize(s));
        }
    }
}

#[test]
fn trailing_badge_law_on_chosen_titles() {
    for s in ["Bob", "Alice Smith", "", "(y) x", "(9) Team", "a  b"] {
        for n in [0u32, 1, 9, 10, 4096] {
            let decorated = format!("{} ({})", s, n);
            assert_eq!(normalize(&decorated), normalize(s));
        }
    }
}

#[test]
fn normalizing_twice_changes_nothing_more() {
    for s in ["(3) Bob", "Bob (3)", "(1) Family chat (22)", "Alice Smith", "(42)"] {
        let once = normalize(s);
        assert_eq!(normalize(&once), once);
    }
}

#[test]
fn strip_match_removes_the_first_match_only() {
    assert_eq!(strip_match("b+", "aabbbaabb".to_string()), "aaaabb");
    assert_eq!(strip_match(LEADING_BADGE, "(3) Bob (4)".to_string()), "Bob (4)");
    assert_eq!(strip_match(TRAILING_BADGE, "(3) Bob (4)".to_string()), "(3) Bob");
}

#[test]
fn strip_match_keeps_the_title_where_the_pattern_is_refused() {
    assert_eq!(strip_match("(", "(3) Bob".to_string()), "(3) Bob");
}

#[test]
fn replaced_or_unchanged_picks_the_replacement() {
    assert_eq!(replaced_or_unchanged("old".to_string(), Some("new".to_string())), "new");
    assert_eq!(replaced_or_unchanged("old".to_string(), None), "old");
}
