use focus_sampler::counter::FocusCounter;

fn s(text: &str) -> String {
    text.to_string()
}

#[test]
fn new_counter_is_empty() {
    let c = FocusCounter::new();
    assert!(c.is_empty());
    assert_eq!(c.len(), 0);
    assert_eq!(c.get(&s("app"), &s("title")), 0);
}

#[test]
fn first_sample_of_a_key_counts_one() {
    let mut c = FocusCounter::new();
    c.record(s("app"), s("title"));
    assert_eq!(c.len(), 1);
    assert_eq!(c.get(&s("app"), &s("title")), 1);
    assert!(!c.is_empty());
}

#[test]
fn k_samples_of_one_key_count_k() {
    for k in [0u64, 1, 2, 7, 500] {
        let mut c = FocusCounter::new();
        for _ in 0..k {
            c.record(s("org.telegram.desktop"), s("Bob"));
        }
        assert_eq!(c.get(&s("org.telegram.desktop"), &s("Bob")), k);
        assert_eq!(c.len(), if k == 0 { 0 } else { 1 });
    }
}

#[test]
fn keys_are_counted_apart() {
    let mut c = FocusCounter::new();
    c.record(s("a"), s("one"));
    c.record(s("a"), s("two"));
    c.record(s("b"), s("one"));
    c.record(s("a"), s("one"));
    assert_eq!(c.len(), 3);
    assert_eq!(c.get(&s("a"), &s("one")), 2);
    assert_eq!(c.get(&s("a"), &s("two")), 1);
    assert_eq!(c.get(&s("b"), &s("one")), 1);
    assert_eq!(c.get(&s("b"), &s("two")), 0);
}

#[test]
fn key_is_the_pair_not_its_concatenation() {
    let mut c = FocusCounter::new();
    c.record(s("ab"), s("c"));
    c.record(s("a"), s("bc"));
    assert_eq!(c.len(), 2);
    assert_eq!(c.get(&s("ab"), &s("c")), 1);
    assert_eq!(c.get(&s("a"), &s("bc")), 1);
}

#[test]
fn entries_stand_in_order_of_first_sight() {
    let mut c = FocusCounter::new();
    c.record(s("x"), s("1"));
    c.record(s("y"), s("2"));
    c.record(s("x"), s("1"));
    c.record(s("z"), s("3"));
    assert_eq!(c.entry(0).app_id, "x");
    assert_eq!(c.entry(0).count, 2);
    assert_eq!(c.entry(1).app_id, "y");
    assert_eq!(c.entry(1).title, "2");
    assert_eq!(c.entry(1).count, 1);
    assert_eq!(c.entry(2).app_id, "z");
    assert_eq!(c.entry(2).count, 1);
}

#[test]
fn clear_forgets_every_key() {
    let mut c = FocusCounter::new();
    c.record(s("a"), s("one"));
    c.record(s("b"), s("two"));
    c.clear();
    assert!(c.is_empty());
    assert_eq!(c.get(&s("a"), &s("one")), 0);
    c.record(s("a"), s("one"));
    assert_eq!(c.get(&s("a"), &s("one")), 1);
}
