use focus_sampler::counter::FocusCounter;
use focus_sampler::sampler::{
    record_stats, window_elapsed, ClockError, SampleRecord, Sampler, TickOutcome, Timestamp,
    NANOS_PER_SEC, SAMPLE_WINDOW_SIZE, TICK_PERIOD_MS,
};
use focus_sampler::window::{process, WindowNode};

fn s(text: &str) -> String {
    text.to_string()
}

fn at(secs: u64, nanos: u32) -> Timestamp {
    Timestamp::SinceEpoch { secs, nanos }
}

fn after_millis(start_secs: u64, millis: u64) -> Timestamp {
    Timestamp::SinceEpoch {
        secs: start_secs + millis / 1000,
        nanos: ((millis % 1000) * 1_000_000) as u32,
    }
}

fn sample(app_id: &str, title: &str) -> Option<(String, String)> {
    Some((s(app_id), s(title)))
}

fn row(tv_sec: u64, tv_nsec: u32, app_id: &str, title: &str, count: u64) -> SampleRecord {
    SampleRecord { tv_sec, tv_nsec, app_id: s(app_id), title: s(title), count }
}

#[test]
fn defaults_are_ten_milliseconds_and_five_seconds() {
    assert_eq!(TICK_PERIOD_MS, 10);
    assert_eq!(SAMPLE_WINDOW_SIZE, 5);
    assert_eq!(NANOS_PER_SEC, 1_000_000_000);
}

#[test]
fn nanos_since_epoch_is_signed() {
    assert_eq!(at(0, 0).nanos_since_epoch(), 0);
    assert_eq!(at(2, 5).nanos_since_epoch(), 2_000_000_005);
    assert_eq!(Timestamp::BeforeEpoch { secs: 2, nanos: 5 }.nanos_since_epoch(), -2_000_000_005);
    assert_eq!(
        at(u64::MAX, u32::MAX).nanos_since_epoch(),
        (u64::MAX as i128) * 1_000_000_000 + (u32::MAX as i128)
    );
}

#[test]
fn window_is_over_after_the_whole_seconds_have_passed() {
    assert_eq!(window_elapsed(&at(100, 0), &at(104, 999_999_999), 5), Ok(false));
    assert_eq!(window_elapsed(&at(100, 0), &at(105, 0), 5), Ok(true));
    assert_eq!(window_elapsed(&at(100, 500), &at(105, 499), 5), Ok(false));
    assert_eq!(window_elapsed(&at(100, 500), &at(105, 500), 5), Ok(true));
    assert_eq!(window_elapsed(&at(100, 0), &at(100, 0), 0), Ok(true));
    assert_eq!(window_elapsed(&at(100, 0), &at(100, 0), 1), Ok(false));
}

#[test]
fn window_spans_the_epoch() {
    let start = Timestamp::BeforeEpoch { secs: 2, nanos: 0 };
    assert_eq!(window_elapsed(&start, &at(2, 999_999_999), 5), Ok(false));
    assert_eq!(window_elapsed(&start, &at(3, 0), 5), Ok(true));
}

#[test]
fn clock_that_went_backwards_is_reported() {
    assert_eq!(window_elapsed(&at(100, 1), &at(100, 0), 5), Err(ClockError::WentBackwards));
    assert_eq!(window_elapsed(&at(100, 0), &at(99, 999_999_999), 0), Err(ClockError::WentBackwards));
    assert_eq!(
        window_elapsed(&at(0, 0), &Timestamp::BeforeEpoch { secs: 0, nanos: 1 }, 5),
        Err(ClockError::WentBackwards)
    );
}

#[test]
fn record_stats_gives_one_row_per_key_with_one_timestamp() {
    let mut c = FocusCounter::new();
    c.record(s("a"), s("one"));
    c.record(s("b"), s("two"));
    c.record(s("a"), s("one"));
    let rows = record_stats(&at(1700, 42), &c).unwrap();
    assert_eq!(rows, vec![row(1700, 42, "a", "one", 2), row(1700, 42, "b", "two", 1)]);
}

#[test]
fn record_stats_of_an_empty_counter_gives_no_row() {
    let c = FocusCounter::new();
    assert_eq!(record_stats(&at(1700, 42), &c), Ok(vec![]));
}

#[test]
fn record_stats_refuses_a_start_before_the_epoch() {
    let mut c = FocusCounter::new();
    c.record(s("a"), s("one"));
    let start = Timestamp::BeforeEpoch { secs: 1, nanos: 0 };
    assert_eq!(record_stats(&start, &c), Err(ClockError::BeforeEpoch));
}

#[test]
fn k_ticks_on_one_window_count_k_before_any_flush() {
    for k in [1u64, 3, 499] {
        let mut engine = Sampler::new(at(1000, 0));
        for i in 1..=k {
            let outcome = engine.on_tick(sample("app", "title"), after_millis(1000, 10 * i));
            assert_eq!(outcome, TickOutcome::Waiting);
        }
        assert_eq!(engine.counter().get(&s("app"), &s("title")), k);
        assert_eq!(engine.counter().len(), 1);
    }
}

#[test]
fn observe_counts_without_looking_at_the_clock() {
    let mut engine = Sampler::new(at(1000, 0));
    engine.observe(sample("a", "x"));
    engine.observe(None);
    engine.observe(sample("a", "x"));
    engine.observe(sample("b", "y"));
    assert_eq!(engine.counter().get(&s("a"), &s("x")), 2);
    assert_eq!(engine.counter().get(&s("b"), &s("y")), 1);
    assert_eq!(engine.counter().len(), 2);
    assert_eq!(engine.window_start(), at(1000, 0));
}

#[test]
fn flush_leaves_the_counter_empty() {
    let mut engine = Sampler::new(at(1000, 0));
    engine.observe(sample("a", "x"));
    engine.observe(sample("b", "y"));
    let rows = engine.flush(at(1005, 7)).unwrap();
    assert_eq!(rows.len(), 2);
    assert!(engine.counter().is_empty());
    assert_eq!(engine.window_start(), at(1005, 7));

    let mut idle = Sampler::new(at(1000, 0));
    assert_eq!(idle.flush(at(1001, 0)), Ok(vec![]));
    assert!(idle.counter().is_empty());
}

#[test]
fn flush_writes_one_row_per_distinct_key() {
    let mut engine = Sampler::new(at(1000, 123));
    let keys = [("a", "1"), ("b", "2"), ("c", "3"), ("d", "4")];
    for round in 0..3 {
        for (i, (app, title)) in keys.iter().enumerate() {
            if i >= round {
                engine.observe(sample(app, title));
            }
        }
    }
    let rows = engine.flush(at(1005, 0)).unwrap();
    assert_eq!(rows.len(), keys.len());
    for r in rows.iter() {
        assert_eq!(r.tv_sec, 1000);
        assert_eq!(r.tv_nsec, 123);
    }
    assert_eq!(
        rows,
        vec![
            row(1000, 123, "a", "1", 1),
            row(1000, 123, "b", "2", 2),
            row(1000, 123, "c", "3", 3),
            row(1000, 123, "d", "4", 3),
        ]
    );
}

#[test]
fn flush_of_a_window_that_began_before_the_epoch_drops_its_counts() {
    let mut engine = Sampler::new(Timestamp::BeforeEpoch { secs: 3, nanos: 0 });
    engine.observe(sample("a", "x"));
    assert_eq!(engine.flush(at(10, 0)), Err(ClockError::BeforeEpoch));
    assert!(engine.counter().is_empty());
    assert_eq!(engine.window_start(), at(10, 0));
}

#[test]
fn tick_flushes_when_the_window_is_over() {
    let mut engine = Sampler::with_window(at(50, 0), 2);
    assert_eq!(engine.on_tick(sample("a", "x"), at(51, 0)), TickOutcome::Waiting);
    assert_eq!(engine.on_tick(None, at(51, 999_999_999)), TickOutcome::Waiting);
    let outcome = engine.on_tick(sample("a", "x"), at(52, 0));
    assert_eq!(outcome, TickOutcome::Flushed(vec![row(50, 0, "a", "x", 2)]));
    assert!(engine.counter().is_empty());
    assert_eq!(engine.window_start(), at(52, 0));
    assert_eq!(engine.on_tick(sample("b", "y"), at(53, 0)), TickOutcome::Waiting);
    let next = engine.on_tick(sample("b", "y"), at(54, 5));
    assert_eq!(next, TickOutcome::Flushed(vec![row(52, 0, "b", "y", 2)]));
}

#[test]
fn tick_with_the_clock_gone_backwards_keeps_counting() {
    let mut engine = Sampler::new(at(1000, 0));
    assert_eq!(engine.on_tick(sample("a", "x"), at(999, 0)), TickOutcome::ClockWentBackwards);
    assert_eq!(engine.counter().get(&s("a"), &s("x")), 1);
    assert_eq!(engine.window_start(), at(1000, 0));
    let outcome = engine.on_tick(sample("a", "x"), at(1005, 0));
    assert_eq!(outcome, TickOutcome::Flushed(vec![row(1000, 0, "a", "x", 2)]));
}

#[test]
fn tick_drops_a_window_that_began_before_the_epoch() {
    let mut engine = Sampler::new(Timestamp::BeforeEpoch { secs: 1, nanos: 0 });
    assert_eq!(engine.on_tick(sample("a", "x"), at(3, 999_999_999)), TickOutcome::Waiting);
    assert_eq!(engine.on_tick(sample("a", "x"), at(4, 0)), TickOutcome::Dropped);
    assert!(engine.counter().is_empty());
    assert_eq!(engine.window_start(), at(4, 0));
}

fn telegram_tree(title: &str) -> WindowNode {
    let window = WindowNode {
        id: 7,
        app_id: Some(s("org.telegram.desktop")),
        window_class: None,
        name: Some(s(title)),
        focus: vec![],
        nodes: vec![],
        floating_nodes: vec![],
    };
    WindowNode {
        id: 1,
        app_id: None,
        window_class: None,
        name: Some(s("root")),
        focus: vec![7],
        nodes: vec![window],
        floating_nodes: vec![],
    }
}

#[test]
fn one_flush_per_five_hundred_ticks_with_a_normalized_title() {
    let tree = telegram_tree("(3) Bob");
    let mut engine = Sampler::new(at(2000, 0));
    let mut flushes: Vec<Vec<SampleRecord>> = Vec::new();
    for i in 1..=1500u64 {
        let now = after_millis(2000, TICK_PERIOD_MS * i);
        match engine.on_tick(process(&tree), now) {
            TickOutcome::Waiting => assert!(i % 500 != 0),
            TickOutcome::Flushed(rows) => {
                assert_eq!(i % 500, 0);
                flushes.push(rows);
            }
            other => panic!("unexpected outcome {:?}", other),
        }
    }
    assert_eq!(
        flushes,
        vec![
            vec![row(2000, 0, "org.telegram.desktop", "Bob", 500)],
            vec![row(2005, 0, "org.telegram.desktop", "Bob", 500)],
            vec![row(2010, 0, "org.telegram.desktop", "Bob", 500)],
        ]
    );
}

#[test]
fn window_without_focus_flushes_no_rows() {
    let empty_tree = WindowNode {
        id: 1,
        app_id: None,
        window_class: None,
        name: None,
        focus: vec![],
        nodes: vec![],
        floating_nodes: vec![],
    };
    let mut engine = Sampler::new(at(3000, 0));
    for i in 1..500u64 {
        let now = after_millis(3000, TICK_PERIOD_MS * i);
        assert_eq!(engine.on_tick(process(&empty_tree), now), TickOutcome::Waiting);
        assert!(engine.counter().is_empty());
    }
    let last = engine.on_tick(process(&empty_tree), at(3005, 0));
    assert_eq!(last, TickOutcome::Flushed(vec![]));
    assert!(engine.counter().is_empty());
}
