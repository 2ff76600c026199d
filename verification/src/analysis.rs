//! The analysis engine: from the persisted rows of a trailing span of time to
//! the estimated time per window, longest first.

use crate::counter::{
    count_of, credit, distinct_keys, has_key, lemma_credit, lemma_position_unique, position_of,
    CountEntry, FocusKey, Tally,
};
use crate::sampler::{samples, Sample, SampleRecord};
use vstd::prelude::*;

verus! {

/// The span of time that an analysis looks back on, in seconds: one day.
pub const ANALYSIS_HORIZON_SECS: u64 = 86_400;

/// The earliest second that an analysis at `now_secs` still takes in: the
/// horizon before now, and the epoch itself where now lies less than the
/// horizon after it.
pub open spec fn horizon_start(now_secs: u64, horizon_secs: u64) -> u64 {
    if now_secs >= horizon_secs {
        (now_secs - horizon_secs) as u64
    } else {
        0
    }
}

/// The earliest second that an analysis at `now_secs` still takes in.
pub fn analysis_threshold(now_secs: u64, horizon_secs: u64) -> (threshold: u64)
    ensures
        threshold == horizon_start(now_secs, horizon_secs),
{
    if now_secs >= horizon_secs {
        now_secs - horizon_secs
    } else {
        0
    }
}

/// The rows grouped by key, each key with the sum of the counts of its rows,
/// rows older than `threshold` left out. The keys stand in the order in which
/// they first occur among the rows that are taken in.
pub open spec fn grouped(rows: Seq<Sample>, threshold: u64) -> Seq<Tally>
    decreases rows.len(),
{
    if rows.len() == 0 {
        Seq::empty()
    } else {
        let earlier = grouped(rows.drop_last(), threshold);
        let row = rows.last();
        if row.tv_sec >= threshold {
            credit(earlier, row.key, row.count)
        } else {
            earlier
        }
    }
}

/// The sum of the counts of the rows of `key` that are not older than
/// `threshold`.
pub open spec fn sum_for(rows: Seq<Sample>, threshold: u64, key: FocusKey) -> nat
    decreases rows.len(),
{
    if rows.len() == 0 {
        0
    } else {
        let row = rows.last();
        let earlier = sum_for(rows.drop_last(), threshold, key);
        if row.tv_sec >= threshold && row.key == key {
            earlier + row.count
        } else {
            earlier
        }
    }
}

/// Whether some row of `key` is not older than `threshold`.
pub open spec fn seen_since(rows: Seq<Sample>, threshold: u64, key: FocusKey) -> bool {
    exists|i: int| 0 <= i < rows.len() && (#[trigger] rows[i]).tv_sec >= threshold && rows[i].key == key
}

/// The grouped rows hold each key once, hold exactly the keys that occur in a
/// row that is taken in, and hold for each key the sum of the counts of its
/// rows.
pub proof fn lemma_grouped_sums(rows: Seq<Sample>, threshold: u64, key: FocusKey)
    ensures
        distinct_keys(grouped(rows, threshold)),
        has_key(grouped(rows, threshold), key) == seen_since(rows, threshold, key),
        count_of(grouped(rows, threshold), key) == sum_for(rows, threshold, key),
    decreases rows.len(),
{
    if rows.len() > 0 {
        let earlier_rows = rows.drop_last();
        let earlier = grouped(earlier_rows, threshold);
        let row = rows.last();
        lemma_grouped_sums(earlier_rows, threshold, key);
        lemma_grouped_sums(earlier_rows, threshold, row.key);
        if row.tv_sec >= threshold {
            lemma_credit(earlier, row.key, row.count, key);
        }
        if seen_since(earlier_rows, threshold, key) {
            let i = choose|i: int|
                0 <= i < earlier_rows.len() && (#[trigger] earlier_rows[i]).tv_sec >= threshold
                    && earlier_rows[i].key == key;
            assert(rows[i] == earlier_rows[i]);
        }
        if seen_since(rows, threshold, key) {
            let i = choose|i: int|
                0 <= i < rows.len() && (#[trigger] rows[i]).tv_sec >= threshold && rows[i].key
                    == key;
            if i < rows.len() - 1 {
                assert(earlier_rows[i] == rows[i]);
            }
        }
        if row.tv_sec >= threshold && row.key == key {
            assert(rows[rows.len() - 1] == row);
        }
    } else {
        assert(!has_key(grouped(rows, threshold), key));
    }
}

/// A row older than the threshold changes nothing, wherever it is put among
/// the others.
pub proof fn lemma_stale_row_is_ignored(rows: Seq<Sample>, at: int, stale: Sample, threshold: u64)
    requires
        0 <= at <= rows.len(),
        stale.tv_sec < threshold,
    ensures
        grouped(rows.insert(at, stale), threshold) == grouped(rows, threshold),
    decreases rows.len(),
{
    let with_stale = rows.insert(at, stale);
    if at == rows.len() {
        assert(with_stale.drop_last() =~= rows);
    } else {
        lemma_stale_row_is_ignored(rows.drop_last(), at, stale, threshold);
        assert(with_stale.drop_last() =~= rows.drop_last().insert(at, stale));
        assert(with_stale.last() == rows.last());
    }
}

/// The sum for a key over the first `k` rows is at most its sum over all rows.
pub proof fn lemma_sum_for_prefix(rows: Seq<Sample>, k: int, threshold: u64, key: FocusKey)
    requires
        0 <= k <= rows.len(),
    ensures
        sum_for(rows.subrange(0, k), threshold, key) <= sum_for(rows, threshold, key),
    decreases rows.len(),
{
    if k == rows.len() {
        assert(rows.subrange(0, k) =~= rows);
    } else {
        lemma_sum_for_prefix(rows.drop_last(), k, threshold, key);
        assert(rows.drop_last().subrange(0, k) =~= rows.subrange(0, k));
    }
}

/// Why an analysis could not be made.
#[derive(Clone, Copy, Debug, PartialEq, Eq, Structural)]
pub enum AnalysisError {
    /// The counts of one key add up to more than a count can hold.
    CountOverflow,
}

/// Whether every count is one that a stored count can hold.
pub open spec fn counts_fit(tallies: Seq<Tally>) -> bool {
    forall|i: int| 0 <= i < tallies.len() ==> (#[trigger] tallies[i]).count <= u64::MAX
}

/// What a sequence of entries stands for, entry by entry.
pub open spec fn tallies_of(entries: Seq<CountEntry>) -> Seq<Tally> {
    entries.map_values(|e: CountEntry| e@)
}

/// The position of the entry that is kept under the given key.
pub fn find_entry(entries: &Vec<CountEntry>, app_id: &String, title: &String) -> (found: Option<
    usize,
>)
    ensures
        match found {
            Some(i) => i < entries@.len() && entries@[i as int]@.key == (FocusKey {
                app_id: app_id@,
                title: title@,
            }),
            None => !has_key(tallies_of(entries@), FocusKey { app_id: app_id@, title: title@ }),
        },
{
    let ghost key = FocusKey { app_id: app_id@, title: title@ };
    let mut i: usize = 0;
    while i < entries.len()
        invariant
            i <= entries.len(),
            key == (FocusKey { app_id: app_id@, title: title@ }),
            forall|j: int| 0 <= j < i ==> (#[trigger] tallies_of(entries@)[j]).key != key,
        decreases entries.len() - i,
    {
        if entries[i].app_id == *app_id && entries[i].title == *title {
            return Some(i);
        }
        assert(tallies_of(entries@)[i as int].key != key);
        i += 1;
    }
    None
}

/// Groups the rows by key and sums their counts, leaving out the rows older
/// than `threshold`. Fails where the counts of a key add up to more than a
/// count can hold, and only there.
pub fn summarize(records: &Vec<SampleRecord>, threshold: u64) -> (r: Result<
    Vec<CountEntry>,
    AnalysisError,
>)
    ensures
        match r {
            Ok(entries) => counts_fit(grouped(samples(records@), threshold)) && tallies_of(
                entries@,
            ) == grouped(samples(records@), threshold),
            Err(e) => !counts_fit(grouped(samples(records@), threshold)),
        },
{
    let ghost rows = samples(records@);
    let mut entries: Vec<CountEntry> = Vec::new();
    let n = records.len();
    let mut i: usize = 0;
    assert(rows.subrange(0, 0) =~= Seq::<Sample>::empty());
    assert(tallies_of(entries@) =~= Seq::<Tally>::empty());
    while i < n
        invariant
            i <= n,
            n == records@.len(),
            rows == samples(records@),
            tallies_of(entries@) == grouped(rows.subrange(0, i as int), threshold),
        decreases n - i,
    {
        let record = &records[i];
        let ghost key = record@.key;
        let ghost earlier = grouped(rows.subrange(0, i as int), threshold);
        proof {
            assert(rows.subrange(0, i + 1).drop_last() =~= rows.subrange(0, i as int));
            assert(rows.subrange(0, i + 1).last() == record@);
            lemma_grouped_sums(rows.subrange(0, i as int), threshold, key);
        }
        if record.tv_sec >= threshold {
            match find_entry(&entries, &record.app_id, &record.title) {
                Some(j) => {
                    proof {
                        lemma_position_unique(earlier, key, j as int);
                    }
                    match entries[j].count.checked_add(record.count) {
                        Some(sum) => {
                            entries.set(
                                j,
                                CountEntry {
                                    app_id: record.app_id.clone(),
                                    title: record.title.clone(),
                                    count: sum,
                                },
                            );
                            assert(tallies_of(entries@) =~= credit(earlier, key, record@.count));
                        },
                        None => {
                            proof {
                                let all = grouped(rows, threshold);
                                let so_far = grouped(rows.subrange(0, i + 1), threshold);
                                lemma_credit(earlier, key, record@.count, key);
                                lemma_grouped_sums(rows.subrange(0, i + 1), threshold, key);
                                lemma_grouped_sums(rows, threshold, key);
                                lemma_sum_for_prefix(rows, i + 1, threshold, key);
                                assert(count_of(so_far, key) > u64::MAX);
                                assert(count_of(all, key) > u64::MAX);
                                assert(all[position_of(all, key)].count > u64::MAX);
                            }
                            return Err(AnalysisError::CountOverflow);
                        },
                    }
                },
                None => {
                    entries.push(
                        CountEntry {
                            app_id: record.app_id.clone(),
                            title: record.title.clone(),
                            count: record.count,
                        },
                    );
                    assert(tallies_of(entries@) =~= credit(earlier, key, record@.count));
                },
            }
        }
        i += 1;
    }
    proof {
        assert(rows.subrange(0, n as int) =~= rows);
        assert(counts_fit(tallies_of(entries@)));
    }
    Ok(entries)
}

/// One line of the report: a window and the time it is estimated to have
/// held the focus, in milliseconds.
#[derive(Clone, Debug, PartialEq, Eq)]
pub struct AnalysisRow {
    pub app_id: String,
    pub title: String,
    /// The number of ticks on which the window was seen.
    pub count: u64,
    /// The count times the tick period.
    pub estimated_millis: u128,
}

/// What an `AnalysisRow` stands for.
pub struct Estimate {
    pub key: FocusKey,
    pub count: nat,
    pub estimated_millis: nat,
}

impl View for AnalysisRow {
    type V = Estimate;

    open spec fn view(&self) -> Estimate {
        Estimate {
            key: FocusKey { app_id: self.app_id@, title: self.title@ },
            count: self.count as nat,
            estimated_millis: self.estimated_millis as nat,
        }
    }
}

/// What a sequence of rows stands for, row by row.
pub open spec fn estimates_of(rows: Seq<AnalysisRow>) -> Seq<Estimate> {
    rows.map_values(|r: AnalysisRow| r@)
}

/// The time that `count` ticks of `tick_period_ms` milliseconds stand for.
pub open spec fn estimated_time(count: nat, tick_period_ms: u64) -> nat {
    count * (tick_period_ms as nat)
}

/// The estimate for each tally, in the order of the tallies.
pub open spec fn estimated(tallies: Seq<Tally>, tick_period_ms: u64) -> Seq<Estimate> {
    tallies.map_values(
        |t: Tally|
            Estimate {
                key: t.key,
                count: t.count,
                estimated_millis: estimated_time(t.count, tick_period_ms),
            },
    )
}

/// The time in milliseconds that `count` ticks stand for.
pub fn estimated_millis(count: u64, tick_period_ms: u64) -> (millis: u128)
    ensures
        millis == estimated_time(count as nat, tick_period_ms),
{
    assert(count * tick_period_ms <= 0xffff_ffff_ffff_ffff * 0xffff_ffff_ffff_ffff)
        by (nonlinear_arith)
        requires
            count <= 0xffff_ffff_ffff_ffff,
            tick_period_ms <= 0xffff_ffff_ffff_ffff,
    ;
    (count as u128) * (tick_period_ms as u128)
}

/// Gives each entry its estimated time.
pub fn estimate_rows(entries: &Vec<CountEntry>, tick_period_ms: u64) -> (rows: Vec<AnalysisRow>)
    ensures
        estimates_of(rows@) == estimated(tallies_of(entries@), tick_period_ms),
{
    let mut rows: Vec<AnalysisRow> = Vec::new();
    let n = entries.len();
    let mut i: usize = 0;
    while i < n
        invariant
            i <= n,
            n == entries@.len(),
            rows@.len() == i,
            forall|j: int|
                0 <= j < i ==> (#[trigger] rows@[j])@ == estimated(
                    tallies_of(entries@),
                    tick_period_ms,
                )[j],
        decreases n - i,
    {
        let e = &entries[i];
        rows.push(
            AnalysisRow {
                app_id: e.app_id.clone(),
                title: e.title.clone(),
                count: e.count,
                estimated_millis: estimated_millis(e.count, tick_period_ms),
            },
        );
        i += 1;
    }
    assert(estimates_of(rows@) =~= estimated(tallies_of(entries@), tick_period_ms));
    rows
}

/// Where an estimate of `millis` goes among estimates that already stand
/// longest first: behind all that are as long or longer.
pub open spec fn rank_position(ranked: Seq<Estimate>, millis: nat) -> int
    decreases ranked.len(),
{
    if ranked.len() == 0 || ranked[0].estimated_millis < millis {
        0
    } else {
        1 + rank_position(ranked.drop_first(), millis)
    }
}

/// The estimates with the longest first. Of two that are equally long, the
/// one that stood later in `rows` comes first.
pub open spec fn ranking(rows: Seq<Estimate>) -> Seq<Estimate>
    decreases rows.len(),
{
    if rows.len() == 0 {
        Seq::empty()
    } else {
        let later = ranking(rows.drop_first());
        later.insert(rank_position(later, rows[0].estimated_millis), rows[0])
    }
}

/// Whether the estimates stand longest first.
pub open spec fn longest_first(rows: Seq<Estimate>) -> bool {
    forall|i: int, j: int|
        0 <= i < j < rows.len() ==> (#[trigger] rows[i]).estimated_millis >= (
        #[trigger] rows[j]).estimated_millis
}

/// The position that `rank_position` gives lies within the sequence, with
/// nothing shorter in front of it and, in a sequence that stands longest
/// first, nothing as long or longer behind it.
pub proof fn lemma_rank_position(ranked: Seq<Estimate>, millis: nat)
    ensures
        0 <= rank_position(ranked, millis) <= ranked.len(),
        forall|j: int|
            0 <= j < rank_position(ranked, millis) ==> (#[trigger] ranked[j]).estimated_millis
                >= millis,
        longest_first(ranked) ==> forall|j: int|
            rank_position(ranked, millis) <= j < ranked.len() ==> (
            #[trigger] ranked[j]).estimated_millis < millis,
    decreases ranked.len(),
{
    if ranked.len() > 0 && ranked[0].estimated_millis >= millis {
        let rest = ranked.drop_first();
        lemma_rank_position(rest, millis);
        let p = rank_position(ranked, millis);
        assert forall|j: int| 0 <= j < p implies (#[trigger] ranked[j]).estimated_millis
            >= millis by {
            if j > 0 {
                assert(ranked[j] == rest[j - 1]);
            }
        }
        if longest_first(ranked) {
            assert forall|a: int, b: int| 0 <= a < b < rest.len() implies (
            #[trigger] rest[a]).estimated_millis >= (#[trigger] rest[b]).estimated_millis by {
                assert(rest[a] == ranked[a + 1]);
                assert(rest[b] == ranked[b + 1]);
            }
            assert forall|j: int| p <= j < ranked.len() implies (
            #[trigger] ranked[j]).estimated_millis < millis by {
                assert(ranked[j] == rest[j - 1]);
            }
        }
    } else if ranked.len() > 0 && longest_first(ranked) {
        assert forall|j: int| 0 <= j < ranked.len() implies (
        #[trigger] ranked[j]).estimated_millis < millis by {
            if j > 0 {
                assert(ranked[0].estimated_millis >= ranked[j].estimated_millis);
            }
        }
    }
}

/// The ranking holds the same estimates as the rows, each as often as they
/// do, and holds them longest first.
pub proof fn lemma_ranking(rows: Seq<Estimate>)
    ensures
        ranking(rows).len() == rows.len(),
        ranking(rows).to_multiset() == rows.to_multiset(),
        longest_first(ranking(rows)),
    decreases rows.len(),
{
    broadcast use vstd::seq_lib::group_to_multiset_ensures;

    if rows.len() > 0 {
        let later = ranking(rows.drop_first());
        let p = rank_position(later, rows[0].estimated_millis);
        let ranked = ranking(rows);
        lemma_ranking(rows.drop_first());
        lemma_rank_position(later, rows[0].estimated_millis);
        vstd::seq_lib::to_multiset_insert(later, p, rows[0]);
        assert(rows.to_multiset() =~= rows.drop_first().to_multiset().insert(rows[0])) by {
            assert(rows =~= seq![rows[0]] + rows.drop_first());
            vstd::seq_lib::lemma_multiset_commutative(seq![rows[0]], rows.drop_first());
            assert(seq![rows[0]] =~= Seq::<Estimate>::empty().push(rows[0]));
        }
        assert forall|i: int, j: int| 0 <= i < j < ranked.len() implies (
        #[trigger] ranked[i]).estimated_millis >= (#[trigger] ranked[j]).estimated_millis by {
            if i < p && j > p {
                assert(ranked[i] == later[i]);
                assert(ranked[j] == later[j - 1]);
            } else if i < p && j < p {
                assert(ranked[i] == later[i]);
                assert(ranked[j] == later[j]);
            } else if i > p {
                assert(ranked[i] == later[i - 1]);
                assert(ranked[j] == later[j - 1]);
            } else if i == p {
                assert(ranked[j] == later[j - 1]);
            } else {
                assert(ranked[i] == later[i]);
            }
        }
    }
}

/// A position with nothing shorter in front of it, and with something
/// shorter at it or nothing at all, is the one that `rank_position` gives.
pub proof fn lemma_rank_position_found(ranked: Seq<Estimate>, millis: nat, p: int)
    requires
        0 <= p <= ranked.len(),
        forall|j: int| 0 <= j < p ==> (#[trigger] ranked[j]).estimated_millis >= millis,
        p < ranked.len() ==> ranked[p].estimated_millis < millis,
    ensures
        rank_position(ranked, millis) == p,
    decreases ranked.len(),
{
    if p > 0 {
        let rest = ranked.drop_first();
        assert(ranked[0].estimated_millis >= millis);
        assert forall|j: int| 0 <= j < p - 1 implies (#[trigger] rest[j]).estimated_millis
            >= millis by {
            assert(rest[j] == ranked[j + 1]);
        }
        lemma_rank_position_found(rest, millis, p - 1);
    }
}

/// Orders the rows by estimated time, longest first. Of two rows that are
/// equally long, the one that stood later in `rows` comes first.
pub fn rank(rows: Vec<AnalysisRow>) -> (ranked: Vec<AnalysisRow>)
    ensures
        estimates_of(ranked@) == ranking(estimates_of(rows@)),
        longest_first(estimates_of(ranked@)),
        estimates_of(ranked@).to_multiset() == estimates_of(rows@).to_multiset(),
{
    let ghost all = estimates_of(rows@);
    let n = rows.len();
    let mut pending = rows;
    let mut ranked: Vec<AnalysisRow> = Vec::new();
    proof {
        assert(all.subrange(n as int, n as int) =~= Seq::<Estimate>::empty());
        assert(estimates_of(ranked@) =~= Seq::<Estimate>::empty());
    }
    while pending.len() > 0
        invariant
            n == all.len(),
            pending@.len() <= n,
            estimates_of(pending@) == all.subrange(0, pending@.len() as int),
            estimates_of(ranked@) == ranking(all.subrange(pending@.len() as int, n as int)),
        decreases pending@.len(),
    {
        let ghost k = pending@.len() as int;
        let ghost later = estimates_of(ranked@);
        let ghost before = estimates_of(pending@);
        let row = pending.pop().unwrap();
        proof {
            assert(row@ == before[k - 1]);
            assert(row@ == all[k - 1]);
            assert(estimates_of(pending@) =~= all.subrange(0, k - 1));
            assert(all.subrange(k - 1, n as int).drop_first() =~= all.subrange(k, n as int));
            assert(all.subrange(k - 1, n as int)[0] == row@);
        }
        let mut p: usize = 0;
        while p < ranked.len() && ranked[p].estimated_millis >= row.estimated_millis
            invariant
                p <= ranked@.len(),
                later == estimates_of(ranked@),
                forall|j: int|
                    0 <= j < p ==> (#[trigger] later[j]).estimated_millis
                        >= row@.estimated_millis,
            decreases ranked@.len() - p,
        {
            assert(later[p as int] == ranked@[p as int]@);
            p += 1;
        }
        proof {
            if p < ranked@.len() {
                assert(later[p as int] == ranked@[p as int]@);
            }
            lemma_rank_position_found(later, row@.estimated_millis, p as int);
        }
        ranked.insert(p, row);
        assert(estimates_of(ranked@) =~= later.insert(p as int, row@));
    }
    proof {
        assert(all.subrange(0, n as int) =~= all);
        lemma_ranking(all);
    }
    ranked
}

/// The report of an analysis at `now_secs`: the rows of the last
/// `horizon_secs` seconds, grouped by window, each group with the time that
/// its ticks stand for, the longest first.
pub open spec fn analysis_of(
    rows: Seq<Sample>,
    now_secs: u64,
    horizon_secs: u64,
    tick_period_ms: u64,
) -> Seq<Estimate> {
    ranking(estimated(grouped(rows, horizon_start(now_secs, horizon_secs)), tick_period_ms))
}

/// The estimate that a report owes to the rows of `key`: the sum of their
/// counts within the horizon, and the time that this sum stands for.
pub open spec fn line_for(
    rows: Seq<Sample>,
    now_secs: u64,
    horizon_secs: u64,
    tick_period_ms: u64,
    key: FocusKey,
) -> Estimate {
    let count = sum_for(rows, horizon_start(now_secs, horizon_secs), key);
    Estimate { key, count, estimated_millis: estimated_time(count, tick_period_ms) }
}

/// What a report holds. It has a line for every window with a row within the
/// horizon, and that line carries the sum of the counts of those rows and the
/// time that the sum stands for. It has no other lines: each line is the one
/// owed to its window, and no two lines are for the same window. The lines
/// stand longest first.
pub proof fn lemma_analysis_lines(
    rows: Seq<Sample>,
    now_secs: u64,
    horizon_secs: u64,
    tick_period_ms: u64,
)
    ensures
        forall|key: FocusKey|
            seen_since(rows, horizon_start(now_secs, horizon_secs), key) ==> analysis_of(
                rows,
                now_secs,
                horizon_secs,
                tick_period_ms,
            ).contains(#[trigger] line_for(rows, now_secs, horizon_secs, tick_period_ms, key)),
        forall|i: int|
            0 <= i < analysis_of(rows, now_secs, horizon_secs, tick_period_ms).len() ==> {
                let line = #[trigger] analysis_of(rows, now_secs, horizon_secs, tick_period_ms)[i];
                &&& seen_since(rows, horizon_start(now_secs, horizon_secs), line.key)
                &&& line == line_for(rows, now_secs, horizon_secs, tick_period_ms, line.key)
            },
        forall|i: int, j: int|
            0 <= i < j < analysis_of(rows, now_secs, horizon_secs, tick_period_ms).len() ==> (
            #[trigger] analysis_of(rows, now_secs, horizon_secs, tick_period_ms)[i]).key != (
            #[trigger] analysis_of(rows, now_secs, horizon_secs, tick_period_ms)[j]).key,
        longest_first(analysis_of(rows, now_secs, horizon_secs, tick_period_ms)),
{
    broadcast use vstd::seq_lib::group_to_multiset_ensures;

    let threshold = horizon_start(now_secs, horizon_secs);
    let groups = grouped(rows, threshold);
    let lines = estimated(groups, tick_period_ms);
    let report = analysis_of(rows, now_secs, horizon_secs, tick_period_ms);
    lemma_ranking(lines);
    assert forall|k: int| 0 <= k < lines.len() implies {
        &&& seen_since(rows, threshold, (#[trigger] lines[k]).key)
        &&& lines[k] == line_for(rows, now_secs, horizon_secs, tick_period_ms, lines[k].key)
    } by {
        let key = groups[k].key;
        lemma_grouped_sums(rows, threshold, key);
        lemma_position_unique(groups, key, k);
    }
    assert forall|key: FocusKey| seen_since(rows, threshold, key) implies report.contains(
        #[trigger] line_for(rows, now_secs, horizon_secs, tick_period_ms, key),
    ) by {
        lemma_grouped_sums(rows, threshold, key);
        let k = position_of(groups, key);
        let line = line_for(rows, now_secs, horizon_secs, tick_period_ms, key);
        assert(lines[k] == line);
        assert(lines.contains(line));
        assert(lines.to_multiset().count(line) > 0);
        assert(report.to_multiset().count(line) > 0);
    }
    assert forall|i: int| 0 <= i < report.len() implies {
        let line = #[trigger] report[i];
        &&& seen_since(rows, threshold, line.key)
        &&& line == line_for(rows, now_secs, horizon_secs, tick_period_ms, line.key)
    } by {
        let line = report[i];
        assert(report.contains(line));
        assert(report.to_multiset().count(line) > 0);
        assert(lines.to_multiset().count(line) > 0);
        assert(lines.contains(line));
        let k = choose|k: int| 0 <= k < lines.len() && lines[k] == line;
        assert(lines[k] == line);
    }
    lemma_grouped_sums(rows, threshold, arbitrary());
    assert forall|i: int, j: int| 0 <= i < j < report.len() implies (#[trigger] report[i]).key != (
    #[trigger] report[j]).key by {
        if report[i].key == report[j].key {
            let key = report[i].key;
            let line = line_for(rows, now_secs, horizon_secs, tick_period_ms, key);
            assert(report[i] == line);
            assert(report[j] == line);
            lemma_count_at_least_two(report, i, j);
            assert(lines.to_multiset().count(line) >= 2);
            lemma_distinct_lines_count_once(groups, tick_period_ms, line);
        }
    }
}

/// A value that stands at two places of a sequence is counted at least twice.
proof fn lemma_count_at_least_two(s: Seq<Estimate>, i: int, j: int)
    requires
        0 <= i < j < s.len(),
        s[i] == s[j],
    ensures
        s.to_multiset().count(s[i]) >= 2,
{
    broadcast use vstd::seq_lib::group_to_multiset_ensures;

    let once = s.remove(j);
    assert(once[i] == s[i]);
    assert(once.contains(s[i]));
    assert(once.to_multiset().count(s[i]) > 0);
    assert(once.to_multiset() == s.to_multiset().remove(s[j]));
}

/// Among the estimates for tallies with distinct keys, none stands twice.
proof fn lemma_distinct_lines_count_once(tallies: Seq<Tally>, tick_period_ms: u64, line: Estimate)
    requires
        distinct_keys(tallies),
    ensures
        estimated(tallies, tick_period_ms).to_multiset().count(line) <= 1,
    decreases tallies.len(),
{
    broadcast use vstd::seq_lib::group_to_multiset_ensures;

    let lines = estimated(tallies, tick_period_ms);
    if tallies.len() > 0 {
        let n = tallies.len() - 1;
        let earlier = tallies.drop_last();
        assert forall|a: int, b: int| 0 <= a < b < earlier.len() implies (
        #[trigger] earlier[a]).key != (#[trigger] earlier[b]).key by {
            assert(tallies[a].key != tallies[b].key);
        }
        lemma_distinct_lines_count_once(earlier, tick_period_ms, line);
        let earlier_lines = estimated(earlier, tick_period_ms);
        assert(lines =~= earlier_lines.push(lines[n]));
        if lines[n] == line {
            if earlier_lines.contains(line) {
                let k = choose|k: int| 0 <= k < earlier_lines.len() && earlier_lines[k] == line;
                assert(earlier_lines[k].key == tallies[k].key);
                assert(tallies[k].key != tallies[n].key);
            }
            assert(earlier_lines.to_multiset().count(line) == 0);
        }
    } else {
        assert(!lines.contains(line));
    }
}

/// A row that is older than the horizon changes nothing in the report,
/// wherever it is put among the others: not the sum of any window, and not
/// the lines or their order.
pub proof fn lemma_stale_row_leaves_analysis(
    rows: Seq<Sample>,
    at: int,
    stale: Sample,
    now_secs: u64,
    horizon_secs: u64,
    tick_period_ms: u64,
    key: FocusKey,
)
    requires
        0 <= at <= rows.len(),
        stale.tv_sec < horizon_start(now_secs, horizon_secs),
    ensures
        sum_for(rows.insert(at, stale), horizon_start(now_secs, horizon_secs), key) == sum_for(
            rows,
            horizon_start(now_secs, horizon_secs),
            key,
        ),
        analysis_of(rows.insert(at, stale), now_secs, horizon_secs, tick_period_ms) == analysis_of(
            rows,
            now_secs,
            horizon_secs,
            tick_period_ms,
        ),
{
    let threshold = horizon_start(now_secs, horizon_secs);
    lemma_stale_row_is_ignored(rows, at, stale, threshold);
    lemma_grouped_sums(rows, threshold, key);
    lemma_grouped_sums(rows.insert(at, stale), threshold, key);
}

/// Makes the report for the rows of the last `horizon_secs` seconds before
/// `now_secs`. Fails where the counts of a window within that span add up to
/// more than a count can hold, and only there.
pub fn analyze(
    records: &Vec<SampleRecord>,
    now_secs: u64,
    horizon_secs: u64,
    tick_period_ms: u64,
) -> (r: Result<Vec<AnalysisRow>, AnalysisError>)
    ensures
        match r {
            Ok(report) => {
                &&& counts_fit(grouped(samples(records@), horizon_start(now_secs, horizon_secs)))
                &&& estimates_of(report@) == analysis_of(
                    samples(records@),
                    now_secs,
                    horizon_secs,
                    tick_period_ms,
                )
                &&& longest_first(estimates_of(report@))
            },
            Err(e) => !counts_fit(
                grouped(samples(records@), horizon_start(now_secs, horizon_secs)),
            ),
        },
{
    let threshold = analysis_threshold(now_secs, horizon_secs);
    match summarize(records, threshold) {
        Ok(entries) => Ok(rank(estimate_rows(&entries, tick_period_ms))),
        Err(e) => Err(e),
    }
}

} // verus!
