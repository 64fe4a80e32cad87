//! Finished bars, kept per resolution in day-long segments.

use crate::table::KeyedTable;
use crate::types::Bar;
use vstd::prelude::*;

verus! {

/// Length of the window one segment covers.
pub const SECONDS_PER_DAY: u64 = 86_400;

/// Start of the day that `timestamp` falls in.
pub open spec fn day_start(timestamp: u64) -> u64 {
    ((timestamp / SECONDS_PER_DAY) * SECONDS_PER_DAY) as u64
}

/// Whether `timestamp` lies in the closed range from `start` to `end`.
pub open spec fn in_range(timestamp: u64, start: u64, end: u64) -> bool {
    start <= timestamp <= end
}

/// The test that picks the bars of the closed range from `start` to `end`.
pub open spec fn range_test(start: u64, end: u64) -> spec_fn(Bar) -> bool {
    |bar: Bar| in_range(bar.timestamp, start, end)
}

/// The test that picks the bars stamped `timestamp`.
pub open spec fn stamp_test(timestamp: u64) -> spec_fn(Bar) -> bool {
    |bar: Bar| bar.timestamp == timestamp
}

/// The bars of `bars` stamped within the range, in their order.
pub open spec fn within(bars: Seq<Bar>, start: u64, end: u64) -> Seq<Bar> {
    bars.filter(range_test(start, end))
}

/// Whether the stamps of `bars` never decrease.
pub open spec fn sorted_by_time(bars: Seq<Bar>) -> bool {
    forall|i: int, j: int| 0 <= i <= j < bars.len() ==> bars[i].timestamp <= bars[j].timestamp
}

/// Whether `sorted` holds the bars of `bars` by ascending stamp, bars of
/// one stamp in the order they have in `bars`.
pub open spec fn is_stable_sort_of(sorted: Seq<Bar>, bars: Seq<Bar>) -> bool {
    &&& sorted_by_time(sorted)
    &&& sorted.to_multiset() == bars.to_multiset()
    &&& forall|t: u64| #[trigger] sorted.filter(stamp_test(t)) == bars.filter(stamp_test(t))
}

/// What a segment holds.
pub struct SegmentModel {
    pub start_timestamp: u64,
    pub end_timestamp: u64,
    pub bars: Seq<Bar>,
}

/// What a tier holds.
pub struct TierModel {
    pub resolution: u64,
    pub segments: Seq<SegmentModel>,
}

/// The segment that opens a day, before its first bar.
pub open spec fn fresh_segment(start: u64) -> SegmentModel {
    SegmentModel { start_timestamp: start, end_timestamp: start, bars: Seq::empty() }
}

/// `segment` after `bar` was appended: its end moves to the bar's stamp.
pub open spec fn segment_with(segment: SegmentModel, bar: Bar) -> SegmentModel {
    SegmentModel {
        start_timestamp: segment.start_timestamp,
        end_timestamp: bar.timestamp,
        bars: segment.bars.push(bar),
    }
}

/// Whether the span of `segment` meets the closed range from `start` to `end`.
pub open spec fn overlaps(segment: SegmentModel, start: u64, end: u64) -> bool {
    segment.start_timestamp <= end && segment.end_timestamp >= start
}

/// The segments of a tier after `bar` was appended: the bar joins the last
/// segment if that one opened the bar's day, and opens a new last segment
/// otherwise. Earlier segments are never touched or reordered.
pub open spec fn tier_with(segments: Seq<SegmentModel>, bar: Bar) -> Seq<SegmentModel> {
    if segments.len() > 0 && segments.last().start_timestamp == day_start(bar.timestamp) {
        segments.update(segments.len() - 1, segment_with(segments.last(), bar))
    } else {
        segments.push(segment_with(fresh_segment(day_start(bar.timestamp)), bar))
    }
}

/// The segments of a tier after `bars` were appended one by one.
pub open spec fn tier_with_all(segments: Seq<SegmentModel>, bars: Seq<Bar>) -> Seq<SegmentModel>
    decreases bars.len(),
{
    if bars.len() == 0 {
        segments
    } else {
        tier_with(tier_with_all(segments, bars.drop_last()), bars.last())
    }
}

/// The bars a range query gathers before sorting: segment by segment, from
/// each segment whose span meets the range, the bars stamped within it.
pub open spec fn collected(segments: Seq<SegmentModel>, start: u64, end: u64) -> Seq<Bar>
    decreases segments.len(),
{
    if segments.len() == 0 {
        Seq::empty()
    } else {
        collected(segments.drop_last(), start, end) + (if overlaps(segments.last(), start, end) {
            within(segments.last().bars, start, end)
        } else {
            Seq::empty()
        })
    }
}

/// All bars of a tier, segment by segment in the order of appending.
pub open spec fn all_bars(segments: Seq<SegmentModel>) -> Seq<Bar>
    decreases segments.len(),
{
    if segments.len() == 0 {
        Seq::empty()
    } else {
        all_bars(segments.drop_last()) + segments.last().bars
    }
}

/// Whether the stamps of `bars` strictly increase.
pub open spec fn strictly_ascending(bars: Seq<Bar>) -> bool {
    forall|i: int, j: int| 0 <= i < j < bars.len() ==> bars[i].timestamp < bars[j].timestamp
}

/// Appending a bar to a tier puts it behind all the bars of the tier.
pub proof fn lemma_all_bars_of_tier_with(segments: Seq<SegmentModel>, bar: Bar)
    ensures
        all_bars(tier_with(segments, bar)) == all_bars(segments).push(bar),
{
    let after = tier_with(segments, bar);
    if segments.len() > 0 && segments.last().start_timestamp == day_start(bar.timestamp) {
        assert(after.drop_last() =~= segments.drop_last());
        assert(all_bars(after) =~= all_bars(segments).push(bar));
    } else {
        assert(after.drop_last() =~= segments);
        assert(after.last().bars =~= seq![bar]);
        assert(all_bars(after) =~= all_bars(segments).push(bar));
    }
}

/// Whether `answer` is what a range query on `segments` returns.
pub open spec fn is_range_answer(
    answer: Seq<Bar>,
    segments: Seq<SegmentModel>,
    start: u64,
    end: u64,
) -> bool {
    is_stable_sort_of(answer, collected(segments, start, end))
}

/// A segment as appends build it: it opens a day and lies in it up to its
/// latest bar.
spec fn built(segment: SegmentModel) -> bool {
    &&& segment.bars.len() > 0
    &&& segment.end_timestamp == segment.bars.last().timestamp
    &&& forall|i: int|
        0 <= i < segment.bars.len() ==> segment.start_timestamp
            <= (#[trigger] segment.bars[i]).timestamp
}

proof fn lemma_within_keeps_all(bars: Seq<Bar>, start: u64, end: u64)
    requires
        forall|i: int| 0 <= i < bars.len() ==> in_range((#[trigger] bars[i]).timestamp, start, end),
    ensures
        within(bars, start, end) == bars,
    decreases bars.len(),
{
    reveal(Seq::filter);
    if bars.len() > 0 {
        lemma_within_keeps_all(bars.drop_last(), start, end);
        assert(range_test(start, end)(bars.last()));
        assert(bars.drop_last().push(bars.last()) =~= bars);
    }
}

proof fn lemma_collected_of_update(
    segments: Seq<SegmentModel>,
    segment: SegmentModel,
    start: u64,
    end: u64,
)
    requires
        segments.len() > 0,
    ensures
        collected(segments.update(segments.len() - 1, segment), start, end) == collected(
            segments.drop_last(),
            start,
            end,
        ) + (if overlaps(segment, start, end) {
            within(segment.bars, start, end)
        } else {
            Seq::empty()
        }),
{
    let updated = segments.update(segments.len() - 1, segment);
    assert(updated.drop_last() =~= segments.drop_last());
}

proof fn lemma_appends_collect_in_order(bars: Seq<Bar>, start: u64, end: u64)
    requires
        forall|i: int| 0 <= i < bars.len() ==> in_range((#[trigger] bars[i]).timestamp, start, end),
    ensures
        collected(tier_with_all(Seq::empty(), bars), start, end) == bars,
        forall|k: int|
            0 <= k < tier_with_all(Seq::empty(), bars).len() ==> built(
                #[trigger] tier_with_all(Seq::empty(), bars)[k],
            ) && overlaps(tier_with_all(Seq::empty(), bars)[k], start, end) && forall|i: int|
                0 <= i < tier_with_all(Seq::empty(), bars)[k].bars.len() ==> in_range(
                    (#[trigger] tier_with_all(Seq::empty(), bars)[k].bars[i]).timestamp,
                    start,
                    end,
                ),
    decreases bars.len(),
{
    if bars.len() > 0 {
        let front = bars.drop_last();
        let bar = bars.last();
        lemma_appends_collect_in_order(front, start, end);
        let before = tier_with_all(Seq::<SegmentModel>::empty(), front);
        let after = tier_with(before, bar);
        assert(in_range(bars[bars.len() - 1].timestamp, start, end));
        assert(day_start(bar.timestamp) <= bar.timestamp);
        if before.len() > 0 && before.last().start_timestamp == day_start(bar.timestamp) {
            let grown = segment_with(before.last(), bar);
            assert(built(before[before.len() - 1]));
            assert(built(grown));
            assert(overlaps(grown, start, end));
            lemma_collected_of_update(before, grown, start, end);
            lemma_within_keeps_all(grown.bars, start, end);
            lemma_within_keeps_all(before.last().bars, start, end);
            assert(overlaps(before[before.len() - 1], start, end));
            assert(collected(after, start, end) =~= collected(before, start, end).push(bar));
        } else {
            let opened = segment_with(fresh_segment(day_start(bar.timestamp)), bar);
            assert(built(opened));
            assert(overlaps(opened, start, end));
            assert(after.drop_last() =~= before);
            lemma_within_keeps_all(opened.bars, start, end);
            assert(opened.bars =~= seq![bar]);
            assert(collected(after, start, end) =~= collected(before, start, end).push(bar));
        }
        assert(front.push(bar) =~= bars);
    }
}

/// Round trip: after bars stamped within a range were appended to an empty
/// tier, in any order of days, a query over that range answers with all of
/// them, by ascending stamp.
pub proof fn lemma_range_returns_all_appended(
    bars: Seq<Bar>,
    start: u64,
    end: u64,
    answer: Seq<Bar>,
)
    requires
        forall|i: int| 0 <= i < bars.len() ==> in_range((#[trigger] bars[i]).timestamp, start, end),
        is_range_answer(answer, tier_with_all(Seq::empty(), bars), start, end),
    ensures
        is_stable_sort_of(answer, bars),
        answer.len() == bars.len(),
        sorted_by_time(answer),
{
    lemma_appends_collect_in_order(bars, start, end);
    answer.to_multiset_ensures();
    bars.to_multiset_ensures();
}

/// Sorting by stamp while keeping the order of equal stamps has one
/// outcome: two sequences that are sorted and agree, stamp by stamp, on the
/// bars of that stamp and their order, are the same sequence.
pub proof fn lemma_stable_sort_unique(a: Seq<Bar>, b: Seq<Bar>)
    requires
        sorted_by_time(a),
        sorted_by_time(b),
        forall|t: u64| #[trigger] a.filter(stamp_test(t)) == b.filter(stamp_test(t)),
    ensures
        a == b,
    decreases a.len() + b.len(),
{
    if a.len() == 0 && b.len() == 0 {
        assert(a =~= b);
    } else {
        let (long, short) = if a.len() > 0 {
            (a, b)
        } else {
            (b, a)
        };
        let x = long.last();
        let front = long.drop_last();
        let at_x = stamp_test(x.timestamp);
        assert(at_x(x));
        assert(long =~= front.push(x));
        front.lemma_filter_push(x, at_x);
        assert(long.filter(at_x).last() == x);
        assert(short.filter(at_x) == long.filter(at_x));
        short.lemma_filter_len(at_x);
        assert(short.len() > 0);
        let y = short.last();
        let rest = short.drop_last();
        let at_y = stamp_test(y.timestamp);
        assert(at_y(y));
        assert(short =~= rest.push(y));
        rest.lemma_filter_push(y, at_y);
        assert(short.filter(at_y).last() == y);
        assert(long.filter(at_y) == short.filter(at_y));
        assert(y.timestamp <= x.timestamp) by {
            let kept = long.filter(at_y);
            long.lemma_filter_contains_rev(at_y, kept.last());
            let i = long.index_of(kept.last());
            assert(long[i].timestamp <= long[long.len() - 1].timestamp);
            long.lemma_filter_pred(at_y, kept.len() - 1);
        }
        assert(x.timestamp <= y.timestamp) by {
            let kept = short.filter(at_x);
            short.lemma_filter_contains_rev(at_x, kept.last());
            let i = short.index_of(kept.last());
            assert(short[i].timestamp <= short[short.len() - 1].timestamp);
            short.lemma_filter_pred(at_x, kept.len() - 1);
        }
        assert(x == y);
        assert forall|t: u64| #[trigger]
            front.filter(stamp_test(t)) == rest.filter(stamp_test(t)) by {
            let test = stamp_test(t);
            front.lemma_filter_push(x, test);
            rest.lemma_filter_push(x, test);
            assert(long.filter(test) == short.filter(test));
            if test(x) {
                assert(front.filter(test) =~= front.filter(test).push(x).drop_last());
                assert(rest.filter(test) =~= rest.filter(test).push(x).drop_last());
            }
        }
        assert(sorted_by_time(front)) by {
            assert forall|i: int, j: int| 0 <= i <= j < front.len() implies front[i].timestamp
                <= front[j].timestamp by {
                assert(long[i].timestamp <= long[j].timestamp);
            }
        }
        assert(sorted_by_time(rest)) by {
            assert forall|i: int, j: int| 0 <= i <= j < rest.len() implies rest[i].timestamp
                <= rest[j].timestamp by {
                assert(short[i].timestamp <= short[j].timestamp);
            }
        }
        lemma_stable_sort_unique(front, rest);
    }
}

/// A range query has one answer.
pub proof fn lemma_range_answer_unique(
    first: Seq<Bar>,
    second: Seq<Bar>,
    segments: Seq<SegmentModel>,
    start: u64,
    end: u64,
)
    requires
        is_range_answer(first, segments, start, end),
        is_range_answer(second, segments, start, end),
    ensures
        first == second,
{
    lemma_stable_sort_unique(first, second);
}

/// The bars of `bars` by ascending stamp, bars of one stamp in their order.
fn sort_by_timestamp(bars: &Vec<Bar>) -> (sorted: Vec<Bar>)
    ensures
        is_stable_sort_of(sorted@, bars@),
{
    let mut sorted: Vec<Bar> = Vec::new();
    let mut i: usize = 0;
    proof {
        assert(bars@.take(0) =~= Seq::<Bar>::empty());
        assert(sorted@ =~= bars@.take(0));
    }
    while i < bars.len()
        invariant
            i <= bars.len(),
            is_stable_sort_of(sorted@, bars@.take(i as int)),
        decreases bars.len() - i,
    {
        let bar: Bar = bars[i];
        let mut pos: usize = sorted.len();
        while pos > 0 && sorted[pos - 1].timestamp > bar.timestamp
            invariant
                pos <= sorted.len(),
                forall|k: int| pos <= k < sorted.len() ==> sorted@[k].timestamp > bar.timestamp,
            decreases pos,
        {
            pos = pos - 1;
        }
        proof {
            let old_sorted = sorted@;
            let new_sorted = old_sorted.insert(pos as int, bar);
            let seen = bars@.take(i as int);
            let head = old_sorted.take(pos as int);
            let tail = old_sorted.skip(pos as int);
            assert(bars@.take(i + 1) =~= seen.push(bar));
            assert(old_sorted =~= head + tail);
            assert(new_sorted =~= head + seq![bar] + tail);
            assert(sorted_by_time(new_sorted)) by {
                assert forall|a: int, b: int| 0 <= a <= b < new_sorted.len() implies new_sorted[a].timestamp
                    <= new_sorted[b].timestamp by {
                    if pos > 0 {
                        assert(old_sorted[pos - 1].timestamp <= bar.timestamp);
                    }
                    if a < pos && b > pos {
                        assert(old_sorted[a].timestamp <= old_sorted[b - 1].timestamp);
                    } else if a < pos && b == pos {
                        assert(old_sorted[a].timestamp <= old_sorted[pos - 1].timestamp);
                    } else if a < pos && b < pos {
                        assert(old_sorted[a].timestamp <= old_sorted[b].timestamp);
                    } else if a > pos {
                        assert(old_sorted[a - 1].timestamp <= old_sorted[b - 1].timestamp);
                    }
                }
            }
            assert(new_sorted.to_multiset() == bars@.take(i + 1).to_multiset()) by {
                vstd::seq_lib::to_multiset_insert(old_sorted, pos as int, bar);
                vstd::seq_lib::to_multiset_build(seen, bar);
            }
            assert forall|t: u64| #[trigger]
                new_sorted.filter(stamp_test(t)) == bars@.take(i + 1).filter(stamp_test(t)) by {
                let test = stamp_test(t);
                Seq::filter_distributes_over_add(head, tail, test);
                Seq::filter_distributes_over_add(head, seq![bar], test);
                Seq::filter_distributes_over_add(head + seq![bar], tail, test);
                seen.lemma_filter_push(bar, test);
                assert(seq![bar] =~= Seq::<Bar>::empty().push(bar));
                Seq::<Bar>::empty().lemma_filter_push(bar, test);
                assert(Seq::<Bar>::empty().filter(test) =~= Seq::<Bar>::empty()) by {
                    reveal(Seq::filter);
                }
                assert(old_sorted.filter(test) == seen.filter(test));
                if bar.timestamp == t {
                    assert(tail.all(|x: Bar| !test(x)));
                    tail.lemma_all_neg_filter_empty(test);
                    assert(tail.filter(test) =~= Seq::<Bar>::empty());
                    assert(new_sorted.filter(test) =~= head.filter(test).push(bar));
                    assert(old_sorted.filter(test) =~= head.filter(test));
                } else {
                    assert(seq![bar].filter(test) =~= Seq::<Bar>::empty());
                    assert(new_sorted.filter(test) =~= head.filter(test) + tail.filter(test));
                }
            }
        }
        sorted.insert(pos, bar);
        i = i + 1;
    }
    assert(bars@.take(i as int) =~= bars@);
    sorted
}

/// The bars of one resolution that were appended in a row within one day.
#[derive(Debug)]
pub struct ArchiveSegment {
    pub start_timestamp: u64,
    pub end_timestamp: u64,
    pub bars: Vec<Bar>,
}

impl View for ArchiveSegment {
    type V = SegmentModel;

    open spec fn view(&self) -> SegmentModel {
        SegmentModel {
            start_timestamp: self.start_timestamp,
            end_timestamp: self.end_timestamp,
            bars: self.bars@,
        }
    }
}

impl Clone for ArchiveSegment {
    fn clone(&self) -> (res: Self)
        ensures
            res@ == self@,
    {
        let mut bars: Vec<Bar> = Vec::new();
        let mut i: usize = 0;
        while i < self.bars.len()
            invariant
                i <= self.bars.len(),
                bars@ == self.bars@.take(i as int),
            decreases self.bars.len() - i,
        {
            bars.push(self.bars[i]);
            assert(self.bars@.take(i + 1) =~= self.bars@.take(i as int).push(self.bars@[i as int]));
            i = i + 1;
        }
        assert(self.bars@.take(i as int) =~= self.bars@);
        ArchiveSegment {
            start_timestamp: self.start_timestamp,
            end_timestamp: self.end_timestamp,
            bars,
        }
    }
}

impl ArchiveSegment {
    /// An empty segment whose span is the single instant `start_timestamp`.
    pub fn new(start_timestamp: u64) -> (segment: Self)
        ensures
            segment@ == fresh_segment(start_timestamp),
    {
        ArchiveSegment { start_timestamp, end_timestamp: start_timestamp, bars: Vec::new() }
    }

    /// Appends `bar` and moves the end of the span to its stamp.
    pub fn add_bar(&mut self, bar: Bar)
        ensures
            final(self)@ == segment_with(old(self)@, bar),
    {
        self.end_timestamp = bar.timestamp;
        self.bars.push(bar);
    }

    /// Whether the span meets the closed range from `start` to `end`.
    pub fn is_in_range(&self, start: u64, end: u64) -> (meets: bool)
        ensures
            meets == overlaps(self@, start, end),
    {
        self.start_timestamp <= end && self.end_timestamp >= start
    }

    /// The bars stamped within the closed range, in the order of appending.
    pub fn get_bars_in_range(&self, start: u64, end: u64) -> (found: Vec<&Bar>)
        ensures
            found@.map_values(|bar: &Bar| *bar) == within(self@.bars, start, end),
    {
        let mut found: Vec<&Bar> = Vec::new();
        let mut i: usize = 0;
        proof {
            reveal(Seq::filter);
            assert(self.bars@.take(0) =~= Seq::<Bar>::empty());
            assert(found@.map_values(|bar: &Bar| *bar) =~= within(self.bars@.take(0), start, end));
        }
        while i < self.bars.len()
            invariant
                i <= self.bars.len(),
                found@.map_values(|bar: &Bar| *bar) == within(self.bars@.take(i as int), start, end),
            decreases self.bars.len() - i,
        {
            let bar: &Bar = &self.bars[i];
            let ghost before = found@;
            proof {
                assert(self.bars@.take(i + 1) =~= self.bars@.take(i as int).push(*bar));
                self.bars@.take(i as int).lemma_filter_push(*bar, range_test(start, end));
            }
            if bar.timestamp >= start && bar.timestamp <= end {
                found.push(bar);
                assert(found@.map_values(|bar: &Bar| *bar) =~= before.map_values(
                    |bar: &Bar| *bar,
                ).push(*bar));
            }
            i = i + 1;
        }
        assert(self.bars@.take(i as int) =~= self.bars@);
        found
    }
}

/// The segments of one resolution, in the order they were opened.
#[derive(Debug)]
pub struct ArchiveTier {
    /// Seconds per bar.
    pub resolution: u64,
    pub segments: Vec<ArchiveSegment>,
}

impl View for ArchiveTier {
    type V = TierModel;

    open spec fn view(&self) -> TierModel {
        TierModel {
            resolution: self.resolution,
            segments: self.segments@.map_values(|segment: ArchiveSegment| segment@),
        }
    }
}

impl Clone for ArchiveTier {
    fn clone(&self) -> (res: Self)
        ensures
            res@ == self@,
    {
        let mut segments: Vec<ArchiveSegment> = Vec::new();
        let mut i: usize = 0;
        while i < self.segments.len()
            invariant
                i <= self.segments.len(),
                segments@.map_values(|segment: ArchiveSegment| segment@)
                    == self@.segments.take(i as int),
            decreases self.segments.len() - i,
        {
            let ghost before = segments@;
            segments.push(self.segments[i].clone());
            assert(segments@.map_values(|segment: ArchiveSegment| segment@) =~= before.map_values(
                |segment: ArchiveSegment| segment@,
            ).push(self.segments@[i as int]@));
            assert(self@.segments.take(i + 1) =~= self@.segments.take(i as int).push(
                self@.segments[i as int],
            ));
            i = i + 1;
        }
        assert(self@.segments.take(i as int) =~= self@.segments);
        let res = ArchiveTier { resolution: self.resolution, segments };
        assert(res@.segments =~= self@.segments);
        res
    }
}

impl ArchiveTier {
    /// A tier without segments for bars of `resolution` seconds.
    pub fn new(resolution: u64) -> (tier: Self)
        ensures
            tier@ == (TierModel { resolution, segments: Seq::empty() }),
    {
        let tier = ArchiveTier { resolution, segments: Vec::new() };
        assert(tier@.segments =~= Seq::empty());
        tier
    }

    /// Appends `bar` to the segment of its day if that is the last one,
    /// and to a new last segment otherwise.
    pub fn add_bar(&mut self, bar: Bar)
        ensures
            final(self)@ == (TierModel {
                resolution: old(self)@.resolution,
                segments: tier_with(old(self)@.segments, bar),
            }),
    {
        let segment_start: u64 = (bar.timestamp / SECONDS_PER_DAY) * SECONDS_PER_DAY;
        let count: usize = self.segments.len();
        if count > 0 && self.segments[count - 1].start_timestamp == segment_start {
            self.segments[count - 1].add_bar(bar);
            assert(self@.segments =~= tier_with(old(self)@.segments, bar));
            return ;
        }
        let mut segment = ArchiveSegment::new(segment_start);
        segment.add_bar(bar);
        self.segments.push(segment);
        assert(self@.segments =~= tier_with(old(self)@.segments, bar));
    }

    /// All bars stamped within the closed range from `start` to `end`, from
    /// every segment whose span meets the range, by ascending stamp; bars of
    /// one stamp come in the order in which the segments hold them.
    pub fn get_bars_in_range(&self, start: u64, end: u64) -> (bars: Vec<Bar>)
        ensures
            is_range_answer(bars@, self@.segments, start, end),
    {
        let mut result: Vec<Bar> = Vec::new();
        let mut i: usize = 0;
        proof {
            assert(self@.segments.take(0) =~= Seq::<SegmentModel>::empty());
        }
        while i < self.segments.len()
            invariant
                i <= self.segments.len(),
                result@ == collected(self@.segments.take(i as int), start, end),
            decreases self.segments.len() - i,
        {
            let segment: &ArchiveSegment = &self.segments[i];
            let ghost gathered = result@;
            proof {
                assert(self@.segments.take(i + 1).drop_last() =~= self@.segments.take(i as int));
                assert(self@.segments.take(i + 1).last() == segment@);
            }
            if segment.is_in_range(start, end) {
                let found: Vec<&Bar> = segment.get_bars_in_range(start, end);
                let ghost values = found@.map_values(|bar: &Bar| *bar);
                let mut k: usize = 0;
                while k < found.len()
                    invariant
                        k <= found.len(),
                        values == found@.map_values(|bar: &Bar| *bar),
                        result@ == gathered + values.take(k as int),
                    decreases found.len() - k,
                {
                    result.push(*found[k]);
                    assert(values.take(k + 1) =~= values.take(k as int).push(values[k as int]));
                    k = k + 1;
                }
                assert(values.take(k as int) =~= values);
            } else {
                assert(result@ =~= gathered + Seq::<Bar>::empty());
            }
            i = i + 1;
        }
        assert(self@.segments.take(i as int) =~= self@.segments);
        sort_by_timestamp(&result)
    }
}

/// The tiers every archive starts with, by name: bars of one minute, of
/// five minutes and of one hour, no segment in any.
pub open spec fn standard_tiers() -> Map<Seq<char>, TierModel> {
    Map::<Seq<char>, TierModel>::empty().insert(
        "1m"@,
        TierModel { resolution: 60, segments: Seq::empty() },
    ).insert("5m"@, TierModel { resolution: 300, segments: Seq::empty() }).insert(
        "1h"@,
        TierModel { resolution: 3600, segments: Seq::empty() },
    )
}

/// `tiers` after `bar` was appended to the tier called `name`; a name that
/// no tier has leaves them as they are.
pub open spec fn archive_with(tiers: Map<Seq<char>, TierModel>, name: Seq<char>, bar: Bar) -> Map<
    Seq<char>,
    TierModel,
> {
    if tiers.contains_key(name) {
        tiers.insert(
            name,
            TierModel {
                resolution: tiers[name].resolution,
                segments: tier_with(tiers[name].segments, bar),
            },
        )
    } else {
        tiers
    }
}

/// All finished bars of one symbol: one tier per resolution, by name.
#[derive(Debug)]
pub struct Archive {
    pub tiers: KeyedTable<ArchiveTier>,
}

impl View for Archive {
    type V = Map<Seq<char>, TierModel>;

    open spec fn view(&self) -> Map<Seq<char>, TierModel> {
        self.tiers@.map_values(|tier: ArchiveTier| tier@)
    }
}

impl Archive {
    /// An archive with the three standard tiers, all empty.
    pub fn new() -> (archive: Self)
        ensures
            archive@ == standard_tiers(),
    {
        let mut tiers: KeyedTable<ArchiveTier> = KeyedTable::new();
        tiers.insert("1m".to_string(), ArchiveTier::new(60));
        tiers.insert("5m".to_string(), ArchiveTier::new(300));
        tiers.insert("1h".to_string(), ArchiveTier::new(3600));
        let archive = Archive { tiers };
        assert(archive@ =~= standard_tiers());
        archive
    }

    /// Appends `bar` to the tier called `tier_name`. A name that no tier
    /// has is ignored: the archive stays as it is.
    pub fn add_bar_to_tier(&mut self, tier_name: &str, bar: Bar)
        ensures
            final(self)@ == archive_with(old(self)@, tier_name@, bar),
    {
        match self.tiers.get_mut(tier_name) {
            Some(tier) => {
                tier.add_bar(bar);
            },
            None => {},
        }
        assert(self@ =~= archive_with(old(self)@, tier_name@, bar));
    }

    /// The bars of the tier called `tier_name` stamped within the closed
    /// range from `start` to `end`, by ascending stamp. A name that no tier
    /// has gives no bars.
    pub fn get_bars(&self, tier_name: &str, start: u64, end: u64) -> (bars: Vec<Bar>)
        ensures
            self@.contains_key(tier_name@) ==> is_range_answer(
                bars@,
                self@[tier_name@].segments,
                start,
                end,
            ),
            !self@.contains_key(tier_name@) ==> bars@ == Seq::<Bar>::empty(),
    {
        match self.tiers.get(tier_name) {
            Some(tier) => tier.get_bars_in_range(start, end),
            None => Vec::new(),
        }
    }
}

} // verus!
