//! The fan-out/fan-in scheduler: every input article becomes one task,
//! at most `concurrency` tasks are in flight at once, and each completion
//! fills the result slot of its own input index, so the collated result
//! sequence does not depend on the order in which tasks finish.

use crate::api::{AskAsync, RetryAsk};
use vstd::assert_seqs_equal;
use crate::enrich::{enrich_article, ParseResponse};
use crate::models::{enriched_ok, AwfulNewsArticle, FrontPage, NewsArticle};
use vstd::prelude::*;

verus! {

/// The result that a completion sequence determines for slot `i`: the
/// value of the last completion carrying index `i`, or nothing.
pub open spec fn slot_of(c: Seq<(usize, Option<AwfulNewsArticle>)>, i: int) -> Option<
    AwfulNewsArticle,
>
    decreases c.len(),
{
    if c.len() == 0 {
        None
    } else if c.last().0 == i {
        c.last().1
    } else {
        slot_of(c.drop_last(), i)
    }
}

/// The slot sequence that a completion sequence collates to.
pub open spec fn collate_spec(n: int, c: Seq<(usize, Option<AwfulNewsArticle>)>) -> Seq<
    Option<AwfulNewsArticle>,
> {
    Seq::new(n as nat, |i: int| slot_of(c, i))
}

/// No two completions carry the same index.
pub open spec fn distinct_indices(c: Seq<(usize, Option<AwfulNewsArticle>)>) -> bool {
    forall|j1: int, j2: int| 0 <= j1 < j2 < c.len() ==> (#[trigger] c[j1]).0 != (#[trigger] c[j2]).0
}

/// Collate completions into result slots: slot `i` receives the result of
/// the completion carrying index `i`.
pub fn collate(n: usize, completions: Vec<(usize, Option<AwfulNewsArticle>)>) -> (r: Vec<
    Option<AwfulNewsArticle>,
>)
    requires
        forall|j: int|
            0 <= j < completions@.len() ==> (#[trigger] completions@[j]).0 < n,
    ensures
        r@ == collate_spec(n as int, completions@),
{
    let ghost orig = completions@;
    let mut c = completions;
    let mut r: Vec<Option<AwfulNewsArticle>> = Vec::new();
    let mut assigned: Vec<bool> = Vec::new();
    let mut i: usize = 0;
    while i < n
        invariant
            0 <= i <= n,
            r@.len() == i,
            assigned@.len() == i,
            forall|t: int| 0 <= t < i ==> r@[t] is None,
            forall|t: int| 0 <= t < i ==> !assigned@[t],
        decreases n - i,
    {
        r.push(None);
        assigned.push(false);
        i = i + 1;
    }
    while c.len() > 0
        invariant
            r@.len() == n,
            assigned@.len() == n,
            forall|j: int| 0 <= j < c@.len() ==> (#[trigger] c@[j]).0 < n,
            forall|j: int| 0 <= j < c@.len() ==> c@[j] == orig[j],
            c@.len() <= orig.len(),
            forall|t: int|
                0 <= t < n && assigned@[t] ==> r@[t] == slot_of(orig, t),
            forall|t: int|
                0 <= t < n && !assigned@[t] ==> r@[t] is None && slot_of(orig, t) == slot_of(
                    c@,
                    t,
                ),
        decreases c@.len(),
    {
        let ghost before = c@;
        let last = c.pop();
        match last {
            None => {
                proof {
                    assert(false);
                }
            },
            Some(pair) => {
                let idx = pair.0;
                proof {
                    assert(pair == before.last());
                    assert(c@ =~= before.drop_last());
                }
                if !assigned[idx] {
                    proof {
                        assert(slot_of(before, idx as int) == pair.1);
                    }
                    r.set(idx, pair.1);
                    assigned.set(idx, true);
                }
                proof {
                    assert forall|t: int|
                        0 <= t < n && !assigned@[t] implies r@[t] is None && slot_of(orig, t)
                        == slot_of(c@, t) by {
                        assert(slot_of(before, t) == slot_of(before.drop_last(), t));
                    }
                }
            },
        }
    }
    proof {
        assert forall|t: int| 0 <= t < n implies r@[t] == slot_of(orig, t) by {
            if !assigned@[t] {
                assert(slot_of(orig, t) == slot_of(c@, t));
            }
        }
        assert(r@ =~= collate_spec(n as int, orig));
    }
    r
}

/// A completion with no later completion of the same index determines its
/// slot.
proof fn lemma_slot_of_unique(c: Seq<(usize, Option<AwfulNewsArticle>)>, j: int)
    requires
        distinct_indices(c),
        0 <= j < c.len(),
    ensures
        slot_of(c, c[j].0 as int) == c[j].1,
    decreases c.len(),
{
    if j < c.len() - 1 {
        assert(c[c.len() - 1].0 != c[j].0);
        assert(c.drop_last()[j] == c[j]);
        lemma_slot_of_unique(c.drop_last(), j);
    }
}

proof fn lemma_slot_of_absent(c: Seq<(usize, Option<AwfulNewsArticle>)>, i: int)
    requires
        forall|j: int| 0 <= j < c.len() ==> (#[trigger] c[j]).0 != i,
    ensures
        slot_of(c, i) is None,
    decreases c.len(),
{
    if c.len() > 0 {
        assert(c.drop_last() =~= c.take(c.len() - 1));
        assert forall|j: int|
            0 <= j < c.drop_last().len() implies (#[trigger] c.drop_last()[j]).0 != i by {
            assert(c.drop_last()[j] == c[j]);
        }
        lemma_slot_of_absent(c.drop_last(), i);
    }
}

/// Scheduler completeness: two completion runs over the same tasks - the
/// same set of (index, result) pairs, in any order - collate to the same
/// slot sequence.  The concurrency ceiling only changes completion order,
/// so the collated result is independent of it.
pub proof fn lemma_collation_schedule_independent(
    n: int,
    c1: Seq<(usize, Option<AwfulNewsArticle>)>,
    c2: Seq<(usize, Option<AwfulNewsArticle>)>,
)
    requires
        distinct_indices(c1),
        distinct_indices(c2),
        c1.to_multiset() == c2.to_multiset(),
    ensures
        collate_spec(n, c1) == collate_spec(n, c2),
{
    c1.to_multiset_ensures();
    c2.to_multiset_ensures();
    assert_seqs_equal!(collate_spec(n, c1) == collate_spec(n, c2), i => {
        if exists|j: int| 0 <= j < c1.len() && (#[trigger] c1[j]).0 == i {
            let j1 = choose|j: int| 0 <= j < c1.len() && (#[trigger] c1[j]).0 == i;
            let p = c1[j1];
            assert(c1.contains(p));
            assert(c1.to_multiset().count(p) > 0);
            assert(c2.contains(p));
            let j2 = choose|j: int| 0 <= j < c2.len() && c2[j] == p;
            lemma_slot_of_unique(c1, j1);
            lemma_slot_of_unique(c2, j2);
        } else {
            assert forall|j: int| 0 <= j < c2.len() implies (#[trigger] c2[j]).0 != i by {
                if c2[j].0 == i {
                    let p = c2[j];
                    assert(c2.contains(p));
                    assert(c2.to_multiset().count(p) > 0);
                    assert(c1.contains(p));
                    let j1 = choose|t: int| 0 <= t < c1.len() && c1[t] == p;
                    assert((c1[j1]).0 == i);
                }
            }
            lemma_slot_of_absent(c1, i);
            lemma_slot_of_absent(c2, i);
        }
        assert(collate_spec(n, c1)[i] == slot_of(c1, i));
        assert(collate_spec(n, c2)[i] == slot_of(c2, i));
    });
}

/// The fan-out scheduler's bookkeeping: tasks launch in input order, at
/// most `concurrency` are in flight at once, and each completion fills the
/// slot of its own index, once.
pub struct FanOutScheduler {
    /// The concurrency ceiling.
    pub concurrency: usize,
    /// How many tasks have been handed out; the next task's index.
    pub launched: usize,
    /// How many launched tasks have not completed yet.
    pub in_flight: usize,
    /// One result slot per input.
    pub slots: Vec<Option<AwfulNewsArticle>>,
    /// Which slots have been completed.
    pub filled: Vec<bool>,
}

impl FanOutScheduler {
    /// The scheduler's invariant: counters consistent, the ceiling
    /// respected, only launched slots filled, unfilled slots empty.
    pub open spec fn wf(&self) -> bool {
        &&& self.slots@.len() == self.filled@.len()
        &&& self.launched <= self.slots@.len()
        &&& self.in_flight <= self.launched
        &&& self.in_flight <= self.concurrency
        &&& forall|i: int| 0 <= i < self.filled@.len() && self.filled@[i] ==> i < self.launched
        &&& forall|i: int|
            0 <= i < self.filled@.len() && !self.filled@[i] ==> self.slots@[i] is None
    }

    pub open spec fn total(&self) -> int {
        self.slots@.len() as int
    }

    /// A scheduler for `total` tasks under the given ceiling.
    pub fn new(total: usize, concurrency: usize) -> (s: Self)
        requires
            concurrency >= 1,
        ensures
            s.wf(),
            s.total() == total,
            s.concurrency == concurrency,
            s.launched == 0,
            s.in_flight == 0,
            forall|i: int| 0 <= i < total ==> !s.filled@[i],
    {
        let mut slots: Vec<Option<AwfulNewsArticle>> = Vec::new();
        let mut filled: Vec<bool> = Vec::new();
        let mut i: usize = 0;
        while i < total
            invariant
                0 <= i <= total,
                slots@.len() == i,
                filled@.len() == i,
                forall|t: int| 0 <= t < i ==> slots@[t] is None,
                forall|t: int| 0 <= t < i ==> !filled@[t],
            decreases total - i,
        {
            slots.push(None);
            filled.push(false);
            i = i + 1;
        }
        FanOutScheduler { concurrency, launched: 0, in_flight: 0, slots, filled }
    }

    /// Whether another task may launch now: work remains and the ceiling
    /// has room.
    pub fn can_launch(&self) -> (b: bool)
        requires
            self.wf(),
        ensures
            b == (self.launched < self.total() && self.in_flight < self.concurrency),
    {
        self.launched < self.slots.len() && self.in_flight < self.concurrency
    }

    /// Hand out the next task.
    pub fn launch(&mut self) -> (idx: usize)
        requires
            old(self).wf(),
            old(self).launched < old(self).total(),
            old(self).in_flight < old(self).concurrency,
        ensures
            final(self).wf(),
            idx == old(self).launched,
            final(self).launched == old(self).launched + 1,
            final(self).in_flight == old(self).in_flight + 1,
            final(self).slots == old(self).slots,
            final(self).filled == old(self).filled,
            final(self).concurrency == old(self).concurrency,
    {
        let total = self.slots.len();
        let idx = self.launched;
        self.launched = idx + 1;
        self.in_flight = self.in_flight + 1;
        idx
    }

    /// Record the completion of the task with the given index.
    pub fn complete(&mut self, index: usize, result: Option<AwfulNewsArticle>)
        requires
            old(self).wf(),
            index < old(self).launched,
            !old(self).filled@[index as int],
            old(self).in_flight >= 1,
        ensures
            final(self).wf(),
            final(self).slots@ == old(self).slots@.update(index as int, result),
            final(self).filled@ == old(self).filled@.update(index as int, true),
            final(self).launched == old(self).launched,
            final(self).in_flight == old(self).in_flight - 1,
            final(self).concurrency == old(self).concurrency,
    {
        self.slots.set(index, result);
        self.filled.set(index, true);
        self.in_flight = self.in_flight - 1;
    }
}

/// Run enrichment over the whole article set under the scheduler, one task
/// at a time in input order.  The result has one slot per input article;
/// slot `i` holds the enrichment outcome of article `i`, and a populated
/// slot is always a finalized article for its own input.  No slot is
/// discarded because another article failed.
pub fn process_articles<C: AskAsync, P: ParseResponse>(
    client: &mut RetryAsk<C>,
    parser: &P,
    articles: &Vec<NewsArticle>,
    concurrency: usize,
) -> (r: Vec<Option<AwfulNewsArticle>>)
    requires
        concurrency >= 1,
    ensures
        r@.len() == articles@.len(),
        forall|i: int|
            0 <= i < r@.len() ==> ((#[trigger] r@[i]) matches Some(a) ==> enriched_ok(
                a,
                articles@[i],
            )),
        final(client).max_retries == old(client).max_retries,
        final(client).base_delay_ms == old(client).base_delay_ms,
        final(client).max_delay_ms == old(client).max_delay_ms,
{
    let mut sched = FanOutScheduler::new(articles.len(), concurrency);
    proof {
        assert forall|i: int| 0 <= i < sched.slots@.len() implies sched.slots@[i] is None by {
            assert(!sched.filled@[i]);
        }
    }
    while sched.launched < articles.len()
        invariant
            concurrency >= 1,
            sched.wf(),
            sched.concurrency == concurrency,
            sched.total() == articles@.len(),
            sched.in_flight == 0,
            forall|i: int| 0 <= i < sched.launched ==> sched.filled@[i],
            forall|i: int|
                0 <= i < sched.slots@.len() ==> ((#[trigger] sched.slots@[i]) matches Some(a)
                    ==> enriched_ok(a, articles@[i])),
            client.max_retries == old(client).max_retries,
            client.base_delay_ms == old(client).base_delay_ms,
            client.max_delay_ms == old(client).max_delay_ms,
        decreases articles@.len() - sched.launched,
    {
        let idx = sched.launch();
        let res = enrich_article(client, parser, &articles[idx]);
        sched.complete(idx, res);
    }
    sched.slots
}

/// Fold the schedule's outcomes and the edition's labels into one front
/// page: the successes in slot order, failures dropped.
pub fn assemble_edition(
    local_date: String,
    time_of_day: String,
    local_time: String,
    results: Vec<Option<AwfulNewsArticle>>,
) -> (fp: FrontPage)
    ensures
        fp.local_date == local_date,
        fp.time_of_day == time_of_day,
        fp.local_time == local_time,
        fp.articles@ == successes_of(results@),
{
    let mut articles: Vec<AwfulNewsArticle> = Vec::new();
    let mut i: usize = 0;
    let n = results.len();
    let mut rest = results;
    proof {
        assert(rest@.subrange(0, 0) =~= Seq::<Option<AwfulNewsArticle>>::empty());
        assert(articles@ =~= successes_of(rest@.subrange(0, 0)));
    }
    let ghost all = rest@;
    while i < n
        invariant
            0 <= i <= n,
            n == all.len(),
            rest@ == all.skip(i as int),
            articles@ == successes_of(all.subrange(0, i as int)),
        decreases n - i,
    {
        let ghost before = rest@;
        let slot = rest.remove(0);
        proof {
            assert(rest@ =~= all.skip(i + 1));
            assert(before[0] == all[i as int]);
            assert(all.subrange(0, i + 1).drop_last() =~= all.subrange(0, i as int));
            assert(all.subrange(0, i + 1).last() == all[i as int]);
        }
        match slot {
            Some(a) => {
                articles.push(a);
            },
            None => {},
        }
        i = i + 1;
    }
    proof {
        assert(all.subrange(0, n as int) =~= all);
    }
    FrontPage { local_date, time_of_day, local_time, articles }
}

/// The populated results, in slot order.
pub open spec fn successes_of(results: Seq<Option<AwfulNewsArticle>>) -> Seq<AwfulNewsArticle>
    decreases results.len(),
{
    if results.len() == 0 {
        Seq::empty()
    } else {
        let prefix = successes_of(results.drop_last());
        match results.last() {
            Some(a) => prefix.push(a),
            None => prefix,
        }
    }
}

} // verus!
