//! The crawl supervisor's policy: the outer state machine that drives
//! repeated cycles, the classification of a crash by its storage error code,
//! the per-code counters, and the circuit breaker that stops the crawl
//! permanently after too many repeats of the same error.
use vstd::prelude::*;

use crate::outside::error_code_captures;
use crate::outside::error_code_pattern;
use crate::outside::regex_captures_of;
use crate::text::parse_usize;
use crate::text::spec_all_digits;
use crate::text::spec_digits_val;

verus! {

/// How many times one error code may repeat before the supervisor stops
/// permanently.
pub const MAX_SAME_ERROR: usize = 3;

/// The supervisor's states: it idles, runs cycles, and ends completed
/// (frontier exhausted), or passes through crashed towards another run or a
/// permanent stop, or cancelled (the cooperative flag was observed).
pub enum SupervisorState {
    Idle,
    Running,
    Completed,
    Crashed,
    Cancelled,
}

/// What one observation at a loop boundary tells the supervisor.
pub enum SupervisorEvent {
    /// The crawl is started.
    Start,
    /// A cycle committed a non-empty batch.
    CycleCompleted,
    /// The frontier is empty: nothing left to do.
    FrontierEmpty,
    /// A cycle failed: storage, resolution or pool error.
    CycleError,
    /// The crash policy chose to re-enter the loop after the delay.
    CrashRetried,
    /// The crash policy hit the circuit breaker.
    CrashGaveUp,
    /// The cooperative cancellation flag was observed set.
    CancelObserved,
}

/// The transition table of the supervisor: any pair it does not list leaves
/// the state unchanged (terminal states absorb every event).
pub open spec fn spec_supervisor_step(s: SupervisorState, e: SupervisorEvent) -> SupervisorState {
    match (s, e) {
        (SupervisorState::Idle, SupervisorEvent::Start) => SupervisorState::Running,
        (SupervisorState::Running, SupervisorEvent::CycleCompleted) => SupervisorState::Running,
        (SupervisorState::Running, SupervisorEvent::FrontierEmpty) => SupervisorState::Completed,
        (SupervisorState::Running, SupervisorEvent::CycleError) => SupervisorState::Crashed,
        (SupervisorState::Running, SupervisorEvent::CancelObserved) => SupervisorState::Cancelled,
        (SupervisorState::Crashed, SupervisorEvent::CrashRetried) => SupervisorState::Running,
        (SupervisorState::Crashed, SupervisorEvent::CrashGaveUp) => SupervisorState::Cancelled,
        (_, _) => s,
    }
}

/// Advances the supervisor's state by one observed event.
pub fn supervisor_step(s: SupervisorState, e: SupervisorEvent) -> (r: SupervisorState)
    ensures
        r == spec_supervisor_step(s, e),
{
    match (s, e) {
        (SupervisorState::Idle, SupervisorEvent::Start) => SupervisorState::Running,
        (SupervisorState::Running, SupervisorEvent::CycleCompleted) => SupervisorState::Running,
        (SupervisorState::Running, SupervisorEvent::FrontierEmpty) => SupervisorState::Completed,
        (SupervisorState::Running, SupervisorEvent::CycleError) => SupervisorState::Crashed,
        (SupervisorState::Running, SupervisorEvent::CancelObserved) => SupervisorState::Cancelled,
        (SupervisorState::Crashed, SupervisorEvent::CrashRetried) => SupervisorState::Running,
        (SupervisorState::Crashed, SupervisorEvent::CrashGaveUp) => SupervisorState::Cancelled,
        (SupervisorState::Idle, _) => SupervisorState::Idle,
        (SupervisorState::Running, _) => SupervisorState::Running,
        (SupervisorState::Completed, _) => SupervisorState::Completed,
        (SupervisorState::Crashed, _) => SupervisorState::Crashed,
        (SupervisorState::Cancelled, _) => SupervisorState::Cancelled,
    }
}

/// How often each error code has been seen, first-match in the table, zero
/// when absent.
pub open spec fn spec_error_count(counts: Seq<(usize, usize)>, code: usize) -> int
    decreases counts.len(),
{
    if counts.len() == 0 {
        0
    } else if counts.first().0 == code {
        counts.first().1 as int
    } else {
        spec_error_count(counts.drop_first(), code)
    }
}

/// The per-code crash counters the circuit breaker reads.
pub struct ErrorCounter {
    pub counts: Vec<(usize, usize)>,
}

impl ErrorCounter {
    /// Each code has one row.
    pub open spec fn wf(&self) -> bool {
        forall|a: int, b: int|
            0 <= a < b < self.counts@.len() ==> (#[trigger] self.counts@[a]).0 != (
            #[trigger] self.counts@[b]).0
    }

    pub fn new() -> (r: ErrorCounter)
        ensures
            r.wf(),
            r.counts@.len() == 0,
    {
        ErrorCounter { counts: Vec::new() }
    }

    /// Counts one more occurrence of a code and returns the new count,
    /// saturating at the largest representable value. Other codes' counts
    /// are untouched.
    pub fn record(&mut self, code: usize) -> (n: usize)
        requires
            old(self).wf(),
        ensures
            final(self).wf(),
            n as int == (if spec_error_count(old(self).counts@, code) < usize::MAX {
                spec_error_count(old(self).counts@, code) + 1
            } else {
                usize::MAX as int
            }),
            spec_error_count(final(self).counts@, code) == n as int,
            forall|c: usize|
                c != code ==> spec_error_count(final(self).counts@, c) == spec_error_count(
                    old(self).counts@,
                    c,
                ),
    {
        let ghost cv = self.counts@;
        let mut i: usize = 0;
        proof {
            assert(cv.skip(0) =~= cv);
        }
        while i < self.counts.len()
            invariant
                i <= self.counts@.len(),
                cv == self.counts@,
                old(self).wf(),
                self.counts@ == old(self).counts@,
                forall|j: int| 0 <= j < i ==> (#[trigger] cv[j]).0 != code,
            decreases self.counts@.len() - i,
        {
            proof {
                assert(cv.skip(i as int).first() == cv[i as int]);
                assert(cv.skip(i as int).drop_first() =~= cv.skip(i + 1));
            }
            if self.counts[i].0 == code {
                let old_n = self.counts[i].1;
                let n = if old_n < usize::MAX {
                    old_n + 1
                } else {
                    usize::MAX
                };
                self.counts.set(i, (code, n));
                proof {
                    lemma_error_count_prefix(cv, i as int, code);
                    assert(cv.skip(i as int).first() == cv[i as int]);
                    assert(spec_error_count(cv, code) == old_n as int);
                    assert(self.counts@ =~= cv.update(i as int, (code, n)));
                    lemma_error_count_set(cv, self.counts@, i as int, code, n);
                    assert forall|a: int, b: int|
                        0 <= a < b < self.counts@.len() implies (#[trigger] self.counts@[a]).0
                        != (#[trigger] self.counts@[b]).0 by {
                        assert(self.counts@[a].0 == cv[a].0 && self.counts@[b].0 == cv[b].0);
                    }
                }
                return n;
            }
            i += 1;
        }
        proof {
            assert(cv.skip(cv.len() as int) =~= Seq::<(usize, usize)>::empty());
            lemma_error_count_prefix(cv, cv.len() as int, code);
            assert(spec_error_count(cv, code) == 0);
        }
        self.counts.push((code, 1));
        proof {
            lemma_error_count_push(old(self).counts@, code, 1);
            assert forall|c: usize| c != code implies spec_error_count(self.counts@, c)
                == spec_error_count(old(self).counts@, c) by {
                lemma_error_count_push_other(old(self).counts@, code, 1, c);
            }
            assert forall|a: int, b: int|
                0 <= a < b < self.counts@.len() implies (#[trigger] self.counts@[a]).0 != (
            #[trigger] self.counts@[b]).0 by {
                if b == self.counts@.len() - 1 {
                    assert(cv[a].0 != code);
                } else {
                    assert(self.counts@[a].0 == cv[a].0 && self.counts@[b].0 == cv[b].0);
                }
            }
        }
        1
    }
}

/// In a table whose first `i` rows are not `code`, the count of `code` is
/// decided by the remaining rows.
proof fn lemma_error_count_prefix(cv: Seq<(usize, usize)>, i: int, code: usize)
    requires
        0 <= i <= cv.len(),
        forall|j: int| 0 <= j < i ==> (#[trigger] cv[j]).0 != code,
    ensures
        spec_error_count(cv, code) == spec_error_count(cv.skip(i), code),
    decreases i,
{
    if i > 0 {
        assert(cv.first().0 != code);
        assert(cv.drop_first() =~= cv.skip(1));
        lemma_error_count_prefix(cv.skip(1), i - 1, code);
        assert(cv.skip(1).skip(i - 1) =~= cv.skip(i));
    } else {
        assert(cv.skip(0) =~= cv);
    }
}

/// Updating row `i`, which holds `code`, sets that code's count and leaves
/// every other code's count alone.
proof fn lemma_error_count_set(
    before: Seq<(usize, usize)>,
    after: Seq<(usize, usize)>,
    i: int,
    code: usize,
    n: usize,
)
    requires
        0 <= i < before.len(),
        after =~= before.update(i, (code, n)),
        before[i].0 == code,
        forall|j: int| 0 <= j < i ==> (#[trigger] before[j]).0 != code,
    ensures
        spec_error_count(after, code) == n as int,
        forall|c: usize|
            c != code ==> spec_error_count(after, c) == spec_error_count(before, c),
    decreases i,
{
    if i == 0 {
        assert(after.first() == (code, n));
        assert(after.drop_first() =~= before.drop_first());
        assert(spec_error_count(after, code) == after.first().1 as int);
        assert forall|c: usize| c != code implies spec_error_count(after, c)
            == spec_error_count(before, c) by {
            assert(spec_error_count(after, c) == spec_error_count(after.drop_first(), c));
            assert(spec_error_count(before, c) == spec_error_count(before.drop_first(), c));
        }
    } else {
        assert(after.first() == before.first());
        assert(before.first().0 != code);
        assert(after.drop_first() =~= before.drop_first().update(i - 1, (code, n)));
        assert(before.drop_first()[i - 1] == before[i]);
        assert forall|j: int| 0 <= j < i - 1 implies (#[trigger] before.drop_first()[j]).0
            != code by {
            assert(before.drop_first()[j] == before[j + 1]);
        }
        lemma_error_count_set(before.drop_first(), after.drop_first(), i - 1, code, n);
        assert(spec_error_count(after, code) == spec_error_count(after.drop_first(), code));
        assert forall|c: usize| c != code implies spec_error_count(after, c)
            == spec_error_count(before, c) by {
            if after.first().0 == c {
                assert(spec_error_count(after, c) == after.first().1 as int);
                assert(spec_error_count(before, c) == before.first().1 as int);
            } else {
                assert(spec_error_count(after, c) == spec_error_count(after.drop_first(), c));
                assert(spec_error_count(before, c) == spec_error_count(before.drop_first(), c));
            }
        }
    }
}

/// Appending a row for a code absent from the table gives that code its
/// count.
proof fn lemma_error_count_push(before: Seq<(usize, usize)>, code: usize, n: usize)
    requires
        forall|j: int| 0 <= j < before.len() ==> (#[trigger] before[j]).0 != code,
    ensures
        spec_error_count(before.push((code, n)), code) == n as int,
    decreases before.len(),
{
    if before.len() == 0 {
        assert(before.push((code, n)).first() == (code, n));
    } else {
        assert(before.push((code, n)).first() == before.first());
        assert(before.first().0 != code);
        assert(before.push((code, n)).drop_first() =~= before.drop_first().push((code, n)));
        assert(forall|j: int|
            0 <= j < before.drop_first().len() ==> (#[trigger] before.drop_first()[j]).0 != code);
        lemma_error_count_push(before.drop_first(), code, n);
    }
}

/// Appending a row leaves every other code's count alone.
proof fn lemma_error_count_push_other(before: Seq<(usize, usize)>, code: usize, n: usize, c: usize)
    requires
        c != code,
    ensures
        spec_error_count(before.push((code, n)), c) == spec_error_count(before, c),
    decreases before.len(),
{
    let grown = before.push((code, n));
    if before.len() == 0 {
        assert(grown.first() == (code, n));
        assert(grown.drop_first() =~= Seq::<(usize, usize)>::empty());
        assert(spec_error_count(Seq::<(usize, usize)>::empty(), c) == 0);
        assert(spec_error_count(grown, c) == spec_error_count(grown.drop_first(), c));
        assert(spec_error_count(before, c) == 0);
    } else {
        assert(grown.first() == before.first());
        assert(grown.drop_first() =~= before.drop_first().push((code, n)));
        lemma_error_count_push_other(before.drop_first(), code, n, c);
        if grown.first().0 == c {
            assert(spec_error_count(grown, c) == grown.first().1 as int);
            assert(spec_error_count(before, c) == before.first().1 as int);
        } else {
            assert(spec_error_count(grown, c) == spec_error_count(grown.drop_first(), c));
            assert(spec_error_count(before, c) == spec_error_count(before.drop_first(), c));
        }
    }
}

/// What the supervisor does with a crash.
pub enum CrashDecision {
    /// Sleep the fixed delay and re-enter the loop.
    RetryAfterDelay,
    /// The circuit breaker tripped, or the error carries no code: stop
    /// permanently.
    StopPermanently,
}

/// The circuit breaker: one code repeating more than the allowed number of
/// times stops the crawl permanently.
pub fn crash_decision(count: usize) -> (r: CrashDecision)
    ensures
        (r is StopPermanently) <==> count > MAX_SAME_ERROR,
{
    if count > MAX_SAME_ERROR {
        CrashDecision::StopPermanently
    } else {
        CrashDecision::RetryAfterDelay
    }
}

impl ErrorCounter {
    /// Handles one crash: picks the storage error code out of the message,
    /// counts it, and applies the circuit breaker. A message without a
    /// recognizable code, or with an unparsable one, stops permanently;
    /// the counters are then untouched.
    pub fn on_crash(&mut self, message: &str) -> (r: CrashDecision)
        requires
            old(self).wf(),
        ensures
            final(self).wf(),
            ({
                let m = regex_captures_of(error_code_pattern(), message@);
                match m {
                    Some(g) => g.len() == 2 && (if g[1].len() > 0 && spec_all_digits(g[1])
                        && spec_digits_val(g[1]) <= usize::MAX {
                        let code = spec_digits_val(g[1]);
                        &&& spec_error_count(final(self).counts@, code as usize) == (
                        if spec_error_count(old(self).counts@, code as usize) < usize::MAX {
                            spec_error_count(old(self).counts@, code as usize) + 1
                        } else {
                            usize::MAX as int
                        })
                        &&& ((r is StopPermanently) <==> spec_error_count(
                            final(self).counts@,
                            code as usize,
                        ) > MAX_SAME_ERROR)
                    } else {
                        r is StopPermanently && final(self).counts@ == old(self).counts@
                    }),
                    None => r is StopPermanently && final(self).counts@ == old(self).counts@,
                }
            }),
    {
        match error_code_captures(message) {
            Some(code_str) => {
                match parse_usize(code_str.as_str()) {
                    Some(code) => {
                        let n = self.record(code);
                        crash_decision(n)
                    },
                    None => CrashDecision::StopPermanently,
                }
            },
            None => CrashDecision::StopPermanently,
        }
    }
}

/// The process-wide advisory totals reported after each cycle; the
/// authoritative counts live in storage.
pub struct CrawlTotals {
    pub explored: usize,
    pub bugged: usize,
    pub pages: usize,
    pub links: usize,
}

/// Saturating addition of two counts.
pub open spec fn spec_sat_add(a: int, b: int) -> int {
    if a + b <= usize::MAX {
        a + b
    } else {
        usize::MAX as int
    }
}

fn sat_add(a: usize, b: usize) -> (r: usize)
    ensures
        r as int == spec_sat_add(a as int, b as int),
{
    if a > usize::MAX - b {
        usize::MAX
    } else {
        a + b
    }
}

impl CrawlTotals {
    pub fn new(explored: usize, bugged: usize, pages: usize, links: usize) -> (r: CrawlTotals)
        ensures
            r.explored == explored,
            r.bugged == bugged,
            r.pages == pages,
            r.links == links,
    {
        CrawlTotals { explored, bugged, pages, links }
    }

    /// Advances the totals additively after a successful cycle, saturating
    /// at the largest representable value.
    pub fn advance(
        &mut self,
        explored_add: usize,
        bugged_add: usize,
        pages_add: usize,
        links_add: usize,
    )
        ensures
            final(self).explored as int == spec_sat_add(
                old(self).explored as int,
                explored_add as int,
            ),
            final(self).bugged as int == spec_sat_add(old(self).bugged as int, bugged_add as int),
            final(self).pages as int == spec_sat_add(old(self).pages as int, pages_add as int),
            final(self).links as int == spec_sat_add(old(self).links as int, links_add as int),
    {
        self.explored = sat_add(self.explored, explored_add);
        self.bugged = sat_add(self.bugged, bugged_add);
        self.pages = sat_add(self.pages, pages_add);
        self.links = sat_add(self.links, links_add);
    }
}

} // verus!
