//! Join-attempt throttling.
//!
//! Someone who knows (or is guessing at) a room code should not be able to
//! hammer the host with connection attempts. Each remote identity gets a small
//! budget per window, and the whole room gets a larger one.

use vstd::prelude::*;

use crate::clock::{elapsed, since, Clock, SECOND};
use crate::table::{
    distinct, filter_distinct, filter_lookup, lookup, push_contains, put, put_is_found, Table,
};

verus! {

/// What a limiter remembers.
#[verifier::ext_equal]
pub struct LimiterView {
    /// Nanoseconds that an attempt counts for.
    pub window: u64,
    pub per_source: usize,
    pub global: usize,
    /// When each source was let through.
    pub hits: Seq<(Seq<char>, Seq<u64>)>,
    /// When anyone was let through.
    pub all: Seq<u64>,
}

/// The attempts that still count at `now`.
pub open spec fn recent(times: Seq<u64>, now: u64, window: u64) -> Seq<u64> {
    times.filter(|t: u64| since(now, t) < window)
}

/// When `source` was let through.
pub open spec fn hits_of(l: LimiterView, source: Seq<char>) -> Seq<u64> {
    match lookup(l.hits, source) {
        Some(times) => times,
        None => Seq::empty(),
    }
}

/// Whether an attempt from `source` at `now` is within both budgets.
pub open spec fn allowed(l: LimiterView, source: Seq<char>, now: u64) -> bool {
    &&& recent(hits_of(l, source), now, l.window).len() < l.per_source
    &&& recent(l.all, now, l.window).len() < l.global
}

/// The limiter after an attempt: what no longer counts is forgotten, and an
/// attempt that is let through is remembered.
pub open spec fn attempted(l: LimiterView, source: Seq<char>, now: u64) -> LimiterView {
    let mine = recent(hits_of(l, source), now, l.window);
    let all = recent(l.all, now, l.window);
    if allowed(l, source, now) {
        LimiterView { hits: put(l.hits, source, mine.push(now)), all: all.push(now), ..l }
    } else {
        LimiterView { hits: put(l.hits, source, mine), all, ..l }
    }
}

/// The limiter without the sources that have nothing left in the window.
pub open spec fn swept(l: LimiterView, now: u64) -> LimiterView {
    LimiterView {
        hits: l.hits.filter(
            |row: (Seq<char>, Seq<u64>)| recent(row.1, now, l.window).len() > 0,
        ),
        ..l
    }
}

pub open spec fn fresh_limiter(per_source: usize, global: usize, window: u64) -> LimiterView {
    LimiterView { window, per_source, global, hits: Seq::empty(), all: Seq::empty() }
}

/// Five attempts per source and thirty overall per minute.
pub open spec fn default_limits() -> LimiterView {
    fresh_limiter(5, 30, 60_000_000_000)
}

pub struct RateLimiter {
    window: u64,
    per_source: usize,
    global: usize,
    hits: Table<String, Vec<u64>>,
    all: Vec<u64>,
    clock: Clock,
}

impl View for RateLimiter {
    type V = LimiterView;

    closed spec fn view(&self) -> LimiterView {
        LimiterView {
            window: self.window,
            per_source: self.per_source,
            global: self.global,
            hits: self.hits@,
            all: self.all@,
        }
    }
}

/// The attempts that still count at `now`.
fn keep_recent(times: &Vec<u64>, now: u64, window: u64) -> (r: Vec<u64>)
    ensures
        r@ == recent(times@, now, window),
{
    let ghost keep = |t: u64| since(now, t) < window;
    let mut out: Vec<u64> = Vec::new();
    let mut i: usize = 0;
    proof {
        reveal(Seq::filter);
        assert(times@.take(0) =~= Seq::<u64>::empty());
    }
    while i < times.len()
        invariant
            i <= times@.len(),
            keep == (|t: u64| since(now, t) < window),
            out@ == times@.take(i as int).filter(keep),
        decreases times@.len() - i,
    {
        proof {
            reveal(Seq::filter);
            assert(times@.take(i + 1).drop_last() =~= times@.take(i as int));
            assert(times@.take(i + 1).last() == times@[i as int]);
        }
        if elapsed(now, times[i]) < window {
            out.push(times[i]);
        }
        i += 1;
    }
    assert(times@.take(i as int) =~= times@);
    out
}

impl RateLimiter {
    /// The clock that tells what "now" is.
    pub closed spec fn clock(&self) -> Clock {
        self.clock
    }

    /// `per_source` attempts per source and `global` overall, per `window`
    /// nanoseconds.
    pub fn new(per_source: usize, global: usize, window: u64) -> (r: Self)
        ensures
            r@ == fresh_limiter(per_source, global, window),
            call_ensures(Clock::start, (), r.clock()),
    {
        let clock = Clock::start();
        let r = RateLimiter {
            window,
            per_source,
            global,
            hits: Table::new(),
            all: Vec::new(),
            clock,
        };
        assert(r@ =~= fresh_limiter(per_source, global, window));
        r
    }

    /// Default policy: 5 attempts per source and 30 overall per minute.
    pub fn default_policy() -> (r: Self)
        ensures
            r@ == default_limits(),
            call_ensures(Clock::start, (), r.clock()),
    {
        Self::new(5, 30, 60 * SECOND)
    }

    /// Record an attempt made now. `false` means "refuse this one".
    pub fn allow(&mut self, source: &str) -> (r: bool)
        ensures
            final(self).clock() == old(self).clock(),
            exists|now: u64| #[trigger]
                call_ensures(Clock::now, (&old(self).clock(),), now) && r == allowed(
                    old(self)@,
                    source@,
                    now,
                ) && final(self)@ == attempted(old(self)@, source@, now),
    {
        let now: u64 = self.clock.now();
        assert(call_ensures(Clock::now, (&old(self).clock(),), now));
        self.allow_at(source, now)
    }

    /// Record an attempt made at `now`. `false` means "refuse this one".
    pub fn allow_at(&mut self, source: &str, now: u64) -> (r: bool)
        ensures
            final(self).clock() == old(self).clock(),
            r == allowed(old(self)@, source@, now),
            final(self)@ == attempted(old(self)@, source@, now),
    {
        let all = keep_recent(&self.all, now, self.window);
        let key = source.to_owned();
        let mut mine = match self.hits.get(&key) {
            Some(times) => keep_recent(times, now, self.window),
            None => {
                let none: Vec<u64> = Vec::new();
                proof {
                    reveal(Seq::filter);
                    assert(recent(Seq::empty(), now, self.window) =~= Seq::<u64>::empty());
                }
                none
            },
        };
        self.all = all;
        if mine.len() >= self.per_source || self.all.len() >= self.global {
            self.hits.insert(key, mine);
            assert(self@ =~= attempted(old(self)@, source@, now));
            return false;
        }
        mine.push(now);
        self.all.push(now);
        self.hits.insert(key, mine);
        assert(self@ =~= attempted(old(self)@, source@, now));
        true
    }

    /// Drop bookkeeping for sources with nothing left in the window.
    pub fn sweep(&mut self)
        ensures
            final(self).clock() == old(self).clock(),
            exists|now: u64| #[trigger]
                call_ensures(Clock::now, (&old(self).clock(),), now) && final(self)@ == swept(
                    old(self)@,
                    now,
                ),
    {
        let now: u64 = self.clock.now();
        assert(call_ensures(Clock::now, (&old(self).clock(),), now));
        self.sweep_at(now);
    }

    /// Drop bookkeeping for sources with nothing left in the window at `now`.
    pub fn sweep_at(&mut self, now: u64)
        ensures
            final(self).clock() == old(self).clock(),
            final(self)@ == swept(old(self)@, now),
    {
        let ghost rows = self.hits@;
        let ghost window = self.window;
        let ghost keep = |row: (Seq<char>, Seq<u64>)| recent(row.1, now, window).len() > 0;
        let mut n: usize = self.hits.len();
        proof {
            reveal(Seq::filter);
            assert(rows.skip(n as int) =~= Seq::empty());
            assert(rows.take(n as int) =~= rows);
            assert(self.hits@ =~= rows.take(n as int) + rows.skip(n as int).filter(keep));
        }
        while n > 0
            invariant
                n <= rows.len(),
                keep == (|row: (Seq<char>, Seq<u64>)| recent(row.1, now, window).len() > 0),
                self.hits@ == rows.take(n as int) + rows.skip(n as int).filter(keep),
                self.window == window,
                self.clock == old(self).clock,
                self.window == old(self).window,
                self.per_source == old(self).per_source,
                self.global == old(self).global,
                self.all == old(self).all,
            decreases n,
        {
            n -= 1;
            let ghost row = rows[n as int];
            assert(self.hits@[n as int] == row);
            let live = keep_recent(self.hits.at(n), now, self.window);
            proof {
                assert(rows.skip(n as int) =~= seq![row] + rows.skip(n + 1));
                Seq::filter_distributes_over_add(seq![row], rows.skip(n + 1), keep);
                reveal(Seq::filter);
                assert(seq![row].drop_last() =~= Seq::empty());
                assert(rows.take(n + 1) =~= rows.take(n as int).push(row));
            }
            if live.len() == 0 {
                proof {
                    assert(!keep(row));
                    reveal_with_fuel(Seq::filter, 2);
                    assert(seq![row].filter(keep) =~= Seq::empty());
                }
                self.hits.remove_at(n);
                assert(self.hits@ =~= rows.take(n as int) + rows.skip(n as int).filter(keep));
            } else {
                assert(seq![row].filter(keep) =~= seq![row]);
                assert(self.hits@ =~= rows.take(n as int) + rows.skip(n as int).filter(keep));
            }
        }
        proof {
            assert(rows.skip(0) =~= rows);
            assert(rows.take(0) =~= Seq::empty());
            assert(self.hits@ =~= rows.filter(keep));
            assert(self@ =~= swept(old(self)@, now));
        }
    }
}

// --- laws ----------------------------------------------------------------------

/// The limiter after these attempts: who, and when.
pub open spec fn after_attempts(l: LimiterView, attempts: Seq<(Seq<char>, u64)>) -> LimiterView
    decreases attempts.len(),
{
    if attempts.len() == 0 {
        l
    } else {
        attempted(
            after_attempts(l, attempts.drop_last()),
            attempts.last().0,
            attempts.last().1,
        )
    }
}

/// When, in the course of these attempts, someone was let through: `source`,
/// or anyone at all.
pub open spec fn let_through(
    l: LimiterView,
    attempts: Seq<(Seq<char>, u64)>,
    source: Option<Seq<char>>,
) -> Seq<u64>
    decreases attempts.len(),
{
    if attempts.len() == 0 {
        Seq::empty()
    } else {
        let before = let_through(l, attempts.drop_last(), source);
        let (who, now) = attempts.last();
        if (source is None || source == Some(who)) && allowed(
            after_attempts(l, attempts.drop_last()),
            who,
            now,
        ) {
            before.push(now)
        } else {
            before
        }
    }
}

/// The clock never goes back.
pub open spec fn in_order(attempts: Seq<(Seq<char>, u64)>) -> bool {
    forall|i: int, j: int|
        0 <= i <= j < attempts.len() ==> (#[trigger] attempts[i]).1 <= (#[trigger] attempts[j]).1
}

/// What no longer counts at one moment does not count later either.
proof fn recent_later(times: Seq<u64>, then: u64, now: u64, window: u64)
    requires
        then <= now,
    ensures
        recent(recent(times, then, window), now, window) == recent(times, now, window),
    decreases times.len(),
{
    reveal(Seq::filter);
    let old_keep = |t: u64| since(then, t) < window;
    let keep = |t: u64| since(now, t) < window;
    if times.len() > 0 {
        let t = times.drop_last();
        recent_later(t, then, now, window);
        if old_keep(times.last()) {
            assert(recent(t, then, window).push(times.last()).drop_last() =~= recent(
                t,
                then,
                window,
            ));
        }
    }
}

proof fn recent_push(times: Seq<u64>, t: u64, now: u64, window: u64)
    ensures
        recent(times.push(t), now, window) == if since(now, t) < window {
            recent(times, now, window).push(t)
        } else {
            recent(times, now, window)
        },
        recent(times, now, window).len() <= times.len(),
{
    reveal(Seq::filter);
    assert(times.push(t).drop_last() =~= times);
    times.lemma_filter_len(|t: u64| since(now, t) < window);
}

/// The limiter remembers what counts: whenever it is asked, what it holds of a
/// source, and of everyone, is what was let through within the window.
proof fn what_counts_is_remembered(
    per_source: usize,
    global: usize,
    window: u64,
    attempts: Seq<(Seq<char>, u64)>,
    source: Seq<char>,
    now: u64,
)
    requires
        in_order(attempts),
        attempts.len() > 0 ==> attempts.last().1 <= now,
    ensures
        ({
            let fresh = fresh_limiter(per_source, global, window);
            let l = after_attempts(fresh, attempts);
            &&& distinct(l.hits)
            &&& l.window == window && l.per_source == per_source && l.global == global
            &&& recent(hits_of(l, source), now, window) == recent(
                let_through(fresh, attempts, Some(source)),
                now,
                window,
            )
            &&& recent(l.all, now, window) == recent(
                let_through(fresh, attempts, None),
                now,
                window,
            )
            &&& hits_of(l, source).len() <= per_source
            &&& l.all.len() <= global
        }),
    decreases attempts.len(),
{
    if attempts.len() > 0 {
        let fresh = fresh_limiter(per_source, global, window);
        let t = attempts.drop_last();
        let (who, then) = attempts.last();
        let l = after_attempts(fresh, t);
        assert forall|i: int, j: int| 0 <= i <= j < t.len() implies (#[trigger] t[i]).1 <= (
        #[trigger] t[j]).1 by {
            assert(attempts[i].1 <= attempts[j].1);
        }
        if t.len() > 0 {
            assert(attempts[t.len() - 1].1 <= attempts[attempts.len() - 1].1);
        }
        what_counts_is_remembered(per_source, global, window, t, source, now);
        let mine = recent(hits_of(l, who), then, window);
        let all = recent(l.all, then, window);
        put_is_found(l.hits, who, mine.push(then));
        put_is_found(l.hits, who, mine);
        recent_later(hits_of(l, who), then, now, window);
        recent_later(l.all, then, now, window);
        recent_push(mine, then, now, window);
        recent_push(all, then, now, window);
        recent_push(let_through(fresh, t, Some(source)), then, now, window);
        recent_push(let_through(fresh, t, None), then, now, window);
        recent_push(hits_of(l, who), then, then, window);
        recent_push(l.all, then, then, window);
        if source != who {
            assert(lookup(put(l.hits, who, mine), source) == lookup(l.hits, source));
            assert(lookup(put(l.hits, who, mine.push(then)), source) == lookup(l.hits, source));
        }
    }
}

/// Whatever was attempted before, by whomever: in any window no more attempts
/// of a source are let through than its budget, and no more of all together
/// than theirs; and an attempt is refused only where one of the two is used up.
pub proof fn budgets_hold(
    per_source: usize,
    global: usize,
    window: u64,
    attempts: Seq<(Seq<char>, u64)>,
    source: Seq<char>,
    now: u64,
)
    requires
        in_order(attempts),
        attempts.len() > 0 ==> attempts.last().1 <= now,
    ensures
        ({
            let fresh = fresh_limiter(per_source, global, window);
            let mine = recent(let_through(fresh, attempts, Some(source)), now, window);
            let all = recent(let_through(fresh, attempts, None), now, window);
            &&& mine.len() <= per_source
            &&& all.len() <= global
            &&& allowed(after_attempts(fresh, attempts), source, now) == (mine.len() < per_source
                && all.len() < global)
        }),
{
    what_counts_is_remembered(per_source, global, window, attempts, source, now);
    let l = after_attempts(fresh_limiter(per_source, global, window), attempts);
    recent_push(hits_of(l, source), 0, now, window);
    recent_push(l.all, 0, now, window);
}

/// What is answered to these attempts, one after the other.
pub open spec fn answers(l: LimiterView, attempts: Seq<(Seq<char>, u64)>) -> Seq<bool> {
    Seq::new(
        attempts.len(),
        |i: int|
            allowed(after_attempts(l, attempts.take(i)), attempts[i].0, attempts[i].1),
    )
}

/// All of these attempts are made at `now` or later, in order.
pub open spec fn from_now_on(attempts: Seq<(Seq<char>, u64)>, now: u64) -> bool {
    &&& in_order(attempts)
    &&& forall|i: int| 0 <= i < attempts.len() ==> (#[trigger] attempts[i]).1 >= now
}

/// The same counts in both from `now` on.
spec fn alike(a: LimiterView, b: LimiterView, now: u64) -> bool {
    &&& a.window == b.window && a.per_source == b.per_source && a.global == b.global
    &&& distinct(a.hits)
    &&& distinct(b.hits)
    &&& forall|later: u64|
        later >= now ==> #[trigger] recent(a.all, later, a.window) == recent(
            b.all,
            later,
            a.window,
        )
    &&& forall|source: Seq<char>, later: u64|
        later >= now ==> #[trigger] recent(hits_of(a, source), later, a.window) == recent(
            hits_of(b, source),
            later,
            a.window,
        )
}

proof fn attempts_keep_alike(a: LimiterView, b: LimiterView, who: Seq<char>, from: u64, now: u64)
    requires
        alike(a, b, from),
        from <= now,
    ensures
        allowed(a, who, now) == allowed(b, who, now),
        alike(attempted(a, who, now), attempted(b, who, now), now),
{
    let w = a.window;
    let mine = recent(hits_of(a, who), now, w);
    assert(mine == recent(hits_of(b, who), now, w));
    assert(recent(a.all, now, w) == recent(b.all, now, w));
    put_is_found(a.hits, who, mine);
    put_is_found(a.hits, who, mine.push(now));
    put_is_found(b.hits, who, mine);
    put_is_found(b.hits, who, mine.push(now));
    let (x, y) = (attempted(a, who, now), attempted(b, who, now));
    assert(x.all == y.all);
    assert forall|source: Seq<char>, later: u64| later >= now implies #[trigger] recent(
        hits_of(x, source),
        later,
        w,
    ) == recent(hits_of(y, source), later, w) by {
        if source != who {
            sources_are_apart(a, who, source, now);
            sources_are_apart(b, who, source, now);
            assert(recent(hits_of(a, source), later, w) == recent(hits_of(b, source), later, w));
        }
    }
}

proof fn alike_answers(a: LimiterView, b: LimiterView, now: u64, attempts: Seq<(Seq<char>, u64)>)
    requires
        alike(a, b, now),
        from_now_on(attempts, now),
    ensures
        answers(a, attempts) == answers(b, attempts),
        alike(
            after_attempts(a, attempts),
            after_attempts(b, attempts),
            if attempts.len() == 0 {
                now
            } else {
                attempts.last().1
            },
        ),
    decreases attempts.len(),
{
    if attempts.len() > 0 {
        let t = attempts.drop_last();
        assert forall|i: int, j: int| 0 <= i <= j < t.len() implies (#[trigger] t[i]).1 <= (
        #[trigger] t[j]).1 by {
            assert(attempts[i].1 <= attempts[j].1);
        }
        assert forall|i: int| 0 <= i < t.len() implies (#[trigger] t[i]).1 >= now by {
            assert(attempts[i].1 >= now);
        }
        alike_answers(a, b, now, t);
        let (who, then) = attempts[attempts.len() - 1];
        let from = if t.len() == 0 {
            now
        } else {
            t.last().1
        };
        if t.len() > 0 {
            assert(attempts[t.len() - 1].1 <= attempts[attempts.len() - 1].1);
        }
        attempts_keep_alike(after_attempts(a, t), after_attempts(b, t), who, from, then);
        assert forall|i: int| 0 <= i < attempts.len() implies #[trigger] answers(a, attempts)[i]
            == answers(b, attempts)[i] by {
            if i < t.len() {
                assert(t.take(i) =~= attempts.take(i));
                assert(t[i] == attempts[i]);
                assert(answers(a, t)[i] == answers(b, t)[i]);
            } else {
                assert(attempts.take(i) =~= t);
            }
        }
    }
    assert(answers(a, attempts) =~= answers(b, attempts));
}

/// A refused attempt uses up nothing: whatever is attempted from then on, by
/// whomever, is answered as it would have been without it.
pub proof fn refusals_are_free(
    l: LimiterView,
    source: Seq<char>,
    now: u64,
    attempts: Seq<(Seq<char>, u64)>,
)
    requires
        distinct(l.hits),
        !allowed(l, source, now),
        from_now_on(attempts, now),
    ensures
        answers(attempted(l, source, now), attempts) == answers(l, attempts),
{
    let after = attempted(l, source, now);
    let mine = recent(hits_of(l, source), now, l.window);
    put_is_found(l.hits, source, mine);
    assert forall|later: u64| later >= now implies #[trigger] recent(after.all, later, l.window)
        == recent(l.all, later, l.window) by {
        recent_later(l.all, now, later, l.window);
    }
    assert forall|other: Seq<char>, later: u64| later >= now implies #[trigger] recent(
        hits_of(after, other),
        later,
        l.window,
    ) == recent(hits_of(l, other), later, l.window) by {
        if other == source {
            recent_later(hits_of(l, source), now, later, l.window);
        } else {
            sources_are_apart(l, source, other, now);
        }
    }
    alike_answers(after, l, now, attempts);
}

/// One source using up its own budget leaves the budget of another alone.
pub proof fn sources_are_apart(l: LimiterView, source: Seq<char>, other: Seq<char>, now: u64)
    requires
        distinct(l.hits),
        other != source,
    ensures
        hits_of(attempted(l, source, now), other) == hits_of(l, other),
{
    let mine = recent(hits_of(l, source), now, l.window);
    put_is_found(l.hits, source, mine.push(now));
    put_is_found(l.hits, source, mine);
    assert(lookup(put(l.hits, source, mine), other) == lookup(l.hits, other));
    assert(lookup(put(l.hits, source, mine.push(now)), other) == lookup(l.hits, other));
}

/// What is found in a table once some of its rows are gone.
proof fn lookup_kept(
    rows: Seq<(Seq<char>, Seq<u64>)>,
    keep: spec_fn((Seq<char>, Seq<u64>)) -> bool,
    k: Seq<char>,
)
    requires
        distinct(rows),
    ensures
        lookup(rows.filter(keep), k) == match lookup(rows, k) {
            Some(v) => if keep((k, v)) {
                Some(v)
            } else {
                None
            },
            None => None,
        },
{
    filter_lookup(rows, keep, k);
}

/// No source is ever known twice: not at first, and not after an attempt or a
/// sweep.
pub proof fn sources_stay_distinct(
    l: LimiterView,
    source: Seq<char>,
    now: u64,
    per_source: usize,
    global: usize,
    window: u64,
)
    ensures
        distinct(fresh_limiter(per_source, global, window).hits),
        distinct(l.hits) ==> distinct(attempted(l, source, now).hits),
        distinct(l.hits) ==> distinct(swept(l, now).hits),
{
    if distinct(l.hits) {
        let mine = recent(hits_of(l, source), now, l.window);
        put_is_found(l.hits, source, mine);
        put_is_found(l.hits, source, mine.push(now));
        filter_distinct(
            l.hits,
            |row: (Seq<char>, Seq<u64>)| recent(row.1, now, l.window).len() > 0,
        );
    }
}

/// Sweeping keeps of the sources exactly those with an attempt that counts,
/// each with all it has, and leaves the overall count alone.
pub proof fn sweeping_keeps_what_counts(l: LimiterView, source: Seq<char>, now: u64)
    requires
        distinct(l.hits),
    ensures
        lookup(swept(l, now).hits, source) == match lookup(l.hits, source) {
            Some(times) if recent(times, now, l.window).len() > 0 => Some(times),
            _ => None,
        },
        swept(l, now).all == l.all,
{
    let keep = |row: (Seq<char>, Seq<u64>)| recent(row.1, now, l.window).len() > 0;
    lookup_kept(l.hits, keep, source);
}

/// Sweeping is housekeeping only: whatever is attempted from then on, by
/// whomever, is answered as it would have been without it.
pub proof fn sweeping_changes_nothing(
    l: LimiterView,
    now: u64,
    attempts: Seq<(Seq<char>, u64)>,
)
    requires
        distinct(l.hits),
        from_now_on(attempts, now),
    ensures
        answers(swept(l, now), attempts) == answers(l, attempts),
{
    let keep = |row: (Seq<char>, Seq<u64>)| recent(row.1, now, l.window).len() > 0;
    let after = swept(l, now);
    filter_distinct(l.hits, keep);
    assert forall|source: Seq<char>, later: u64| later >= now implies #[trigger] recent(
        hits_of(after, source),
        later,
        l.window,
    ) == recent(hits_of(l, source), later, l.window) by {
        lookup_kept(l.hits, keep, source);
        recent_later(hits_of(l, source), now, later, l.window);
        reveal(Seq::filter);
        assert(Seq::<u64>::empty().filter(|t: u64| since(later, t) < l.window)
            =~= Seq::<u64>::empty());
    }
    alike_answers(after, l, now, attempts);
}

/// An attempt counts for exactly one window: as long as it was less than that
/// ago, and not any longer.
pub proof fn an_attempt_counts_for_a_window(times: Seq<u64>, now: u64, window: u64, t: u64)
    requires
        t <= now,
    ensures
        recent(times, now, window).contains(t) <==> times.contains(t) && now - t < window,
    decreases times.len(),
{
    reveal(Seq::filter);
    if times.len() > 0 {
        let s = times.drop_last();
        let f = recent(s, now, window);
        let g = recent(times, now, window);
        an_attempt_counts_for_a_window(s, now, window, t);
        assert(times =~= s.push(times.last()));
        push_contains(s, times.last(), t);
        if since(now, times.last()) < window {
            assert(g == f.push(times.last()));
            push_contains(f, times.last(), t);
        }
    }
}

} // verus!
