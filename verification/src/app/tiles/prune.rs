//! Cache pruning: bounds the on-disk tile cache by age and total size, so a
//! long-lived install does not grow without limit.
//!
//! Caching is wanted and needless re-fetching is not, so the limits are
//! deliberately generous.
use vstd::prelude::*;

use crate::text;

verus! {

/// A point in time, relative to the Unix epoch.
#[derive(Clone, Copy, Debug, PartialEq, Eq, Structural)]
pub struct Timestamp {
    pub secs: i64,
    pub nanos: u32,
}

/// A length of time.
#[derive(Clone, Copy, Debug, PartialEq, Eq, Structural)]
pub struct TimeSpan {
    pub secs: u64,
    pub nanos: u32,
}

impl Timestamp {
    /// Nanoseconds since the Unix epoch.
    pub open spec fn instant(self) -> int {
        self.secs * 1_000_000_000 + self.nanos
    }
}

impl TimeSpan {
    /// The span in nanoseconds.
    pub open spec fn length(self) -> int {
        self.secs * 1_000_000_000 + self.nanos
    }
}

/// Tiles not modified within this window are pruned regardless of the size
/// budget.
pub const MAX_TILE_AGE_SECS: u64 = 2_592_000;

/// Total on-disk budget for the tile cache.
pub const MAX_CACHE_BYTES: u64 = 104_857_600;

/// One cached tile file: just enough to decide whether it should be removed.
/// `P` is how the file is addressed.
#[derive(Debug, PartialEq, Eq)]
pub struct CacheEntry<P> {
    pub path: P,
    pub size_bytes: u64,
    pub modified: Timestamp,
}

impl Clone for CacheEntry<String> {
    fn clone(&self) -> (r: Self)
        ensures
            r == *self,
    {
        CacheEntry {
            path: self.path.clone(),
            size_bytes: self.size_bytes,
            modified: self.modified,
        }
    }
}

// ---------------------------------------------------------------------------
// What is pruned
// ---------------------------------------------------------------------------

/// Whether an entry is past the age limit. One modified after `now` (clock
/// skew, a restored backup) never is.
pub open spec fn stale<P>(entry: CacheEntry<P>, now: Timestamp, max_age: TimeSpan) -> bool {
    now.instant() - entry.modified.instant() > max_age.length()
}

/// The positions of the stale ones among the first `n` entries, in order.
pub open spec fn stale_among<P>(
    entries: Seq<CacheEntry<P>>,
    now: Timestamp,
    max_age: TimeSpan,
    n: nat,
) -> Seq<int>
    decreases n,
{
    if n == 0 {
        seq![]
    } else {
        let rest = stale_among(entries, now, max_age, (n - 1) as nat);
        if stale(entries[n - 1], now, max_age) {
            rest.push(n - 1)
        } else {
            rest
        }
    }
}

/// How many of the entries at the positions `order` come before an instant or
/// at it, as long as they stand in a row at the front.
pub open spec fn place<P>(entries: Seq<CacheEntry<P>>, order: Seq<int>, instant: int) -> nat
    decreases order.len(),
{
    if order.len() == 0 || entries[order[0]].modified.instant() > instant {
        0
    } else {
        1 + place(entries, order.skip(1), instant)
    }
}

/// The positions of the entries among the first `n` that are not stale, the
/// oldest first, those of one age in the order in which they came.
pub open spec fn by_age<P>(
    entries: Seq<CacheEntry<P>>,
    now: Timestamp,
    max_age: TimeSpan,
    n: nat,
) -> Seq<int>
    decreases n,
{
    if n == 0 {
        seq![]
    } else {
        let rest = by_age(entries, now, max_age, (n - 1) as nat);
        if stale(entries[n - 1], now, max_age) {
            rest
        } else {
            rest.insert(
                place(entries, rest, entries[n - 1].modified.instant()) as int,
                n - 1,
            )
        }
    }
}

/// The summed size of the entries at the given positions.
pub open spec fn total_size<P>(entries: Seq<CacheEntry<P>>, positions: Seq<int>) -> nat
    decreases positions.len(),
{
    if positions.len() == 0 {
        0
    } else {
        entries[positions[0]].size_bytes as nat + total_size(entries, positions.skip(1))
    }
}

/// How many entries have to go from the front of `order` for the rest to be
/// within the budget.
pub open spec fn evictions<P>(entries: Seq<CacheEntry<P>>, order: Seq<int>, budget: u64) -> nat
    decreases order.len(),
{
    if order.len() == 0 || total_size(entries, order) <= budget {
        0
    } else {
        1 + evictions(entries, order.skip(1), budget)
    }
}

/// The positions of the entries to remove: first the stale ones, then the
/// oldest others, as many as the budget asks for.
pub open spec fn doomed<P>(
    entries: Seq<CacheEntry<P>>,
    now: Timestamp,
    max_age: TimeSpan,
    budget: u64,
) -> Seq<int> {
    let order = by_age(entries, now, max_age, entries.len());
    stale_among(entries, now, max_age, entries.len()) + order.take(
        evictions(entries, order, budget) as int,
    )
}

/// The positions of the entries that stay, the oldest first.
pub open spec fn kept<P>(
    entries: Seq<CacheEntry<P>>,
    now: Timestamp,
    max_age: TimeSpan,
    budget: u64,
) -> Seq<int> {
    let order = by_age(entries, now, max_age, entries.len());
    order.skip(evictions(entries, order, budget) as int)
}

/// A sequence of positions as integers.
pub open spec fn positions(v: Seq<usize>) -> Seq<int> {
    Seq::new(v.len(), |i: int| v[i] as int)
}

fn nanos_of(t: &Timestamp) -> (r: i128)
    ensures
        r == t.instant(),
{
    t.secs as i128 * 1_000_000_000 + t.nanos as i128
}

fn is_stale<P>(entry: &CacheEntry<P>, now: &Timestamp, max_age: &TimeSpan) -> (r: bool)
    ensures
        r == stale(*entry, *now, *max_age),
        r == ((now.secs * 1_000_000_000 + now.nanos) - (entry.modified.secs * 1_000_000_000
            + entry.modified.nanos) > max_age.secs * 1_000_000_000 + max_age.nanos),
{
    let limit: i128 = max_age.secs as i128 * 1_000_000_000 + max_age.nanos as i128;
    let age: i128 = nanos_of(now) - nanos_of(&entry.modified);
    age > limit
}

/// The summed size of the entries that are not stale, unless it is more than
/// can be counted.
pub fn surviving_bytes<P>(entries: &[CacheEntry<P>], now: Timestamp, max_age: TimeSpan) -> (r: Option<
    u64,
>)
    ensures
        ({
            let total = total_size(
                entries@,
                by_age(entries@, now, max_age, entries@.len()),
            );
            r == (if total <= u64::MAX {
                Some(total as u64)
            } else {
                None
            })
        }),
{
    let mut total: u64 = 0;
    let mut i: usize = 0;
    while i < entries.len()
        invariant
            i <= entries@.len(),
            total == total_size(entries@, by_age(entries@, now, max_age, i as nat)),
        decreases entries@.len() - i,
    {
        let fresh = !is_stale(&entries[i], &now, &max_age);
        proof {
            lemma_total_step(entries@, now, max_age, i as nat);
        }
        if fresh {
            match total.checked_add(entries[i].size_bytes) {
                Some(sum) => {
                    total = sum;
                },
                None => {
                    proof {
                        lemma_total_grows(entries@, now, max_age, (i + 1) as nat, entries@.len());
                    }
                    return None;
                },
            }
        }
        i = i + 1;
    }
    Some(total)
}

/// Decides which entries to remove, by position.
///
/// Two passes: any entry older than `max_age` goes unconditionally; of what
/// survives, if the summed size still exceeds `max_total_bytes`, the
/// oldest-modified go first until the total is at or under budget.
pub fn plan_positions<P>(
    entries: &[CacheEntry<P>],
    now: Timestamp,
    max_age: TimeSpan,
    max_total_bytes: u64,
) -> (r: Vec<usize>)
    requires
        total_size(entries@, by_age(entries@, now, max_age, entries@.len())) <= u64::MAX,
    ensures
        positions(r@) == doomed(entries@, now, max_age, max_total_bytes),
        forall|i: int| 0 <= i < r@.len() ==> (#[trigger] r@[i]) < entries@.len(),
        forall|i: usize|
            i < entries@.len() && stale(#[trigger] entries@[i as int], now, max_age) ==> r@.contains(
                i,
            ),
{
    let mut doomed_positions: Vec<usize> = Vec::new();
    let mut order: Vec<usize> = Vec::new();
    let mut total: u64 = 0;
    let mut i: usize = 0;
    while i < entries.len()
        invariant
            i <= entries@.len(),
            total_size(entries@, by_age(entries@, now, max_age, entries@.len())) <= u64::MAX,
            total == total_size(entries@, by_age(entries@, now, max_age, i as nat)),
            positions(doomed_positions@) == stale_among(entries@, now, max_age, i as nat),
            positions(order@) == by_age(entries@, now, max_age, i as nat),
            forall|k: int| 0 <= k < doomed_positions@.len() ==> (#[trigger] doomed_positions@[k]) < i,
            forall|k: int| 0 <= k < order@.len() ==> (#[trigger] order@[k]) < i,
        decreases entries@.len() - i,
    {
        proof {
            lemma_total_step(entries@, now, max_age, i as nat);
            lemma_total_grows(entries@, now, max_age, (i + 1) as nat, entries@.len());
        }
        if is_stale(&entries[i], &now, &max_age) {
            let ghost before = positions(doomed_positions@);
            doomed_positions.push(i);
            assert(positions(doomed_positions@) =~= before.push(i as int));
        } else {
            let ghost before = positions(order@);
            let ghost old_order = order@;
            let at = place_of(entries, &order, &entries[i].modified);
            order.insert(at, i);
            total = total + entries[i].size_bytes;
            assert(positions(order@) =~= before.insert(at as int, i as int));
            assert forall|k: int| 0 <= k < order@.len() implies (#[trigger] order@[k]) < i + 1 by {
                if k < at {
                    assert(order@[k] == old_order[k]);
                } else if k > at {
                    assert(order@[k] == old_order[k - 1]);
                }
            }
        }
        i = i + 1;
    }
    let ghost full = by_age(entries@, now, max_age, entries@.len());
    let ghost old_part = positions(doomed_positions@);
    let mut k: usize = 0;
    proof {
        assert(full.skip(0) =~= full);
        assert(old_part + full.take(0) =~= old_part);
    }
    while k < order.len() && total > max_total_bytes
        invariant
            k <= order@.len(),
            positions(order@) == full,
            full == by_age(entries@, now, max_age, entries@.len()),
            total == total_size(entries@, full.skip(k as int)),
            evictions(entries@, full, max_total_bytes) == k + evictions(
                entries@,
                full.skip(k as int),
                max_total_bytes,
            ),
            positions(doomed_positions@) == old_part + full.take(k as int),
            forall|j: int| 0 <= j < order@.len() ==> (#[trigger] order@[j]) < entries@.len(),
            forall|j: int|
                0 <= j < doomed_positions@.len() ==> (#[trigger] doomed_positions@[j])
                    < entries@.len(),
        decreases order@.len() - k,
    {
        let ghost before = positions(doomed_positions@);
        let at: usize = order[k];
        proof {
            assert(full[k as int] == at);
            let rest = full.skip(k as int);
            assert(rest[0] == at);
            assert(rest.skip(1) =~= full.skip(k + 1));
        }
        doomed_positions.push(at);
        total = total - entries[at].size_bytes;
        proof {
            assert(positions(doomed_positions@) =~= before.push(at as int));
            assert(full.take(k + 1) =~= full.take(k as int).push(at as int));
            assert(old_part + full.take(k + 1) =~= (old_part + full.take(k as int)).push(at as int));
        }
        k = k + 1;
    }
    proof {
        lemma_stale_among(entries@, now, max_age, entries@.len());
        let gone = stale_among(entries@, now, max_age, entries@.len());
        assert forall|i: usize|
            i < entries@.len() && stale(
                #[trigger] entries@[i as int],
                now,
                max_age,
            ) implies doomed_positions@.contains(i) by {
            assert(gone.contains(i as int));
            let j = choose|j: int| 0 <= j < gone.len() && gone[j] == i;
            assert(positions(doomed_positions@)[j] == i);
            assert(doomed_positions@[j] == i);
        }
    }
    doomed_positions
}

/// Where an entry of the given age belongs in `order`.
fn place_of<P>(entries: &[CacheEntry<P>], order: &Vec<usize>, modified: &Timestamp) -> (r: usize)
    requires
        forall|k: int| 0 <= k < order@.len() ==> (#[trigger] order@[k]) < entries@.len(),
    ensures
        r == place(entries@, positions(order@), modified.instant()),
        r <= order@.len(),
{
    let ghost all = positions(order@);
    let instant: i128 = nanos_of(modified);
    let mut p: usize = 0;
    assert(all.skip(0) =~= all);
    while p < order.len() && nanos_of(&entries[order[p]].modified) <= instant
        invariant
            p <= order@.len(),
            all == positions(order@),
            instant == modified.instant(),
            forall|k: int| 0 <= k < order@.len() ==> (#[trigger] order@[k]) < entries@.len(),
            place(entries@, all, instant as int) == p + place(
                entries@,
                all.skip(p as int),
                instant as int,
            ),
        decreases order@.len() - p,
    {
        proof {
            let rest = all.skip(p as int);
            assert(rest[0] == all[p as int]);
            assert(rest.skip(1) =~= all.skip(p + 1));
        }
        p = p + 1;
    }
    proof {
        if p < order@.len() {
            let rest = all.skip(p as int);
            assert(rest[0] == all[p as int]);
        }
    }
    p
}

/// Decides which files to remove; see `plan_positions`.
pub fn plan_prune(
    entries: &[CacheEntry<String>],
    now: Timestamp,
    max_age: TimeSpan,
    max_total_bytes: u64,
) -> (r: Vec<String>)
    requires
        total_size(entries@, by_age(entries@, now, max_age, entries@.len())) <= u64::MAX,
    ensures
        ({
            let gone = doomed(entries@, now, max_age, max_total_bytes);
            text::texts(r@) == Seq::new(gone.len(), |i: int| entries@[gone[i]].path@)
        }),
{
    let gone = plan_positions(entries, now, max_age, max_total_bytes);
    let ghost all = doomed(entries@, now, max_age, max_total_bytes);
    let mut paths: Vec<String> = Vec::new();
    let mut i: usize = 0;
    while i < gone.len()
        invariant
            i <= gone@.len(),
            positions(gone@) == all,
            forall|k: int| 0 <= k < gone@.len() ==> (#[trigger] gone@[k]) < entries@.len(),
            paths@.len() == i,
            forall|k: int|
                0 <= k < i ==> (#[trigger] paths@[k])@ == entries@[gone@[k] as int].path@,
        decreases gone@.len() - i,
    {
        paths.push(entries[gone[i]].path.clone());
        i = i + 1;
    }
    proof {
        assert forall|k: int| 0 <= k < paths@.len() implies (#[trigger] paths@[k])@
            == entries@[all[k]].path@ by {
            assert(all[k] == positions(gone@)[k]);
        }
        assert(text::texts(paths@) =~= Seq::new(all.len(), |k: int| entries@[all[k]].path@));
    }
    paths
}

/// Decides which of the listed tiles to remove from the cache, by position,
/// under the limits that the program ships with. `None` if the sizes of the
/// tiles that are not stale add up to more than can be counted.
pub fn prune_cache<P>(entries: &[CacheEntry<P>], now: Timestamp) -> (r: Option<Vec<usize>>)
    ensures
        ({
            let max_age = TimeSpan { secs: MAX_TILE_AGE_SECS, nanos: 0 };
            let total = total_size(entries@, by_age(entries@, now, max_age, entries@.len()));
            match r {
                Some(gone) => total <= u64::MAX && positions(gone@) == doomed(
                    entries@,
                    now,
                    max_age,
                    MAX_CACHE_BYTES,
                ) && forall|i: int|
                    0 <= i < gone@.len() ==> (#[trigger] gone@[i]) < entries@.len(),
                None => total > u64::MAX,
            }
        }),
{
    let max_age = TimeSpan { secs: MAX_TILE_AGE_SECS, nanos: 0 };
    match surviving_bytes(entries, now, max_age) {
        Some(_) => Some(plan_positions(entries, now, max_age, MAX_CACHE_BYTES)),
        None => None,
    }
}

// ---------------------------------------------------------------------------
// Sums and order
// ---------------------------------------------------------------------------

proof fn lemma_total_insert<P>(entries: Seq<CacheEntry<P>>, order: Seq<int>, at: int, x: int)
    requires
        0 <= at <= order.len(),
    ensures
        total_size(entries, order.insert(at, x)) == total_size(entries, order)
            + entries[x].size_bytes,
    decreases order.len(),
{
    let grown = order.insert(at, x);
    if at == 0 {
        assert(grown[0] == x);
        assert(grown.skip(1) =~= order);
    } else {
        lemma_total_insert(entries, order.skip(1), at - 1, x);
        assert(grown[0] == order[0]);
        assert(grown.skip(1) =~= order.skip(1).insert(at - 1, x));
    }
}

proof fn lemma_place<P>(entries: Seq<CacheEntry<P>>, order: Seq<int>, instant: int)
    ensures
        place(entries, order, instant) <= order.len(),
        forall|k: int|
            0 <= k < place(entries, order, instant) ==> entries[#[trigger] order[k]].modified.instant()
                <= instant,
        place(entries, order, instant) < order.len() ==> entries[order[place(
            entries,
            order,
            instant,
        ) as int]].modified.instant() > instant,
    decreases order.len(),
{
    if order.len() > 0 && entries[order[0]].modified.instant() <= instant {
        let rest = order.skip(1);
        lemma_place(entries, rest, instant);
        let p = place(entries, rest, instant);
        assert forall|k: int| 0 <= k < p + 1 implies entries[#[trigger] order[k]].modified.instant()
            <= instant by {
            if k > 0 {
                assert(order[k] == rest[k - 1]);
            }
        }
        if p < rest.len() {
            assert(rest[p as int] == order[p as int + 1]);
        }
    }
}

proof fn lemma_total_step<P>(
    entries: Seq<CacheEntry<P>>,
    now: Timestamp,
    max_age: TimeSpan,
    n: nat,
)
    ensures
        total_size(entries, by_age(entries, now, max_age, n + 1)) == total_size(
            entries,
            by_age(entries, now, max_age, n),
        ) + (if stale(entries[n as int], now, max_age) {
            0
        } else {
            entries[n as int].size_bytes as nat
        }),
{
    let order = by_age(entries, now, max_age, n);
    if !stale(entries[n as int], now, max_age) {
        let at = place(entries, order, entries[n as int].modified.instant());
        lemma_place(entries, order, entries[n as int].modified.instant());
        lemma_total_insert(entries, order, at as int, n as int);
    }
}

proof fn lemma_total_grows<P>(
    entries: Seq<CacheEntry<P>>,
    now: Timestamp,
    max_age: TimeSpan,
    n: nat,
    m: nat,
)
    requires
        n <= m,
    ensures
        total_size(entries, by_age(entries, now, max_age, n)) <= total_size(
            entries,
            by_age(entries, now, max_age, m),
        ),
    decreases m,
{
    if n < m {
        lemma_total_grows(entries, now, max_age, n, (m - 1) as nat);
        lemma_total_step(entries, now, max_age, (m - 1) as nat);
    }
}

// ---------------------------------------------------------------------------
// Laws
// ---------------------------------------------------------------------------

/// Whether the entry at `a` goes before the one at `b` when room is made.
pub open spec fn older<P>(entries: Seq<CacheEntry<P>>, a: int, b: int) -> bool {
    let at = entries[a].modified.instant();
    let bt = entries[b].modified.instant();
    at < bt || (at == bt && a < b)
}

/// The order in which entries are evicted holds exactly those that are not
/// stale, each once, from the oldest to the youngest.
pub proof fn lemma_by_age<P>(entries: Seq<CacheEntry<P>>, now: Timestamp, max_age: TimeSpan, n: nat)
    ensures
        ({
            let order = by_age(entries, now, max_age, n);
            &&& forall|i: int|
                #[trigger] order.contains(i) <==> 0 <= i < n && !stale(entries[i], now, max_age)
            &&& forall|j: int, k: int|
                0 <= j < k < order.len() ==> older(entries, #[trigger] order[j], #[trigger] order[k])
        }),
    decreases n,
{
    let order = by_age(entries, now, max_age, n);
    if n > 0 {
        let rest = by_age(entries, now, max_age, (n - 1) as nat);
        let x = n - 1;
        lemma_by_age(entries, now, max_age, (n - 1) as nat);
        if !stale(entries[x], now, max_age) {
            let instant = entries[x].modified.instant();
            let at = place(entries, rest, instant) as int;
            lemma_place(entries, rest, instant);
            assert forall|i: int|
                #[trigger] order.contains(i) <==> 0 <= i < n && !stale(entries[i], now, max_age) by {
                if order.contains(i) {
                    let k = choose|k: int| 0 <= k < order.len() && order[k] == i;
                    if k < at {
                        assert(rest[k] == i);
                        assert(rest.contains(i));
                    } else if k > at {
                        assert(rest[k - 1] == i);
                        assert(rest.contains(i));
                    }
                }
                if 0 <= i < n && !stale(entries[i], now, max_age) {
                    if i == x {
                        assert(order[at] == i);
                    } else {
                        assert(rest.contains(i));
                        let k = choose|k: int| 0 <= k < rest.len() && rest[k] == i;
                        if k < at {
                            assert(order[k] == i);
                        } else {
                            assert(order[k + 1] == i);
                        }
                    }
                }
            }
            assert forall|j: int, k: int| 0 <= j < k < order.len() implies older(
                entries,
                #[trigger] order[j],
                #[trigger] order[k],
            ) by {
                let rj = if j < at { j } else { j - 1 };
                let rk = if k < at { k } else { k - 1 };
                if j == at {
                    assert(order[k] == rest[rk]);
                    assert(rest.contains(rest[rk]));
                    if rk > at {
                        assert(older(entries, rest[at], rest[rk]));
                    }
                } else if k == at {
                    assert(order[j] == rest[rj]);
                    assert(rest.contains(rest[rj]));
                } else {
                    assert(order[j] == rest[rj] && order[k] == rest[rk]);
                    assert(older(entries, rest[rj], rest[rk]));
                }
            }
        }
    } else {
        assert forall|i: int|
            #[trigger] order.contains(i) <==> 0 <= i < n && !stale(entries[i], now, max_age) by {}
    }
}

/// The stale entries are listed in the order in which they came, each once.
pub proof fn lemma_stale_among<P>(entries: Seq<CacheEntry<P>>, now: Timestamp, max_age: TimeSpan, n: nat)
    ensures
        ({
            let gone = stale_among(entries, now, max_age, n);
            &&& forall|i: int|
                #[trigger] gone.contains(i) <==> 0 <= i < n && stale(entries[i], now, max_age)
            &&& forall|j: int, k: int|
                0 <= j < k < gone.len() ==> (#[trigger] gone[j]) < #[trigger] gone[k]
        }),
    decreases n,
{
    let gone = stale_among(entries, now, max_age, n);
    if n > 0 {
        let rest = stale_among(entries, now, max_age, (n - 1) as nat);
        lemma_stale_among(entries, now, max_age, (n - 1) as nat);
        if stale(entries[n - 1], now, max_age) {
            assert forall|i: int|
                #[trigger] gone.contains(i) <==> 0 <= i < n && stale(entries[i], now, max_age) by {
                if gone.contains(i) {
                    let k = choose|k: int| 0 <= k < gone.len() && gone[k] == i;
                    if k < rest.len() {
                        assert(rest[k] == i);
                        assert(rest.contains(i));
                    }
                }
                if 0 <= i < n && stale(entries[i], now, max_age) {
                    if i == n - 1 {
                        assert(gone[rest.len() as int] == i);
                    } else {
                        assert(rest.contains(i));
                        let k = choose|k: int| 0 <= k < rest.len() && rest[k] == i;
                        assert(gone[k] == i);
                    }
                }
            }
            assert forall|j: int, k: int| 0 <= j < k < gone.len() implies (#[trigger] gone[j])
                < #[trigger] gone[k] by {
                assert(gone[j] == rest[j]);
                assert(rest.contains(rest[j]));
                if k < rest.len() {
                    assert(gone[k] == rest[k]);
                }
            }
        }
    } else {
        assert forall|i: int|
            #[trigger] gone.contains(i) <==> 0 <= i < n && stale(entries[i], now, max_age) by {}
    }
}

proof fn lemma_evictions<P>(entries: Seq<CacheEntry<P>>, order: Seq<int>, budget: u64)
    ensures
        ({
            let n = evictions(entries, order, budget);
            &&& n <= order.len()
            &&& total_size(entries, order.skip(n as int)) <= budget
            &&& n > 0 ==> total_size(entries, order.skip(n - 1)) > budget
        }),
    decreases order.len(),
{
    let n = evictions(entries, order, budget);
    assert(order.skip(0) =~= order);
    if n > 0 {
        let rest = order.skip(1);
        lemma_evictions(entries, rest, budget);
        assert(rest.skip(n - 1) =~= order.skip(n as int));
        if n > 1 {
            assert(rest.skip(n - 2) =~= order.skip(n - 1));
        }
    }
}

/// Every entry is either removed, once, or kept.
pub proof fn lemma_prune_decides_each_entry<P>(
    entries: Seq<CacheEntry<P>>,
    now: Timestamp,
    max_age: TimeSpan,
    budget: u64,
)
    ensures
        forall|i: int|
            0 <= i < entries.len() ==> (#[trigger] doomed(entries, now, max_age, budget).contains(i)
                <==> !kept(entries, now, max_age, budget).contains(i)),
        doomed(entries, now, max_age, budget).no_duplicates(),
        kept(entries, now, max_age, budget).no_duplicates(),
{
    let order = by_age(entries, now, max_age, entries.len());
    let n = evictions(entries, order, budget) as int;
    let gone = stale_among(entries, now, max_age, entries.len());
    let all = doomed(entries, now, max_age, budget);
    let rest = kept(entries, now, max_age, budget);
    lemma_by_age(entries, now, max_age, entries.len());
    lemma_stale_among(entries, now, max_age, entries.len());
    lemma_evictions(entries, order, budget);
    assert forall|i: int| 0 <= i < entries.len() implies (#[trigger] all.contains(i)
        <==> !rest.contains(i)) by {
        if rest.contains(i) {
            let k = choose|k: int| 0 <= k < rest.len() && rest[k] == i;
            assert(order[n + k] == i);
            assert(order.contains(i));
            if all.contains(i) {
                let j = choose|j: int| 0 <= j < all.len() && all[j] == i;
                if j < gone.len() {
                    assert(gone[j] == i);
                    assert(gone.contains(i));
                } else {
                    assert(order[j - gone.len()] == i);
                    assert(older(entries, order[j - gone.len()], order[n + k]));
                }
            }
        } else if stale(entries[i], now, max_age) {
            assert(gone.contains(i));
            let j = choose|j: int| 0 <= j < gone.len() && gone[j] == i;
            assert(all[j] == i);
        } else {
            assert(order.contains(i));
            let k = choose|k: int| 0 <= k < order.len() && order[k] == i;
            if k >= n {
                assert(rest[k - n] == i);
            } else {
                assert(all[gone.len() + k] == i);
            }
        }
    }
    assert forall|j: int, k: int| 0 <= j < k < all.len() implies all[j] != all[k] by {
        if k < gone.len() {
            assert(gone[j] < gone[k]);
        } else if j >= gone.len() {
            assert(older(entries, order[j - gone.len()], order[k - gone.len()]));
        } else {
            assert(gone.contains(gone[j]));
            assert(order.contains(order[k - gone.len()]));
        }
    }
    assert forall|j: int, k: int| 0 <= j < k < rest.len() implies rest[j] != rest[k] by {
        assert(older(entries, order[n + j], order[n + k]));
    }
}

/// After pruning, nothing stale is left and what is left is within the budget.
pub proof fn lemma_prune_meets_the_limits<P>(
    entries: Seq<CacheEntry<P>>,
    now: Timestamp,
    max_age: TimeSpan,
    budget: u64,
)
    ensures
        forall|i: int|
            #[trigger] kept(entries, now, max_age, budget).contains(i) ==> 0 <= i < entries.len()
                && !stale(entries[i], now, max_age),
        total_size(entries, kept(entries, now, max_age, budget)) <= budget,
{
    let order = by_age(entries, now, max_age, entries.len());
    let n = evictions(entries, order, budget) as int;
    let rest = kept(entries, now, max_age, budget);
    lemma_by_age(entries, now, max_age, entries.len());
    lemma_evictions(entries, order, budget);
    assert forall|i: int| #[trigger] rest.contains(i) implies 0 <= i < entries.len() && !stale(
        entries[i],
        now,
        max_age,
    ) by {
        let k = choose|k: int| 0 <= k < rest.len() && rest[k] == i;
        assert(order[n + k] == i);
        assert(order.contains(i));
    }
}

/// What goes for want of room is older than everything that stays.
pub proof fn lemma_prune_evicts_the_oldest<P>(
    entries: Seq<CacheEntry<P>>,
    now: Timestamp,
    max_age: TimeSpan,
    budget: u64,
)
    ensures
        forall|a: int, b: int|
            #[trigger] doomed(entries, now, max_age, budget).contains(a) && !stale(
                entries[a],
                now,
                max_age,
            ) && #[trigger] kept(entries, now, max_age, budget).contains(b) ==> older(entries, a, b),
{
    let order = by_age(entries, now, max_age, entries.len());
    let n = evictions(entries, order, budget) as int;
    let gone = stale_among(entries, now, max_age, entries.len());
    let all = doomed(entries, now, max_age, budget);
    let rest = kept(entries, now, max_age, budget);
    lemma_by_age(entries, now, max_age, entries.len());
    lemma_stale_among(entries, now, max_age, entries.len());
    lemma_evictions(entries, order, budget);
    assert forall|a: int, b: int| #[trigger]
        all.contains(a) && !stale(entries[a], now, max_age) && #[trigger] rest.contains(
            b,
        ) implies older(entries, a, b) by {
        let j = choose|j: int| 0 <= j < all.len() && all[j] == a;
        let k = choose|k: int| 0 <= k < rest.len() && rest[k] == b;
        if j < gone.len() {
            assert(gone[j] == a);
            assert(gone.contains(a));
        }
        assert(order[j - gone.len()] == a && order[n + k] == b);
    }
}

/// No more goes than the budget asks for: where something went for want of
/// room, keeping the last of it too would have been over budget.
pub proof fn lemma_prune_stops_at_the_budget<P>(
    entries: Seq<CacheEntry<P>>,
    now: Timestamp,
    max_age: TimeSpan,
    budget: u64,
)
    ensures
        ({
            let gone = doomed(entries, now, max_age, budget);
            gone.len() > stale_among(entries, now, max_age, entries.len()).len() ==> total_size(
                entries,
                seq![gone.last()] + kept(entries, now, max_age, budget),
            ) > budget
        }),
{
    let order = by_age(entries, now, max_age, entries.len());
    let n = evictions(entries, order, budget) as int;
    let all = doomed(entries, now, max_age, budget);
    lemma_evictions(entries, order, budget);
    if n > 0 {
        assert(all.last() == order[n - 1]);
        assert(seq![all.last()] + order.skip(n) =~= order.skip(n - 1));
    }
}

/// A cache that holds nothing stale and is within the budget is left alone.
pub proof fn lemma_prune_leaves_a_small_cache_alone<P>(
    entries: Seq<CacheEntry<P>>,
    now: Timestamp,
    max_age: TimeSpan,
    budget: u64,
)
    requires
        forall|i: int| 0 <= i < entries.len() ==> !stale(#[trigger] entries[i], now, max_age),
        total_size(entries, by_age(entries, now, max_age, entries.len())) <= budget,
    ensures
        doomed(entries, now, max_age, budget).len() == 0,
{
    let gone = stale_among(entries, now, max_age, entries.len());
    lemma_stale_among(entries, now, max_age, entries.len());
    if gone.len() > 0 {
        assert(gone.contains(gone[0]));
    }
}

proof fn lemma_total_of_rearranged<P>(entries: Seq<CacheEntry<P>>, a: Seq<int>, b: Seq<int>)
    requires
        a.to_multiset() == b.to_multiset(),
    ensures
        total_size(entries, a) == total_size(entries, b),
    decreases a.len(),
{
    a.to_multiset_ensures();
    b.to_multiset_ensures();
    if a.len() > 0 {
        let x = a[0];
        assert(a.contains(x));
        assert(b.to_multiset().count(x) > 0);
        let k = choose|k: int| 0 <= k < b.len() && b[k] == x;
        assert(a.remove(0) =~= a.skip(1));
        assert(a.skip(1).to_multiset() == b.remove(k).to_multiset());
        lemma_total_of_rearranged(entries, a.skip(1), b.remove(k));
        assert(b.remove(k).insert(k, x) =~= b);
        lemma_total_insert(entries, b.remove(k), k, x);
    }
}

proof fn lemma_total_of_fresh<P>(
    entries: Seq<CacheEntry<P>>,
    positions: Seq<int>,
    left: Seq<CacheEntry<P>>,
    now: Timestamp,
    max_age: TimeSpan,
    n: nat,
)
    requires
        n <= positions.len(),
        left == Seq::new(positions.len(), |i: int| entries[positions[i]]),
        forall|i: int| 0 <= i < left.len() ==> !stale(#[trigger] left[i], now, max_age),
    ensures
        total_size(left, by_age(left, now, max_age, n)) == total_size(
            entries,
            positions.take(n as int),
        ),
    decreases n,
{
    if n > 0 {
        let m = (n - 1) as nat;
        lemma_total_of_fresh(entries, positions, left, now, max_age, m);
        lemma_total_step(left, now, max_age, m);
        assert(!stale(left[m as int], now, max_age));
        let before = positions.take(m as int);
        lemma_total_insert(entries, before, m as int, positions[m as int]);
        assert(before.insert(m as int, positions[m as int]) =~= positions.take(n as int));
    }
}

/// Pruning settles: what was kept, listed again in whatever order, has nothing
/// more to lose.
pub proof fn lemma_pruning_again_removes_nothing<P>(
    entries: Seq<CacheEntry<P>>,
    now: Timestamp,
    max_age: TimeSpan,
    budget: u64,
    listed: Seq<int>,
)
    requires
        listed.to_multiset() == kept(entries, now, max_age, budget).to_multiset(),
    ensures
        doomed(
            Seq::new(listed.len(), |i: int| entries[listed[i]]),
            now,
            max_age,
            budget,
        ).len() == 0,
{
    let rest = kept(entries, now, max_age, budget);
    let left = Seq::new(listed.len(), |i: int| entries[listed[i]]);
    lemma_prune_meets_the_limits(entries, now, max_age, budget);
    listed.to_multiset_ensures();
    rest.to_multiset_ensures();
    assert forall|i: int| 0 <= i < left.len() implies !stale(#[trigger] left[i], now, max_age) by {
        assert(listed.contains(listed[i]));
        assert(rest.to_multiset().count(listed[i]) > 0);
        assert(rest.contains(listed[i]));
    }
    lemma_total_of_fresh(entries, listed, left, now, max_age, listed.len());
    assert(listed.take(listed.len() as int) =~= listed);
    lemma_total_of_rearranged(entries, listed, rest);
    lemma_prune_leaves_a_small_cache_alone(left, now, max_age, budget);
}

/// An entry is stale once it is older than the limit by as little as one
/// nanosecond; one that is exactly as old as the limit is not, nor is one from
/// the future; and what is stale stays so as time goes on.
pub proof fn lemma_stale_boundary<P>(
    entry: CacheEntry<P>,
    now: Timestamp,
    later: Timestamp,
    max_age: TimeSpan,
)
    ensures
        stale(entry, now, max_age) <==> now.secs * 1_000_000_000 + now.nanos
            > entry.modified.secs * 1_000_000_000 + entry.modified.nanos + max_age.secs
            * 1_000_000_000 + max_age.nanos,
        entry.modified == now ==> !stale(entry, now, max_age),
        entry.modified.secs > now.secs && now.nanos < 1_000_000_000 ==> !stale(entry, now, max_age),
        stale(entry, now, max_age) && later.secs > now.secs && now.nanos < 1_000_000_000 ==> stale(
            entry,
            later,
            max_age,
        ),
{
}

/// Sizes add up entry by entry, whatever the order.
pub proof fn lemma_sizes_add_up<P>(entries: Seq<CacheEntry<P>>, a: Seq<int>, b: Seq<int>)
    ensures
        total_size(entries, a + b) == total_size(entries, a) + total_size(entries, b),
        a.len() == 1 ==> total_size(entries, a) == entries[a[0]].size_bytes,
        total_size(entries, seq![]) == 0,
    decreases a.len(),
{
    reveal_with_fuel(total_size, 2);
    let both = a + b;
    if a.len() == 0 {
        assert(both =~= b);
    } else {
        assert(both[0] == a[0]);
        assert(both.skip(1) =~= a.skip(1) + b);
        lemma_sizes_add_up(entries, a.skip(1), b);
    }
}

/// What goes, goes in order: first the stale entries as they were listed, then
/// the others from the oldest on.
pub proof fn lemma_prune_order<P>(
    entries: Seq<CacheEntry<P>>,
    now: Timestamp,
    max_age: TimeSpan,
    budget: u64,
)
    ensures
        ({
            let gone = doomed(entries, now, max_age, budget);
            forall|j: int, k: int|
                #![trigger gone[j], gone[k]]
                0 <= j < k < gone.len() ==> {
                    let first = stale(entries[gone[j]], now, max_age);
                    let second = stale(entries[gone[k]], now, max_age);
                    &&& second ==> first && gone[j] < gone[k]
                    &&& !first ==> !second && older(entries, gone[j], gone[k])
                    &&& !first ==> entries[gone[j]].modified.instant()
                        <= entries[gone[k]].modified.instant()
                    &&& !first && entries[gone[j]].modified == entries[gone[k]].modified
                        ==> gone[j] < gone[k]
                }
        }),
{
    let old_part = stale_among(entries, now, max_age, entries.len());
    let order = by_age(entries, now, max_age, entries.len());
    let n = evictions(entries, order, budget) as int;
    let gone = doomed(entries, now, max_age, budget);
    lemma_stale_among(entries, now, max_age, entries.len());
    lemma_by_age(entries, now, max_age, entries.len());
    lemma_evictions(entries, order, budget);
    let m = old_part.len() as int;
    assert forall|j: int| 0 <= j < m implies #[trigger] gone[j] == old_part[j] && stale(
        entries[gone[j]],
        now,
        max_age,
    ) by {
        assert(old_part.contains(old_part[j]));
    }
    assert forall|j: int| m <= j < gone.len() implies #[trigger] gone[j] == order[j - m] && !stale(
        entries[gone[j]],
        now,
        max_age,
    ) by {
        assert(order.contains(order[j - m]));
    }
}

/// Every stale entry goes, whatever the budget, and nothing that is not listed.
pub proof fn lemma_stale_entries_go<P>(
    entries: Seq<CacheEntry<P>>,
    now: Timestamp,
    max_age: TimeSpan,
    budget: u64,
    i: int,
)
    ensures
        0 <= i < entries.len() && stale(entries[i], now, max_age) ==> doomed(
            entries,
            now,
            max_age,
            budget,
        ).contains(i),
        doomed(entries, now, max_age, budget).contains(i) ==> 0 <= i < entries.len(),
{
    let old_part = stale_among(entries, now, max_age, entries.len());
    let order = by_age(entries, now, max_age, entries.len());
    let gone = doomed(entries, now, max_age, budget);
    lemma_stale_among(entries, now, max_age, entries.len());
    lemma_by_age(entries, now, max_age, entries.len());
    lemma_evictions(entries, order, budget);
    if 0 <= i < entries.len() && stale(entries[i], now, max_age) {
        assert(old_part.contains(i));
        let k = choose|k: int| 0 <= k < old_part.len() && old_part[k] == i;
        assert(gone[k] == i);
    }
    if gone.contains(i) {
        let k = choose|k: int| 0 <= k < gone.len() && gone[k] == i;
        if k < old_part.len() {
            assert(old_part.contains(old_part[k]));
        } else {
            assert(order.contains(order[k - old_part.len()]));
        }
    }
}

/// The limits are generous: thirty days, and a hundred mebibytes.
pub proof fn lemma_cache_limits()
    ensures
        MAX_TILE_AGE_SECS == 30 * 24 * 3600,
        MAX_CACHE_BYTES == 100 * 1024 * 1024,
{
}

/// No tile is evicted to make room while an older one stays: whatever stays was
/// modified no earlier than what went without being stale, and of two tiles of
/// one age the one listed first goes first.
pub proof fn lemma_no_older_tile_stays<P>(
    entries: Seq<CacheEntry<P>>,
    now: Timestamp,
    max_age: TimeSpan,
    budget: u64,
    gone: int,
    stays: int,
)
    requires
        0 <= gone < entries.len(),
        0 <= stays < entries.len(),
        !stale(entries[gone], now, max_age),
        doomed(entries, now, max_age, budget).contains(gone),
        !doomed(entries, now, max_age, budget).contains(stays),
    ensures
        entries[gone].modified.instant() <= entries[stays].modified.instant(),
        entries[gone].modified == entries[stays].modified ==> gone < stays,
{
    lemma_prune_decides_each_entry(entries, now, max_age, budget);
    lemma_prune_evicts_the_oldest(entries, now, max_age, budget);
    assert(kept(entries, now, max_age, budget).contains(stays));
}

} // verus!
