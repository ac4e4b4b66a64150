//! `PasteStore`: the pastes in a plain `Vec`, a global tick, and the
//! countdown LRU eviction that frees a slot when the store is full.
use vstd::prelude::*;
pub use crate::markdown::StyleStore;
use crate::render::{paste_page, render_paste_page, RenderedPage};
use crate::model::{is_random_v4, check_content, empty_content_message, is_bad_request, AppError, MimeKind, Paste, Uuid};

verus! {

/// All stored pastes, the capacity, and the global tick.
pub struct PasteStore {
    pub pastes: Vec<Paste>,
    pub max_pastes: usize,
    pub current_tick: u64,
    /// Largest accepted content of a text paste (`PlainText`, `Html`, `Markdown`), in bytes.
    pub max_paste_size: usize,
    /// Largest accepted content of an `OctetStream` paste, in bytes.
    pub max_file_size: usize,
}

// ---------------------------------------------------------------------------
// The eviction order and the countdown.
// ---------------------------------------------------------------------------

/// Paste `i` is an earlier eviction candidate than paste `j`: it was last seen
/// at an earlier tick, or at the same tick but stands later in the `Vec`.
pub open spec fn seen_before(ps: Seq<Paste>, i: int, j: int) -> bool {
    ||| ps[i].last_seen_tick < ps[j].last_seen_tick
    ||| (ps[i].last_seen_tick == ps[j].last_seen_tick && i > j)
}

/// How many full sweeps over the store a paste with `hits` hits survives
/// before a sweep counts it down to zero.
pub open spec fn sweeps_survived(hits: u32) -> int {
    if hits == 0 {
        0
    } else {
        hits - 1
    }
}

/// Paste `e` is the one that a countdown sweep over `ps` evicts: no other paste
/// survives fewer sweeps, and among those that survive as many, `e` comes first
/// in the eviction order.
pub open spec fn is_victim(ps: Seq<Paste>, e: int) -> bool {
    &&& 0 <= e < ps.len()
    &&& forall|j: int|
        #![trigger ps[j]]
        0 <= j < ps.len() && j != e ==> sweeps_survived(ps[e].hits) < sweeps_survived(ps[j].hits)
            || (sweeps_survived(ps[e].hits) == sweeps_survived(ps[j].hits) && seen_before(ps, e, j))
}

/// The hits that paste `j` is left with when `e` is evicted: one less for every
/// full sweep before `e` reached zero, and one less again if `j` was visited
/// before `e` in the last sweep.
pub open spec fn hits_after_eviction(ps: Seq<Paste>, e: int, j: int) -> int {
    ps[j].hits - sweeps_survived(ps[e].hits) - (if seen_before(ps, j, e) { 1int } else { 0int })
}

/// `a` and `b` are the same paste, whatever their hits.
pub open spec fn same_but_hits(a: Paste, b: Paste) -> bool {
    &&& a.id == b.id
    &&& a.name == b.name
    &&& a.content == b.content
    &&& a.mimetype == b.mimetype
    &&& a.last_seen_tick == b.last_seen_tick
    &&& a.file_name == b.file_name
}

/// `after` is `before` with paste `e` evicted by the countdown: `e` is gone, the
/// others keep their order, and each one's hits are counted down as the sweeps did.
pub open spec fn evicted(before: Seq<Paste>, after: Seq<Paste>, e: int) -> bool {
    &&& is_victim(before, e)
    &&& after.len() == before.len() - 1
    &&& forall|j: int|
        #![trigger after[j]]
        0 <= j < after.len() ==> {
            let o = if j < e { j } else { j + 1 };
            &&& same_but_hits(after[j], before[o])
            &&& after[j].hits == hits_after_eviction(before, e, o)
        }
}

/// The index of the first paste with id `id`, if any.
pub open spec fn first_with_id(ps: Seq<Paste>, id: Uuid, k: int) -> bool {
    &&& 0 <= k < ps.len()
    &&& ps[k].id == id
    &&& forall|j: int| 0 <= j < k ==> ps[j].id != id
}

pub open spec fn has_id(ps: Seq<Paste>, id: Uuid) -> bool {
    exists|k: int| 0 <= k < ps.len() && ps[k].id == id
}

/// Index `k` occurs in the index list `v`.
pub open spec fn listed(v: Seq<usize>, k: int) -> bool {
    v.contains(k as usize)
}

/// The stored pastes were all touched no later than the current tick.
pub open spec fn ticks_bounded(ps: Seq<Paste>, tick: u64) -> bool {
    forall|j: int| 0 <= j < ps.len() ==> #[trigger] ps[j].last_seen_tick <= tick
}

/// No two stored pastes were last seen at the same tick.
pub open spec fn ticks_distinct(ps: Seq<Paste>) -> bool {
    forall|i: int, j: int|
        0 <= i < ps.len() && 0 <= j < ps.len() && i != j ==> #[trigger] ps[i].last_seen_tick
            != #[trigger] ps[j].last_seen_tick
}

/// A view of `id` can be counted without a counter running over: the tick can
/// advance when a paste has that id, and the first such paste can take one more hit.
pub open spec fn view_allowed(s: PasteStore, id: Uuid) -> bool {
    &&& has_id(s.pastes@, id) ==> s.current_tick < u64::MAX
    &&& forall|k: int| #[trigger] first_with_id(s.pastes@, id, k) ==> s.pastes@[k].hits < u32::MAX
}

/// `p` is a paste that was just stored under a fresh random (version 4) id: no
/// hits yet, touched at `tick`.
pub open spec fn fresh_paste(
    p: Paste,
    id: Uuid,
    name: String,
    content: Vec<u8>,
    mimetype: MimeKind,
    tick: u64,
    file_name: Option<String>,
) -> bool {
    &&& p.id == id
    &&& is_random_v4(id.value)
    &&& p.name == name
    &&& p.content == content
    &&& p.mimetype == mimetype
    &&& p.hits == 0
    &&& p.last_seen_tick == tick
    &&& p.file_name == file_name
}

/// `mid` is what making room turns `before` into: one paste evicted by the
/// countdown when the store was full, nothing changed otherwise.
pub open spec fn made_room(before: Seq<Paste>, mid: Seq<Paste>, full: bool) -> bool {
    if full {
        exists|e: int| evicted(before, mid, e)
    } else {
        mid == before
    }
}

/// `after` is `before` with paste `k` viewed at `tick`: one more hit, last seen
/// at `tick`, everything else as it was.
pub open spec fn viewed(before: Seq<Paste>, after: Seq<Paste>, k: int, tick: u64) -> bool {
    &&& 0 <= k < before.len()
    &&& after.len() == before.len()
    &&& forall|j: int| 0 <= j < before.len() && j != k ==> #[trigger] after[j] == before[j]
    &&& after[k].hits == before[k].hits + 1
    &&& after[k].last_seen_tick == tick
    &&& after[k].id == before[k].id
    &&& after[k].name == before[k].name
    &&& after[k].content == before[k].content
    &&& after[k].mimetype == before[k].mimetype
    &&& after[k].file_name == before[k].file_name
}

// ---------------------------------------------------------------------------
// Counting lemmas on index lists.
// ---------------------------------------------------------------------------

proof fn lemma_remove_index<A>(s: Seq<A>, p: int, j: int)
    requires
        0 <= p < s.len(),
        0 <= j < s.len() - 1,
    ensures
        s.remove(p).len() == s.len() - 1,
        s.remove(p)[j] == (if j < p { s[j] } else { s[j + 1] }),
{
}

/// A list that holds every index below `n` has at least `n` entries.
proof fn lemma_covering_len(s: Seq<usize>, n: int)
    requires
        0 <= n <= usize::MAX,
        forall|k: int| 0 <= k < n ==> #[trigger] listed(s, k as int),
    ensures
        s.len() >= n,
    decreases n,
{
    if n > 0 {
        assert(listed(s, n - 1));
        let p = s.index_of(((n - 1) as usize));
        assert(s[p] == (n - 1) as usize);
        let t = s.remove(p);
        assert forall|k: int| 0 <= k < n - 1 implies #[trigger] listed(t, k as int) by {
            assert(listed(s, k as int));
            let q = choose|q: int| 0 <= q < s.len() && s[q] == k as usize;
            if q < p {
                lemma_remove_index(s, p, q);
                assert(t[q] == k as usize);
            } else {
                assert(q != p);
                lemma_remove_index(s, p, q - 1);
                assert(t[q - 1] == k as usize);
            }
        }
        lemma_covering_len(t, n - 1);
    }
}

/// A list of distinct indices below `n` has at most `n` entries, and with
/// exactly `n` entries it holds every index below `n`.
proof fn lemma_distinct_indices(s: Seq<usize>, n: int)
    requires
        0 <= n <= usize::MAX,
        s.no_duplicates(),
        forall|q: int| 0 <= q < s.len() ==> s[q] < n,
    ensures
        s.len() <= n,
        s.len() == n ==> forall|k: int| 0 <= k < n ==> #[trigger] listed(s, k as int),
    decreases n,
{
    if n == 0 {
        if s.len() > 0 {
            assert(s[0] < 0);
        }
    } else {
        let top = (n - 1) as usize;
        if !s.contains(top) {
            assert forall|q: int| 0 <= q < s.len() implies s[q] < n - 1 by {
                if s[q] == top {
                    assert(s.contains(top));
                }
            }
            lemma_distinct_indices(s, n - 1);
        } else {
            let p = s.index_of(top);
            assert(s[p] == top);
            let t = s.remove(p);
            assert forall|q: int| 0 <= q < t.len() implies t[q] < n - 1 by {
                lemma_remove_index(s, p, q);
                if q < p {
                    assert(s[q] != s[p]);
                } else {
                    assert(s[q + 1] != s[p]);
                }
            }
            assert(t.no_duplicates()) by {
                assert forall|a: int, b: int| 0 <= a < t.len() && 0 <= b < t.len() && a != b implies t[a]
                    != t[b] by {
                    lemma_remove_index(s, p, a);
                    lemma_remove_index(s, p, b);
                }
            }
            lemma_distinct_indices(t, n - 1);
            if s.len() == n {
                assert forall|k: int| 0 <= k < n implies #[trigger] listed(s, k as int) by {
                    if k == n - 1 {
                    } else {
                        assert(listed(t, k as int));
                        let q = choose|q: int| 0 <= q < t.len() && t[q] == k as usize;
                        lemma_remove_index(s, p, q);
                        if q < p {
                            assert(s[q] == k as usize);
                        } else {
                            assert(s[q + 1] == k as usize);
                        }
                    }
                }
            }
        }
    }
}

proof fn lemma_listed_push(s: Seq<usize>, x: usize, k: int)
    requires
        0 <= k <= usize::MAX,
    ensures
        listed(s.push(x), k) == (listed(s, k) || k == x),
{
    let t = s.push(x);
    if listed(s, k) {
        let q = choose|q: int| 0 <= q < s.len() && s[q] == k as usize;
        assert(t[q] == k as usize);
    }
    if k == x {
        assert(t[s.len() as int] == x);
    }
    if listed(t, k) {
        let q = choose|q: int| 0 <= q < t.len() && t[q] == k as usize;
        if q < s.len() {
            assert(s[q] == k as usize);
        }
    }
}

/// Whether `x` occurs in `v`.
fn contains_index(v: &Vec<usize>, x: usize) -> (b: bool)
    ensures
        b == v@.contains(x),
{
    let mut i: usize = 0;
    while i < v.len()
        invariant
            i <= v.len(),
            forall|j: int| 0 <= j < i ==> v@[j] != x,
        decreases v.len() - i,
    {
        if v[i] == x {
            assert(v@[i as int] == x);
            return true;
        }
        i += 1;
    }
    false
}

/// Making room and appending a paste at the next tick keeps every tick at or
/// below the current one, and leaves the new paste the most recently seen.
proof fn lemma_room_keeps_ticks(before: Seq<Paste>, after: Seq<Paste>, tick: u64, full: bool)
    requires
        after.len() >= 1,
        made_room(before, after.drop_last(), full),
        after[after.len() - 1].last_seen_tick == tick + 1,
    ensures
        ticks_bounded(before, tick) ==> ticks_bounded(after, (tick + 1) as u64),
        ticks_bounded(before, tick) ==> forall|j: int|
            0 <= j < after.len() - 1 ==> #[trigger] seen_before(after, j, after.len() - 1),
        ticks_bounded(before, tick) && ticks_distinct(before) ==> ticks_distinct(after),
{
    let mid = after.drop_last();
    if ticks_bounded(before, tick) {
        assert forall|j: int| 0 <= j < after.len() - 1 implies after[j].last_seen_tick <= tick by {
            assert(after[j] == mid[j]);
            if full {
                let e = choose|e: int| evicted(before, mid, e);
                let o = if j < e { j } else { j + 1 };
                assert(same_but_hits(mid[j], before[o]));
            }
        }
        if ticks_distinct(before) {
            assert forall|a: int, b: int|
                0 <= a < after.len() && 0 <= b < after.len() && a != b implies #[trigger] after[a].last_seen_tick
                    != #[trigger] after[b].last_seen_tick by {
                if a < after.len() - 1 && b < after.len() - 1 {
                    assert(after[a] == mid[a]);
                    assert(after[b] == mid[b]);
                    if full {
                        let e = choose|e: int| evicted(before, mid, e);
                        let oa = if a < e { a } else { a + 1 };
                        let ob = if b < e { b } else { b + 1 };
                        assert(same_but_hits(mid[a], before[oa]));
                        assert(same_but_hits(mid[b], before[ob]));
                    }
                }
            }
        }
    }
}

/// The index of the first paste in `pastes` whose id is `id`.
fn position_of(pastes: &Vec<Paste>, id: Uuid) -> (r: Option<usize>)
    ensures
        r matches Some(k) ==> first_with_id(pastes@, id, k as int),
        r is None ==> !has_id(pastes@, id),
{
    let mut i: usize = 0;
    while i < pastes.len()
        invariant
            i <= pastes@.len(),
            forall|j: int| 0 <= j < i ==> pastes@[j].id != id,
        decreases pastes.len() - i,
    {
        if pastes[i].id == id {
            return Some(i);
        }
        i += 1;
    }
    None
}

impl PasteStore {
    /// An empty store for at most `max_pastes` pastes, with no limit on the
    /// size of a paste's content.
    pub fn new(max_pastes: usize) -> (s: Self)
        ensures
            s.pastes@.len() == 0,
            s.max_pastes == max_pastes,
            s.current_tick == 0,
            s.max_paste_size == usize::MAX,
            s.max_file_size == usize::MAX,
    {
        PasteStore {
            pastes: Vec::new(),
            max_pastes,
            current_tick: 0,
            max_paste_size: usize::MAX,
            max_file_size: usize::MAX,
        }
    }

    /// An empty store for at most `max_pastes` pastes, whose text pastes may hold
    /// up to `max_paste_size` bytes and whose files up to `max_file_size` bytes.
    pub fn with_limits(max_pastes: usize, max_paste_size: usize, max_file_size: usize) -> (s: Self)
        ensures
            s.pastes@.len() == 0,
            s.max_pastes == max_pastes,
            s.current_tick == 0,
            s.max_paste_size == max_paste_size,
            s.max_file_size == max_file_size,
    {
        PasteStore { pastes: Vec::new(), max_pastes, current_tick: 0, max_paste_size, max_file_size }
    }

    /// Advances the global tick and returns its new value.
    pub fn get_next_tick(&mut self) -> (t: u64)
        requires
            old(self).current_tick < u64::MAX,
        ensures
            t == old(self).current_tick + 1,
            final(self).current_tick == t,
            final(self).pastes == old(self).pastes,
            final(self).max_pastes == old(self).max_pastes,
            final(self).max_paste_size == old(self).max_paste_size,
            final(self).max_file_size == old(self).max_file_size,
    {
        self.current_tick = self.current_tick + 1;
        self.current_tick
    }

    /// Whether the store holds `max_pastes` pastes or more.
    pub fn check_full_capacity(&self) -> (b: bool)
        ensures
            b == (self.pastes@.len() >= self.max_pastes),
    {
        self.pastes.len() >= self.max_pastes
    }

    /// The next eviction candidate among the pastes whose index is not in
    /// `indexes_to_skip`: the one seen longest ago, and of those seen at the
    /// same tick the one that stands last. `None` when every paste is skipped.
    pub fn find_last_seen_paste(&self, pastes: &Vec<Paste>, indexes_to_skip: &Vec<usize>) -> (r:
        Option<usize>)
        requires
            pastes@.len() > 0 || !indexes_to_skip@.contains(0),
        ensures
            pastes@.len() == 0 ==> r == Some(0usize),
            pastes@.len() > 0 ==> (r is None <==> forall|k: int|
                0 <= k < pastes@.len() ==> #[trigger] listed(indexes_to_skip@, k as int)),
            pastes@.len() > 0 ==> (r matches Some(c) ==> {
                &&& c < pastes@.len()
                &&& !indexes_to_skip@.contains(c)
                &&& forall|j: int|
                    0 <= j < pastes@.len() && j != c && !listed(indexes_to_skip@, j as int)
                        ==> seen_before(pastes@, c as int, j)
            }),
    {
        let n = pastes.len();
        let mut f: usize = 0;
        loop
            invariant
                n == pastes@.len(),
                n > 0 || !indexes_to_skip@.contains(0),
                n > 0 ==> f < n,
                n == 0 ==> f == 0,
                forall|k: int| 0 <= k < f ==> #[trigger] listed(indexes_to_skip@, k),
            ensures
                n > 0 ==> f < n,
                n == 0 ==> f == 0,
                !indexes_to_skip@.contains(f),
                forall|k: int| 0 <= k < f ==> #[trigger] listed(indexes_to_skip@, k),
            decreases n - f,
        {
            if !contains_index(indexes_to_skip, f) {
                break ;
            }
            if f >= n - 1 {
                assert forall|k: int| 0 <= k < n implies #[trigger] listed(indexes_to_skip@, k as int) by {
                    if k < f {
                    } else {
                        assert(k == f);
                    }
                }
                return None;
            }
            f = f + 1;
        }
        let mut cur = f;
        let mut i: usize = 0;
        while i < n
            invariant
                n == pastes@.len(),
                n > 0 ==> cur < n,
                n == 0 ==> cur == 0,
                !indexes_to_skip@.contains(cur),
                f <= cur,
                i <= f ==> cur == f,
                i <= n,
                forall|k: int| 0 <= k < f ==> #[trigger] listed(indexes_to_skip@, k as int),
                cur > f ==> cur < i,
                forall|j: int|
                    0 <= j < i && j != cur && !listed(indexes_to_skip@, j as int) ==> seen_before(
                        pastes@,
                        cur as int,
                        j,
                    ),
            decreases n - i,
        {
            let skip = contains_index(indexes_to_skip, i);
            assert(skip == listed(indexes_to_skip@, i as int));
            if !skip && pastes[i].last_seen_tick <= pastes[cur].last_seen_tick {
                cur = i;
            }
            i = i + 1;
        }
        assert(!listed(indexes_to_skip@, cur as int));
        Some(cur)
    }

    /// Frees one slot with the countdown LRU: pastes are visited in eviction
    /// order, each visit counts one hit down, and the first paste counted down to
    /// zero is removed; when every paste has been visited, the sweep starts over.
    /// An empty store has nothing to free.
    pub fn process_full_capacity(&mut self) -> (r: Result<bool, AppError>)
        ensures
            old(self).pastes@.len() == 0 ==> (r matches Err(AppError::NotFound)) && final(self).pastes@
                == old(self).pastes@,
            old(self).pastes@.len() > 0 ==> r == Ok::<bool, AppError>(true) && exists|e: int|
                evicted(old(self).pastes@, final(self).pastes@, e),
            final(self).max_pastes == old(self).max_pastes,
            final(self).current_tick == old(self).current_tick,
            final(self).max_paste_size == old(self).max_paste_size,
            final(self).max_file_size == old(self).max_file_size,
            ticks_bounded(old(self).pastes@, old(self).current_tick) ==> ticks_bounded(final(self).pastes@, final(self).current_tick),
            ticks_distinct(old(self).pastes@) ==> ticks_distinct(final(self).pastes@),
    {
        if self.pastes.is_empty() {
            return Err(AppError::NotFound);
        }
        let ghost ps0 = self.pastes@;
        let ghost n = ps0.len() as int;
        assert(n == self.pastes.len());
        let ghost mut round: int = 0;
        let mut indexes_to_skip: Vec<usize> = Vec::new();
        loop
            invariant
                self.pastes@.len() == n,
                n == ps0.len(),
                0 < n <= usize::MAX,
                self.max_pastes == old(self).max_pastes,
                self.current_tick == old(self).current_tick,
                self.max_paste_size == old(self).max_paste_size,
                self.max_file_size == old(self).max_file_size,
                ps0 == old(self).pastes@,
                0 <= round,
                indexes_to_skip@.no_duplicates(),
                indexes_to_skip@.len() < n,
                forall|q: int|
                    0 <= q < indexes_to_skip@.len() ==> #[trigger] indexes_to_skip@[q] < n,
                forall|j: int|
                    0 <= j < n ==> #[trigger] same_but_hits(self.pastes@[j], ps0[j]),
                forall|a: int, b: int|
                    #![trigger listed(indexes_to_skip@, a), seen_before(ps0, b, a)]
                    0 <= a < n && 0 <= b < n && listed(indexes_to_skip@, a as int) && seen_before(
                        ps0,
                        b,
                        a,
                    ) ==> listed(indexes_to_skip@, b as int),
                forall|j: int|
                    0 <= j < n ==> #[trigger] self.pastes@[j].hits == ps0[j].hits - round - (if listed(indexes_to_skip@, j) { 1int } else { 0int }),
                forall|j: int| 0 <= j < n ==> sweeps_survived(#[trigger] ps0[j].hits) >= round,
                forall|j: int|
                    0 <= j < n && listed(indexes_to_skip@, j as int) ==> sweeps_survived(
                        #[trigger] ps0[j].hits,
                    ) > round,
            decreases u32::MAX - round, n - indexes_to_skip@.len(),
        {
            proof {
                assert(sweeps_survived(ps0[0].hits) >= round);
                if forall|k: int| 0 <= k < n ==> #[trigger] listed(indexes_to_skip@, k as int) {
                    lemma_covering_len(indexes_to_skip@, n);
                }
            }
            let found = self.find_last_seen_paste(&self.pastes, &indexes_to_skip);
            let c = match found {
                Some(c) => c,
                None => {
                    return Err(AppError::FullCapacityEvictionFailed);
                },
            };
            let ghost before_step = self.pastes@;
            proof {
                assert forall|j: int| 0 <= j < n implies seen_before(self.pastes@, c as int, j) == seen_before(ps0, c as int, j) by {
                    assert(same_but_hits(self.pastes@[j], ps0[j]));
                    assert(same_but_hits(self.pastes@[c as int], ps0[c as int]));
                }
                // The skipped pastes are exactly those that come before `c`.
                assert forall|j: int| 0 <= j < n implies listed(indexes_to_skip@, j as int) == seen_before(
                    ps0,
                    j,
                    c as int,
                ) by {
                    assert(same_but_hits(self.pastes@[j], ps0[j]));
                    assert(same_but_hits(self.pastes@[c as int], ps0[c as int]));
                    if listed(indexes_to_skip@, j as int) {
                        if !seen_before(ps0, j, c as int) {
                            assert(j != c);
                            assert(seen_before(ps0, c as int, j));
                        }
                    } else if j != c {
                        assert(seen_before(self.pastes@, c as int, j));
                    }
                }
            }
            self.pastes[c].decrement_hits();
            if self.pastes[c].hits == 0 {
                proof {
                    assert(same_but_hits(before_step[c as int], ps0[c as int]));
                    assert(sweeps_survived(ps0[c as int].hits) == round);
                    assert(is_victim(ps0, c as int)) by {
                        assert forall|j: int| 0 <= j < n && j != c implies sweeps_survived(ps0[c as int].hits)
                            < sweeps_survived(ps0[j].hits) || (sweeps_survived(ps0[c as int].hits)
                            == sweeps_survived(ps0[j].hits) && seen_before(ps0, c as int, j)) by {
                            assert(same_but_hits(before_step[j], ps0[j]));
                            if listed(indexes_to_skip@, j as int) {
                            } else {
                                assert(seen_before(before_step, c as int, j));
                            }
                        }
                    }
                }
                let ghost mid = self.pastes@;
                self.pastes.remove(c);
                proof {
                    assert forall|j: int| 0 <= j < self.pastes@.len() implies {
                        let o = if j < c { j } else { j + 1 };
                        &&& same_but_hits(#[trigger] self.pastes@[j], ps0[o])
                        &&& self.pastes@[j].hits == hits_after_eviction(ps0, c as int, o)
                    } by {
                        let o = if j < c { j } else { j + 1 };
                        lemma_remove_index(mid, c as int, j);
                        assert(self.pastes@[j] == mid[o]);
                        assert(mid[o] == before_step[o]);
                        assert(same_but_hits(before_step[o], ps0[o]));
                    }
                    assert(evicted(ps0, self.pastes@, c as int));
                    if ticks_bounded(ps0, self.current_tick) {
                        assert forall|j: int| 0 <= j < self.pastes@.len() implies #[trigger] self.pastes@[j].last_seen_tick <= self.current_tick by {
                            let o = if j < c { j } else { j + 1 };
                            assert(same_but_hits(self.pastes@[j], ps0[o]));
                        }
                    }
                    if ticks_distinct(ps0) {
                        let ghost ps1 = self.pastes@;
                        assert forall|a: int, b: int|
                            0 <= a < ps1.len() && 0 <= b < ps1.len() && a != b implies #[trigger] ps1[a].last_seen_tick
                                != #[trigger] ps1[b].last_seen_tick by {
                            let oa = if a < c { a } else { a + 1 };
                            let ob = if b < c { b } else { b + 1 };
                            assert(same_but_hits(ps1[a], ps0[oa]));
                            assert(same_but_hits(ps1[b], ps0[ob]));
                        }
                    }
                }
                return Ok(true);
            } else {
                let ghost old_skip = indexes_to_skip@;
                indexes_to_skip.push(c);
                proof {
                    assert(same_but_hits(before_step[c as int], ps0[c as int]));
                    assert forall|a: int, b: int|
                        #![trigger listed(indexes_to_skip@, a), seen_before(ps0, b, a)]
                        0 <= a < n && 0 <= b < n && listed(indexes_to_skip@, a as int)
                        && seen_before(ps0, b, a) implies listed(indexes_to_skip@, b as int) by {
                        lemma_listed_push(old_skip, c, a);
                        lemma_listed_push(old_skip, c, b);
                        if a == c {
                            assert(listed(old_skip, b));
                        } else {
                            assert(listed(old_skip, a));
                        }
                    }
                    assert forall|j: int| 0 <= j < n implies listed(indexes_to_skip@, j as int) == (listed(old_skip, j as int) || j == c) by {
                        lemma_listed_push(old_skip, c, j);
                    }
                    assert(indexes_to_skip@.no_duplicates()) by {
                        assert forall|a: int, b: int| 0 <= a < indexes_to_skip@.len() && 0 <= b < indexes_to_skip@.len() && a != b
                            implies indexes_to_skip@[a] != indexes_to_skip@[b] by {
                            if a == old_skip.len() {
                                assert(old_skip.contains(indexes_to_skip@[b]) || b == a);
                            } else if b == old_skip.len() {
                                assert(old_skip.contains(indexes_to_skip@[a]));
                            }
                        }
                    }
                    lemma_distinct_indices(indexes_to_skip@, n);
                }
                if indexes_to_skip.len() >= self.pastes.len() {
                    proof {
                        assert(forall|k: int| 0 <= k < n ==> #[trigger] listed(indexes_to_skip@, k as int));
                    }
                    indexes_to_skip.clear();
                    proof {
                        round = round + 1;
                        assert forall|j: int| 0 <= j < n implies sweeps_survived(#[trigger] ps0[j].hits) >= round by {
                            assert(indexes_to_skip@.len() == 0);
                        }
                        assert(sweeps_survived(ps0[0].hits) <= u32::MAX);
                    }
                }
            }
        }
    }

    /// The limit on the content of a paste of kind `mimetype`: files
    /// (`OctetStream`) may be larger than text.
    pub fn max_content_size(&self, mimetype: &MimeKind) -> (m: usize)
        ensures
            m == (if *mimetype == MimeKind::OctetStream { self.max_file_size } else { self.max_paste_size }),
    {
        match mimetype {
            MimeKind::OctetStream => self.max_file_size,
            _ => self.max_paste_size,
        }
    }

    /// The largest request body the HTTP interface lets through before the
    /// kind of the content is known: the larger of the two content limits.
    pub fn max_body_size(&self) -> (m: usize)
        ensures
            m == (if self.max_paste_size >= self.max_file_size { self.max_paste_size } else { self.max_file_size }),
    {
        if self.max_paste_size >= self.max_file_size {
            self.max_paste_size
        } else {
            self.max_file_size
        }
    }

    /// Makes room when the store is full, then appends a new paste touched at
    /// the next tick.
    fn store_paste(
        &mut self,
        name: String,
        content: Vec<u8>,
        mimetype: MimeKind,
        file_name: Option<String>,
    ) -> (r: Result<Uuid, AppError>)
        requires
            old(self).current_tick < u64::MAX,
        ensures
            final(self).max_pastes == old(self).max_pastes,
            final(self).max_paste_size == old(self).max_paste_size,
            final(self).max_file_size == old(self).max_file_size,
            (old(self).pastes@.len() >= old(self).max_pastes && old(self).pastes@.len() == 0) ==> (r matches Err(
                AppError::NotFound,
            )) && final(self).pastes@ == old(self).pastes@ && final(self).current_tick == old(self).current_tick,
            !(old(self).pastes@.len() >= old(self).max_pastes && old(self).pastes@.len() == 0) ==> (r matches Ok(id) && {
                let n = final(self).pastes@.len();
                &&& final(self).current_tick == old(self).current_tick + 1
                &&& n >= 1
                &&& made_room(old(self).pastes@, final(self).pastes@.drop_last(), old(self).pastes@.len() >= old(self).max_pastes)
                &&& fresh_paste(final(self).pastes@[n - 1], id, name, content, mimetype, final(self).current_tick, file_name)
            }),
    {
        if self.check_full_capacity() {
            match self.process_full_capacity() {
                Err(e) => {
                    return Err(e);
                },
                Ok(_) => {},
            }
        }
        let ghost mid = self.pastes@;
        let id = Uuid::new_v4();
        let tick = self.get_next_tick();
        let paste = Paste { id, name, content, mimetype, hits: 0, last_seen_tick: tick, file_name };
        self.pastes.push(paste);
        assert(self.pastes@.drop_last() =~= mid);
        Ok(id)
    }

    /// Stores a new named paste and returns its id. When the store is full, the
    /// countdown evicts one paste first; a full store with no pastes at all (a
    /// capacity of zero) refuses with `NotFound`. The content is not checked.
    pub fn insert(&mut self, name: String, content: Vec<u8>, mimetype: MimeKind) -> (r: Result<Uuid, AppError>)
        requires
            old(self).current_tick < u64::MAX,
        ensures
            final(self).max_pastes == old(self).max_pastes,
            final(self).max_paste_size == old(self).max_paste_size,
            final(self).max_file_size == old(self).max_file_size,
            (old(self).pastes@.len() >= old(self).max_pastes && old(self).pastes@.len() == 0) ==> (r matches Err(
                AppError::NotFound,
            )) && final(self).pastes@ == old(self).pastes@ && final(self).current_tick == old(self).current_tick,
            !(old(self).pastes@.len() >= old(self).max_pastes && old(self).pastes@.len() == 0) ==> (r matches Ok(id) && {
                let n = final(self).pastes@.len();
                &&& final(self).current_tick == old(self).current_tick + 1
                &&& n >= 1
                &&& made_room(old(self).pastes@, final(self).pastes@.drop_last(), old(self).pastes@.len() >= old(self).max_pastes)
                &&& fresh_paste(final(self).pastes@[n - 1], id, name, content, mimetype, final(self).current_tick, None)
            }),
            // The store never grows past its capacity.
            old(self).pastes@.len() <= old(self).max_pastes ==> final(self).pastes@.len() <= final(self).max_pastes,
            // A store within its capacity takes the paste exactly when it has room for one.
            old(self).pastes@.len() <= old(self).max_pastes ==> (r is Ok <==> old(self).max_pastes >= 1),
            // The new paste is the most recently seen one.
            ticks_bounded(old(self).pastes@, old(self).current_tick) ==> ticks_bounded(final(self).pastes@, final(self).current_tick),
            ticks_bounded(old(self).pastes@, old(self).current_tick) && r is Ok ==> forall|j: int|
                0 <= j < final(self).pastes@.len() - 1 ==> #[trigger] seen_before(final(self).pastes@, j, final(self).pastes@.len() - 1),
            ticks_bounded(old(self).pastes@, old(self).current_tick) && ticks_distinct(old(self).pastes@) ==> ticks_distinct(final(self).pastes@),
    {
        let r = self.store_paste(name, content, mimetype, None);
        proof {
            if r is Ok {
                lemma_room_keeps_ticks(old(self).pastes@, self.pastes@, old(self).current_tick, old(self).pastes@.len() >= old(self).max_pastes);
            }
        }
        r
    }

    /// Stores a new paste from the HTTP or MCP interface and returns its id:
    /// the content must be non-empty and within the limit for its kind
    /// (`max_content_size`), else nothing changes. A file may carry its original
    /// file name. Such pastes have an empty name.
    pub fn create_paste(&mut self, content: Vec<u8>, mimetype: MimeKind, file_name: Option<String>) -> (r: Result<Uuid, AppError>)
        requires
            old(self).current_tick < u64::MAX,
        ensures
            final(self).max_pastes == old(self).max_pastes,
            final(self).max_paste_size == old(self).max_paste_size,
            final(self).max_file_size == old(self).max_file_size,
            ({
                let limit = if mimetype == MimeKind::OctetStream { old(self).max_file_size } else { old(self).max_paste_size };
                &&& content.len() > limit ==> (r matches Err(AppError::PayloadTooLarge))
                &&& content.len() <= limit && content.len() == 0 ==> is_bad_request(r, empty_content_message())
                &&& (content.len() > limit || content.len() == 0) ==> final(self).pastes@ == old(self).pastes@ && final(self).current_tick == old(self).current_tick
                &&& (content.len() <= limit && content.len() > 0 && old(self).pastes@.len() >= old(self).max_pastes && old(self).pastes@.len() == 0) ==> (r matches Err(
                    AppError::NotFound,
                )) && final(self).pastes@ == old(self).pastes@ && final(self).current_tick == old(self).current_tick
                &&& (content.len() <= limit && content.len() > 0 && !(old(self).pastes@.len() >= old(self).max_pastes && old(self).pastes@.len() == 0)) ==> (r matches Ok(id) && {
                    let n = final(self).pastes@.len();
                    &&& final(self).current_tick == old(self).current_tick + 1
                    &&& n >= 1
                    &&& made_room(old(self).pastes@, final(self).pastes@.drop_last(), old(self).pastes@.len() >= old(self).max_pastes)
                    &&& fresh_paste(final(self).pastes@[n - 1], id, final(self).pastes@[n - 1].name, content, mimetype, final(self).current_tick, file_name)
                    &&& final(self).pastes@[n - 1].name@ == Seq::<char>::empty()
                })
            }),
            old(self).pastes@.len() <= old(self).max_pastes ==> final(self).pastes@.len() <= final(self).max_pastes,
            ticks_bounded(old(self).pastes@, old(self).current_tick) ==> ticks_bounded(final(self).pastes@, final(self).current_tick),
            ticks_bounded(old(self).pastes@, old(self).current_tick) && ticks_distinct(old(self).pastes@) ==> ticks_distinct(final(self).pastes@),
    {
        let limit = self.max_content_size(&mimetype);
        match check_content(content.len(), limit) {
            Err(e) => {
                return Err(e);
            },
            Ok(()) => {},
        }
        let name = String::new();
        let r = self.store_paste(name, content, mimetype, file_name);
        proof {
            if r is Ok {
                lemma_room_keeps_ticks(old(self).pastes@, self.pastes@, old(self).current_tick, old(self).pastes@.len() >= old(self).max_pastes);
            }
        }
        r
    }

    /// Records a view of the first paste with id `uuid`: it gets the next tick
    /// and one more hit. `NotFound` when no paste has that id.
    pub fn record_view(&mut self, uuid: Uuid) -> (r: Result<&Paste, AppError>)
        requires
            view_allowed(*old(self), uuid),
        ensures
            final(self).max_pastes == old(self).max_pastes,
            final(self).max_paste_size == old(self).max_paste_size,
            final(self).max_file_size == old(self).max_file_size,
            !has_id(old(self).pastes@, uuid) ==> (r matches Err(AppError::NotFound)) && final(self).pastes@ == old(self).pastes@
                && final(self).current_tick == old(self).current_tick,
            has_id(old(self).pastes@, uuid) ==> (r matches Ok(p) && exists|k: int| {
                &&& first_with_id(old(self).pastes@, uuid, k)
                &&& final(self).current_tick == old(self).current_tick + 1
                &&& viewed(old(self).pastes@, final(self).pastes@, k, final(self).current_tick)
                &&& *p == final(self).pastes@[k]
                // The viewed paste is now the only one seen at the newest tick.
                &&& ticks_bounded(old(self).pastes@, old(self).current_tick) ==> forall|j: int|
                    0 <= j < final(self).pastes@.len() && j != k ==> #[trigger] final(self).pastes@[j].last_seen_tick
                        < final(self).current_tick
            }),
            ticks_bounded(old(self).pastes@, old(self).current_tick) ==> ticks_bounded(final(self).pastes@, final(self).current_tick),
            ticks_bounded(old(self).pastes@, old(self).current_tick) && ticks_distinct(old(self).pastes@) ==> ticks_distinct(final(self).pastes@),
    {
        let index = match position_of(&self.pastes, uuid) {
            Some(k) => k,
            None => {
                return Err(AppError::NotFound);
            },
        };
        let ghost before = self.pastes@;
        assert(before[index as int].id == uuid);
        assert(has_id(before, uuid));
        let tick = self.get_next_tick();
        self.pastes[index].update(tick);
        assert(viewed(before, self.pastes@, index as int, tick));
        proof {
            if ticks_bounded(before, (tick - 1) as u64) {
                assert forall|j: int| 0 <= j < self.pastes@.len() implies #[trigger] self.pastes@[j].last_seen_tick <= tick by {
                    if j != index {
                        assert(self.pastes@[j] == before[j]);
                    }
                }
                assert forall|j: int| 0 <= j < self.pastes@.len() && j != index implies #[trigger] self.pastes@[j].last_seen_tick
                    < tick by {
                    assert(self.pastes@[j] == before[j]);
                }
                if ticks_distinct(before) {
                    let ghost ps1 = self.pastes@;
                    assert forall|a: int, b: int|
                        0 <= a < ps1.len() && 0 <= b < ps1.len() && a != b implies #[trigger] ps1[a].last_seen_tick
                            != #[trigger] ps1[b].last_seen_tick by {
                        if a != index {
                            assert(ps1[a] == before[a]);
                        }
                        if b != index {
                            assert(ps1[b] == before[b]);
                        }
                    }
                }
            }
        }
        Ok(&self.pastes[index])
    }

    /// Whether a view of `id` can be counted without a counter running over.
    pub fn can_view(&self, id: Uuid) -> (b: bool)
        ensures
            b == view_allowed(*self, id),
    {
        match position_of(&self.pastes, id) {
            None => {
                assert forall|k: int| #[trigger] first_with_id(self.pastes@, id, k) implies self.pastes@[k].hits < u32::MAX by {
                    assert(self.pastes@[k].id == id);
                }
                true
            },
            Some(k) => {
                assert(self.pastes@[k as int].id == id);
                assert(has_id(self.pastes@, id));
                assert forall|k2: int| #[trigger] first_with_id(self.pastes@, id, k2) implies k2 == k by {
                    if k2 < k {
                        assert(self.pastes@[k2].id != id);
                    } else if k2 > k {
                        assert(self.pastes@[k as int].id != id);
                    }
                }
                self.current_tick < u64::MAX && self.pastes[k].hits < u32::MAX
            },
        }
    }

    /// Views the paste with id `id`, as opening it in a browser does: the view is
    /// recorded (`record_view`) and the page of the viewed paste is answered
    /// (`render_paste_page`). `NotFound` when no paste has that id.
    pub fn view_page(&mut self, id: Uuid, styles: &StyleStore) -> (r: Result<RenderedPage, AppError>)
        requires
            view_allowed(*old(self), id),
        ensures
            final(self).max_pastes == old(self).max_pastes,
            final(self).max_paste_size == old(self).max_paste_size,
            final(self).max_file_size == old(self).max_file_size,
            !has_id(old(self).pastes@, id) ==> (r matches Err(AppError::NotFound)) && final(self).pastes@ == old(self).pastes@
                && final(self).current_tick == old(self).current_tick,
            has_id(old(self).pastes@, id) ==> exists|k: int| {
                &&& first_with_id(old(self).pastes@, id, k)
                &&& final(self).current_tick == old(self).current_tick + 1
                &&& viewed(old(self).pastes@, final(self).pastes@, k, final(self).current_tick)
                &&& #[trigger] paste_page(*styles, final(self).pastes@[k], r)
            },
    {
        match self.record_view(id) {
            Ok(p) => render_paste_page(p, styles),
            Err(e) => Err(e),
        }
    }

    /// The first paste with id `uuid`, without counting a view.
    pub fn get(&self, uuid: Uuid) -> (r: Result<&Paste, AppError>)
        ensures
            !has_id(self.pastes@, uuid) ==> r matches Err(AppError::NotFound),
            has_id(self.pastes@, uuid) ==> (r matches Ok(p) && exists|k: int|
                first_with_id(self.pastes@, uuid, k) && *p == self.pastes@[k]),
    {
        match position_of(&self.pastes, uuid) {
            Some(k) => Ok(&self.pastes[k]),
            None => Err(AppError::NotFound),
        }
    }

}

} // verus!

verus! {

// ---------------------------------------------------------------------------
// Laws of the store.
// ---------------------------------------------------------------------------

/// The eviction order is a strict total order on the pastes of a store: no
/// paste comes before itself, of two distinct pastes exactly one comes first,
/// and the order is transitive.
pub proof fn law_eviction_order_is_total(ps: Seq<Paste>, a: int, b: int, c: int)
    requires
        0 <= a < ps.len(),
        0 <= b < ps.len(),
        0 <= c < ps.len(),
    ensures
        !seen_before(ps, a, a),
        a != b ==> (seen_before(ps, a, b) != seen_before(ps, b, a)),
        seen_before(ps, a, b) && seen_before(ps, b, c) ==> seen_before(ps, a, c),
{
}

/// The countdown evicts one well-defined paste: two pastes that both meet the
/// victim condition are the same paste.
pub proof fn law_victim_is_unique(ps: Seq<Paste>, e1: int, e2: int)
    requires
        is_victim(ps, e1),
        is_victim(ps, e2),
    ensures
        e1 == e2,
{
    if e1 != e2 {
        assert(sweeps_survived(ps[e1].hits) <= sweeps_survived(ps[e2].hits));
        assert(sweeps_survived(ps[e2].hits) <= sweeps_survived(ps[e1].hits));
        assert(seen_before(ps, e1, e2));
        assert(seen_before(ps, e2, e1));
    }
}

/// A paste that was just inserted is never the first eviction candidate while
/// other pastes are stored: whatever paste the search picks when nothing is
/// skipped, it is not the newest one.
pub proof fn law_fresh_paste_is_not_first_candidate(ps: Seq<Paste>, c: int)
    requires
        ps.len() >= 2,
        forall|j: int| 0 <= j < ps.len() - 1 ==> #[trigger] seen_before(ps, j, ps.len() - 1),
        0 <= c < ps.len(),
        forall|j: int| 0 <= j < ps.len() && j != c ==> #[trigger] seen_before(ps, c, j),
    ensures
        c != ps.len() - 1,
{
    if c == ps.len() - 1 {
        assert(seen_before(ps, 0, c));
        assert(seen_before(ps, c, 0));
    }
}

/// What a view records is what a later read finds: after paste `k`, the first
/// one with id `id`, is viewed at `tick`, the first paste with `id` is still
/// paste `k`, now with one more hit and last seen at `tick`.
pub proof fn law_view_then_get(before: Seq<Paste>, after: Seq<Paste>, id: Uuid, k: int, tick: u64)
    requires
        first_with_id(before, id, k),
        viewed(before, after, k, tick),
    ensures
        first_with_id(after, id, k),
        has_id(after, id),
        after[k].hits == before[k].hits + 1,
        after[k].last_seen_tick == tick,
        after[k].content == before[k].content,
{
    assert forall|j: int| 0 <= j < k implies after[j].id != id by {
        assert(after[j] == before[j]);
    }
}

/// What an insert stores is found again: the id that an insert returns is the
/// id of a stored paste, so a later `get` or `record_view` of it succeeds.
pub proof fn law_inserted_is_found(ps: Seq<Paste>, id: Uuid)
    requires
        ps.len() >= 1,
        ps[ps.len() - 1].id == id,
    ensures
        has_id(ps, id),
{
}

} // verus!
