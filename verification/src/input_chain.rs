//! Input action chains: recording, compressing and replaying low-level
//! input events ordered by timestamp.

use vstd::prelude::*;

verus! {

/// A button on the mouse or keyboard.
#[derive(Debug, Clone, Copy, PartialEq, Eq, Hash, Structural)]
pub enum Button {
    Left,
    Right,
    Middle,
    Key(u32),
}

/// Variants of input action.
#[derive(Debug, PartialEq)]
pub enum ActionKind {
    /// Mouse move to absolute pixel coords.
    MouseMove { x: i32, y: i32 },
    /// Button press.
    Down(Button),
    /// Button release.
    Up(Button),
    /// Vertical scroll by `delta` lines (negative = up).
    Scroll { delta: i32 },
    /// Text input: a typed UTF-8 string.
    TypeText(String),
}

/// A single low-level input action.
#[derive(Debug, PartialEq)]
pub struct InputAction {
    /// Action variant.
    pub kind: ActionKind,
    /// Monotonic timestamp (ms since chain start).
    pub ts_ms: u64,
}

/// `a - b`, or 0 when `b > a`.
pub open spec fn sat_sub(a: u64, b: u64) -> u64 {
    if a >= b { (a - b) as u64 } else { 0 }
}

/// Timestamps never decrease along `s`.
pub open spec fn ts_sorted(s: Seq<InputAction>) -> bool {
    forall|i: int, j: int| 0 <= i <= j < s.len() ==> s[i].ts_ms <= s[j].ts_ms
}

/// Predicate: the action carries timestamp `k`.
pub open spec fn has_ts(k: u64) -> spec_fn(InputAction) -> bool {
    |a: InputAction| a.ts_ms == k
}

/// `out` is `inp` sorted stably by timestamp: `out` is ordered by `ts_ms`,
/// and for every timestamp the actions that carry it occur in `out` in the
/// same order as in `inp`. This pins `out` down uniquely.
pub open spec fn stable_sorted_by_ts(out: Seq<InputAction>, inp: Seq<InputAction>) -> bool {
    &&& out.len() == inp.len()
    &&& out.to_multiset() == inp.to_multiset()
    &&& ts_sorted(out)
    &&& forall|k: u64| #[trigger] out.filter(has_ts(k)) == inp.filter(has_ts(k))
}

/// A filter keeps nothing of a sequence none of whose elements satisfies it.
proof fn lemma_filter_none<A>(s: Seq<A>, p: spec_fn(A) -> bool)
    requires
        forall|i: int| 0 <= i < s.len() ==> !p(#[trigger] s[i]),
    ensures
        s.filter(p) == Seq::<A>::empty(),
    decreases s.len(),
{
    reveal(Seq::filter);
    if s.len() > 0 {
        lemma_filter_none(s.drop_last(), p);
    }
}

/// Filtering a one-element sequence.
proof fn lemma_filter_single<A>(x: A, p: spec_fn(A) -> bool)
    ensures
        seq![x].filter(p) == (if p(x) { seq![x] } else { Seq::<A>::empty() }),
{
    reveal(Seq::filter);
    assert(seq![x].drop_last() =~= Seq::<A>::empty());
    lemma_filter_none(Seq::<A>::empty(), p);
}

/// Inserting `x` into a sorted sequence just before the first element whose
/// timestamp is not below that of `x` keeps it sorted, and puts `x` in front
/// of every other action with the same timestamp.
proof fn lemma_insert_by_ts(s: Seq<InputAction>, x: InputAction, j: int)
    requires
        ts_sorted(s),
        0 <= j <= s.len(),
        forall|i: int| 0 <= i < j ==> #[trigger] s[i].ts_ms < x.ts_ms,
        j < s.len() ==> x.ts_ms <= s[j].ts_ms,
    ensures
        ts_sorted(s.insert(j, x)),
        forall|k: u64|
            #[trigger] s.insert(j, x).filter(has_ts(k)) == seq![x].filter(has_ts(k)) + s.filter(
                has_ts(k),
            ),
{
    let t = s.insert(j, x);
    let a = s.subrange(0, j);
    let b = s.subrange(j, s.len() as int);
    assert(t =~= a + seq![x] + b);
    assert(s =~= a + b);
    assert forall|k: u64|
        #[trigger] s.insert(j, x).filter(has_ts(k)) == seq![x].filter(has_ts(k)) + s.filter(
            has_ts(k),
        ) by {
        let p = has_ts(k);
        Seq::filter_distributes_over_add(a + seq![x], b, p);
        Seq::filter_distributes_over_add(a, seq![x], p);
        Seq::filter_distributes_over_add(a, b, p);
        lemma_filter_single(x, p);
        if k == x.ts_ms {
            assert forall|i: int| 0 <= i < a.len() implies !p(#[trigger] a[i]) by {
                assert(s[i].ts_ms < x.ts_ms);
            }
            lemma_filter_none(a, p);
            assert(a.filter(p) + seq![x] + b.filter(p) =~= seq![x] + (a.filter(p) + b.filter(p)));
        } else {
            assert(a.filter(p) + Seq::<InputAction>::empty() =~= a.filter(p));
            assert(Seq::<InputAction>::empty() + (a.filter(p) + b.filter(p)) =~= a.filter(p)
                + b.filter(p));
        }
    }
    assert forall|p: int, q: int| 0 <= p <= q < t.len() implies t[p].ts_ms <= t[q].ts_ms by {
        if p < j && q > j {
            assert(t[q] == s[q - 1]);
        }
    }
}

/// Sorts `v` stably by timestamp (insertion sort; moves, never copies).
fn sort_by_ts(v: Vec<InputAction>) -> (out: Vec<InputAction>)
    ensures
        stable_sorted_by_ts(out@, v@),
{
    let ghost orig = v@;
    let mut rest = v;
    let mut sorted: Vec<InputAction> = Vec::new();
    proof {
        assert(sorted@.to_multiset().add(rest@.to_multiset()) =~= orig.to_multiset()) by {
            broadcast use vstd::multiset::group_multiset_axioms;
            broadcast use vstd::seq_lib::group_to_multiset_ensures;

            assert(sorted@.to_multiset().len() == 0);
        }
        assert forall|k: u64| #[trigger] sorted@.filter(has_ts(k)) == orig.subrange(
            orig.len() as int,
            orig.len() as int,
        ).filter(has_ts(k)) by {
            lemma_filter_none(sorted@, has_ts(k));
            lemma_filter_none(orig.subrange(orig.len() as int, orig.len() as int), has_ts(k));
        }
    }
    while rest.len() > 0
        invariant
            rest@ == orig.subrange(0, rest.len() as int),
            rest.len() <= orig.len(),
            ts_sorted(sorted@),
            sorted@.len() + rest@.len() == orig.len(),
            sorted@.to_multiset().add(rest@.to_multiset()) == orig.to_multiset(),
            forall|k: u64| #[trigger]
                sorted@.filter(has_ts(k)) == orig.subrange(rest.len() as int, orig.len() as int).filter(
                    has_ts(k),
                ),
        decreases rest.len(),
    {
        let ghost r = rest.len() as int;
        let ghost before = rest@;
        let x = rest.pop().unwrap();
        let mut j: usize = 0;
        while j < sorted.len() && sorted[j].ts_ms < x.ts_ms
            invariant
                j <= sorted.len(),
                forall|i: int| 0 <= i < j ==> #[trigger] sorted@[i].ts_ms < x.ts_ms,
            decreases sorted.len() - j,
        {
            j = j + 1;
        }
        proof {
            lemma_insert_by_ts(sorted@, x, j as int);
            assert(orig.subrange(r - 1, orig.len() as int) =~= seq![x] + orig.subrange(r, orig.len() as int));
            assert forall|k: u64| #[trigger]
                sorted@.insert(j as int, x).filter(has_ts(k)) == orig.subrange(r - 1, orig.len() as int).filter(
                    has_ts(k),
                ) by {
                Seq::filter_distributes_over_add(seq![x], orig.subrange(r, orig.len() as int), has_ts(k));
            }
        }
        let ghost s0 = sorted@;
        sorted.insert(j, x);
        proof {
            assert(before =~= rest@.push(x));
            vstd::seq_lib::to_multiset_build(rest@, x);
            vstd::seq_lib::to_multiset_insert(s0, j as int, x);
            assert(sorted@.to_multiset().add(rest@.to_multiset()) =~= orig.to_multiset()) by {
                broadcast use vstd::multiset::group_multiset_axioms;
            }
        }
    }
    proof {
        assert(orig.subrange(0, orig.len() as int) =~= orig);
        assert(sorted@.to_multiset() =~= orig.to_multiset()) by {
            broadcast use vstd::multiset::group_multiset_axioms;
            broadcast use vstd::seq_lib::group_to_multiset_ensures;
        }
    }
    sorted
}

impl Clone for ActionKind {
    fn clone(&self) -> (r: Self)
        ensures
            r == *self,
    {
        match self {
            ActionKind::MouseMove { x, y } => ActionKind::MouseMove { x: *x, y: *y },
            ActionKind::Down(b) => ActionKind::Down(*b),
            ActionKind::Up(b) => ActionKind::Up(*b),
            ActionKind::Scroll { delta } => ActionKind::Scroll { delta: *delta },
            ActionKind::TypeText(t) => ActionKind::TypeText(t.clone()),
        }
    }
}

impl Clone for InputAction {
    fn clone(&self) -> (r: Self)
        ensures
            r == *self,
    {
        InputAction { kind: self.kind.clone(), ts_ms: self.ts_ms }
    }
}

impl InputAction {
    pub fn new(kind: ActionKind, ts_ms: u64) -> (r: Self)
        ensures
            r.kind == kind,
            r.ts_ms == ts_ms,
    {
        InputAction { kind, ts_ms }
    }

    /// Milliseconds gap between this action and the previous one.
    pub fn gap_after_prev(&self, prev_ts: u64) -> (gap: u64)
        ensures
            gap == sat_sub(self.ts_ms, prev_ts),
    {
        self.ts_ms.saturating_sub(prev_ts)
    }
}

/// A recorded chain of input actions.
#[derive(Debug, PartialEq)]
pub struct Chain {
    /// Actions ordered by `ts_ms` ascending.
    pub actions: Vec<InputAction>,
}

/// What `Chain::record` makes of `actions` and a new `action`: the action is
/// appended, and when it is older than the one before it the whole chain is
/// sorted stably by timestamp.
pub open spec fn recorded(out: Seq<InputAction>, actions: Seq<InputAction>, action: InputAction) -> bool {
    let pushed = actions.push(action);
    let n = pushed.len();
    if n > 1 && pushed[n - 1].ts_ms < pushed[n - 2].ts_ms {
        stable_sorted_by_ts(out, pushed)
    } else {
        out == pushed
    }
}

/// Recording one more action into a chain that holds the actions recorded
/// so far, stably sorted by timestamp, gives those actions plus the new
/// one, stably sorted by timestamp.
pub proof fn lemma_record_step(
    c: Seq<InputAction>,
    acts: Seq<InputAction>,
    a: InputAction,
    c2: Seq<InputAction>,
)
    requires
        stable_sorted_by_ts(c, acts),
        recorded(c2, c, a),
    ensures
        stable_sorted_by_ts(c2, acts.push(a)),
{
    broadcast use vstd::seq_lib::group_to_multiset_ensures;

    let pushed = c.push(a);
    let n = pushed.len();
    assert forall|k: u64| #[trigger] pushed.filter(has_ts(k)) == acts.push(a).filter(has_ts(k)) by {
        c.lemma_filter_push(a, has_ts(k));
        acts.lemma_filter_push(a, has_ts(k));
        assert(c.filter(has_ts(k)) == acts.filter(has_ts(k)));
    }
    assert(pushed.to_multiset() == acts.push(a).to_multiset());
    if !(n > 1 && pushed[n - 1].ts_ms < pushed[n - 2].ts_ms) {
        assert forall|i: int, j: int| 0 <= i <= j < pushed.len() implies pushed[i].ts_ms
            <= pushed[j].ts_ms by {
            if j == n - 1 && i < j {
                assert(c[i].ts_ms <= c[n - 2].ts_ms);
            } else if j < n - 1 {
                assert(pushed[i] == c[i] && pushed[j] == c[j]);
            }
        }
    } else {
        assert forall|k: u64| #[trigger] c2.filter(has_ts(k)) == acts.push(a).filter(has_ts(k)) by {
            assert(c2.filter(has_ts(k)) == pushed.filter(has_ts(k)));
        }
    }
}

/// Whatever actions are recorded, one after another, into a new chain,
/// the chain then holds exactly those actions (one per record call, so
/// `len()` is their number), sorted by timestamp, with actions of equal
/// timestamp in the order they were recorded. `states[i]` is the chain
/// after the first `i` records.
pub proof fn lemma_records_from_empty(states: Seq<Seq<InputAction>>, acts: Seq<InputAction>)
    requires
        states.len() == acts.len() + 1,
        states[0] == Seq::<InputAction>::empty(),
        forall|i: int| 0 <= i < acts.len() ==> recorded(#[trigger] states[i + 1], states[i], acts[i]),
    ensures
        stable_sorted_by_ts(states.last(), acts),
        states.last().len() == acts.len(),
    decreases acts.len(),
{
    if acts.len() == 0 {
        let e = Seq::<InputAction>::empty();
        assert(states.last() == e);
        assert forall|k: u64| #[trigger] e.filter(has_ts(k)) == acts.filter(has_ts(k)) by {
            assert(acts =~= e);
        }
        assert(acts =~= e);
    } else {
        let m = acts.len() - 1;
        let s0 = states.drop_last();
        let a0 = acts.drop_last();
        assert forall|i: int| 0 <= i < a0.len() implies recorded(#[trigger] s0[i + 1], s0[i], a0[i]) by {
            assert(s0[i + 1] == states[i + 1]);
            assert(recorded(states[i + 1], states[i], acts[i]));
        }
        lemma_records_from_empty(s0, a0);
        assert(recorded(states[m + 1], states[m], acts[m]));
        lemma_record_step(states[m], a0, acts[m], states[m + 1]);
        assert(a0.push(acts[m]) =~= acts);
    }
}

/// Milliseconds from the first to the last action (0 when empty).
pub open spec fn span_ms(s: Seq<InputAction>) -> u64 {
    if s.len() == 0 { 0 } else { sat_sub(s.last().ts_ms, s.first().ts_ms) }
}

/// The action is a mouse move.
pub open spec fn is_move(a: InputAction) -> bool {
    a.kind is MouseMove
}

/// Predicate: the action is not a mouse move.
pub open spec fn not_move() -> spec_fn(InputAction) -> bool {
    |a: InputAction| !is_move(a)
}

/// `a` continues a burst ending in `prev`: both are mouse moves and `a`
/// comes at most `threshold_ms` after `prev`.
pub open spec fn coalesces(prev: InputAction, a: InputAction, threshold_ms: u64) -> bool {
    is_move(prev) && is_move(a) && sat_sub(a.ts_ms, prev.ts_ms) <= threshold_ms
}

/// One step of compression: `a` replaces the last kept action when it
/// continues its burst, and is appended otherwise.
pub open spec fn compress_step(kept: Seq<InputAction>, a: InputAction, threshold_ms: u64) -> Seq<InputAction> {
    if kept.len() > 0 && coalesces(kept.last(), a, threshold_ms) {
        kept.drop_last().push(a)
    } else {
        kept.push(a)
    }
}

/// The chain `s` with each burst of mouse moves reduced to its last move.
pub open spec fn compressed(s: Seq<InputAction>, threshold_ms: u64) -> Seq<InputAction>
    decreases s.len(),
{
    if s.len() == 0 {
        Seq::empty()
    } else {
        compress_step(compressed(s.drop_last(), threshold_ms), s.last(), threshold_ms)
    }
}

/// No two neighbours of `s` belong to one burst.
pub open spec fn burst_free(s: Seq<InputAction>, threshold_ms: u64) -> bool {
    forall|i: int| 0 < i < s.len() ==> !coalesces(#[trigger] s[i - 1], s[i], threshold_ms)
}

/// Compressing never lengthens a chain.
pub proof fn lemma_compress_never_grows(s: Seq<InputAction>, threshold_ms: u64)
    ensures
        compressed(s, threshold_ms).len() <= s.len(),
    decreases s.len(),
{
    if s.len() > 0 {
        lemma_compress_never_grows(s.drop_last(), threshold_ms);
    }
}

/// Compression keeps every action that is not a mouse move, in order.
pub proof fn lemma_compress_keeps_non_moves(s: Seq<InputAction>, threshold_ms: u64)
    ensures
        compressed(s, threshold_ms).filter(not_move()) == s.filter(not_move()),
    decreases s.len(),
{
    let p = not_move();
    if s.len() == 0 {
        lemma_filter_none(compressed(s, threshold_ms), p);
        lemma_filter_none(s, p);
    } else {
        let d = s.drop_last();
        let a = s.last();
        let c = compressed(d, threshold_ms);
        lemma_compress_keeps_non_moves(d, threshold_ms);
        assert(s =~= d.push(a));
        d.lemma_filter_push(a, p);
        if c.len() > 0 && coalesces(c.last(), a, threshold_ms) {
            assert(c =~= c.drop_last().push(c.last()));
            c.drop_last().lemma_filter_push(c.last(), p);
            c.drop_last().lemma_filter_push(a, p);
        } else {
            c.lemma_filter_push(a, p);
        }
    }
}

/// A chain without bursts is left as it is by compression.
proof fn lemma_burst_free_is_fixed(c: Seq<InputAction>, threshold_ms: u64)
    requires
        burst_free(c, threshold_ms),
    ensures
        compressed(c, threshold_ms) == c,
    decreases c.len(),
{
    if c.len() > 0 {
        let d = c.drop_last();
        assert(burst_free(d, threshold_ms)) by {
            assert forall|i: int| 0 < i < d.len() implies !coalesces(
                #[trigger] d[i - 1],
                d[i],
                threshold_ms,
            ) by {
                assert(d[i - 1] == c[i - 1]);
                assert(d[i] == c[i]);
            }
        }
        lemma_burst_free_is_fixed(d, threshold_ms);
        if d.len() > 0 {
            assert(d.last() == c[c.len() - 2]);
            assert(!coalesces(c[c.len() - 1 - 1], c[c.len() - 1], threshold_ms));
        }
        assert(d.push(c.last()) =~= c);
    }
}

/// On a chain sorted by timestamp, compression yields a sorted chain without
/// bursts that ends with the chain's last action.
pub proof fn lemma_compress_sorted(s: Seq<InputAction>, threshold_ms: u64)
    requires
        ts_sorted(s),
    ensures
        ts_sorted(compressed(s, threshold_ms)),
        burst_free(compressed(s, threshold_ms), threshold_ms),
        s.len() == 0 ==> compressed(s, threshold_ms).len() == 0,
        s.len() > 0 ==> compressed(s, threshold_ms).len() > 0 && compressed(s, threshold_ms).last()
            == s.last(),
    decreases s.len(),
{
    if s.len() > 0 {
        let d = s.drop_last();
        let a = s.last();
        assert(ts_sorted(d));
        lemma_compress_sorted(d, threshold_ms);
        let c = compressed(d, threshold_ms);
        let r = compressed(s, threshold_ms);
        if c.len() > 0 {
            assert(c.last() == d.last());
            assert(d.last().ts_ms <= a.ts_ms);
        }
        if c.len() > 0 && coalesces(c.last(), a, threshold_ms) {
            assert(r =~= c.drop_last().push(a));
            assert forall|i: int, j: int| 0 <= i <= j < r.len() implies r[i].ts_ms <= r[j].ts_ms by {
                if j == r.len() - 1 {
                    assert(c[i].ts_ms <= c[c.len() - 1].ts_ms);
                } else {
                    assert(r[i] == c[i] && r[j] == c[j]);
                }
            }
            assert forall|i: int| 0 < i < r.len() implies !coalesces(
                #[trigger] r[i - 1],
                r[i],
                threshold_ms,
            ) by {
                if i == r.len() - 1 {
                    assert(r[i - 1] == c[i - 1]);
                    assert(!coalesces(c[i - 1], c[i], threshold_ms));
                } else {
                    assert(r[i - 1] == c[i - 1] && r[i] == c[i]);
                }
            }
        } else {
            assert(r =~= c.push(a));
            assert forall|i: int, j: int| 0 <= i <= j < r.len() implies r[i].ts_ms <= r[j].ts_ms by {
                if j == r.len() - 1 && i < j {
                    assert(c[i].ts_ms <= c[c.len() - 1].ts_ms);
                } else if j < r.len() - 1 {
                    assert(r[i] == c[i] && r[j] == c[j]);
                }
            }
            assert forall|i: int| 0 < i < r.len() implies !coalesces(
                #[trigger] r[i - 1],
                r[i],
                threshold_ms,
            ) by {
                if i < r.len() - 1 {
                    assert(r[i - 1] == c[i - 1] && r[i] == c[i]);
                }
            }
        }
    }
}

/// On a chain sorted by timestamp, compression is sorted and idempotent:
/// compressing a second time changes nothing.
pub proof fn lemma_compress_idempotent(s: Seq<InputAction>, threshold_ms: u64)
    requires
        ts_sorted(s),
    ensures
        ts_sorted(compressed(s, threshold_ms)),
        compressed(compressed(s, threshold_ms), threshold_ms) == compressed(s, threshold_ms),
{
    lemma_compress_sorted(s, threshold_ms);
    lemma_burst_free_is_fixed(compressed(s, threshold_ms), threshold_ms);
}

/// The gap `Chain::replay` yields before the `i`-th action: 0 for the
/// first, otherwise the (saturating) time since the action before it.
pub open spec fn replay_gap(s: Seq<InputAction>, i: int) -> u64 {
    if i == 0 { 0 } else { sat_sub(s[i].ts_ms, s[i - 1].ts_ms) }
}

/// Sum of the first `m` replay gaps of `s`.
pub open spec fn gap_total(s: Seq<InputAction>, m: int) -> int
    decreases m,
{
    if m <= 0 { 0 } else { gap_total(s, m - 1) + replay_gap(s, m - 1) }
}

/// On a chain sorted by timestamp, the replay gaps add up to the chain's
/// duration: replaying with the recorded gaps takes exactly `duration_ms`.
pub proof fn lemma_replay_gaps_sum_to_duration(s: Seq<InputAction>)
    requires
        ts_sorted(s),
    ensures
        gap_total(s, s.len() as int) == span_ms(s),
{
    if s.len() > 0 {
        lemma_gap_prefix(s, s.len() as int);
    }
}

proof fn lemma_gap_prefix(s: Seq<InputAction>, m: int)
    requires
        ts_sorted(s),
        1 <= m <= s.len(),
    ensures
        gap_total(s, m) == s[m - 1].ts_ms - s[0].ts_ms,
    decreases m,
{
    reveal_with_fuel(gap_total, 2);
    if m > 1 {
        lemma_gap_prefix(s, m - 1);
        assert(s[m - 2].ts_ms <= s[m - 1].ts_ms);
    }
}

/// The actions of `s` whose flag in `keep` is set, in order.
pub open spec fn kept_where(s: Seq<InputAction>, keep: Seq<bool>) -> Seq<InputAction>
    decreases s.len(),
{
    if s.len() == 0 || keep.len() == 0 {
        Seq::empty()
    } else {
        let rest = kept_where(s.drop_last(), keep.drop_last());
        if keep.last() { rest.push(s.last()) } else { rest }
    }
}

/// Filtering keeps a subset: never more actions than the chain has, and
/// only actions of the chain.
pub proof fn lemma_kept_where_subset(s: Seq<InputAction>, keep: Seq<bool>)
    ensures
        kept_where(s, keep).len() <= s.len(),
        forall|x: InputAction| #[trigger] kept_where(s, keep).contains(x) ==> s.contains(x),
    decreases s.len(),
{
    if s.len() > 0 && keep.len() > 0 {
        let d = s.drop_last();
        lemma_kept_where_subset(d, keep.drop_last());
        let rest = kept_where(d, keep.drop_last());
        assert forall|x: InputAction| #[trigger] kept_where(s, keep).contains(x) implies s.contains(
            x,
        ) by {
            let k = kept_where(s, keep);
            let i = choose|i: int| 0 <= i < k.len() && k[i] == x;
            if i < rest.len() {
                assert(rest[i] == x);
                assert(rest.contains(x));
                let j = choose|j: int| 0 <= j < d.len() && d[j] == x;
                assert(s[j] == x);
            } else {
                assert(s[s.len() - 1] == x);
            }
        }
    }
}

/// Filtering a chain sorted by timestamp gives a sorted chain.
pub proof fn lemma_kept_where_sorted(s: Seq<InputAction>, keep: Seq<bool>)
    requires
        ts_sorted(s),
    ensures
        ts_sorted(kept_where(s, keep)),
    decreases s.len(),
{
    if s.len() > 0 && keep.len() > 0 {
        let d = s.drop_last();
        assert(ts_sorted(d));
        lemma_kept_where_sorted(d, keep.drop_last());
        lemma_kept_where_subset(d, keep.drop_last());
        let rest = kept_where(d, keep.drop_last());
        if keep.last() {
            let k = rest.push(s.last());
            assert forall|i: int, j: int| 0 <= i <= j < k.len() implies k[i].ts_ms <= k[j].ts_ms by {
                if j == k.len() - 1 && i < j {
                    assert(rest.contains(rest[i]));
                    let q = choose|q: int| 0 <= q < d.len() && d[q] == rest[i];
                    assert(s[q] == rest[i]);
                } else if j < k.len() - 1 {
                    assert(k[i] == rest[i] && k[j] == rest[j]);
                }
            }
        }
    }
}

/// The text typed by the `TypeText` actions of `s`, concatenated.
pub open spec fn typed(s: Seq<InputAction>) -> Seq<char>
    decreases s.len(),
{
    if s.len() == 0 {
        Seq::empty()
    } else {
        typed(s.drop_last()) + match s.last().kind {
            ActionKind::TypeText(t) => t@,
            _ => Seq::<char>::empty(),
        }
    }
}

/// Typing is concatenation: a chain without actions types nothing; one
/// more action adds exactly its payload when it is `TypeText` (whatever
/// came before it) and nothing otherwise.
pub proof fn lemma_typed_step(s: Seq<InputAction>, a: InputAction)
    ensures
        typed(Seq::<InputAction>::empty()) == Seq::<char>::empty(),
        a.kind matches ActionKind::TypeText(t) ==> typed(s.push(a)) == typed(s) + t@,
        !(a.kind is TypeText) ==> typed(s.push(a)) == typed(s),
        typed(s.push(a)).len() == typed(s).len() + match a.kind {
            ActionKind::TypeText(t) => t@.len(),
            _ => 0,
        },
{
    assert(s.push(a).drop_last() =~= s);
    assert(typed(s) + Seq::<char>::empty() =~= typed(s));
}

/// The text typed by two chains, one after the other, is the text of the
/// first followed by the text of the second.
pub proof fn lemma_typed_concat(s1: Seq<InputAction>, s2: Seq<InputAction>)
    ensures
        typed(s1 + s2) == typed(s1) + typed(s2),
    decreases s2.len(),
{
    if s2.len() == 0 {
        assert(s1 + s2 =~= s1);
        assert(typed(s1) + Seq::<char>::empty() =~= typed(s1));
    } else {
        let d = s2.drop_last();
        let a = s2.last();
        lemma_typed_concat(s1, d);
        assert(s1 + s2 =~= (s1 + d).push(a));
        assert(s2 =~= d.push(a));
        lemma_typed_step(s1 + d, a);
        lemma_typed_step(d, a);
        match a.kind {
            ActionKind::TypeText(t) => {
                assert(typed(s1) + typed(d) + t@ =~= typed(s1) + (typed(d) + t@));
            },
            _ => {},
        }
    }
}

/// Filtering step by step: the first action is kept exactly when its flag
/// is set, and each further action is appended exactly when its flag is.
pub proof fn lemma_kept_where_step(s: Seq<InputAction>, keep: Seq<bool>, a: InputAction, b: bool)
    requires
        s.len() == keep.len(),
    ensures
        kept_where(Seq::<InputAction>::empty(), Seq::<bool>::empty()) == Seq::<InputAction>::empty(),
        kept_where(s.push(a), keep.push(b)) == if b {
            kept_where(s, keep).push(a)
        } else {
            kept_where(s, keep)
        },
{
    assert(s.push(a).drop_last() =~= s);
    assert(keep.push(b).drop_last() =~= keep);
}

/// Compression step by step: a mouse move that follows a kept mouse move
/// by at most the threshold (saturating difference) takes that move's
/// place; any other action is appended after what was kept.
pub proof fn lemma_compress_step_rule(s: Seq<InputAction>, a: InputAction, threshold_ms: u64)
    ensures
        compressed(Seq::<InputAction>::empty(), threshold_ms) == Seq::<InputAction>::empty(),
        ({
            let c = compressed(s, threshold_ms);
            let joins = c.len() > 0 && c.last().kind is MouseMove && a.kind is MouseMove && (if a.ts_ms
                >= c.last().ts_ms {
                a.ts_ms - c.last().ts_ms
            } else {
                0
            }) <= threshold_ms;
            compressed(s.push(a), threshold_ms) == if joins {
                c.drop_last().push(a)
            } else {
                c.push(a)
            }
        }),
{
    assert(s.push(a).drop_last() =~= s);
}

/// The replay gap of each action: 0 for the first, the time since the one
/// before it for the others, and 0 when that one is later.
pub proof fn lemma_replay_gap_rule(s: Seq<InputAction>, i: int)
    requires
        0 <= i < s.len(),
    ensures
        i == 0 ==> replay_gap(s, i) == 0,
        i > 0 && s[i].ts_ms >= s[i - 1].ts_ms ==> replay_gap(s, i) == s[i].ts_ms - s[i - 1].ts_ms,
        i > 0 && s[i].ts_ms < s[i - 1].ts_ms ==> replay_gap(s, i) == 0,
{
}

/// Saturating difference: `a - b` when `b <= a`, else 0.
pub proof fn lemma_sat_sub_rule(a: u64, b: u64)
    ensures
        b <= a ==> sat_sub(a, b) + b == a,
        a < b ==> sat_sub(a, b) == 0,
{
}

/// The span of a chain: 0 with no actions, otherwise the time from its
/// first to its last action, or 0 when the last is earlier than the first.
pub proof fn lemma_span_rule(s: Seq<InputAction>)
    ensures
        s.len() == 0 ==> span_ms(s) == 0,
        s.len() > 0 && s[0].ts_ms <= s[s.len() - 1].ts_ms ==> span_ms(s) == s[s.len() - 1].ts_ms
            - s[0].ts_ms,
        s.len() > 0 && s[s.len() - 1].ts_ms < s[0].ts_ms ==> span_ms(s) == 0,
{
}

fn is_mouse_move(a: &InputAction) -> (b: bool)
    ensures
        b == is_move(*a),
{
    match a.kind {
        ActionKind::MouseMove { .. } => true,
        _ => false,
    }
}

impl Clone for Chain {
    fn clone(&self) -> (c: Self)
        ensures
            c.actions@ == self.actions@,
    {
        let mut actions: Vec<InputAction> = Vec::new();
        for i in 0..self.actions.len()
            invariant
                actions@ == self.actions@.subrange(0, i as int),
        {
            actions.push(self.actions[i].clone());
            assert(actions@ =~= self.actions@.subrange(0, i + 1));
        }
        assert(actions@ =~= self.actions@);
        Chain { actions }
    }
}

impl Default for Chain {
    fn default() -> (c: Self)
        ensures
            c.actions@ == Seq::<InputAction>::empty(),
    {
        Chain { actions: Vec::new() }
    }
}

impl Chain {
    pub fn new() -> (c: Self)
        ensures
            c.actions@ == Seq::<InputAction>::empty(),
    {
        Chain { actions: Vec::new() }
    }

    /// Record an action at the given timestamp.
    pub fn record(&mut self, action: InputAction)
        ensures
            recorded(final(self).actions@, old(self).actions@, action),
            final(self).actions@.to_multiset() == old(self).actions@.to_multiset().insert(action),
            ts_sorted(old(self).actions@) ==> ts_sorted(final(self).actions@),
    {
        let ghost before = self.actions@;
        self.actions.push(action);
        let n = self.actions.len();
        if n > 1 && self.actions[n - 1].ts_ms < self.actions[n - 2].ts_ms {
            let mut all: Vec<InputAction> = Vec::new();
            std::mem::swap(&mut all, &mut self.actions);
            self.actions = sort_by_ts(all);
            proof {
                vstd::seq_lib::to_multiset_build(before, action);
            }
        } else {
            proof {
                vstd::seq_lib::to_multiset_build(before, action);
            }
            proof {
                if ts_sorted(before) {
                    assert(ts_sorted(self.actions@));
                }
            }
        }
    }

    /// Number of recorded actions.
    pub fn len(&self) -> (n: usize)
        ensures
            n == self.actions@.len(),
    {
        self.actions.len()
    }

    /// True if no actions are recorded.
    pub fn is_empty(&self) -> (b: bool)
        ensures
            b == (self.actions@.len() == 0),
    {
        self.actions.len() == 0
    }

    /// Compress the chain: drop `MouseMove` actions that are within
    /// `threshold_ms` of the previous one (keep only the last in a burst).
    pub fn compress_mouse_moves(&mut self, threshold_ms: u64)
        ensures
            final(self).actions@ == compressed(old(self).actions@, threshold_ms),
    {
        let mut pending: Vec<InputAction> = Vec::new();
        std::mem::swap(&mut pending, &mut self.actions);
        let ghost orig = pending@;
        let ghost n = orig.len() as int;
        // Reverse the actions so that popping yields them in order.
        let mut rev: Vec<InputAction> = Vec::new();
        while pending.len() > 0
            invariant
                pending@ == orig.subrange(0, pending.len() as int),
                pending.len() + rev.len() == n,
                n == orig.len(),
                forall|q: int| 0 <= q < rev.len() ==> #[trigger] rev@[q] == orig[n - 1 - q],
            decreases pending.len(),
        {
            match pending.pop() {
                Some(a) => rev.push(a),
                None => {},
            }
        }
        let mut kept: Vec<InputAction> = Vec::new();
        while rev.len() > 0
            invariant
                rev.len() <= n,
                n == orig.len(),
                forall|q: int| 0 <= q < rev.len() ==> #[trigger] rev@[q] == orig[n - 1 - q],
                kept@ == compressed(orig.subrange(0, n - rev.len()), threshold_ms),
            decreases rev.len(),
        {
            let ghost i = n - rev.len();
            let action = rev.pop().unwrap();
            assert(orig.subrange(0, i + 1).drop_last() =~= orig.subrange(0, i));
            let klen = kept.len();
            if klen > 0 && is_mouse_move(&action) && is_mouse_move(&kept[klen - 1])
                && action.gap_after_prev(kept[klen - 1].ts_ms) <= threshold_ms {
                // Replace the previous move with this one (coalesce).
                kept.pop();
                kept.push(action);
            } else {
                kept.push(action);
            }
        }
        proof {
            assert(orig.subrange(0, n) =~= orig);
        }
        self.actions = kept;
    }

    /// Replay the chain, yielding each action with the gap since the
    /// previous one. Caller is responsible for actually sleeping between
    /// yields.
    pub fn replay(&self) -> (out: Vec<(u64, &InputAction)>)
        ensures
            out@.len() == self.actions@.len(),
            forall|i: int|
                0 <= i < out@.len() ==> (#[trigger] out@[i]).0 == replay_gap(self.actions@, i)
                    && *out@[i].1 == self.actions@[i],
    {
        let mut out: Vec<(u64, &InputAction)> = Vec::new();
        let mut prev_ts: Option<u64> = None;
        for i in 0..self.actions.len()
            invariant
                out@.len() == i,
                i > 0 ==> prev_ts == Some(self.actions@[i - 1].ts_ms),
                i == 0 ==> prev_ts.is_none(),
                forall|q: int|
                    0 <= q < i ==> (#[trigger] out@[q]).0 == replay_gap(self.actions@, q)
                        && *out@[q].1 == self.actions@[q],
        {
            let a = &self.actions[i];
            let gap = match prev_ts {
                Some(p) => a.gap_after_prev(p),
                None => 0,
            };
            prev_ts = Some(a.ts_ms);
            out.push((gap, a));
        }
        out
    }

    /// Filter actions by predicate (returns a new chain).
    pub fn filter<F: Fn(&InputAction) -> bool>(&self, pred: F) -> (out: Self)
        requires
            forall|i: int| 0 <= i < self.actions@.len() ==> pred.requires((&self.actions@[i],)),
        ensures
            exists|keep: Seq<bool>|
                #![trigger kept_where(self.actions@, keep)]
                keep.len() == self.actions@.len() && (forall|i: int|
                    0 <= i < keep.len() ==> pred.ensures((&self.actions@[i],), #[trigger] keep[i]))
                    && out.actions@ == kept_where(self.actions@, keep),
    {
        let mut actions: Vec<InputAction> = Vec::new();
        let ghost mut keep: Seq<bool> = Seq::empty();
        for i in 0..self.actions.len()
            invariant
                forall|q: int| 0 <= q < self.actions@.len() ==> pred.requires((&self.actions@[q],)),
                keep.len() == i,
                forall|q: int| 0 <= q < i ==> pred.ensures((&self.actions@[q],), #[trigger] keep[q]),
                actions@ == kept_where(self.actions@.subrange(0, i as int), keep),
        {
            let a = &self.actions[i];
            let b = pred(a);
            proof {
                let s1 = self.actions@.subrange(0, i + 1);
                assert(s1.drop_last() =~= self.actions@.subrange(0, i as int));
                assert(keep.push(b).drop_last() =~= keep);
                keep = keep.push(b);
            }
            if b {
                actions.push(a.clone());
            }
        }
        assert(self.actions@.subrange(0, self.actions@.len() as int) =~= self.actions@);
        Chain { actions }
    }

    /// All `TypeText` payloads concatenated.
    pub fn typed_text(&self) -> (t: String)
        ensures
            t@ == typed(self.actions@),
    {
        let mut s = String::new();
        for i in 0..self.actions.len()
            invariant
                s@ == typed(self.actions@.subrange(0, i as int)),
        {
            assert(self.actions@.subrange(0, i + 1).drop_last() =~= self.actions@.subrange(0, i as int));
            match &self.actions[i].kind {
                ActionKind::TypeText(t) => {
                    s.append(t.as_str());
                },
                _ => {
                    assert(s@ + Seq::<char>::empty() =~= s@);
                },
            }
        }
        assert(self.actions@.subrange(0, self.actions@.len() as int) =~= self.actions@);
        s
    }

    /// Total duration of the chain (ms from first to last action).
    pub fn duration_ms(&self) -> (d: u64)
        ensures
            d == span_ms(self.actions@),
    {
        let n = self.actions.len();
        if n == 0 {
            0
        } else {
            self.actions[n - 1].ts_ms.saturating_sub(self.actions[0].ts_ms)
        }
    }
}

} // verus!
