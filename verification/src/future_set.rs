//! A keyed set of in-flight asynchronous operations, with three completion
//! policies layered on the same storage: resolve on the first completion,
//! resolve once all have completed, and a stream of results in completion
//! order.
//!
//! The storage and every decision about it are verified: handles are unique
//! among live entries, and each mutation states exactly what it does to the
//! entry sequence. Driving the underlying operations needs the host's task
//! machinery, so the surrounding async adapters poll the stored operations
//! and feed each poll turn's outcome back into the step functions here.

use vstd::prelude::*;
use vstd::seq_lib::*;
use vstd::set_lib::*;

verus! {

/// The handles of a sequence of entries, in storage order.
pub open spec fn key_seq_of<F>(s: Seq<(u32, F)>) -> Seq<u32> {
    s.map_values(|p: (u32, F)| p.0)
}

/// `base + off` wrapped around the `u32` range once.
pub open spec fn wrap_inc(base: u32, off: nat) -> u32
    recommends
        off <= 0x1_0000_0000,
{
    if base + off < 0x1_0000_0000 {
        (base + off) as u32
    } else {
        (base + off - 0x1_0000_0000) as u32
    }
}

/// The `j`-th handle candidate tried after `last`: the search starts just
/// above the most recently assigned handle and wraps on overflow.
pub open spec fn nth_candidate(last: u32, j: nat) -> u32
    recommends
        j < 0x1_0000_0000,
{
    wrap_inc(last, j + 1)
}

/// Entries still pending after one poll turn: entry `i` is kept exactly
/// when `r[i]` is false (it was not found ready).
pub open spec fn keep_pending<F>(e: Seq<(u32, F)>, r: Seq<bool>) -> Seq<(u32, F)>
    decreases e.len(),
{
    if e.len() == 0 || r.len() == 0 {
        Seq::empty()
    } else {
        let rest = keep_pending(e.drop_first(), r.drop_first());
        if r[0] {
            rest
        } else {
            seq![e[0]] + rest
        }
    }
}

/// How many entries one poll turn found ready.
pub open spec fn count_ready(r: Seq<bool>) -> nat
    decreases r.len(),
{
    if r.len() == 0 {
        0
    } else {
        (if r[0] {
            1nat
        } else {
            0nat
        }) + count_ready(r.drop_first())
    }
}

/// The first ready verdict of a poll turn, in storage order.
pub open spec fn first_ready<T>(vs: Seq<Option<T>>) -> Option<T>
    decreases vs.len(),
{
    if vs.len() == 0 {
        None
    } else if vs[0] is Some {
        vs[0]
    } else {
        first_ready(vs.drop_first())
    }
}

/// A keyed set of pending operations plus the results gathered so far.
///
/// `F` is the type of one pending operation (the surrounding async adapter
/// instantiates it with a boxed future); `T` is the result type of one
/// operation.
pub struct FuturesHashSetInternal<F, T> {
    /// Live entries: `(handle, operation)` pairs with pairwise distinct handles.
    futures: Vec<(u32, F)>,
    /// Results of completed operations, in completion order.
    gathered_outs: Vec<T>,
    /// The handle assigned most recently; the next search starts just above it.
    last_index: u32,
}

impl<F, T> FuturesHashSetInternal<F, T> {
    /// The live entries as a sequence of `(handle, operation)` pairs.
    pub closed spec fn entries(&self) -> Seq<(u32, F)> {
        self.futures@
    }

    /// The live handles, in registration order.
    pub open spec fn handle_seq(&self) -> Seq<u32> {
        key_seq_of(self.entries())
    }

    /// The set of live handles.
    pub open spec fn live_handles(&self) -> Set<u32> {
        self.handle_seq().to_set()
    }

    /// The results gathered from completed operations so far.
    pub closed spec fn gathered(&self) -> Seq<T> {
        self.gathered_outs@
    }

    /// The most recently assigned handle.
    pub closed spec fn last_assigned(&self) -> u32 {
        self.last_index
    }

    /// Well-formedness: no two live entries share a handle.
    pub open spec fn wf(&self) -> bool {
        self.handle_seq().no_duplicates()
    }

    /// Construct an empty set.
    pub fn new() -> (r: Self)
        ensures
            r.wf(),
            r.entries() == Seq::<(u32, F)>::empty(),
            r.gathered() == Seq::<T>::empty(),
            r.last_assigned() == 0,
    {
        Self { futures: Vec::new(), gathered_outs: Vec::new(), last_index: 0 }
    }

    /// The number of live entries.
    pub fn len(&self) -> (n: usize)
        ensures
            n == self.entries().len(),
    {
        self.futures.len()
    }

    /// Whether no operation is registered.
    pub fn is_empty(&self) -> (b: bool)
        ensures
            b == (self.entries().len() == 0),
    {
        self.futures.len() == 0
    }

    /// The handle of the entry at position `i`.
    pub fn handle_at(&self, i: usize) -> (h: u32)
        requires
            i < self.entries().len(),
        ensures
            h == self.entries()[i as int].0,
    {
        self.futures[i].0
    }

    /// Mutable access to the operation at position `i`, so that the async
    /// adapter can poll it in place. The handle at `i` and every other
    /// entry are untouched.
    pub fn op_at_mut(&mut self, i: usize) -> (op: &mut F)
        requires
            i < old(self).entries().len(),
        ensures
            *op == old(self).entries()[i as int].1,
            final(self).entries() == old(self).entries().update(
                i as int,
                (old(self).entries()[i as int].0, *final(op)),
            ),
            final(self).handle_seq() == old(self).handle_seq(),
            final(self).gathered() == old(self).gathered(),
            final(self).last_assigned() == old(self).last_assigned(),
    {
        &mut self.futures[i].1
    }

    /// Register an operation and return its fresh handle: the first unused
    /// handle found searching upward from the last assigned one, wrapping
    /// around the `u32` range. No live registration shares the result.
    pub fn add_future(&mut self, elem: F) -> (h: u32)
        requires
            old(self).wf(),
            old(self).entries().len() < 0x1_0000_0000,
        ensures
            final(self).wf(),
            !old(self).live_handles().contains(h),
            exists|j: nat|
                j <= old(self).entries().len() && h == nth_candidate(
                    old(self).last_assigned(),
                    j,
                ) && (forall|k: nat|
                    k < j ==> old(self).live_handles().contains(
                        nth_candidate(old(self).last_assigned(), k),
                    )),
            final(self).entries() == old(self).entries().push((h, elem)),
            final(self).gathered() == old(self).gathered(),
            final(self).last_assigned() == h,
    {
        let h = find_free_handle(&self.futures, self.last_index);
        proof {
            assert(!self.handle_seq().contains(h));
            let j = choose|j: nat|
                j <= self.entries().len() && h == nth_candidate(self.last_index, j) && (forall|
                    k: nat,
                |
                    k < j ==> key_seq_of(self.futures@).contains(
                        nth_candidate(self.last_index, k),
                    ));
            assert(j <= self.entries().len() && h == nth_candidate(self.last_assigned(), j) && (
            forall|k: nat|
                k < j ==> self.live_handles().contains(nth_candidate(self.last_assigned(), k))));
        }
        self.futures.push((h, elem));
        self.last_index = h;
        proof {
            assert(self.handle_seq() =~= old(self).handle_seq().push(h));
            lemma_no_dup_push(old(self).handle_seq(), h);
        }
        h
    }

    /// Drop the operation registered under `index`; does nothing if no such
    /// registration is live (removal is idempotent).
    pub fn remove_future(&mut self, index: u32)
        requires
            old(self).wf(),
        ensures
            final(self).wf(),
            final(self).gathered() == old(self).gathered(),
            final(self).last_assigned() == old(self).last_assigned(),
            !old(self).live_handles().contains(index) ==> final(self).entries() == old(
                self,
            ).entries(),
            old(self).live_handles().contains(index) ==> exists|i: int|
                0 <= i < old(self).entries().len() && old(self).entries()[i].0 == index
                    && final(self).entries() == old(self).entries().remove(i),
            final(self).live_handles() == old(self).live_handles().remove(index),
    {
        let ghost keys = self.handle_seq();
        let n = self.futures.len();
        let mut i: usize = 0;
        while i < n
            invariant
                i <= n,
                n == self.entries().len(),
                *self == *old(self),
                old(self).wf(),
                forall|k: int| 0 <= k < i ==> self.entries()[k].0 != index,
            decreases n - i,
        {
            if self.futures[i].0 == index {
                proof {
                    lemma_remove_keyed(self.entries(), i as int);
                    assert(self.handle_seq()[i as int] == index);
                    assert(self.handle_seq().contains(index));
                }
                self.futures.remove(i);
                proof {
                    assert(old(self).entries()[i as int].0 == index
                        && self.entries() == old(self).entries().remove(i as int));
                    assert(self.live_handles() =~= old(self).live_handles().remove(index));
                }
                return ;
            }
            i += 1;
        }
        proof {
            assert(!keys.contains(index)) by {
                assert(forall|k: int|
                    0 <= k < keys.len() ==> keys[k] == self.entries()[k].0);
            }
            assert(self.live_handles() =~= old(self).live_handles().remove(index));
        }
    }
}

/// Scan for the handle `h` among the entry keys.
fn contains_handle<F>(v: &Vec<(u32, F)>, h: u32) -> (r: bool)
    ensures
        r == key_seq_of(v@).contains(h),
{
    let n = v.len();
    let mut i: usize = 0;
    while i < n
        invariant
            i <= n,
            n == v@.len(),
            forall|k: int| 0 <= k < i ==> v@[k].0 != h,
        decreases n - i,
    {
        if v[i].0 == h {
            proof {
                assert(key_seq_of(v@)[i as int] == h);
            }
            return true;
        }
        i += 1;
    }
    proof {
        assert(forall|k: int| 0 <= k < key_seq_of(v@).len() ==> key_seq_of(v@)[k] != h);
    }
    false
}

/// `base + off` wrapped around the `u32` range once.
fn wrap_inc_exec(base: u32, off: u64) -> (r: u32)
    requires
        off <= 0x1_0000_0000,
    ensures
        r == wrap_inc(base, off as nat),
{
    let s: u64 = base as u64 + off;
    if s < 0x1_0000_0000 {
        s as u32
    } else {
        (s - 0x1_0000_0000) as u32
    }
}

/// Find an unused handle by searching upward from `last + 1`, wrapping on
/// overflow. Terminates because there are more candidates than live keys.
fn find_free_handle<F>(v: &Vec<(u32, F)>, last: u32) -> (h: u32)
    requires
        key_seq_of(v@).no_duplicates(),
        v@.len() < 0x1_0000_0000,
    ensures
        !key_seq_of(v@).contains(h),
        exists|j: nat|
            j <= v@.len() && h == nth_candidate(last, j) && (forall|k: nat|
                k < j ==> key_seq_of(v@).contains(nth_candidate(last, k))),
{
    let n = v.len();
    let mut j: u64 = 0;
    loop
        invariant
            j <= n as u64,
            n == v@.len(),
            n < 0x1_0000_0000,
            key_seq_of(v@).no_duplicates(),
            forall|k: nat| k < j ==> key_seq_of(v@).contains(nth_candidate(last, k)),
        decreases n - j,
    {
        let cand = wrap_inc_exec(last, j + 1);
        proof {
            assert(cand == nth_candidate(last, j as nat));
        }
        if !contains_handle(v, cand) {
            proof {
                let jj = j as nat;
                assert(jj <= v@.len() && cand == nth_candidate(last, jj) && (forall|k: nat|
                    k < jj ==> key_seq_of(v@).contains(nth_candidate(last, k))));
            }
            return cand;
        }
        proof {
            lemma_candidate_pigeonhole(v@, last, (j + 1) as nat);
        }
        j = j + 1;
    }
}

/// Among any `m <= 2^32` successive handle candidates that are all live,
/// there can be at most one candidate per live key: `m` is bounded by the
/// number of live entries.
proof fn lemma_candidate_pigeonhole<F>(s: Seq<(u32, F)>, last: u32, m: nat)
    requires
        key_seq_of(s).no_duplicates(),
        s.len() < 0x1_0000_0000,
        m <= 0x1_0000_0000,
        forall|k: nat| k < m ==> key_seq_of(s).contains(nth_candidate(last, k)),
    ensures
        m <= s.len(),
{
    broadcast use vstd::seq_lib::seq_to_set_is_finite;

    let cands = Seq::new(m, |k: int| nth_candidate(last, k as nat));
    assert(cands.no_duplicates()) by {
        assert forall|k1: int, k2: int|
            0 <= k1 < m && 0 <= k2 < m && k1 != k2 implies cands[k1] != cands[k2] by {
            assert(nth_candidate(last, k1 as nat) != nth_candidate(last, k2 as nat));
        }
    }
    cands.unique_seq_to_set();
    let keys = key_seq_of(s);
    keys.unique_seq_to_set();
    assert(cands.to_set().subset_of(keys.to_set())) by {
        assert forall|x: u32| cands.to_set().contains(x) implies keys.to_set().contains(x) by {
            let k = choose|k: int| 0 <= k < cands.len() && cands[k] == x;
            assert(keys.contains(nth_candidate(last, k as nat)));
        }
    }
    lemma_len_subset(cands.to_set(), keys.to_set());
}

/// Pushing a fresh element keeps a sequence duplicate-free.
proof fn lemma_no_dup_push(s: Seq<u32>, x: u32)
    requires
        s.no_duplicates(),
        !s.contains(x),
    ensures
        s.push(x).no_duplicates(),
{
    assert forall|i: int, j: int|
        0 <= i < s.push(x).len() && 0 <= j < s.push(x).len() && i != j implies s.push(x)[i]
        != s.push(x)[j] by {
        if i < s.len() && j < s.len() {
        } else if i < s.len() {
            assert(s[i] == s.push(x)[i]);
        } else {
            assert(s[j] == s.push(x)[j]);
        }
    }
}

/// Removing entry `i` removes exactly its key: the key sequence loses
/// position `i`, stays duplicate-free, and the key set loses `s[i].0`.
proof fn lemma_remove_keyed<F>(s: Seq<(u32, F)>, i: int)
    requires
        key_seq_of(s).no_duplicates(),
        0 <= i < s.len(),
    ensures
        key_seq_of(s.remove(i)) == key_seq_of(s).remove(i),
        key_seq_of(s.remove(i)).no_duplicates(),
        key_seq_of(s.remove(i)).to_set() == key_seq_of(s).to_set().remove(s[i].0),
{
    let keys = key_seq_of(s);
    assert(key_seq_of(s.remove(i)) =~= keys.remove(i));
    let rem = keys.remove(i);
    assert(rem.no_duplicates()) by {
        assert forall|a: int, b: int|
            0 <= a < rem.len() && 0 <= b < rem.len() && a != b implies rem[a] != rem[b] by {
            assert(rem[a] == (if a < i {
                keys[a]
            } else {
                keys[a + 1]
            }));
            assert(rem[b] == (if b < i {
                keys[b]
            } else {
                keys[b + 1]
            }));
        }
    }
    assert(rem.to_set() =~= keys.to_set().remove(keys[i])) by {
        assert forall|y: u32| rem.to_set().contains(y) implies keys.to_set().contains(y) && y
            != keys[i] by {
            let a = choose|a: int| 0 <= a < rem.len() && rem[a] == y;
            if a < i {
                assert(keys[a] == y);
            } else {
                assert(keys[a + 1] == y);
            }
        }
        assert forall|y: u32|
            keys.to_set().contains(y) && y != keys[i] implies rem.to_set().contains(y) by {
            let a = choose|a: int| 0 <= a < keys.len() && keys[a] == y;
            if a < i {
                assert(rem[a] == y);
            } else {
                assert(rem[a - 1] == y);
            }
        }
    }
}

/// A set of operations whose combined future finishes when any one of them
/// finishes; the rest stay registered and their later results are ignored.
pub struct FuturesHashSetFirst<F, T> {
    /// The shared registry.
    i: FuturesHashSetInternal<F, T>,
}

/// A set of operations whose combined future finishes once every one of
/// them has finished, with the list of all results in completion order.
pub struct FuturesHashSetAll<F, T> {
    /// The shared registry.
    i: FuturesHashSetInternal<F, T>,
}

/// A set of operations surfaced as a stream: one result per completed
/// operation, in completion order, at most one per poll turn, indefinitely
/// as operations are added.
pub struct FuturesHashSet<F, T> {
    /// The shared registry.
    i: FuturesHashSetInternal<F, T>,
}

impl<F, T> FuturesHashSetFirst<F, T> {
    /// The registry behind this policy wrapper.
    pub closed spec fn inner(&self) -> FuturesHashSetInternal<F, T> {
        self.i
    }

    /// Construct a new self.
    pub fn new() -> (r: Self)
        ensures
            r.inner().wf(),
            r.inner().entries() == Seq::<(u32, F)>::empty(),
            r.inner().gathered() == Seq::<T>::empty(),
            r.inner().last_assigned() == 0,
    {
        Self { i: FuturesHashSetInternal::new() }
    }

    /// Get a reference to the inside.
    pub fn get(&mut self) -> (r: &mut FuturesHashSetInternal<F, T>)
        ensures
            *r == old(self).inner(),
            final(self).inner() == *final(r),
    {
        &mut self.i
    }

    /// One poll turn: `verdicts[i]` is the outcome the adapter obtained by
    /// polling entry `i`. Resolves with the first ready result in storage
    /// order and leaves every operation registered (the receiver is shared,
    /// so the registry cannot change); with no ready verdict the turn stays
    /// pending.
    pub fn poll_step(&self, verdicts: &mut Vec<Option<T>>) -> (r: Option<T>)
        requires
            old(verdicts)@.len() == self.inner().entries().len(),
        ensures
            r == first_ready(old(verdicts)@),
    {
        let ghost vs0 = old(verdicts)@;
        let n = verdicts.len();
        let mut i: usize = 0;
        while i < n
            invariant
                i <= n,
                n == vs0.len(),
                vs0 == old(verdicts)@,
                verdicts@ == vs0,
                forall|k: int| 0 <= k < i ==> vs0[k] is None,
            decreases n - i,
        {
            if verdicts[i].is_some() {
                let v = verdicts.remove(i);
                proof {
                    lemma_first_ready_at(vs0, i as int);
                    assert(v == vs0[i as int]);
                }
                return v;
            }
            i += 1;
        }
        proof {
            lemma_first_ready_all_none(vs0);
        }
        None
    }
}

impl<F, T> FuturesHashSetAll<F, T> {
    /// The registry behind this policy wrapper.
    pub closed spec fn inner(&self) -> FuturesHashSetInternal<F, T> {
        self.i
    }

    /// Construct a new self.
    pub fn new() -> (r: Self)
        ensures
            r.inner().wf(),
            r.inner().entries() == Seq::<(u32, F)>::empty(),
            r.inner().gathered() == Seq::<T>::empty(),
            r.inner().last_assigned() == 0,
    {
        Self { i: FuturesHashSetInternal::new() }
    }

    /// Get a reference to the inside.
    pub fn get(&mut self) -> (r: &mut FuturesHashSetInternal<F, T>)
        ensures
            *r == old(self).inner(),
            final(self).inner() == *final(r),
    {
        &mut self.i
    }
}

impl<F, T: Clone> FuturesHashSetAll<F, T> {
    /// One poll turn: `ready[i]` says whether the adapter found entry `i`
    /// ready, and `results` holds the ready entries' outcomes in storage
    /// order. The ready entries are dropped from the registry, their
    /// results are appended to the accumulator, and the turn resolves --
    /// with a clone of the whole accumulator -- exactly when no entry is
    /// left pending.
    pub fn poll_step(&mut self, ready: &Vec<bool>, results: Vec<T>) -> (r: Option<Vec<T>>)
        requires
            old(self).inner().wf(),
            ready@.len() == old(self).inner().entries().len(),
            results@.len() == count_ready(ready@),
        ensures
            final(self).inner().wf(),
            final(self).inner().entries() == keep_pending(old(self).inner().entries(), ready@),
            final(self).inner().gathered() == old(self).inner().gathered() + results@,
            final(self).inner().last_assigned() == old(self).inner().last_assigned(),
            r is Some <==> final(self).inner().entries().len() == 0,
            r matches Some(out) ==> out@.len() == final(self).inner().gathered().len() && (
            forall|k: int|
                0 <= k < out@.len() ==> cloned::<T>(final(self).inner().gathered()[k], out@[k])),
    {
        let ghost e0 = self.i.entries();
        let ghost r0 = ready@;
        let ghost g0 = self.i.gathered();
        let n = self.i.futures.len();
        let mut idx: usize = n;
        while idx > 0
            invariant
                idx <= n,
                n == e0.len(),
                r0.len() == n,
                ready@ == r0,
                key_seq_of(e0).no_duplicates(),
                self.i.entries() == e0.take(idx as int) + keep_pending(
                    e0.skip(idx as int),
                    r0.skip(idx as int),
                ),
                self.i.gathered() == g0,
                self.i.last_assigned() == old(self).inner().last_assigned(),
            decreases idx,
        {
            idx -= 1;
            proof {
                lemma_kp_unfold(e0, r0, idx as int);
                assert(e0.take(idx + 1) =~= e0.take(idx as int).push(e0[idx as int]));
            }
            if ready[idx] {
                self.i.futures.remove(idx);
                proof {
                    assert(self.i.entries() =~= e0.take(idx as int) + keep_pending(
                        e0.skip(idx as int),
                        r0.skip(idx as int),
                    ));
                }
            } else {
                proof {
                    assert(self.i.entries() =~= e0.take(idx as int) + keep_pending(
                        e0.skip(idx as int),
                        r0.skip(idx as int),
                    ));
                }
            }
        }
        proof {
            assert(e0.skip(0) =~= e0);
            assert(r0.skip(0) =~= r0);
            assert(self.i.entries() =~= keep_pending(e0, r0));
            lemma_keep_pending_keys(e0, r0);
        }
        let mut results = results;
        self.i.gathered_outs.append(&mut results);
        if self.i.futures.len() == 0 {
            Some(self.i.gathered_outs.clone())
        } else {
            None
        }
    }
}

impl<F, T> FuturesHashSet<F, T> {
    /// The registry behind this policy wrapper.
    pub closed spec fn inner(&self) -> FuturesHashSetInternal<F, T> {
        self.i
    }

    /// Construct a new self.
    pub fn new() -> (r: Self)
        ensures
            r.inner().wf(),
            r.inner().entries() == Seq::<(u32, F)>::empty(),
            r.inner().gathered() == Seq::<T>::empty(),
            r.inner().last_assigned() == 0,
    {
        Self { i: FuturesHashSetInternal::new() }
    }

    /// Get a reference to the inside.
    pub fn get(&mut self) -> (r: &mut FuturesHashSetInternal<F, T>)
        ensures
            *r == old(self).inner(),
            final(self).inner() == *final(r),
    {
        &mut self.i
    }

    /// One poll turn of the stream: the adapter polls entries in storage
    /// order and stops at the first ready one, handing in its position and
    /// outcome. Exactly that one entry is dropped and its result yielded;
    /// every other operation stays registered for the next turn, so one
    /// turn never surfaces two results. With no ready entry the turn stays
    /// pending and the registry is untouched.
    pub fn poll_next_step(&mut self, at: usize, outcome: Option<T>) -> (r: Option<T>)
        requires
            old(self).inner().wf(),
            outcome is Some ==> at < old(self).inner().entries().len(),
        ensures
            final(self).inner().wf(),
            final(self).inner().gathered() == old(self).inner().gathered(),
            final(self).inner().last_assigned() == old(self).inner().last_assigned(),
            r == outcome,
            outcome is None ==> final(self).inner() == old(self).inner(),
            outcome is Some ==> final(self).inner().entries() == old(self).inner().entries().remove(
                at as int,
            ) && final(self).inner().live_handles() == old(self).inner().live_handles().remove(
                old(self).inner().entries()[at as int].0,
            ),
    {
        match outcome {
            Some(v) => {
                proof {
                    lemma_remove_keyed(self.i.entries(), at as int);
                }
                self.i.futures.remove(at);
                Some(v)
            },
            None => None,
        }
    }
}

/// Unfolding one step of `keep_pending` at position `i` of the suffixes.
proof fn lemma_kp_unfold<F>(e: Seq<(u32, F)>, r: Seq<bool>, i: int)
    requires
        0 <= i < e.len(),
        e.len() == r.len(),
    ensures
        keep_pending(e.skip(i), r.skip(i)) == (if r[i] {
            keep_pending(e.skip(i + 1), r.skip(i + 1))
        } else {
            seq![e[i]] + keep_pending(e.skip(i + 1), r.skip(i + 1))
        }),
{
    assert(e.skip(i).drop_first() =~= e.skip(i + 1));
    assert(r.skip(i).drop_first() =~= r.skip(i + 1));
    assert(e.skip(i)[0] == e[i]);
    assert(r.skip(i)[0] == r[i]);
}

/// The entries kept by a poll turn are a subset of the old ones, so the
/// registry stays duplicate-free.
proof fn lemma_keep_pending_keys<F>(e: Seq<(u32, F)>, r: Seq<bool>)
    ensures
        forall|h: u32| #[trigger]
            key_seq_of(keep_pending(e, r)).contains(h) ==> key_seq_of(e).contains(h),
        key_seq_of(e).no_duplicates() ==> key_seq_of(keep_pending(e, r)).no_duplicates(),
    decreases e.len(),
{
    if e.len() == 0 || r.len() == 0 {
    } else {
        lemma_keep_pending_keys(e.drop_first(), r.drop_first());
        let rest = keep_pending(e.drop_first(), r.drop_first());
        assert(key_seq_of(e.drop_first()) =~= key_seq_of(e).drop_first());
        assert forall|h: u32| #[trigger]
            key_seq_of(keep_pending(e, r)).contains(h) implies key_seq_of(e).contains(h) by {
            let kp = keep_pending(e, r);
            let a = choose|a: int| 0 <= a < kp.len() && key_seq_of(kp)[a] == h;
            assert(kp[a].0 == h);
            if r[0] {
                assert(rest[a].0 == h);
                assert(key_seq_of(rest)[a] == h);
                assert(key_seq_of(rest).contains(h));
                assert(key_seq_of(e).drop_first().contains(h));
                let b = choose|b: int|
                    0 <= b < key_seq_of(e).drop_first().len() && key_seq_of(e).drop_first()[b]
                        == h;
                assert(key_seq_of(e)[b + 1] == h);
            } else {
                if a == 0 {
                    assert(key_seq_of(e)[0] == h);
                } else {
                    assert(rest[a - 1].0 == h);
                    assert(key_seq_of(rest)[a - 1] == h);
                    assert(key_seq_of(rest).contains(h));
                    let b = choose|b: int|
                        0 <= b < key_seq_of(e).drop_first().len() && key_seq_of(e).drop_first()[b]
                            == h;
                    assert(key_seq_of(e)[b + 1] == h);
                }
            }
        }
        if key_seq_of(e).no_duplicates() {
            assert forall|a: int, b: int|
                0 <= a < key_seq_of(keep_pending(e, r)).len() && 0 <= b < key_seq_of(
                    keep_pending(e, r),
                ).len() && a != b implies key_seq_of(keep_pending(e, r))[a] != key_seq_of(
                keep_pending(e, r),
            )[b] by {
                let kp = keep_pending(e, r);
                if r[0] {
                    assert(key_seq_of(rest)[a] == kp[a].0);
                    assert(key_seq_of(rest)[b] == kp[b].0);
                } else {
                    if a != 0 && b != 0 {
                        assert(key_seq_of(rest)[a - 1] == kp[a].0);
                        assert(key_seq_of(rest)[b - 1] == kp[b].0);
                    } else {
                        let nz = if a == 0 {
                            b
                        } else {
                            a
                        };
                        assert(kp[0] == e[0]);
                        assert(key_seq_of(rest)[nz - 1] == kp[nz].0);
                        assert(key_seq_of(rest).contains(kp[nz].0));
                        if key_seq_of(e).contains(e[0].0) && kp[nz].0 == e[0].0 {
                            let c = choose|c: int|
                                0 <= c < key_seq_of(e).drop_first().len() && key_seq_of(
                                    e,
                                ).drop_first()[c] == e[0].0;
                            assert(key_seq_of(e)[c + 1] == e[0].0);
                            assert(key_seq_of(e)[0] == e[0].0);
                        }
                    }
                }
            }
        }
    }
}

/// Law: no two simultaneously registered operations share a handle, for
/// any sequence of additions and removals -- every operation above keeps
/// `wf()`, and `wf()` says the handles are pairwise distinct.
pub proof fn lemma_live_handles_unique<F, T>(s: FuturesHashSetInternal<F, T>, i: int, j: int)
    requires
        s.wf(),
        0 <= i < s.entries().len(),
        0 <= j < s.entries().len(),
        i != j,
    ensures
        s.entries()[i].0 != s.entries()[j].0,
{
    assert(s.handle_seq()[i] == s.entries()[i].0);
    assert(s.handle_seq()[j] == s.entries()[j].0);
}

/// Law: one poll turn of the all-policy conserves operations -- every
/// registered operation is either still pending afterwards or was counted
/// ready, so results never duplicate and never go missing.
pub proof fn lemma_all_turn_conserves<F>(e: Seq<(u32, F)>, r: Seq<bool>)
    requires
        e.len() == r.len(),
    ensures
        keep_pending(e, r).len() + count_ready(r) == e.len(),
    decreases e.len(),
{
    if e.len() == 0 {
    } else {
        lemma_all_turn_conserves(e.drop_first(), r.drop_first());
    }
}

/// `first_ready` of a turn with no ready verdict is pending.
proof fn lemma_first_ready_all_none<T>(vs: Seq<Option<T>>)
    requires
        forall|k: int| 0 <= k < vs.len() ==> vs[k] is None,
    ensures
        first_ready(vs) is None,
    decreases vs.len(),
{
    if vs.len() == 0 {
    } else {
        assert(forall|k: int| 0 <= k < vs.drop_first().len() ==> vs.drop_first()[k] is None);
        lemma_first_ready_all_none(vs.drop_first());
    }
}

/// `first_ready` picks position `i` when everything before it is pending.
proof fn lemma_first_ready_at<T>(vs: Seq<Option<T>>, i: int)
    requires
        0 <= i < vs.len(),
        vs[i] is Some,
        forall|k: int| 0 <= k < i ==> vs[k] is None,
    ensures
        first_ready(vs) == vs[i],
    decreases i,
{
    if i == 0 {
    } else {
        assert(vs.drop_first()[i - 1] == vs[i]);
        assert(forall|k: int| 0 <= k < i - 1 ==> vs.drop_first()[k] is None);
        lemma_first_ready_at(vs.drop_first(), i - 1);
    }
}

/// Law: the first-policy short-circuits -- when exactly one operation is
/// ready and the rest are pending, the turn resolves with that operation's
/// result.
pub proof fn lemma_first_short_circuit<T>(vs: Seq<Option<T>>, i: int)
    requires
        0 <= i < vs.len(),
        vs[i] is Some,
        forall|k: int| 0 <= k < vs.len() && k != i ==> vs[k] is None,
    ensures
        first_ready(vs) == vs[i],
{
    lemma_first_ready_at(vs, i);
}

/// The registry contents after a whole run of all-policy poll turns.
pub open spec fn all_run<F>(e: Seq<(u32, F)>, sweeps: Seq<Seq<bool>>) -> Seq<(u32, F)>
    decreases sweeps.len(),
{
    if sweeps.len() == 0 {
        e
    } else {
        all_run(keep_pending(e, sweeps[0]), sweeps.drop_first())
    }
}

/// Each poll turn of a run reports one verdict per entry then live.
pub open spec fn sweeps_aligned<F>(e: Seq<(u32, F)>, sweeps: Seq<Seq<bool>>) -> bool
    decreases sweeps.len(),
{
    if sweeps.len() == 0 {
        true
    } else {
        sweeps[0].len() == e.len() && sweeps_aligned(keep_pending(e, sweeps[0]), sweeps.drop_first())
    }
}

/// How many completions a whole run of poll turns reported.
pub open spec fn total_ready(sweeps: Seq<Seq<bool>>) -> nat
    decreases sweeps.len(),
{
    if sweeps.len() == 0 {
        0
    } else {
        count_ready(sweeps[0]) + total_ready(sweeps.drop_first())
    }
}

/// Law: the all-policy is complete. Over any run of poll turns, the
/// completions reported and the entries still pending add up to the
/// operations registered at the start; in particular, once the run drains
/// the registry, exactly one result was gathered per registered operation
/// (each turn appends as many results as it reports ready), and the
/// accumulator the resolution returns therefore lists all of them, in
/// completion order.
pub proof fn lemma_all_run_completeness<F>(e: Seq<(u32, F)>, sweeps: Seq<Seq<bool>>)
    requires
        sweeps_aligned(e, sweeps),
    ensures
        all_run(e, sweeps).len() + total_ready(sweeps) == e.len(),
        all_run(e, sweeps).len() == 0 ==> total_ready(sweeps) == e.len(),
    decreases sweeps.len(),
{
    if sweeps.len() == 0 {
    } else {
        lemma_all_turn_conserves(e, sweeps[0]);
        lemma_all_run_completeness(keep_pending(e, sweeps[0]), sweeps.drop_first());
    }
}

/// Law: once the all-policy has resolved, it stays resolved with the same
/// accumulator -- a poll turn on an empty registry keeps it empty and
/// reports nothing.
pub proof fn lemma_all_resolved_stable<F>(e: Seq<(u32, F)>, r: Seq<bool>)
    requires
        e.len() == 0,
        r.len() == e.len(),
    ensures
        keep_pending(e, r) == e,
        count_ready(r) == 0,
{
    assert(keep_pending(e, r) =~= e);
}

/// A run's poll turns with their result lists: each turn reports one
/// verdict per entry then live and one result per completion it reports.
pub open spec fn results_match<F, T>(
    e: Seq<(u32, F)>,
    sweeps: Seq<Seq<bool>>,
    results: Seq<Seq<T>>,
) -> bool
    decreases sweeps.len(),
{
    if sweeps.len() != results.len() {
        false
    } else if sweeps.len() == 0 {
        true
    } else {
        sweeps[0].len() == e.len() && results[0].len() == count_ready(sweeps[0]) && results_match(
            keep_pending(e, sweeps[0]),
            sweeps.drop_first(),
            results.drop_first(),
        )
    }
}

/// Law: what the all-policy accumulates over a run is the concatenation
/// of each turn's results, in completion order -- each turn appends its
/// result list whole -- and once the run drains the registry the
/// accumulator holds exactly one result per operation registered at the
/// start.
pub proof fn lemma_all_run_gathers_everything<F, T>(
    e: Seq<(u32, F)>,
    g: Seq<T>,
    sweeps: Seq<Seq<bool>>,
    results: Seq<Seq<T>>,
)
    requires
        results_match(e, sweeps, results),
    ensures
        (g + results.flatten()).len() == g.len() + total_ready(sweeps),
        all_run(e, sweeps).len() == 0 ==> (g + results.flatten()).len() == g.len() + e.len(),
    decreases sweeps.len(),
{
    if sweeps.len() == 0 {
        assert(results.flatten() =~= Seq::<T>::empty());
        assert(g + results.flatten() =~= g);
    } else {
        lemma_all_turn_conserves(e, sweeps[0]);
        lemma_all_run_gathers_everything(
            keep_pending(e, sweeps[0]),
            g + results[0],
            sweeps.drop_first(),
            results.drop_first(),
        );
        assert(results.flatten() == results[0] + results.drop_first().flatten());
        assert(g + results.flatten() =~= (g + results[0]) + results.drop_first().flatten());
        assert(sweeps_aligned(e, sweeps)) by {
            lemma_results_match_aligned(e, sweeps, results);
        }
        lemma_all_run_completeness(e, sweeps);
    }
}

/// A run whose result lists match its turns is aligned.
proof fn lemma_results_match_aligned<F, T>(
    e: Seq<(u32, F)>,
    sweeps: Seq<Seq<bool>>,
    results: Seq<Seq<T>>,
)
    requires
        results_match(e, sweeps, results),
    ensures
        sweeps_aligned(e, sweeps),
    decreases sweeps.len(),
{
    if sweeps.len() == 0 {
    } else {
        lemma_results_match_aligned(
            keep_pending(e, sweeps[0]),
            sweeps.drop_first(),
            results.drop_first(),
        );
    }
}

/// The registry contents after a whole run of stream poll turns, where
/// `picks[k]` is the position of the entry the `k`-th turn found ready
/// first, if any.
pub open spec fn stream_run<F>(e: Seq<(u32, F)>, picks: Seq<Option<int>>) -> Seq<(u32, F)>
    decreases picks.len(),
{
    if picks.len() == 0 {
        e
    } else {
        let next = match picks[0] {
            Some(i) => if 0 <= i < e.len() {
                e.remove(i)
            } else {
                e
            },
            None => e,
        };
        stream_run(next, picks.drop_first())
    }
}

/// Every pick of a stream run names an entry live at its turn.
pub open spec fn picks_valid<F>(e: Seq<(u32, F)>, picks: Seq<Option<int>>) -> bool
    decreases picks.len(),
{
    if picks.len() == 0 {
        true
    } else {
        match picks[0] {
            Some(i) => 0 <= i < e.len() && picks_valid(e.remove(i), picks.drop_first()),
            None => picks_valid(e, picks.drop_first()),
        }
    }
}

/// How many results a whole stream run yielded.
pub open spec fn total_yields(picks: Seq<Option<int>>) -> nat
    decreases picks.len(),
{
    if picks.len() == 0 {
        0
    } else {
        (match picks[0] {
            Some(_) => 1nat,
            None => 0nat,
        }) + total_yields(picks.drop_first())
    }
}

/// Law: the stream paces its output. Each poll turn yields at most one
/// result and drops exactly the entry it yielded, so over any run the
/// results yielded and the entries still registered add up to the
/// operations registered at the start: operations resolving at distinct
/// times surface as exactly one result each, never two in one turn.
pub proof fn lemma_stream_run_pacing<F>(e: Seq<(u32, F)>, picks: Seq<Option<int>>)
    requires
        picks_valid(e, picks),
    ensures
        stream_run(e, picks).len() + total_yields(picks) == e.len(),
        stream_run(e, picks).len() == 0 ==> total_yields(picks) == e.len(),
    decreases picks.len(),
{
    if picks.len() == 0 {
    } else {
        match picks[0] {
            Some(i) => {
                lemma_stream_run_pacing(e.remove(i), picks.drop_first());
            },
            None => {
                lemma_stream_run_pacing(e, picks.drop_first());
            },
        }
    }
}

} // verus!
