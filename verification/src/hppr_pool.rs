//! The bookkeeping of the HPPR connection pool: idle connections kept per
//! (endpoint, signer), at most `max_idle` of them, reused last first while
//! younger than the idle timeout; and the persistent QUIB base connection
//! per (endpoint, signer).
//!
//! Connections (`C`) and signers (`S`) are the caller's; times are
//! milliseconds on the caller's monotonic clock.
use vstd::prelude::*;

use crate::text::str_equals;

verus! {

/// An idle connection and when it was last used.
pub struct IdleConnection<C> {
    pub conn: C,
    pub last_used_ms: u64,
}

/// A value kept for one (endpoint, signer).
struct Keyed<T, S> {
    via: String,
    signer: S,
    value: T,
}

/// A pool key: the endpoint's text and the signer.
pub type PoolKey<S> = (Seq<char>, S);

spec fn key_of<T, S>(e: Keyed<T, S>) -> PoolKey<S> {
    (e.via@, e.signer)
}

/// The map that a list of keyed values with distinct keys stands for.
spec fn keyed_map<T, S>(s: Seq<Keyed<T, S>>) -> Map<PoolKey<S>, T> {
    Map::new(
        |k: PoolKey<S>| exists|i: int| 0 <= i < s.len() && key_of(s[i]) == k,
        |k: PoolKey<S>| s[choose|i: int| 0 <= i < s.len() && key_of(s[i]) == k].value,
    )
}

spec fn keys_distinct<T, S>(s: Seq<Keyed<T, S>>) -> bool {
    forall|i: int, j: int| 0 <= i < s.len() && 0 <= j < s.len() && i != j ==> key_of(s[i]) != key_of(s[j])
}

/// The keys of `m` whose endpoint is not `via`, with their values.
pub open spec fn without_endpoint<T, S>(m: Map<PoolKey<S>, T>, via: Seq<char>) -> Map<PoolKey<S>, T> {
    Map::new(|k: PoolKey<S>| m.contains_key(k) && k.0 != via, |k: PoolKey<S>| m[k])
}

proof fn lemma_keyed_value<T, S>(s: Seq<Keyed<T, S>>, i: int)
    requires
        keys_distinct(s),
        0 <= i < s.len(),
    ensures
        keyed_map(s).contains_key(key_of(s[i])),
        keyed_map(s)[key_of(s[i])] == s[i].value,
{
    let k = key_of(s[i]);
    assert(keyed_map(s).contains_key(k));
    let j = choose|j: int| 0 <= j < s.len() && key_of(s[j]) == k;
    assert(j == i);
}

proof fn lemma_keyed_update<T, S>(s: Seq<Keyed<T, S>>, i: int, e: Keyed<T, S>)
    requires
        keys_distinct(s),
        0 <= i < s.len(),
        key_of(e) == key_of(s[i]),
    ensures
        keys_distinct(s.update(i, e)),
        keyed_map(s.update(i, e)) == keyed_map(s).insert(key_of(e), e.value),
{
    let u = s.update(i, e);
    let k = key_of(e);
    assert forall|a: int, b: int| 0 <= a < u.len() && 0 <= b < u.len() && a != b implies key_of(u[a]) != key_of(
        u[b],
    ) by {
        assert(key_of(u[a]) == key_of(s[a]));
        assert(key_of(u[b]) == key_of(s[b]));
    }
    assert forall|q: PoolKey<S>| #[trigger] keyed_map(u).contains_key(q) <==> keyed_map(s).insert(
        k,
        e.value,
    ).contains_key(q) by {
        if keyed_map(s).contains_key(q) {
            let j = choose|j: int| 0 <= j < s.len() && key_of(s[j]) == q;
            assert(key_of(u[j]) == q);
        }
        if keyed_map(u).contains_key(q) {
            let j = choose|j: int| 0 <= j < u.len() && key_of(u[j]) == q;
            assert(key_of(s[j]) == q);
        }
        if q == k {
            assert(key_of(u[i]) == q);
        }
    }
    assert forall|q: PoolKey<S>| #[trigger] keyed_map(u).contains_key(q) implies keyed_map(u)[q] == keyed_map(
        s,
    ).insert(k, e.value)[q] by {
        let j = choose|j: int| 0 <= j < u.len() && key_of(u[j]) == q;
        if q == k {
            assert(j == i);
        } else {
            let j2 = choose|j2: int| 0 <= j2 < s.len() && key_of(s[j2]) == q;
            assert(key_of(s[j]) == q);
            assert(j2 == j);
        }
    }
    assert(keyed_map(u) =~= keyed_map(s).insert(k, e.value));
}

proof fn lemma_keyed_push<T, S>(s: Seq<Keyed<T, S>>, e: Keyed<T, S>)
    requires
        keys_distinct(s),
        !keyed_map(s).contains_key(key_of(e)),
    ensures
        keys_distinct(s.push(e)),
        keyed_map(s.push(e)) == keyed_map(s).insert(key_of(e), e.value),
{
    let u = s.push(e);
    let k = key_of(e);
    assert forall|a: int, b: int| 0 <= a < u.len() && 0 <= b < u.len() && a != b implies key_of(u[a]) != key_of(
        u[b],
    ) by {
        if a < s.len() && b < s.len() {
            assert(u[a] == s[a] && u[b] == s[b]);
        } else if a < s.len() {
            assert(u[a] == s[a]);
            assert(keyed_map(s).contains_key(key_of(s[a])));
        } else {
            assert(u[b] == s[b]);
            assert(keyed_map(s).contains_key(key_of(s[b])));
        }
    }
    assert forall|q: PoolKey<S>| #[trigger] keyed_map(u).contains_key(q) <==> keyed_map(s).insert(
        k,
        e.value,
    ).contains_key(q) by {
        if keyed_map(s).contains_key(q) {
            let j = choose|j: int| 0 <= j < s.len() && key_of(s[j]) == q;
            assert(u[j] == s[j]);
        }
        if keyed_map(u).contains_key(q) && q != k {
            let j = choose|j: int| 0 <= j < u.len() && key_of(u[j]) == q;
            assert(j < s.len());
            assert(u[j] == s[j]);
        }
        if q == k {
            assert(u[s.len() as int] == e);
        }
    }
    assert forall|q: PoolKey<S>| #[trigger] keyed_map(u).contains_key(q) implies keyed_map(u)[q] == keyed_map(
        s,
    ).insert(k, e.value)[q] by {
        let j = choose|j: int| 0 <= j < u.len() && key_of(u[j]) == q;
        if q == k {
            assert(u[s.len() as int] == e);
            if j < s.len() {
                assert(u[j] == s[j]);
                assert(keyed_map(s).contains_key(key_of(s[j])));
            }
        } else {
            let j2 = choose|j2: int| 0 <= j2 < s.len() && key_of(s[j2]) == q;
            assert(u[j2] == s[j2]);
            assert(j2 == j);
        }
    }
    assert(keyed_map(u) =~= keyed_map(s).insert(k, e.value));
}

proof fn lemma_keyed_remove<T, S>(s: Seq<Keyed<T, S>>, i: int)
    requires
        keys_distinct(s),
        0 <= i < s.len(),
    ensures
        keys_distinct(s.remove(i)),
        keyed_map(s.remove(i)) == keyed_map(s).remove(key_of(s[i])),
{
    let u = s.remove(i);
    let k = key_of(s[i]);
    assert forall|a: int, b: int| 0 <= a < u.len() && 0 <= b < u.len() && a != b implies key_of(u[a]) != key_of(
        u[b],
    ) by {
        let a2 = if a < i { a } else { a + 1 };
        let b2 = if b < i { b } else { b + 1 };
        assert(u[a] == s[a2] && u[b] == s[b2]);
    }
    assert forall|q: PoolKey<S>| #[trigger] keyed_map(u).contains_key(q) <==> keyed_map(s).remove(
        k,
    ).contains_key(q) by {
        if keyed_map(s).contains_key(q) && q != k {
            let j = choose|j: int| 0 <= j < s.len() && key_of(s[j]) == q;
            assert(j != i);
            let j2 = if j < i { j } else { j - 1 };
            assert(u[j2] == s[j]);
        }
        if keyed_map(u).contains_key(q) {
            let j = choose|j: int| 0 <= j < u.len() && key_of(u[j]) == q;
            let j2 = if j < i { j } else { j + 1 };
            assert(u[j] == s[j2]);
            assert(j2 != i);
        }
    }
    assert forall|q: PoolKey<S>| #[trigger] keyed_map(u).contains_key(q) implies keyed_map(u)[q] == keyed_map(
        s,
    ).remove(k)[q] by {
        let j = choose|j: int| 0 <= j < u.len() && key_of(u[j]) == q;
        let j2 = if j < i { j } else { j + 1 };
        assert(u[j] == s[j2]);
        lemma_keyed_value(s, j2);
    }
    assert(keyed_map(u) =~= keyed_map(s).remove(k));
}

/// The position of the value kept for (`via`, `signer`), where there is
/// one.
fn find_key<T, S: Copy + PartialEq>(s: &Vec<Keyed<T, S>>, via: &str, signer: &S) -> (r: Option<usize>)
    requires
        keys_distinct(s@),
        vstd::laws_eq::obeys_concrete_eq::<S>(),
    ensures
        match r {
            Some(i) => i < s@.len() && key_of(s@[i as int]) == (via@, *signer),
            None => !keyed_map(s@).contains_key((via@, *signer)),
        },
{
    proof {
        reveal(vstd::laws_eq::obeys_concrete_eq);
    }
    let mut i: usize = 0;
    while i < s.len()
        invariant
            i <= s.len(),
            vstd::laws_eq::obeys_concrete_eq::<S>(),
            forall|j: int| 0 <= j < i ==> key_of(#[trigger] s@[j]) != (via@, *signer),
        decreases s.len() - i,
    {
        proof {
            reveal(vstd::laws_eq::obeys_concrete_eq);
        }
        if str_equals(s[i].via.as_str(), via) && s[i].signer == *signer {
            return Some(i);
        }
        i = i + 1;
    }
    proof {
        if keyed_map(s@).contains_key((via@, *signer)) {
            let j = choose|j: int| 0 <= j < s@.len() && key_of(s@[j]) == (via@, *signer);
            assert(key_of(s@[j]) != (via@, *signer));
        }
    }
    None
}

/// The values of `s` whose endpoint is not `via`.
fn drop_endpoint<T, S>(s: Vec<Keyed<T, S>>, via: &str) -> (r: Vec<Keyed<T, S>>)
    requires
        keys_distinct(s@),
    ensures
        keys_distinct(r@),
        keyed_map(r@) == without_endpoint(keyed_map(s@), via@),
{
    let ghost old_s = s@;
    let mut rest = s;
    let mut kept: Vec<Keyed<T, S>> = Vec::new();
    while rest.len() > 0
        invariant
            keys_distinct(old_s),
            rest@ == old_s.take(rest@.len() as int),
            rest@.len() <= old_s.len(),
            keys_distinct(kept@),
            forall|q: PoolKey<S>| #[trigger]
                keyed_map(kept@).contains_key(q) <==> (exists|j: int|
                    rest@.len() <= j < old_s.len() && key_of(old_s[j]) == q && q.0 != via@),
            forall|q: PoolKey<S>| #[trigger]
                keyed_map(kept@).contains_key(q) ==> keyed_map(kept@)[q] == keyed_map(old_s)[q],
        decreases rest@.len(),
    {
        let ghost m = rest@.len() as int;
        let e = rest.pop().unwrap();
        proof {
            assert(e == old_s[m - 1]);
            assert(rest@ =~= old_s.take(m - 1));
            lemma_keyed_value(old_s, m - 1);
        }
        if !str_equals(e.via.as_str(), via) {
            proof {
                if keyed_map(kept@).contains_key(key_of(e)) {
                    let j = choose|j: int| m <= j < old_s.len() && key_of(old_s[j]) == key_of(e) && key_of(e).0 != via@;
                    assert(j != m - 1);
                }
                lemma_keyed_push(kept@, e);
            }
            kept.push(e);
            proof {
                assert forall|q: PoolKey<S>| #[trigger] keyed_map(kept@).contains_key(q) <==> (exists|j: int|
                    m - 1 <= j < old_s.len() && key_of(old_s[j]) == q && q.0 != via@) by {
                    if keyed_map(kept@).contains_key(q) && q != key_of(old_s[m - 1]) {
                        let j = choose|j: int| m <= j < old_s.len() && key_of(old_s[j]) == q && q.0 != via@;
                        assert(m - 1 <= j);
                    }
                    if exists|j: int| m - 1 <= j < old_s.len() && key_of(old_s[j]) == q && q.0 != via@ {
                        let j = choose|j: int| m - 1 <= j < old_s.len() && key_of(old_s[j]) == q && q.0 != via@;
                        if j != m - 1 {
                            assert(m <= j);
                        }
                    }
                }
            }
        } else {
            proof {
                assert forall|q: PoolKey<S>| #[trigger] keyed_map(kept@).contains_key(q) <==> (exists|j: int|
                    m - 1 <= j < old_s.len() && key_of(old_s[j]) == q && q.0 != via@) by {
                    if exists|j: int| m - 1 <= j < old_s.len() && key_of(old_s[j]) == q && q.0 != via@ {
                        let j = choose|j: int| m - 1 <= j < old_s.len() && key_of(old_s[j]) == q && q.0 != via@;
                        if j == m - 1 {
                            assert(q.0 == via@);
                        } else {
                            assert(m <= j);
                        }
                    }
                }
            }
        }
    }
    proof {
        assert forall|q: PoolKey<S>| #[trigger] keyed_map(kept@).contains_key(q) <==> without_endpoint(
            keyed_map(old_s),
            via@,
        ).contains_key(q) by {
            if keyed_map(old_s).contains_key(q) && q.0 != via@ {
                let j = choose|j: int| 0 <= j < old_s.len() && key_of(old_s[j]) == q;
                assert(0 <= j < old_s.len() && key_of(old_s[j]) == q && q.0 != via@);
            }
            if keyed_map(kept@).contains_key(q) {
                let j = choose|j: int| 0 <= j < old_s.len() && key_of(old_s[j]) == q && q.0 != via@;
                assert(keyed_map(old_s).contains_key(q));
            }
        }
        assert(keyed_map(kept@) =~= without_endpoint(keyed_map(old_s), via@));
    }
    kept
}

/// The model of the pool.
#[verifier::reject_recursive_types(S)]
pub struct PoolView<C, S> {
    /// The idle connections of each key that has a list.
    pub idle: Map<PoolKey<S>, Seq<IdleConnection<C>>>,
    /// The QUIB base connection of each key that has one.
    pub quib: Map<PoolKey<S>, C>,
    pub max_idle: nat,
    pub idle_timeout_ms: u64,
}

/// The connection pool's bookkeeping.
pub struct HpprAsyncPool<C, S> {
    connections: Vec<Keyed<Vec<IdleConnection<C>>, S>>,
    quib_bases: Vec<Keyed<C, S>>,
    max_idle: usize,
    idle_timeout_ms: u64,
}

spec fn idle_view<C, S>(m: Map<PoolKey<S>, Vec<IdleConnection<C>>>) -> Map<PoolKey<S>, Seq<IdleConnection<C>>> {
    Map::new(|k: PoolKey<S>| m.contains_key(k), |k: PoolKey<S>| m[k]@)
}

impl<C, S> View for HpprAsyncPool<C, S> {
    type V = PoolView<C, S>;

    closed spec fn view(&self) -> PoolView<C, S> {
        PoolView {
            idle: idle_view(keyed_map(self.connections@)),
            quib: keyed_map(self.quib_bases@),
            max_idle: self.max_idle as nat,
            idle_timeout_ms: self.idle_timeout_ms,
        }
    }
}

/// Whether an idle connection may still be used at `now_ms`: less than the
/// timeout has passed since its last use (none, where the clock reads
/// earlier).
pub open spec fn is_fresh<C>(c: IdleConnection<C>, now_ms: u64, timeout_ms: u64) -> bool {
    (if now_ms >= c.last_used_ms {
        now_ms - c.last_used_ms
    } else {
        0
    }) < timeout_ms
}

/// The position of the last fresh connection of `l`, where there is one.
pub open spec fn last_fresh<C>(l: Seq<IdleConnection<C>>, now_ms: u64, timeout_ms: u64) -> Option<int>
    decreases l.len(),
{
    if l.len() == 0 {
        None
    } else if is_fresh(l.last(), now_ms, timeout_ms) {
        Some(l.len() - 1)
    } else {
        last_fresh(l.drop_last(), now_ms, timeout_ms)
    }
}

/// Every idle list of the pool holds at most `max_idle` connections.
pub open spec fn lists_within_cap<C, S>(v: PoolView<C, S>) -> bool {
    forall|k: PoolKey<S>| #[trigger] v.idle.contains_key(k) ==> v.idle[k].len() <= v.max_idle
}

/// Taking an idle connection for `key` at `now_ms`: the connections of its
/// list are taken last first; stale ones are dropped, and the first fresh
/// one is handed out. A key without a list is left alone.
pub open spec fn after_try_idle<C, S>(v: PoolView<C, S>, key: PoolKey<S>, now_ms: u64) -> (PoolView<C, S>, Option<C>) {
    if v.idle.contains_key(key) {
        let l = v.idle[key];
        match last_fresh(l, now_ms, v.idle_timeout_ms) {
            Some(j) => (PoolView { idle: v.idle.insert(key, l.take(j)), ..v }, Some(l[j].conn)),
            None => (PoolView { idle: v.idle.insert(key, Seq::empty()), ..v }, None),
        }
    } else {
        (v, None)
    }
}

/// Returning a connection for `key` at `now_ms`: QUIB connections are not
/// kept; others join the key's list, which is made where there is none,
/// while it holds fewer than `max_idle`.
pub open spec fn after_release<C, S>(v: PoolView<C, S>, key: PoolKey<S>, conn: C, is_quib: bool, now_ms: u64) -> PoolView<C, S> {
    if is_quib {
        v
    } else {
        let l = if v.idle.contains_key(key) {
            v.idle[key]
        } else {
            Seq::empty()
        };
        PoolView {
            idle: v.idle.insert(
                key,
                if l.len() < v.max_idle {
                    l.push(IdleConnection { conn, last_used_ms: now_ms })
                } else {
                    l
                },
            ),
            ..v
        }
    }
}

proof fn lemma_last_fresh_bounds<C>(l: Seq<IdleConnection<C>>, now_ms: u64, timeout_ms: u64)
    ensures
        last_fresh(l, now_ms, timeout_ms) matches Some(j) ==> 0 <= j < l.len() && is_fresh(l[j], now_ms, timeout_ms),
    decreases l.len(),
{
    if l.len() > 0 && !is_fresh(l.last(), now_ms, timeout_ms) {
        lemma_last_fresh_bounds(l.drop_last(), now_ms, timeout_ms);
    }
}

proof fn lemma_idle_view_insert<C, S>(m: Map<PoolKey<S>, Vec<IdleConnection<C>>>, k: PoolKey<S>, v: Vec<IdleConnection<C>>)
    ensures
        idle_view(m.insert(k, v)) == idle_view(m).insert(k, v@),
{
    assert(idle_view(m.insert(k, v)) =~= idle_view(m).insert(k, v@));
}

proof fn lemma_cap_view<C, S>(s: Seq<Keyed<Vec<IdleConnection<C>>, S>>, max: usize)
    requires
        keys_distinct(s),
        forall|i: int| 0 <= i < s.len() ==> #[trigger] s[i].value@.len() <= max,
    ensures
        forall|k: PoolKey<S>| #[trigger] idle_view(keyed_map(s)).contains_key(k) ==> idle_view(keyed_map(s))[k].len() <= max,
{
    assert forall|k: PoolKey<S>| #[trigger] idle_view(keyed_map(s)).contains_key(k) implies idle_view(keyed_map(s))[k].len() <= max by {
        let j = choose|j: int| 0 <= j < s.len() && key_of(s[j]) == k;
        lemma_keyed_value(s, j);
    }
}

impl<C, S> HpprAsyncPool<C, S> {
    #[verifier::type_invariant]
    spec fn inv(self) -> bool {
        &&& keys_distinct(self.connections@)
        &&& keys_distinct(self.quib_bases@)
        &&& forall|i: int| 0 <= i < self.connections@.len() ==> #[trigger] self.connections@[i].value@.len() <= self.max_idle
    }
}

impl<C, S: Copy + PartialEq> HpprAsyncPool<C, S> {
    /// An empty pool keeping up to four idle connections per key for sixty
    /// seconds.
    pub fn new() -> (r: Self)
        ensures
            r@.idle == Map::<PoolKey<S>, Seq<IdleConnection<C>>>::empty(),
            r@.quib == Map::<PoolKey<S>, C>::empty(),
            r@.max_idle == 4,
            r@.idle_timeout_ms == 60000,
    {
        let r = HpprAsyncPool { connections: Vec::new(), quib_bases: Vec::new(), max_idle: 4, idle_timeout_ms: 60000 };
        proof {
            assert(r@.idle =~= Map::<PoolKey<S>, Seq<IdleConnection<C>>>::empty());
            assert(r@.quib =~= Map::<PoolKey<S>, C>::empty());
        }
        r
    }
}


proof fn lemma_idle_view_without<C, S>(m: Map<PoolKey<S>, Vec<IdleConnection<C>>>, via: Seq<char>)
    ensures
        idle_view(without_endpoint(m, via)) == without_endpoint(idle_view(m), via),
{
    assert(idle_view(without_endpoint(m, via)) =~= without_endpoint(idle_view(m), via));
}

proof fn lemma_cap_update<C, S>(s: Seq<Keyed<Vec<IdleConnection<C>>, S>>, i: int, e: Keyed<Vec<IdleConnection<C>>, S>, max: usize)
    requires
        0 <= i < s.len(),
        forall|j: int| 0 <= j < s.len() ==> #[trigger] s[j].value@.len() <= max,
        e.value@.len() <= max,
    ensures
        forall|j: int| 0 <= j < s.update(i, e).len() ==> #[trigger] s.update(i, e)[j].value@.len() <= max,
{
}

proof fn lemma_cap_push<C, S>(s: Seq<Keyed<Vec<IdleConnection<C>>, S>>, e: Keyed<Vec<IdleConnection<C>>, S>, max: usize)
    requires
        forall|j: int| 0 <= j < s.len() ==> #[trigger] s[j].value@.len() <= max,
        e.value@.len() <= max,
    ensures
        forall|j: int| 0 <= j < s.push(e).len() ==> #[trigger] s.push(e)[j].value@.len() <= max,
{
    assert forall|j: int| 0 <= j < s.push(e).len() implies #[trigger] s.push(e)[j].value@.len() <= max by {
        if j < s.len() {
            assert(s.push(e)[j] == s[j]);
        }
    }
}

impl<C, S: Copy + PartialEq> HpprAsyncPool<C, S> {
    /// Takes an idle connection for (`via`, `signer`) at `now_ms` (see
    /// `after_try_idle`).
    pub fn try_idle(&mut self, via: &str, signer: &S, now_ms: u64) -> (r: Option<C>)
        requires
            vstd::laws_eq::obeys_concrete_eq::<S>(),
        ensures
            (final(self)@, r) == after_try_idle(old(self)@, (via@, *signer), now_ms),
            lists_within_cap(final(self)@),
    {
        proof {
            use_type_invariant(&*self);
            lemma_cap_view(self.connections@, self.max_idle);
        }
        let i = match find_key(&self.connections, via, signer) {
            Some(i) => i,
            None => {
                return None;
            },
        };
        let timeout = self.idle_timeout_ms;
        let mut conns: Vec<Keyed<Vec<IdleConnection<C>>, S>> = Vec::new();
        std::mem::swap(&mut conns, &mut self.connections);
        let ghost old_conns = conns@;
        let mut entry = conns.remove(i);
        let ghost orig = entry.value@;
        let ghost k = key_of(entry);
        proof {
            lemma_keyed_value(old_conns, i as int);
            lemma_last_fresh_bounds(orig, now_ms, timeout);
            assert(orig.len() <= self.max_idle);
            assert(k == (via@, *signer));
            assert(old(self)@.idle[k] == orig);
        }
        let mut found: Option<C> = None;
        while entry.value.len() > 0
            invariant_except_break
                found is None,
                key_of(entry) == k,
                entry.value@.len() <= orig.len(),
                entry.value@ == orig.take(entry.value@.len() as int),
                last_fresh(orig, now_ms, timeout) == last_fresh(entry.value@, now_ms, timeout),
            ensures
                key_of(entry) == k,
                match last_fresh(orig, now_ms, timeout) {
                    Some(j) => found == Some(orig[j].conn) && entry.value@ == orig.take(j),
                    None => found is None && entry.value@.len() == 0,
                },
            decreases entry.value@.len(),
        {
            let ghost before = entry.value@;
            let idle = entry.value.pop().unwrap();
            let elapsed = if now_ms >= idle.last_used_ms {
                now_ms - idle.last_used_ms
            } else {
                0
            };
            if elapsed < timeout {
                proof {
                    assert(before.last() == idle);
                    assert(last_fresh(before, now_ms, timeout) == Some(before.len() - 1));
                    assert(orig[before.len() - 1] == idle);
                    assert(entry.value@ =~= orig.take(before.len() - 1));
                }
                found = Some(idle.conn);
                break;
            }
            proof {
                assert(before.drop_last() == entry.value@);
                assert(entry.value@ =~= orig.take(entry.value@.len() as int));
            }
        }
        let ghost e = entry;
        conns.insert(i, entry);
        proof {
            assert(conns@ =~= old_conns.update(i as int, e));
            lemma_keyed_update(old_conns, i as int, e);
            lemma_idle_view_insert(keyed_map(old_conns), k, e.value);
            lemma_cap_update(old_conns, i as int, e, self.max_idle);
        }
        self.connections = conns;
        proof {
            lemma_cap_view(self.connections@, self.max_idle);
            assert(self@.idle == old(self)@.idle.insert(k, e.value@));
            assert(self@.quib == old(self)@.quib);
            assert(self@.max_idle == old(self)@.max_idle);
            assert(self@.idle_timeout_ms == old(self)@.idle_timeout_ms);
            assert(old(self)@.idle.contains_key(k));
            match last_fresh(orig, now_ms, timeout) {
                Some(j) => {
                    assert(found == Some(orig[j].conn));
                    assert(self@ == (PoolView { idle: old(self)@.idle.insert(k, orig.take(j)), ..old(self)@ }));
                },
                None => {
                    assert(e.value@ =~= Seq::<IdleConnection<C>>::empty());
                    assert(self@ == (PoolView { idle: old(self)@.idle.insert(k, Seq::empty()), ..old(self)@ }));
                },
            }
        }
        found
    }
}


impl<C, S: Copy + PartialEq> HpprAsyncPool<C, S> {
    /// Returns a connection for (`via`, `signer`) at `now_ms` (see
    /// `after_release`); `is_quib` says whether it is a QUIB stream.
    pub fn release(&mut self, via: &str, signer: &S, conn: C, is_quib: bool, now_ms: u64)
        requires
            vstd::laws_eq::obeys_concrete_eq::<S>(),
        ensures
            final(self)@ == after_release(old(self)@, (via@, *signer), conn, is_quib, now_ms),
            lists_within_cap(final(self)@),
    {
        proof {
            use_type_invariant(&*self);
            lemma_cap_view(self.connections@, self.max_idle);
        }
        if is_quib {
            return;
        }
        let max_idle = self.max_idle;
        let idx = find_key(&self.connections, via, signer);
        let mut conns: Vec<Keyed<Vec<IdleConnection<C>>, S>> = Vec::new();
        std::mem::swap(&mut conns, &mut self.connections);
        let ghost old_conns = conns@;
        let ghost k = (via@, *signer);
        let ghost item = IdleConnection { conn, last_used_ms: now_ms };
        match idx {
            Some(i) => {
                let mut entry = conns.remove(i);
                proof {
                    lemma_keyed_value(old_conns, i as int);
                }
                if entry.value.len() < max_idle {
                    entry.value.push(IdleConnection { conn, last_used_ms: now_ms });
                }
                let ghost e = entry;
                conns.insert(i, entry);
                proof {
                    assert(conns@ =~= old_conns.update(i as int, e));
                    lemma_keyed_update(old_conns, i as int, e);
                    lemma_idle_view_insert(keyed_map(old_conns), k, e.value);
                    lemma_cap_update(old_conns, i as int, e, max_idle);
                }
            },
            None => {
                let mut value: Vec<IdleConnection<C>> = Vec::new();
                if 0 < max_idle {
                    value.push(IdleConnection { conn, last_used_ms: now_ms });
                }
                let e = Keyed { via: via.to_string(), signer: *signer, value };
                proof {
                    assert(key_of(e) == k);
                    lemma_keyed_push(old_conns, e);
                    lemma_idle_view_insert(keyed_map(old_conns), k, e.value);
                    lemma_cap_push(old_conns, e, max_idle);
                    if 0 < max_idle {
                        assert(e.value@ =~= Seq::<IdleConnection<C>>::empty().push(item));
                    } else {
                        assert(e.value@ =~= Seq::<IdleConnection<C>>::empty());
                    }
                }
                conns.push(e);
            },
        }
        self.connections = conns;
        proof {
            lemma_cap_view(self.connections@, self.max_idle);
            assert(self@.idle =~= after_release(old(self)@, k, conn, is_quib, now_ms).idle);
        }
    }

    /// Takes the QUIB base connection of (`via`, `signer`) out of the pool,
    /// where there is one.
    pub fn take_quib_base(&mut self, via: &str, signer: &S) -> (r: Option<C>)
        requires
            vstd::laws_eq::obeys_concrete_eq::<S>(),
        ensures
            r == (if old(self)@.quib.contains_key((via@, *signer)) {
                Some(old(self)@.quib[(via@, *signer)])
            } else {
                None
            }),
            final(self)@ == (PoolView { quib: old(self)@.quib.remove((via@, *signer)), ..old(self)@ }),
            lists_within_cap(final(self)@),
    {
        proof {
            use_type_invariant(&*self);
            lemma_cap_view(self.connections@, self.max_idle);
        }
        let i = match find_key(&self.quib_bases, via, signer) {
            Some(i) => i,
            None => {
                proof {
                    assert(self@.quib.remove((via@, *signer)) =~= self@.quib);
                }
                return None;
            },
        };
        let mut bases: Vec<Keyed<C, S>> = Vec::new();
        std::mem::swap(&mut bases, &mut self.quib_bases);
        let ghost old_bases = bases@;
        proof {
            lemma_keyed_value(old_bases, i as int);
            lemma_keyed_remove(old_bases, i as int);
        }
        let base = bases.remove(i);
        self.quib_bases = bases;
        Some(base.value)
    }

    /// Keeps `conn` as the QUIB base connection of (`via`, `signer`),
    /// replacing the one it had.
    pub fn store_quib_base(&mut self, via: &str, signer: &S, conn: C)
        requires
            vstd::laws_eq::obeys_concrete_eq::<S>(),
        ensures
            final(self)@ == (PoolView { quib: old(self)@.quib.insert((via@, *signer), conn), ..old(self)@ }),
            lists_within_cap(final(self)@),
    {
        proof {
            use_type_invariant(&*self);
            lemma_cap_view(self.connections@, self.max_idle);
        }
        let idx = find_key(&self.quib_bases, via, signer);
        let mut bases: Vec<Keyed<C, S>> = Vec::new();
        std::mem::swap(&mut bases, &mut self.quib_bases);
        let ghost old_bases = bases@;
        let e = Keyed { via: via.to_string(), signer: *signer, value: conn };
        proof {
            assert(key_of(e) == (via@, *signer));
        }
        match idx {
            Some(i) => {
                let ghost ge = e;
                bases.set(i, e);
                proof {
                    lemma_keyed_update(old_bases, i as int, ge);
                }
            },
            None => {
                proof {
                    lemma_keyed_push(old_bases, e);
                }
                bases.push(e);
            },
        }
        self.quib_bases = bases;
    }

    /// Forgets every idle and QUIB base connection of the endpoint `via`,
    /// whatever the signer.
    pub fn invalidate(&mut self, via: &str)
        ensures
            final(self)@ == (PoolView {
                idle: without_endpoint(old(self)@.idle, via@),
                quib: without_endpoint(old(self)@.quib, via@),
                ..old(self)@
            }),
            lists_within_cap(final(self)@),
    {
        proof {
            use_type_invariant(&*self);
        }
        let mut conns: Vec<Keyed<Vec<IdleConnection<C>>, S>> = Vec::new();
        std::mem::swap(&mut conns, &mut self.connections);
        let ghost old_conns = conns@;
        let kept = drop_endpoint(conns, via);
        proof {
            lemma_idle_view_without(keyed_map(old_conns), via@);
            assert forall|i: int| 0 <= i < kept@.len() implies #[trigger] kept@[i].value@.len() <= self.max_idle by {
                lemma_keyed_value(kept@, i);
                let q = key_of(kept@[i]);
                assert(keyed_map(old_conns).contains_key(q));
                let j = choose|j: int| 0 <= j < old_conns.len() && key_of(old_conns[j]) == q;
                lemma_keyed_value(old_conns, j);
            }
        }
        self.connections = kept;
        let mut bases: Vec<Keyed<C, S>> = Vec::new();
        std::mem::swap(&mut bases, &mut self.quib_bases);
        self.quib_bases = drop_endpoint(bases, via);
        proof {
            lemma_cap_view(self.connections@, self.max_idle);
        }
    }

    /// Forgets every connection.
    pub fn clear(&mut self)
        ensures
            final(self)@ == (PoolView {
                idle: Map::<PoolKey<S>, Seq<IdleConnection<C>>>::empty(),
                quib: Map::<PoolKey<S>, C>::empty(),
                ..old(self)@
            }),
            lists_within_cap(final(self)@),
    {
        proof {
            use_type_invariant(&*self);
        }
        self.connections = Vec::new();
        self.quib_bases = Vec::new();
        proof {
            assert(self@.idle =~= Map::<PoolKey<S>, Seq<IdleConnection<C>>>::empty());
            assert(self@.quib =~= Map::<PoolKey<S>, C>::empty());
        }
    }
}


/// A connection returned while its list has room, then asked for again
/// before it times out, is the one handed out, and the pool is as it was
/// but for the key's list, which now exists.
pub proof fn lemma_released_connection_is_reused<C, S>(
    v: PoolView<C, S>,
    key: PoolKey<S>,
    conn: C,
    released_ms: u64,
    now_ms: u64,
)
    requires
        (if v.idle.contains_key(key) {
            v.idle[key].len() as int
        } else {
            0int
        }) < v.max_idle,
        is_fresh(IdleConnection { conn, last_used_ms: released_ms }, now_ms, v.idle_timeout_ms),
    ensures
        after_try_idle(after_release(v, key, conn, false, released_ms), key, now_ms) == (
            PoolView {
                idle: v.idle.insert(
                    key,
                    if v.idle.contains_key(key) {
                        v.idle[key]
                    } else {
                        Seq::empty()
                    },
                ),
                ..v
            },
            Some(conn),
        ),
{
    let l = if v.idle.contains_key(key) {
        v.idle[key]
    } else {
        Seq::<IdleConnection<C>>::empty()
    };
    let l2 = l.push(IdleConnection { conn, last_used_ms: released_ms });
    assert(l2.take(l.len() as int) =~= l);
    assert(v.idle.insert(key, l2).insert(key, l) =~= v.idle.insert(key, l));
}

/// QUIB streams are never kept as idle connections.
pub proof fn lemma_quib_streams_not_pooled<C, S>(v: PoolView<C, S>, key: PoolKey<S>, conn: C, now_ms: u64)
    ensures
        after_release(v, key, conn, true, now_ms) == v,
{
}

/// A connection handed out is one of the key's idle connections that had
/// not timed out.
pub proof fn lemma_handed_out_connections_are_fresh<C, S>(v: PoolView<C, S>, key: PoolKey<S>, now_ms: u64)
    requires
        after_try_idle(v, key, now_ms).1 is Some,
    ensures
        v.idle.contains_key(key),
        exists|j: int|
            0 <= j < v.idle[key].len() && v.idle[key][j].conn == after_try_idle(v, key, now_ms).1->0 && is_fresh(
                #[trigger] v.idle[key][j],
                now_ms,
                v.idle_timeout_ms,
            ),
{
    lemma_last_fresh_bounds(v.idle[key], now_ms, v.idle_timeout_ms);
    let j = last_fresh(v.idle[key], now_ms, v.idle_timeout_ms)->0;
    assert(0 <= j < v.idle[key].len() && is_fresh(v.idle[key][j], now_ms, v.idle_timeout_ms));
}

/// After an endpoint is invalidated, nothing is handed out for it, with
/// any signer.
pub proof fn lemma_invalidated_endpoint_not_reused<C, S>(v: PoolView<C, S>, via: Seq<char>, signer: S, now_ms: u64)
    ensures
        ({
            let w = PoolView { idle: without_endpoint(v.idle, via), quib: without_endpoint(v.quib, via), ..v };
            &&& after_try_idle(w, (via, signer), now_ms) == (w, None::<C>)
            &&& !w.quib.contains_key((via, signer))
        }),
{
}

/// No operation lets a key hold more than `max_idle` idle connections.
pub proof fn lemma_operations_keep_cap<C, S>(
    v: PoolView<C, S>,
    key: PoolKey<S>,
    conn: C,
    is_quib: bool,
    now_ms: u64,
)
    requires
        lists_within_cap(v),
    ensures
        lists_within_cap(after_release(v, key, conn, is_quib, now_ms)),
        lists_within_cap(after_try_idle(v, key, now_ms).0),
{
    lemma_last_fresh_bounds(if v.idle.contains_key(key) { v.idle[key] } else { Seq::empty() }, now_ms, v.idle_timeout_ms);
}

} // verus!
