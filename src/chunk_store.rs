//! Garbage collection of the chunk store: each chunk has a modification
//! time; inserting or touching a chunk sets it to now, marking touches all
//! referenced chunks, and sweeping removes the chunks older than a cutoff.

use vstd::prelude::*;

use crate::index::{digest_eq, Digest};

verus! {

/// Chunk digests with their modification times.
pub type StoreView = Seq<(Seq<u8>, i64)>;

/// The modification time of chunk `d`, if it is stored.
pub open spec fn mtime_of(s: StoreView, d: Seq<u8>) -> Option<i64>
    decreases s.len(),
{
    if s.len() == 0 {
        None
    } else if s[0].0 == d {
        Some(s[0].1)
    } else {
        mtime_of(s.subrange(1, s.len() as int), d)
    }
}

/// Each chunk is stored once.
pub open spec fn unique_chunks(s: StoreView) -> bool {
    forall|i: int, j: int| 0 <= i < j < s.len() ==> s[i].0 != s[j].0
}

/// The store after setting the time of chunk `d` (if stored) to `now`.
pub open spec fn touch_spec(s: StoreView, d: Seq<u8>, now: i64) -> StoreView {
    s.map_values(|e: (Seq<u8>, i64)| if e.0 == d { (e.0, now) } else { e })
}

/// The store after touching every chunk of `refs`.
pub open spec fn mark_spec(s: StoreView, refs: Seq<Seq<u8>>, now: i64) -> StoreView
    decreases refs.len(),
{
    if refs.len() == 0 {
        s
    } else {
        touch_spec(mark_spec(s, refs.drop_last(), now), refs.last(), now)
    }
}

/// The store after removing every chunk older than `cutoff`.
pub open spec fn sweep_spec(s: StoreView, cutoff: i64) -> StoreView {
    s.filter(newer_than(cutoff))
}

/// Whether a chunk is not older than `cutoff`.
pub open spec fn newer_than(cutoff: i64) -> spec_fn((Seq<u8>, i64)) -> bool {
    |e: (Seq<u8>, i64)| e.1 >= cutoff
}

proof fn lemma_sweep_push(s: StoreView, x: (Seq<u8>, i64), cutoff: i64)
    ensures
        sweep_spec(s.push(x), cutoff) == if x.1 >= cutoff {
            sweep_spec(s, cutoff).push(x)
        } else {
            sweep_spec(s, cutoff)
        },
{
    reveal(Seq::filter);
    assert(s.push(x).drop_last() =~= s);
}

proof fn lemma_sweep_member(s: StoreView, cutoff: i64, i: int)
    requires
        0 <= i < sweep_spec(s, cutoff).len(),
    ensures
        exists|j: int| 0 <= j < s.len() && s[j] == sweep_spec(s, cutoff)[i],
{
    let w = sweep_spec(s, cutoff);
    assert(w.contains(w[i]));
    s.lemma_filter_contains_rev(newer_than(cutoff), w[i]);
}

/// A chunk store's index of chunks and their modification times.
pub struct ChunkStore {
    chunks: Vec<(Digest, i64)>,
}

pub open spec fn store_view(v: Seq<(Digest, i64)>) -> StoreView {
    v.map_values(|e: (Digest, i64)| (e.0@, e.1))
}

proof fn lemma_mtime_of_index(s: StoreView, d: Seq<u8>, i: int)
    requires
        unique_chunks(s),
        0 <= i < s.len(),
        s[i].0 == d,
    ensures
        mtime_of(s, d) == Some(s[i].1),
    decreases s.len(),
{
    if i > 0 {
        let t = s.subrange(1, s.len() as int);
        assert(s[0].0 != d);
        assert(t[i - 1] == s[i]);
        assert forall|a: int, b: int| 0 <= a < b < t.len() implies t[a].0 != t[b].0 by {
            assert(t[a] == s[a + 1] && t[b] == s[b + 1]);
        }
        lemma_mtime_of_index(t, d, i - 1);
    }
}

proof fn lemma_mtime_of_absent(s: StoreView, d: Seq<u8>)
    requires
        forall|i: int| 0 <= i < s.len() ==> s[i].0 != d,
    ensures
        mtime_of(s, d) is None,
    decreases s.len(),
{
    if s.len() > 0 {
        let t = s.subrange(1, s.len() as int);
        assert forall|i: int| 0 <= i < t.len() implies t[i].0 != d by {
            assert(t[i] == s[i + 1]);
        }
        lemma_mtime_of_absent(t, d);
    }
}

proof fn lemma_mtime_of_some(s: StoreView, d: Seq<u8>)
    requires
        mtime_of(s, d) is Some,
    ensures
        exists|i: int| 0 <= i < s.len() && s[i].0 == d && s[i].1 == mtime_of(s, d)->Some_0,
    decreases s.len(),
{
    if s[0].0 != d {
        let t = s.subrange(1, s.len() as int);
        lemma_mtime_of_some(t, d);
        let i = choose|i: int| 0 <= i < t.len() && t[i].0 == d && t[i].1 == mtime_of(t, d)->Some_0;
        assert(s[i + 1] == t[i]);
    }
}

proof fn lemma_touch_unique(s: StoreView, d: Seq<u8>, now: i64)
    requires
        unique_chunks(s),
    ensures
        unique_chunks(touch_spec(s, d, now)),
        touch_spec(s, d, now).len() == s.len(),
        forall|i: int| 0 <= i < s.len() ==> (#[trigger] touch_spec(s, d, now)[i]).0 == s[i].0,
{
    let t = touch_spec(s, d, now);
    assert forall|i: int, j: int| 0 <= i < j < t.len() implies t[i].0 != t[j].0 by {
        assert(t[i].0 == s[i].0 && t[j].0 == s[j].0);
    }
}

proof fn lemma_mark_keys(s: StoreView, refs: Seq<Seq<u8>>, now: i64)
    requires
        unique_chunks(s),
    ensures
        unique_chunks(mark_spec(s, refs, now)),
        mark_spec(s, refs, now).len() == s.len(),
        forall|i: int| 0 <= i < s.len() ==> (#[trigger] mark_spec(s, refs, now)[i]).0 == s[i].0,
        forall|i: int|
            0 <= i < s.len() ==> (#[trigger] mark_spec(s, refs, now)[i]).1 == s[i].1 || mark_spec(
                s,
                refs,
                now,
            )[i].1 == now,
        forall|i: int, k: int|
            0 <= i < s.len() && 0 <= k < refs.len() && s[i].0 == #[trigger] refs[k] ==> (
            #[trigger] mark_spec(s, refs, now)[i]).1 == now,
    decreases refs.len(),
{
    if refs.len() > 0 {
        let d = refs.drop_last();
        lemma_mark_keys(s, d, now);
        let m = mark_spec(s, d, now);
        lemma_touch_unique(m, refs.last(), now);
        assert forall|i: int, k: int|
            0 <= i < s.len() && 0 <= k < refs.len() && s[i].0 == #[trigger] refs[k] implies (
            #[trigger] mark_spec(s, refs, now)[i]).1 == now by {
            if k < refs.len() - 1 {
                assert(d[k] == refs[k]);
            }
        }
    }
}

/// Garbage collection keeps what marking protected: when every chunk that
/// a snapshot references is touched at `now` and the sweep's cutoff is not
/// after `now`, the sweep removes none of them.
pub proof fn lemma_gc_keeps_marked(s: StoreView, refs: Seq<Seq<u8>>, now: i64, cutoff: i64)
    requires
        unique_chunks(s),
        cutoff <= now,
    ensures
        forall|k: int|
            0 <= k < refs.len() && mtime_of(s, refs[k]) is Some ==> #[trigger] mtime_of(
                sweep_spec(mark_spec(s, refs, now), cutoff),
                refs[k],
            ) == Some(now),
{
    lemma_mark_keys(s, refs, now);
    let m = mark_spec(s, refs, now);
    let w = sweep_spec(m, cutoff);
    assert forall|k: int| 0 <= k < refs.len() && mtime_of(s, refs[k]) is Some implies #[trigger] mtime_of(
        w,
        refs[k],
    ) == Some(now) by {
        lemma_mtime_of_some(s, refs[k]);
        let i = choose|i: int| 0 <= i < s.len() && s[i].0 == refs[k] && s[i].1 == mtime_of(s, refs[k])->Some_0;
        assert(m[i].1 == now && m[i].0 == refs[k]);
        lemma_sweep_keeps(m, cutoff, i);
    }
}

/// A chunk inserted or touched at or after the sweep's cutoff survives the
/// sweep: a session that uploaded a chunk while garbage collection runs
/// keeps it, even before an index references it.
pub proof fn lemma_gc_keeps_fresh(s: StoreView, d: Seq<u8>, cutoff: i64)
    requires
        unique_chunks(s),
        mtime_of(s, d) is Some,
        mtime_of(s, d)->Some_0 >= cutoff,
    ensures
        mtime_of(sweep_spec(s, cutoff), d) == mtime_of(s, d),
{
    lemma_mtime_of_some(s, d);
    let i = choose|i: int| 0 <= i < s.len() && s[i].0 == d && s[i].1 == mtime_of(s, d)->Some_0;
    lemma_sweep_keeps(s, cutoff, i);
}

proof fn lemma_sweep_keeps(m: StoreView, cutoff: i64, i: int)
    requires
        unique_chunks(m),
        0 <= i < m.len(),
        m[i].1 >= cutoff,
    ensures
        mtime_of(sweep_spec(m, cutoff), m[i].0) == Some(m[i].1),
    decreases m.len(),
{
    if m.len() > 0 {
        let last = m.last();
        let d = m.drop_last();
        assert(sweep_spec(m, cutoff) == if last.1 >= cutoff {
            sweep_spec(d, cutoff).push(last)
        } else {
            sweep_spec(d, cutoff)
        }) by {
            assert(m =~= d.push(last));
            lemma_sweep_push(d, last, cutoff);
        }
        assert forall|a: int, b: int| 0 <= a < b < d.len() implies d[a].0 != d[b].0 by {
            assert(d[a] == m[a] && d[b] == m[b]);
        }
        if i < m.len() - 1 {
            assert(d[i] == m[i]);
            lemma_sweep_keeps(d, cutoff, i);
            if last.1 >= cutoff {
                lemma_mtime_of_push(sweep_spec(d, cutoff), last, m[i].0);
            }
        } else {
            lemma_filter_absent(d, cutoff, last.0);
            lemma_mtime_of_push(sweep_spec(d, cutoff), last, m[i].0);
        }
    }
}

proof fn lemma_filter_absent(d: StoreView, cutoff: i64, key: Seq<u8>)
    requires
        forall|i: int| 0 <= i < d.len() ==> d[i].0 != key,
    ensures
        mtime_of(sweep_spec(d, cutoff), key) is None,
{
    let w = sweep_spec(d, cutoff);
    assert forall|i: int| 0 <= i < w.len() implies w[i].0 != key by {
        lemma_sweep_member(d, cutoff, i);
    }
    lemma_mtime_of_absent(w, key);
}

proof fn lemma_mtime_of_push(s: StoreView, e: (Seq<u8>, i64), d: Seq<u8>)
    ensures
        mtime_of(s, d) is Some ==> mtime_of(s.push(e), d) == mtime_of(s, d),
        mtime_of(s, d) is None && e.0 == d ==> mtime_of(s.push(e), d) == Some(e.1),
    decreases s.len(),
{
    if s.len() > 0 {
        let t = s.subrange(1, s.len() as int);
        assert(s.push(e).subrange(1, s.len() as int + 1) =~= t.push(e));
        lemma_mtime_of_push(t, e, d);
    } else {
        assert(s.push(e) =~= seq![e]);
    }
}

impl ChunkStore {
    pub closed spec fn view(&self) -> StoreView {
        store_view(self.chunks@)
    }

    /// An empty store.
    pub fn new() -> (r: Self)
        ensures
            r.view().len() == 0,
            unique_chunks(r.view()),
    {
        let r = ChunkStore { chunks: Vec::new() };
        assert(r.view() =~= Seq::<(Seq<u8>, i64)>::empty());
        r
    }

    fn find(&self, digest: &Digest) -> (r: Option<usize>)
        ensures
            match r {
                Some(i) => i < self.view().len() && self.view()[i as int].0 == digest@,
                None => forall|i: int| 0 <= i < self.view().len() ==> self.view()[i].0 != digest@,
            },
    {
        let mut i: usize = 0;
        while i < self.chunks.len()
            invariant
                0 <= i <= self.chunks@.len(),
                forall|j: int| 0 <= j < i ==> self.view()[j].0 != digest@,
            decreases self.chunks@.len() - i,
        {
            if digest_eq(&self.chunks[i].0, digest) {
                return Some(i);
            }
            i = i + 1;
        }
        None
    }

    /// Set the modification time of a stored chunk to `now`; false where
    /// it is not stored.
    pub fn touch_chunk(&mut self, digest: &Digest, now: i64) -> (r: bool)
        requires
            unique_chunks(old(self).view()),
        ensures
            unique_chunks(final(self).view()),
            r == mtime_of(old(self).view(), digest@) is Some,
            final(self).view() == touch_spec(old(self).view(), digest@, now),
    {
        match self.find(digest) {
            Some(i) => {
                let ghost v0 = self.view();
                proof {
                    lemma_mtime_of_index(v0, digest@, i as int);
                }
                let d = self.chunks[i].0;
                self.chunks.set(i, (d, now));
                proof {
                    assert forall|j: int| 0 <= j < v0.len() implies #[trigger] self.view()[j] == touch_spec(v0, digest@, now)[j] by {
                        if j != i {
                            assert(v0[j].0 != digest@);
                        }
                    }
                    assert(self.view() =~= touch_spec(v0, digest@, now));
                    lemma_touch_unique(v0, digest@, now);
                }
                true
            },
            None => {
                proof {
                    lemma_mtime_of_absent(self.view(), digest@);
                    assert(self.view() =~= touch_spec(self.view(), digest@, now));
                }
                false
            },
        }
    }

    /// Insert a chunk: a stored chunk is touched (`false`), a new one is
    /// stored with time `now` (`true`).
    pub fn insert_chunk(&mut self, digest: &Digest, now: i64) -> (r: bool)
        requires
            unique_chunks(old(self).view()),
        ensures
            unique_chunks(final(self).view()),
            r == mtime_of(old(self).view(), digest@) is None,
            mtime_of(final(self).view(), digest@) == Some(now),
            forall|d: Seq<u8>| d != digest@ ==> mtime_of(final(self).view(), d) == mtime_of(old(self).view(), d),
    {
        let ghost v0 = self.view();
        if self.touch_chunk(digest, now) {
            proof {
                lemma_mtime_of_some(v0, digest@);
                let i = choose|i: int| 0 <= i < v0.len() && v0[i].0 == digest@ && v0[i].1 == mtime_of(v0, digest@)->Some_0;
                lemma_touch_unique(v0, digest@, now);
                lemma_mtime_of_index(self.view(), digest@, i);
                assert forall|d: Seq<u8>| d != digest@ implies mtime_of(self.view(), d) == mtime_of(v0, d) by {
                    lemma_touch_other(v0, digest@, now, d);
                }
            }
            false
        } else {
            proof {
                lemma_mtime_of_none(v0, digest@);
                assert(touch_spec(v0, digest@, now) =~= v0);
            }
            self.chunks.push((*digest, now));
            proof {
                assert(self.view() =~= v0.push((digest@, now)));
                lemma_mtime_of_push(v0, (digest@, now), digest@);
                assert forall|d: Seq<u8>| d != digest@ implies mtime_of(self.view(), d) == mtime_of(v0, d) by {
                    lemma_mtime_of_push(v0, (digest@, now), d);
                    if mtime_of(v0, d) is None {
                        lemma_mtime_push_other(v0, (digest@, now), d);
                    }
                }
                assert forall|i: int, j: int| 0 <= i < j < self.view().len() implies self.view()[i].0 != self.view()[j].0 by {
                    if j == v0.len() {
                        assert(v0[i].0 != digest@);
                    }
                }
            }
            true
        }
    }

    /// Mark: touch every referenced chunk that is stored.
    pub fn mark(&mut self, refs: &[Digest], now: i64)
        requires
            unique_chunks(old(self).view()),
        ensures
            unique_chunks(final(self).view()),
            final(self).view() == mark_spec(old(self).view(), refs@.map_values(|d: Digest| d@), now),
    {
        let ghost rv = refs@.map_values(|d: Digest| d@);
        let mut i: usize = 0;
        while i < refs.len()
            invariant
                0 <= i <= refs@.len(),
                rv == refs@.map_values(|d: Digest| d@),
                unique_chunks(self.view()),
                self.view() == mark_spec(old(self).view(), rv.subrange(0, i as int), now),
            decreases refs@.len() - i,
        {
            self.touch_chunk(&refs[i], now);
            proof {
                let s = rv.subrange(0, i + 1);
                assert(s.drop_last() =~= rv.subrange(0, i as int));
                assert(s.last() == refs@[i as int]@);
            }
            i = i + 1;
        }
        assert(rv.subrange(0, i as int) =~= rv);
    }

    /// Sweep: remove every chunk older than `cutoff`; returns the removed
    /// digests.
    pub fn sweep(&mut self, cutoff: i64) -> (r: Vec<Digest>)
        requires
            unique_chunks(old(self).view()),
        ensures
            unique_chunks(final(self).view()),
            final(self).view() == sweep_spec(old(self).view(), cutoff),
    {
        let ghost v0 = self.view();
        let mut kept: Vec<(Digest, i64)> = Vec::new();
        let mut removed: Vec<Digest> = Vec::new();
        let mut i: usize = 0;
        while i < self.chunks.len()
            invariant
                0 <= i <= self.chunks@.len(),
                v0 == self.view(),
                store_view(kept@) == sweep_spec(v0.subrange(0, i as int), cutoff),
            decreases self.chunks@.len() - i,
        {
            let e = self.chunks[i];
            proof {
                let s = v0.subrange(0, i + 1);
                assert(s =~= v0.subrange(0, i as int).push(v0[i as int]));
                lemma_sweep_push(v0.subrange(0, i as int), v0[i as int], cutoff);
            }
            if e.1 >= cutoff {
                let ghost k0 = kept@;
                kept.push(e);
                assert(store_view(kept@) =~= store_view(k0).push((e.0@, e.1)));
            } else {
                removed.push(e.0);
            }
            i = i + 1;
        }
        assert(v0.subrange(0, i as int) =~= v0);
        self.chunks = kept;
        proof {
            let w = self.view();
            assert forall|a: int, b: int| 0 <= a < b < w.len() implies w[a].0 != w[b].0 by {
                lemma_filter_unique(v0, cutoff);
            }
        }
        removed
    }
}

proof fn lemma_filter_unique(s: StoreView, cutoff: i64)
    requires
        unique_chunks(s),
    ensures
        unique_chunks(sweep_spec(s, cutoff)),
    decreases s.len(),
{
    if s.len() > 0 {
        let d = s.drop_last();
        assert(s =~= d.push(s.last()));
        lemma_sweep_push(d, s.last(), cutoff);
        assert forall|a: int, b: int| 0 <= a < b < d.len() implies d[a].0 != d[b].0 by {
            assert(d[a] == s[a] && d[b] == s[b]);
        }
        lemma_filter_unique(d, cutoff);
        let w = sweep_spec(d, cutoff);
        if s.last().1 >= cutoff {
            assert forall|i: int| 0 <= i < w.len() implies w[i].0 != s.last().0 by {
                lemma_sweep_member(d, cutoff, i);
                let j = choose|j: int| 0 <= j < d.len() && d[j] == w[i];
                assert(s[j] == d[j]);
            }
            let w2 = w.push(s.last());
            assert forall|a: int, b: int| 0 <= a < b < w2.len() implies w2[a].0 != w2[b].0 by {
                if b == w.len() {
                    assert(w2[a] == w[a]);
                } else {
                    assert(w2[a] == w[a] && w2[b] == w[b]);
                }
            }
        }
    }
}

proof fn lemma_mtime_of_none(s: StoreView, d: Seq<u8>)
    requires
        mtime_of(s, d) is None,
    ensures
        forall|i: int| 0 <= i < s.len() ==> s[i].0 != d,
    decreases s.len(),
{
    if s.len() > 0 {
        let t = s.subrange(1, s.len() as int);
        lemma_mtime_of_none(t, d);
        assert forall|i: int| 0 <= i < s.len() implies s[i].0 != d by {
            if i > 0 {
                assert(s[i] == t[i - 1]);
            }
        }
    }
}

proof fn lemma_touch_other(s: StoreView, key: Seq<u8>, now: i64, d: Seq<u8>)
    requires
        d != key,
    ensures
        mtime_of(touch_spec(s, key, now), d) == mtime_of(s, d),
    decreases s.len(),
{
    if s.len() > 0 {
        let t = s.subrange(1, s.len() as int);
        assert(touch_spec(s, key, now).subrange(1, s.len() as int) =~= touch_spec(t, key, now));
        lemma_touch_other(t, key, now, d);
    }
}

proof fn lemma_mtime_push_other(s: StoreView, e: (Seq<u8>, i64), d: Seq<u8>)
    requires
        e.0 != d,
        mtime_of(s, d) is None,
    ensures
        mtime_of(s.push(e), d) is None,
    decreases s.len(),
{
    if s.len() > 0 {
        let t = s.subrange(1, s.len() as int);
        assert(s.push(e).subrange(1, s.len() as int + 1) =~= t.push(e));
        assert(s.push(e)[0] == s[0]);
        lemma_mtime_push_other(t, e, d);
    } else {
        assert(s.push(e) =~= seq![e]);
        assert(seq![e].subrange(1, 1) =~= Seq::<(Seq<u8>, i64)>::empty());
        assert(mtime_of(Seq::<(Seq<u8>, i64)>::empty(), d) is None);
    }
}

} // verus!
