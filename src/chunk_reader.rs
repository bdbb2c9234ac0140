//! The chunk cache of a reader that downloads chunks from a remote
//! server: decoded chunks listed in the cache hint are kept in memory.

use vstd::prelude::*;

use crate::bytes::copy_range;
use crate::index::{digest_eq, Digest};

verus! {

/// Reads chunks through a remote connection; the connection itself and the
/// decoding are done by the caller, this keeps the cache.
pub struct RemoteChunkReader {
    cache_hint: Vec<Digest>,
    cache: Vec<(Digest, Vec<u8>)>,
}

/// The cached data of `d`, the first entry for it.
pub open spec fn cache_lookup(c: Seq<(Seq<u8>, Seq<u8>)>, d: Seq<u8>) -> Option<Seq<u8>>
    decreases c.len(),
{
    if c.len() == 0 {
        None
    } else if c[0].0 == d {
        Some(c[0].1)
    } else {
        cache_lookup(c.subrange(1, c.len() as int), d)
    }
}

impl RemoteChunkReader {
    /// Digests whose chunks are cached once read.
    pub closed spec fn spec_hint(&self) -> Set<Seq<u8>> {
        Set::new(|d: Seq<u8>| exists|i: int| 0 <= i < self.cache_hint@.len() && self.cache_hint@[i]@ == d)
    }

    /// The cached chunks, digest and data.
    pub closed spec fn spec_cache(&self) -> Seq<(Seq<u8>, Seq<u8>)> {
        self.cache@.map_values(|e: (Digest, Vec<u8>)| (e.0@, e.1@))
    }

    /// A reader that caches the chunks listed in `cache_hint`.
    pub fn new(cache_hint: Vec<Digest>) -> (r: Self)
        ensures
            r.spec_hint() == Set::new(|d: Seq<u8>| exists|i: int| 0 <= i < cache_hint@.len() && cache_hint@[i]@ == d),
            r.spec_cache().len() == 0,
    {
        let r = RemoteChunkReader { cache_hint, cache: Vec::new() };
        assert(r.spec_cache() =~= Seq::<(Seq<u8>, Seq<u8>)>::empty());
        r
    }

    /// The cached data of a chunk, where it was cached.
    pub fn cached_chunk(&self, digest: &Digest) -> (r: Option<Vec<u8>>)
        ensures
            match cache_lookup(self.spec_cache(), digest@) {
                Some(data) => r is Some && r->Some_0@ == data,
                None => r is None,
            },
    {
        let mut i: usize = 0;
        assert(self.spec_cache().subrange(0, self.cache@.len() as int) =~= self.spec_cache());
        while i < self.cache.len()
            invariant
                0 <= i <= self.cache@.len(),
                cache_lookup(self.spec_cache(), digest@) == cache_lookup(
                    self.spec_cache().subrange(i as int, self.cache@.len() as int),
                    digest@,
                ),
            decreases self.cache@.len() - i,
        {
            let ghost rest = self.spec_cache().subrange(i as int, self.cache@.len() as int);
            assert(rest.subrange(1, rest.len() as int) =~= self.spec_cache().subrange(
                i + 1,
                self.cache@.len() as int,
            ));
            assert(rest[0] == (self.cache@[i as int].0@, self.cache@[i as int].1@));
            if digest_eq(&self.cache[i].0, digest) {
                let data = &self.cache[i].1;
                return Some(copy_range(data.as_slice(), 0, data.len()));
            }
            i = i + 1;
        }
        assert(self.spec_cache().subrange(i as int, self.cache@.len() as int).len() == 0);
        None
    }

    /// Whether the chunk is in the cache hint.
    pub fn use_cache(&self, digest: &Digest) -> (r: bool)
        ensures
            r == self.spec_hint().contains(digest@),
    {
        let mut i: usize = 0;
        while i < self.cache_hint.len()
            invariant
                0 <= i <= self.cache_hint@.len(),
                forall|j: int| 0 <= j < i ==> self.cache_hint@[j]@ != digest@,
            decreases self.cache_hint@.len() - i,
        {
            if digest_eq(&self.cache_hint[i], digest) {
                return true;
            }
            i = i + 1;
        }
        false
    }

    /// Record a chunk just read and decoded: it is cached where the hint
    /// lists it.
    pub fn chunk_decoded(&mut self, digest: &Digest, data: &[u8])
        ensures
            final(self).spec_hint() == old(self).spec_hint(),
            old(self).spec_hint().contains(digest@) ==> final(self).spec_cache() == old(
                self,
            ).spec_cache().push((digest@, data@)),
            !old(self).spec_hint().contains(digest@) ==> final(self).spec_cache() == old(self).spec_cache(),
    {
        if self.use_cache(digest) {
            let copy = copy_range(data, 0, data.len());
            assert(data@.subrange(0, data@.len() as int) =~= data@);
            self.cache.push((*digest, copy));
            proof {
                assert(final(self).spec_cache() =~= old(self).spec_cache().push((digest@, data@)));
            }
        }
    }
}

} // verus!
