use std::collections::HashMap;
use vstd::prelude::*;

use crate::rng::{bounded_draw, Konadare192PxPlusPlus, RngState};

verus! {

broadcast use vstd::std_specs::hash::group_hash_axioms;

/// Largest number of candidates: the draws that pick among them are bounded by `u32`
/// and are exact below `2^31`.
pub const MAX_CANDIDATES: usize = 0x7fff_ffff;

/// The model of an `Unseen` pool.
///
/// `arr` is the index array of a swap-and-pop sampler: positions `0 .. size` hold
/// the backing indices not yet taken, and `polled` lists the indices taken, in order.
/// `remap` is the sparse map that the executable pool keeps in place of `arr`.
pub struct PoolView {
    pub data: Seq<Seq<char>>,
    pub size: nat,
    pub remap: Map<usize, usize>,
    pub arr: Seq<usize>,
    pub polled: Seq<usize>,
}

/// The model of a pool over `data` that has yielded nothing yet.
pub open spec fn fresh_pool(data: Seq<Seq<char>>) -> PoolView {
    PoolView {
        data,
        size: data.len(),
        remap: Map::empty(),
        arr: Seq::new(data.len(), |i: int| i as usize),
        polled: Seq::empty(),
    }
}

/// The model is consistent: `remap` encodes `arr`, and the free positions and the
/// taken indices share out `0 .. data.len()` between them, each index once.
pub open spec fn pool_wf(v: PoolView) -> bool {
    let n = v.data.len();
    &&& n <= MAX_CANDIDATES
    &&& v.size <= n
    &&& v.arr.len() == n
    &&& forall|k: usize| #[trigger] v.remap.contains_key(k) ==> {
        &&& k < n
        &&& v.remap[k] < n
        &&& v.remap[k] >= v.size
        &&& v.remap[k] >= k
    }
    &&& forall|k1: usize, k2: usize|
        #![trigger v.remap[k1], v.remap[k2]]
        v.remap.contains_key(k1) && v.remap.contains_key(k2) && k1 != k2 ==> v.remap[k1]
            != v.remap[k2]
    &&& forall|p: usize|
        #![trigger v.remap.contains_key(p)]
        p < n ==> (if v.remap.contains_key(p) {
            v.remap[p] > p ==> v.arr[p as int] == v.arr[v.remap[p] as int]
        } else {
            v.arr[p as int] == p
        })
    &&& forall|a: int, b: int|
        0 <= a < v.size && 0 <= b < v.size && a != b ==> v.arr[a] != v.arr[b]
    &&& forall|a: int| 0 <= a < v.size ==> v.arr[a] < n
    &&& v.polled.no_duplicates()
    &&& forall|q: int| 0 <= q < v.polled.len() ==> v.polled[q] < n
    &&& forall|a: int, q: int|
        0 <= a < v.size && 0 <= q < v.polled.len() ==> v.arr[a] != v.polled[q]
    &&& v.polled.len() + v.size == n
    &&& forall|x: usize|
        x < n ==> #[trigger] v.polled.contains(x) || exists|a: int|
            0 <= a < v.size && v.arr[a] == x
}

/// One poll on the model with generator state `rng`: the element yielded,
/// the pool after it and the generator after it.
pub open spec fn poll_spec(v: PoolView, rng: RngState) -> (Option<Seq<char>>, PoolView, RngState) {
    if v.size == 0 {
        (None, v, rng)
    } else {
        let (i, rng1) = bounded_draw(rng, v.size as u32);
        let last = (v.size - 1) as nat;
        let j = v.arr[i as int];
        (
            Some(v.data[j as int]),
            PoolView {
                data: v.data,
                size: last,
                remap: v.remap.insert(i as usize, last as usize),
                arr: v.arr.update(i as int, v.arr[last as int]),
                polled: v.polled.push(j),
            },
            rng1,
        )
    }
}

/// The characters of an optional string.
pub open spec fn text_of(r: Option<String>) -> Option<Seq<char>> {
    match r {
        Some(s) => Some(s@),
        None => None,
    }
}

/// A sampler without replacement over a fixed list of candidates.
#[derive(Clone)]
pub struct Unseen {
    data: Vec<String>,
    size: usize,
    indices: HashMap<usize, usize>,
    arr: Ghost<Seq<usize>>,
    polled: Ghost<Seq<usize>>,
}

impl View for Unseen {
    type V = PoolView;

    closed spec fn view(&self) -> PoolView {
        PoolView {
            data: self.data@.map_values(|s: String| s@),
            size: self.size as nat,
            remap: self.indices@,
            arr: self.arr@,
            polled: self.polled@,
        }
    }
}

impl Unseen {
    /// The pool is consistent.
    pub open spec fn wf(&self) -> bool {
        pool_wf(self@)
    }

    /// Creates a new `Unseen` over `data`.
    pub fn new(data: Vec<String>) -> (r: Unseen)
        requires
            data@.len() <= MAX_CANDIDATES,
        ensures
            r@ == fresh_pool(data@.map_values(|s: String| s@)),
            r.wf(),
    {
        let size = data.len();
        let r = Unseen {
            data,
            size,
            indices: HashMap::new(),
            arr: Ghost(Seq::new(size as nat, |i: int| i as usize)),
            polled: Ghost(Seq::empty()),
        };
        proof {
            lemma_fresh_wf(r@.data);
        }
        r
    }

    /// Polls a random element from the data. No index is polled twice.
    pub fn poll(&mut self, rng: &mut Konadare192PxPlusPlus) -> (r: Option<String>)
        requires
            old(self).wf(),
        ensures
            final(self).wf(),
            (text_of(r), final(self)@, final(rng)@) == poll_spec(old(self)@, old(rng)@),
    {
        if self.size == 0 {
            return None;
        }
        let ghost v = self@;
        let n = self.data.len();
        let i = rng.next_with_upper_bound(self.size as u32) as usize;
        let mut j = i;
        let ghost mut prev: usize = i;
        loop
            invariant
                v == self@,
                pool_wf(v),
                n == v.data.len(),
                i < v.size,
                j < n,
                v.arr[j as int] == v.arr[i as int],
                j == i || (v.remap.contains_key(prev) && v.remap[prev] == j && prev != j),
            ensures
                j < n,
                v.arr[j as int] == v.arr[i as int],
                !v.remap.contains_key(j),
            decreases n - j,
        {
            match self.indices.get(&j) {
                Some(k) => {
                    let k = *k;
                    proof {
                        if j != i {
                            assert(v.remap[prev] != v.remap[j]);
                        }
                        prev = j;
                    }
                    j = k;
                },
                None => {
                    break ;
                },
            }
        }
        assert(j == v.arr[i as int]);
        assert((i as u32) as usize == i);
        let last = self.size - 1;
        self.size = last;
        self.indices.insert(i, last);
        proof {
            let arr0 = self.arr@;
            self.arr@ = arr0.update(i as int, arr0[last as int]);
            self.polled@ = self.polled@.push(j);
            lemma_poll_wf(v, i, last);
        }
        Some(self.data[j].clone())
    }

    /// A copy of the candidates.
    pub fn candidates(&self) -> (r: Vec<String>)
        ensures
            r@.map_values(|s: String| s@) == self@.data,
    {
        let mut r: Vec<String> = Vec::new();
        let mut i: usize = 0;
        while i < self.data.len()
            invariant
                i <= self.data@.len(),
                r@.len() == i,
                forall|k: int| 0 <= k < i ==> r@[k]@ == self.data@[k]@,
            decreases self.data@.len() - i,
        {
            r.push(self.data[i].clone());
            i = i + 1;
        }
        assert(r@.map_values(|s: String| s@) =~= self@.data);
        r
    }

    /// Restores the pool to its state after `new`.
    pub fn reset(&mut self)
        ensures
            final(self)@ == fresh_pool(old(self)@.data),
            old(self).wf() ==> final(self).wf(),
    {
        self.size = self.data.len();
        self.indices = HashMap::new();
        proof {
            self.arr@ = Seq::new(self.size as nat, |i: int| i as usize);
            self.polled@ = Seq::empty();
            if old(self).wf() {
                lemma_fresh_wf(self@.data);
            }
        }
        assert(self@ == fresh_pool(old(self)@.data));
    }
}

proof fn lemma_fresh_wf(data: Seq<Seq<char>>)
    requires
        data.len() <= MAX_CANDIDATES,
    ensures
        pool_wf(fresh_pool(data)),
{
    let v = fresh_pool(data);
    assert forall|x: usize| x < data.len() implies #[trigger] v.polled.contains(x) || exists|a: int|
        0 <= a < v.size && v.arr[a] == x by {
        assert(v.arr[x as int] == x);
    }
}

proof fn lemma_poll_wf(v: PoolView, i: usize, last: usize)
    requires
        pool_wf(v),
        i < v.size,
        last == v.size - 1,
    ensures
        pool_wf(
            PoolView {
                data: v.data,
                size: last as nat,
                remap: v.remap.insert(i, last),
                arr: v.arr.update(i as int, v.arr[last as int]),
                polled: v.polled.push(v.arr[i as int]),
            },
        ),
{
    let w = PoolView {
        data: v.data,
        size: last as nat,
        remap: v.remap.insert(i, last),
        arr: v.arr.update(i as int, v.arr[last as int]),
        polled: v.polled.push(v.arr[i as int]),
    };
    let n = v.data.len();
    assert forall|p: usize|
        #![trigger w.remap.contains_key(p)]
        p < n implies (if w.remap.contains_key(p) {
        w.remap[p] > p ==> w.arr[p as int] == w.arr[w.remap[p] as int]
    } else {
        w.arr[p as int] == p
    }) by {
        if p != i {
            assert(v.remap.contains_key(p) == w.remap.contains_key(p));
            if v.remap.contains_key(p) {
                assert(v.remap[p] >= v.size);
            }
        }
    }
    assert forall|k1: usize, k2: usize|
        #![trigger w.remap[k1], w.remap[k2]]
        w.remap.contains_key(k1) && w.remap.contains_key(k2) && k1 != k2 implies w.remap[k1]
        != w.remap[k2] by {
        if k1 != i && k2 != i {
            assert(v.remap[k1] != v.remap[k2]);
        } else if k1 == i {
            assert(v.remap.contains_key(k2));
        } else {
            assert(v.remap.contains_key(k1));
        }
    }
    assert forall|k: usize| #[trigger] w.remap.contains_key(k) implies {
        &&& k < n
        &&& w.remap[k] < n
        &&& w.remap[k] >= w.size
        &&& w.remap[k] >= k
    } by {
        if k != i {
            assert(v.remap.contains_key(k));
        }
    }
    assert(w.polled.no_duplicates()) by {
        assert forall|q: int| 0 <= q < v.polled.len() implies v.polled[q] != v.arr[i as int] by {}
    }
    assert forall|x: usize| x < n implies #[trigger] w.polled.contains(x) || exists|a: int|
        0 <= a < w.size && w.arr[a] == x by {
        if !v.polled.contains(x) {
            let a = choose|a: int| 0 <= a < v.size && v.arr[a] == x;
            if a == i {
                assert(w.polled[w.polled.len() - 1] == x);
            } else if a == last {
                assert(w.arr[i as int] == x);
            } else {
                assert(w.arr[a] == x);
            }
        } else {
            let q = choose|q: int| 0 <= q < v.polled.len() && v.polled[q] == x;
            assert(w.polled[q] == x);
        }
    }
}

/// Every index is yielded exactly once: a consistent pool with no free position
/// left has yielded each of `0 .. data.len()`, with no repetition.
pub proof fn lemma_exhausted_pool_yielded_each_once(v: PoolView)
    requires
        pool_wf(v),
        v.size == 0,
    ensures
        v.polled.len() == v.data.len(),
        v.polled.no_duplicates(),
        forall|x: usize| x < v.data.len() ==> #[trigger] v.polled.contains(x),
{
}

/// A poll on a consistent pool yields, when the pool is not empty, an index not
/// yielded before, and nothing when it is.
pub proof fn lemma_poll_yields_fresh_index(v: PoolView, rng: RngState)
    requires
        pool_wf(v),
    ensures
        ({
            let (r, w, _) = poll_spec(v, rng);
            &&& (r is None <==> v.size == 0)
            &&& v.size > 0 ==> {
                &&& w.polled.len() == v.polled.len() + 1
                &&& w.polled.drop_last() == v.polled
                &&& !v.polled.contains(w.polled.last())
                &&& r == Some(v.data[w.polled.last() as int])
                &&& pool_wf(w)
            }
        }),
{
    if v.size > 0 {
        let (i, _) = bounded_draw(rng, v.size as u32);
        crate::rng::lemma_draw_from_in_range(rng, v.size as u32, crate::rng::MAX_REDRAWS as nat);
        lemma_poll_wf(v, i as usize, (v.size - 1) as usize);
        let (r, w, _) = poll_spec(v, rng);
        assert(w.polled.drop_last() =~= v.polled);
    }
}

} // verus!
