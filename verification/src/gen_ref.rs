use std::marker::PhantomData;
use vstd::prelude::*;

verus! {

/// A handle into a [`GenArena`]: the index of a bucket and the generation that
/// the bucket had when the handle was issued.
///
/// A handle reaches its item only while the bucket still has that generation
/// and has not been freed, so a handle kept past a `free` can never reach the
/// item that later reuses the bucket.
#[derive(Debug)]
pub struct GenRef<T> {
    idx: usize,
    gen: usize,
    _marker: PhantomData<T>,
}

impl<T> View for GenRef<T> {
    /// `(bucket index, generation)`.
    type V = (usize, usize);

    closed spec fn view(&self) -> (usize, usize) {
        (self.idx, self.gen)
    }
}

impl<T> Clone for GenRef<T> {
    fn clone(&self) -> (r: Self)
        ensures
            r@ == self@,
    {
        GenRef { idx: self.idx, gen: self.gen, _marker: PhantomData }
    }
}

impl<T> Copy for GenRef<T> {

}

impl<T> Default for GenRef<T> {
    /// The null handle: bucket 0 with the largest generation.
    fn default() -> (r: Self)
        ensures
            r@ == null_ref(),
    {
        GenRef { idx: 0, gen: usize::MAX, _marker: PhantomData }
    }
}

impl<T> PartialEq for GenRef<T> {
    fn eq(&self, other: &Self) -> (r: bool) {
        self.idx == other.idx && self.gen == other.gen
    }
}

impl<T> vstd::std_specs::cmp::PartialEqSpecImpl for GenRef<T> {
    open spec fn obeys_eq_spec() -> bool {
        true
    }

    open spec fn eq_spec(&self, other: &Self) -> bool {
        self@ == other@
    }
}

impl<T: Clone> GenRef<T> {
    /// The item that this handle reaches in `arena`, if it is live.
    pub fn deref<'a>(&self, arena: &'a GenArena<T>) -> (r: Option<&'a T>)
        ensures
            r matches Some(x) ==> lookup(arena@, self@) == Some(*x),
            r is None ==> lookup(arena@, self@) is None,
    {
        arena.borrow(self)
    }

    /// Mutable access to the item that this handle reaches in `arena`, if it is live.
    pub fn deref_mut<'a>(&self, arena: &'a mut GenArena<T>) -> (r: Option<&'a mut T>)
        ensures
            r matches Some(m) ==> {
                &&& lookup(old(arena)@, self@) == Some(*m)
                &&& final(arena)@ == write_spec(old(arena)@, self@, *final(m))
            },
            r is None ==> {
                &&& lookup(old(arena)@, self@) is None
                &&& final(arena)@ == old(arena)@
            },
    {
        arena.borrow_mut(self)
    }

    /// Marks this handle's bucket free, when it exists, has the handle's
    /// generation and is not free already.
    pub fn free<'a>(&self, arena: &'a mut GenArena<T>)
        ensures
            final(arena)@ == free_spec(old(arena)@, self@),
    {
        let idx = self.idx;
        if idx < arena.arena.len() {
            if arena.arena[idx].generation == self.gen && !arena.arena[idx].free {
                let bucket = &mut arena.arena[idx];
                bucket.free = true;
            }
        }
    }

    /// Moves the handle to another arena: a clone of the item it reaches in
    /// `from` is stored in `to` and the handle becomes the new one; a handle
    /// that reaches nothing becomes the null handle and `to` is left alone.
    pub fn change_arenas(&mut self, from: &GenArena<T>, to: &mut GenArena<T>)
        requires
            lookup(from@, old(self)@) is Some ==> alloc_ok(old(to)@),
        ensures
            lookup(from@, old(self)@) matches Some(v) ==> exists|c: T|
                cloned(v, c) && (final(to)@, final(self)@) == #[trigger] alloc_spec(old(to)@, c) && lookup(
                    final(to)@,
                    final(self)@,
                ) == Some(c),
            lookup(from@, old(self)@) is None ==> {
                &&& final(self)@ == null_ref()
                &&& final(to)@ == old(to)@
            },
    {
        match self.deref(from) {
            Some(x) => {
                let c = x.clone();
                let ghost before = to@;
                proof {
                    lemma_allocate_then_lookup(before, c);
                }
                *self = to.allocate(c);
            },
            None => {
                *self = GenRef::default();
            },
        }
    }
}

/// The view of the handle that `GenRef::default` returns.
pub open spec fn null_ref() -> (usize, usize) {
    (0usize, usize::MAX)
}

/// One slot of a [`GenArena`].
pub struct GenBucket<T> {
    pub item: Option<T>,
    pub free: bool,
    pub generation: usize,
}

impl<T> GenBucket<T> {
    fn new(item: T) -> (b: Self)
        ensures
            b == fresh_bucket(item, 0),
    {
        GenBucket { item: Some(item), free: false, generation: 0 }
    }
}

/// An occupied bucket holding `item` at generation `generation`.
pub open spec fn fresh_bucket<T>(item: T, generation: usize) -> GenBucket<T> {
    GenBucket { item: Some(item), free: false, generation }
}

/// Whether handle `r` reaches an item in the buckets `s`: its bucket exists,
/// is not free, holds an item and has the handle's generation.
pub open spec fn is_live<T>(s: Seq<GenBucket<T>>, r: (usize, usize)) -> bool {
    &&& r.0 < s.len()
    &&& !s[r.0 as int].free
    &&& s[r.0 as int].generation == r.1
    &&& s[r.0 as int].item is Some
}

/// The item that handle `r` reaches in the buckets `s`, if any.
pub open spec fn lookup<T>(s: Seq<GenBucket<T>>, r: (usize, usize)) -> Option<T> {
    if is_live(s, r) {
        s[r.0 as int].item
    } else {
        None
    }
}

/// Whether `r` was issued by these buckets as far as its index and generation
/// show: its bucket exists and has reached at least the handle's generation.
pub open spec fn is_issued<T>(s: Seq<GenBucket<T>>, r: (usize, usize)) -> bool {
    r.0 < s.len() && r.1 <= s[r.0 as int].generation
}

/// Whether some bucket of `s` is free.
pub open spec fn has_free<T>(s: Seq<GenBucket<T>>) -> bool {
    exists|i: int| 0 <= i < s.len() && #[trigger] s[i].free
}

/// Whether `i` is the lowest index of a free bucket of `s`.
pub open spec fn is_first_free<T>(s: Seq<GenBucket<T>>, i: int) -> bool {
    &&& 0 <= i < s.len()
    &&& s[i].free
    &&& forall|j: int| 0 <= j < i ==> !(#[trigger] s[j].free)
}

/// The lowest index of a free bucket (meaningful when `has_free(s)`).
pub open spec fn first_free<T>(s: Seq<GenBucket<T>>) -> int {
    choose|i: int| is_first_free(s, i)
}

/// Whether the bucket that allocating into `s` would reuse has not reached
/// the largest generation.
pub open spec fn generation_ok<T>(s: Seq<GenBucket<T>>) -> bool {
    has_free(s) ==> s[first_free(s)].generation < usize::MAX
}

/// Whether allocating into `s` stays clear of overflow: the generation of a
/// reused bucket can be raised, and a new bucket's slot can be added.
pub open spec fn alloc_ok<T>(s: Seq<GenBucket<T>>) -> bool {
    &&& generation_ok(s)
    &&& s.len() < usize::MAX
}

/// The buckets and the handle after allocating `item`: the lowest free bucket
/// is reused with its generation raised by one; with no free bucket a new
/// bucket of generation 0 is appended.
pub open spec fn alloc_spec<T>(s: Seq<GenBucket<T>>, item: T) -> (Seq<GenBucket<T>>, (usize, usize)) {
    if has_free(s) {
        let i = first_free(s);
        let g = (s[i].generation + 1) as usize;
        (s.update(i, fresh_bucket(item, g)), (i as usize, g))
    } else {
        (s.push(fresh_bucket(item, 0)), (s.len() as usize, 0usize))
    }
}

/// The buckets after freeing handle `r`: its bucket is marked free when it
/// exists and has the handle's generation; otherwise nothing changes.
pub open spec fn free_spec<T>(s: Seq<GenBucket<T>>, r: (usize, usize)) -> Seq<GenBucket<T>> {
    if r.0 < s.len() && s[r.0 as int].generation == r.1 {
        s.update(r.0 as int, GenBucket { free: true, ..s[r.0 as int] })
    } else {
        s
    }
}

/// The buckets after the item that `r` reaches is replaced by `v`.
pub open spec fn write_spec<T>(s: Seq<GenBucket<T>>, r: (usize, usize), v: T) -> Seq<GenBucket<T>> {
    s.update(r.0 as int, GenBucket { item: Some(v), ..s[r.0 as int] })
}

/// Every set of buckets with a free one has a lowest free one.
pub proof fn lemma_first_free_exists<T>(s: Seq<GenBucket<T>>)
    requires
        has_free(s),
    ensures
        is_first_free(s, first_free(s)),
{
    let k = choose|i: int| 0 <= i < s.len() && #[trigger] s[i].free;
    lemma_first_free_below(s, k);
}

proof fn lemma_first_free_below<T>(s: Seq<GenBucket<T>>, k: int)
    requires
        0 <= k < s.len(),
        s[k].free,
    ensures
        exists|i: int| is_first_free(s, i),
    decreases k,
{
    if forall|j: int| 0 <= j < k ==> !(#[trigger] s[j].free) {
        assert(is_first_free(s, k));
    } else {
        let j = choose|j: int| 0 <= j < k && #[trigger] s[j].free;
        lemma_first_free_below(s, j);
    }
}

/// Whether no two handles of `refs` name the same bucket.
pub open spec fn distinct_buckets(refs: Seq<(usize, usize)>) -> bool {
    forall|i: int, j: int| 0 <= i < refs.len() && 0 <= j < refs.len() && i != j ==> refs[i].0 != refs[j].0
}

/// Whether some handle of `refs` names bucket `x`.
pub open spec fn named(refs: Seq<(usize, usize)>, x: int) -> bool {
    exists|i: int| 0 <= i < refs.len() && refs[i].0 == x
}

/// The position in `refs` of a handle that names bucket `x`.
pub open spec fn naming(refs: Seq<(usize, usize)>, x: int) -> int {
    choose|i: int| 0 <= i < refs.len() && refs[i].0 == x
}

/// The buckets after the items that the handles of `refs` (naming different
/// buckets) reach are replaced by `vals`, position by position.
pub open spec fn write_all<T>(s: Seq<GenBucket<T>>, refs: Seq<(usize, usize)>, vals: Seq<T>) -> Seq<GenBucket<T>> {
    Seq::new(
        s.len(),
        |x: int|
            if named(refs, x) {
                GenBucket { item: Some(vals[naming(refs, x)]), ..s[x] }
            } else {
                s[x]
            },
    )
}

/// A collection of items reached through generational handles.
pub struct GenArena<T> {
    pub arena: Vec<GenBucket<T>>,
}

impl<T> View for GenArena<T> {
    type V = Seq<GenBucket<T>>;

    open spec fn view(&self) -> Seq<GenBucket<T>> {
        self.arena@
    }
}

impl<T> GenArena<T> {
    /// An arena with no buckets.
    pub fn new() -> (a: Self)
        ensures
            a@ == Seq::<GenBucket<T>>::empty(),
    {
        GenArena { arena: Vec::new() }
    }

    /// The item that `gen_ref` reaches, if it is live.
    pub fn borrow<'a>(&'a self, gen_ref: &GenRef<T>) -> (r: Option<&'a T>)
        ensures
            r matches Some(x) ==> lookup(self@, gen_ref@) == Some(*x),
            r is None ==> lookup(self@, gen_ref@) is None,
    {
        let idx = gen_ref.idx;
        if idx < self.arena.len() {
            let bucket = &self.arena[idx];
            if !bucket.free && bucket.generation == gen_ref.gen {
                bucket.item.as_ref()
            } else {
                None
            }
        } else {
            None
        }
    }

    /// Mutable access to the item that `gen_ref` reaches, if it is live.
    /// What is written through the returned reference becomes that bucket's item.
    pub fn borrow_mut<'a>(&'a mut self, gen_ref: &GenRef<T>) -> (r: Option<&'a mut T>)
        ensures
            r matches Some(m) ==> {
                &&& lookup(old(self)@, gen_ref@) == Some(*m)
                &&& final(self)@ == write_spec(old(self)@, gen_ref@, *final(m))
            },
            r is None ==> {
                &&& lookup(old(self)@, gen_ref@) is None
                &&& final(self)@ == old(self)@
            },
    {
        let idx = gen_ref.idx;
        if idx < self.arena.len() {
            let bucket = &mut self.arena[idx];
            if !bucket.free && bucket.generation == gen_ref.gen {
                bucket.item.as_mut()
            } else {
                None
            }
        } else {
            None
        }
    }

    /// The items that two handles reach, when both are live.
    pub fn borrow_2<'a>(&'a self, gen_ref1: &GenRef<T>, gen_ref2: &GenRef<T>) -> (r: Option<(&'a T, &'a T)>)
        ensures
            r matches Some(p) ==> {
                &&& lookup(self@, gen_ref1@) == Some(*p.0)
                &&& lookup(self@, gen_ref2@) == Some(*p.1)
            },
            r is None ==> lookup(self@, gen_ref1@) is None || lookup(self@, gen_ref2@) is None,
    {
        let item1 = self.borrow(gen_ref1)?;
        let item2 = self.borrow(gen_ref2)?;
        Some((item1, item2))
    }

    /// Mutable access to the items that two handles of different buckets
    /// reach, when both are live. What is written through the two references
    /// becomes the items of the two buckets.
    pub fn borrow_2_mut<'a>(&'a mut self, gen_ref1: &GenRef<T>, gen_ref2: &GenRef<T>) -> (r: Option<(&'a mut T, &'a mut T)>)
        requires
            gen_ref1@.0 != gen_ref2@.0,
        ensures
            r matches Some(p) ==> {
                &&& lookup(old(self)@, gen_ref1@) == Some(*p.0)
                &&& lookup(old(self)@, gen_ref2@) == Some(*p.1)
                &&& final(self)@ == write_spec(write_spec(old(self)@, gen_ref1@, *final(p.0)), gen_ref2@, *final(p.1))
            },
            r is None ==> {
                &&& lookup(old(self)@, gen_ref1@) is None || lookup(old(self)@, gen_ref2@) is None
                &&& final(self)@ == old(self)@
            },
    {
        let i1 = gen_ref1.idx;
        let i2 = gen_ref2.idx;
        if i1 >= self.arena.len() || i2 >= self.arena.len() {
            return None;
        }
        let live1 = !self.arena[i1].free && self.arena[i1].generation == gen_ref1.gen && self.arena[i1].item.is_some();
        let live2 = !self.arena[i2].free && self.arena[i2].generation == gen_ref2.gen && self.arena[i2].item.is_some();
        if !(live1 && live2) {
            return None;
        }
        let lo = if i1 < i2 { i1 } else { i2 };
        let hi = if i1 < i2 { i2 } else { i1 };
        let (left, right) = self.arena.as_mut_slice().split_at_mut(hi);
        let (below, _between) = left.split_at_mut(lo + 1);
        let bucket_lo = below.last_mut().unwrap();
        let bucket_hi = right.first_mut().unwrap();
        let item_lo = bucket_lo.item.as_mut().unwrap();
        let item_hi = bucket_hi.item.as_mut().unwrap();
        if i1 < i2 {
            Some((item_lo, item_hi))
        } else {
            Some((item_hi, item_lo))
        }
    }

    /// Mutable access to the items that all the handles reach, in their order,
    /// when every one of them is live; `None` as soon as one is not. Live
    /// handles must name different buckets. What is written through the
    /// references becomes the items of their buckets.
    pub fn borrow_many_mut<'a>(&'a mut self, gen_refs: &'a [GenRef<T>]) -> (r: Option<Vec<&'a mut T>>)
        requires
            (forall|i: int| 0 <= i < gen_refs@.len() ==> #[trigger] lookup(old(self)@, gen_refs@[i]@) is Some)
                ==> distinct_buckets(gen_refs@.map_values(|g: GenRef<T>| g@)),
        ensures
            r is Some <==> (forall|i: int|
                0 <= i < gen_refs@.len() ==> #[trigger] lookup(old(self)@, gen_refs@[i]@) is Some),
            r is None ==> final(self)@ == old(self)@,
            r matches Some(v) ==> {
                &&& v@.len() == gen_refs@.len()
                &&& forall|i: int|
                    0 <= i < v@.len() ==> lookup(old(self)@, gen_refs@[i]@) == Some(*#[trigger] v@[i])
                &&& final(self)@ == write_all(
                    old(self)@,
                    gen_refs@.map_values(|g: GenRef<T>| g@),
                    Seq::new(v@.len(), |i: int| *final(v@[i])),
                )
            },
    {
        let m = gen_refs.len();
        let ghost refs = gen_refs@.map_values(|g: GenRef<T>| g@);
        let mut k: usize = 0;
        while k < m
            invariant
                m == gen_refs@.len(),
                k <= m,
                forall|i: int| 0 <= i < k ==> #[trigger] lookup(self@, gen_refs@[i]@) is Some,
            decreases m - k,
        {
            if self.borrow(&gen_refs[k]).is_none() {
                return None;
            }
            k = k + 1;
        }
        assert(distinct_buckets(refs));
        let ghost s0 = self@;
        let n = self.arena.len();
        let mut out: Vec<Option<&'a mut T>> = Vec::new();
        let mut j: usize = 0;
        while j < m
            invariant
                j <= m,
                out@.len() == j,
                forall|i: int| 0 <= i < j ==> (#[trigger] out@[i]) is None,
            decreases m - j,
        {
            out.push(None);
            j = j + 1;
        }
        let ghost fin = *final(self);
        let mut rest: &'a mut [GenBucket<T>] = self.arena.as_mut_slice();
        let mut b: usize = 0;
        while b < n
            invariant
                b <= n,
                n == s0.len(),
                m == gen_refs@.len(),
                refs == gen_refs@.map_values(|g: GenRef<T>| g@),
                distinct_buckets(refs),
                forall|i: int| 0 <= i < m ==> #[trigger] lookup(s0, refs[i]) is Some,
                rest@ == s0.subrange(b as int, n as int),
                out@.len() == m,
                forall|i: int|
                    0 <= i < m ==> ((#[trigger] out@[i]) is Some <==> refs[i].0 < b),
                forall|i: int|
                    0 <= i < m && out@[i] is Some ==> *(#[trigger] out@[i])->0 == s0[refs[i].0 as int].item->0,
                fin@ == write_all(s0, refs, Seq::new(m as nat, |i: int| *final(out@[i]->0))).subrange(
                    0,
                    b as int,
                ) + final(rest)@,
            decreases n - b,
        {
            let whole = rest;
            let (head, tail) = whole.split_at_mut(1);
            rest = tail;
            let mut i: usize = 0;
            let mut found = false;
            while i < m
                invariant
                    i <= m,
                    m == gen_refs@.len(),
                    refs == gen_refs@.map_values(|g: GenRef<T>| g@),
                    !found ==> forall|q: int| 0 <= q < i ==> (#[trigger] refs[q]).0 != b,
                    found ==> i < m && refs[i as int].0 == b,
                ensures
                    found ==> i < m && refs[i as int].0 == b,
                    !found ==> forall|q: int| 0 <= q < m ==> (#[trigger] refs[q]).0 != b,
                decreases m - i,
            {
                assert(refs[i as int] == gen_refs@[i as int]@);
                if gen_refs[i].idx == b {
                    found = true;
                    break;
                }
                i = i + 1;
            }
            let ghost out_old = out@;
            let ghost finals_old = Seq::new(m as nat, |q: int| *final(out_old[q]->0));
            if found {
                assert(lookup(s0, refs[i as int]) is Some);
                assert(head@[0] == s0[b as int]);
                let bucket = head.first_mut().unwrap();
                let item = bucket.item.as_mut().unwrap();
                out.set(i, Some(item));
                proof {
                    assert(named(refs, b as int));
                    assert(naming(refs, b as int) == i);
                }
            } else {
                proof {
                    assert(!named(refs, b as int));
                }
            }
            proof {
                let finals_new = Seq::new(m as nat, |q: int| *final(out@[q]->0));
                let w_old = write_all(s0, refs, finals_old);
                let w_new = write_all(s0, refs, finals_new);
                assert forall|x: int| 0 <= x < b implies #[trigger] w_new[x] == w_old[x] by {
                    if named(refs, x) {
                        let q = naming(refs, x);
                        assert(refs[q].0 < b);
                        assert(q != i || !found);
                    }
                }
                assert(w_new.subrange(0, b as int) =~= w_old.subrange(0, b as int));
                assert(w_new.subrange(0, b + 1) =~= w_new.subrange(0, b as int).push(w_new[b as int]));
            }
            b = b + 1;
        }
        proof {
            assert forall|i: int| 0 <= i < m implies (#[trigger] out@[i]) is Some by {
                assert(lookup(s0, refs[i]) is Some);
            }
        }
        let ghost filled = out@;
        let mut res: Vec<&'a mut T> = Vec::new();
        let mut q: usize = 0;
        while q < m
            invariant
                q <= m,
                m == filled.len(),
                out@.len() == m,
                forall|i: int| q <= i < m ==> #[trigger] out@[i] == filled[i],
                forall|i: int| 0 <= i < m ==> (#[trigger] filled[i]) is Some,
                res@.len() == q,
                forall|i: int| 0 <= i < q ==> #[trigger] res@[i] == filled[i]->0,
            decreases m - q,
        {
            let slot = out[q].take();
            res.push(slot.unwrap());
            q = q + 1;
        }
        Some(res)
    }

    /// The items that all the handles reach, in their order, when every one of
    /// them is live; `None` as soon as one is not.
    pub fn borrow_many<'a>(&'a self, gen_refs: &'a [GenRef<T>]) -> (r: Option<Vec<&'a T>>)
        ensures
            r is Some <==> (forall|i: int| 0 <= i < gen_refs@.len() ==> #[trigger] lookup(self@, gen_refs@[i]@) is Some),
            r matches Some(v) ==> {
                &&& v@.len() == gen_refs@.len()
                &&& forall|i: int| 0 <= i < v@.len() ==> lookup(self@, gen_refs@[i]@) == Some(*#[trigger] v@[i])
            },
    {
        let mut borrowed_items: Vec<&'a T> = Vec::with_capacity(gen_refs.len());
        let mut k: usize = 0;
        while k < gen_refs.len()
            invariant
                k <= gen_refs@.len(),
                borrowed_items@.len() == k,
                forall|i: int| 0 <= i < k ==> lookup(self@, gen_refs@[i]@) == Some(*#[trigger] borrowed_items@[i]),
                forall|i: int| 0 <= i < k ==> #[trigger] lookup(self@, gen_refs@[i]@) is Some,
            decreases gen_refs@.len() - k,
        {
            match self.borrow(&gen_refs[k]) {
                Some(item) => {
                    borrowed_items.push(item);
                },
                None => {
                    return None;
                },
            }
            k = k + 1;
        }
        Some(borrowed_items)
    }

    /// Marks the bucket of `gen_ref` free, when it exists and has the handle's
    /// generation. The item stays in the bucket until the bucket is reused.
    pub fn free(&mut self, gen_ref: &GenRef<T>)
        ensures
            final(self)@ == free_spec(old(self)@, gen_ref@),
    {
        let idx = gen_ref.idx;
        if idx < self.arena.len() {
            if self.arena[idx].generation == gen_ref.gen {
                let bucket = &mut self.arena[idx];
                bucket.free = true;
            }
        }
    }

    /// Stores `item` and returns its handle: the lowest free bucket is reused
    /// with its generation raised by one, or a new bucket of generation 0 is
    /// appended when none is free.
    pub fn allocate(&mut self, item: T) -> (r: GenRef<T>)
        requires
            alloc_ok(old(self)@),
        ensures
            (final(self)@, r@) == alloc_spec(old(self)@, item),
    {
        let mut idx: usize = 0;
        while idx < self.arena.len()
            invariant
                idx <= self.arena@.len(),
                self@ == old(self)@,
                alloc_ok(self@),
                forall|j: int| 0 <= j < idx ==> !(#[trigger] self.arena@[j].free),
            decreases self.arena@.len() - idx,
        {
            if self.arena[idx].free {
                proof {
                    assert(is_first_free(self@, idx as int));
                    lemma_first_free_exists(self@);
                    lemma_first_free_unique(self@, idx as int, first_free(self@));
                }
                let old_generation = self.arena[idx].generation;
                self.arena.set(idx, GenBucket { item: Some(item), free: false, generation: old_generation + 1 });
                return GenRef { idx, gen: old_generation + 1, _marker: PhantomData };
            }
            idx = idx + 1;
        }
        let idx = self.arena.len();
        self.arena.push(GenBucket::new(item));
        GenRef { idx, gen: 0, _marker: PhantomData }
    }
}

proof fn lemma_first_free_unique<T>(s: Seq<GenBucket<T>>, i: int, j: int)
    requires
        is_first_free(s, i),
        is_first_free(s, j),
    ensures
        i == j,
{
}

/// Storing an item gives a handle that reaches exactly that item.
pub proof fn lemma_allocate_then_lookup<T>(s: Seq<GenBucket<T>>, item: T)
    requires
        generation_ok(s),
        s.len() <= usize::MAX,
    ensures
        lookup(alloc_spec(s, item).0, alloc_spec(s, item).1) == Some(item),
{
    if has_free(s) {
        lemma_first_free_exists(s);
    }
}

/// Storing an item leaves what every live handle reaches unchanged.
pub proof fn lemma_allocate_keeps_live<T>(s: Seq<GenBucket<T>>, item: T, r: (usize, usize))
    requires
        generation_ok(s),
        s.len() <= usize::MAX,
        is_live(s, r),
    ensures
        lookup(alloc_spec(s, item).0, r) == lookup(s, r),
{
    if has_free(s) {
        lemma_first_free_exists(s);
    }
}

/// The handle that storing an item returns was never issued before: it
/// differs from every handle that the arena had handed out.
pub proof fn lemma_allocate_handle_is_fresh<T>(s: Seq<GenBucket<T>>, item: T)
    requires
        generation_ok(s),
        s.len() <= usize::MAX,
    ensures
        !is_issued(s, alloc_spec(s, item).1),
        is_issued(alloc_spec(s, item).0, alloc_spec(s, item).1),
{
    if has_free(s) {
        lemma_first_free_exists(s);
    }
}

/// Storing an item leaves what every handle other than the new one reaches
/// unchanged: live handles keep their items, and handles of a reused bucket
/// stay dead because its generation was raised.
pub proof fn lemma_allocate_keeps_others<T>(s: Seq<GenBucket<T>>, item: T, q: (usize, usize))
    requires
        generation_ok(s),
        s.len() <= usize::MAX,
        q != alloc_spec(s, item).1,
    ensures
        lookup(alloc_spec(s, item).0, q) == lookup(s, q),
{
    if has_free(s) {
        lemma_first_free_exists(s);
    }
}

/// Storing an item keeps every issued handle issued, and a stale handle (one
/// that no longer reaches an item) stays stale: the reused bucket gets a
/// generation that no earlier handle of it carries.
pub proof fn lemma_allocate_keeps_stale<T>(s: Seq<GenBucket<T>>, item: T, r: (usize, usize))
    requires
        generation_ok(s),
        s.len() <= usize::MAX,
        is_issued(s, r),
    ensures
        is_issued(alloc_spec(s, item).0, r),
        lookup(s, r) is None ==> lookup(alloc_spec(s, item).0, r) is None,
{
    if has_free(s) {
        lemma_first_free_exists(s);
    }
}

/// After a handle is freed it reaches nothing.
pub proof fn lemma_free_then_lookup<T>(s: Seq<GenBucket<T>>, r: (usize, usize))
    ensures
        lookup(free_spec(s, r), r) is None,
{
}

/// Freeing a handle leaves what every other handle reaches unchanged, and
/// keeps every issued handle issued.
pub proof fn lemma_free_keeps_others<T>(s: Seq<GenBucket<T>>, r: (usize, usize), q: (usize, usize))
    requires
        q != r,
    ensures
        lookup(free_spec(s, r), q) == lookup(s, q),
        is_issued(s, q) ==> is_issued(free_spec(s, r), q),
{
}

/// Freeing a handle twice is the same as freeing it once.
pub proof fn lemma_free_idempotent<T>(s: Seq<GenBucket<T>>, r: (usize, usize))
    ensures
        free_spec(free_spec(s, r), r) == free_spec(s, r),
{
    if r.0 < s.len() && s[r.0 as int].generation == r.1 {
        assert(free_spec(free_spec(s, r), r) =~= free_spec(s, r));
    }
}

/// Writing through a live handle makes it reach the written value and
/// leaves what every other handle reaches, and which handles are issued,
/// unchanged.
pub proof fn lemma_write_then_lookup<T>(s: Seq<GenBucket<T>>, r: (usize, usize), v: T, q: (usize, usize))
    requires
        is_live(s, r),
    ensures
        lookup(write_spec(s, r, v), r) == Some(v),
        q != r ==> lookup(write_spec(s, r, v), q) == lookup(s, q),
        is_issued(s, q) ==> is_issued(write_spec(s, r, v), q),
{
}

/// Writing through the references that `borrow_many_mut` hands out makes
/// each handle reach the value written through its reference.
pub proof fn lemma_write_all_then_lookup<T>(s: Seq<GenBucket<T>>, refs: Seq<(usize, usize)>, vals: Seq<T>, i: int)
    requires
        distinct_buckets(refs),
        vals.len() == refs.len(),
        forall|j: int| 0 <= j < refs.len() ==> #[trigger] is_live(s, refs[j]),
        0 <= i < refs.len(),
    ensures
        lookup(write_all(s, refs, vals), refs[i]) == Some(vals[i]),
{
    assert(is_live(s, refs[i]));
    assert(named(refs, refs[i].0 as int));
    let q = naming(refs, refs[i].0 as int);
    assert(q == i);
}

} // verus!
