//! A bounded pool of boxed objects kept for reuse, last in first out.
use vstd::prelude::*;

verus! {

/// How many objects a pool keeps at most.
pub const POOL_SIZE: usize = 1024;

/// The pool's contents after `put(x)`: `x` on top, unless the pool is full,
/// in which case `x` is dropped.
pub open spec fn pool_put<T>(s: Seq<T>, x: T) -> Seq<T> {
    if s.len() < POOL_SIZE {
        s.push(x)
    } else {
        s
    }
}

/// What `get` hands out, and the contents afterwards: the object put last.
pub open spec fn pool_get<T>(s: Seq<T>) -> (Option<T>, Seq<T>) {
    if s.len() == 0 {
        (None, s)
    } else {
        (Some(s.last()), s.drop_last())
    }
}

/// Objects kept for reuse: `put` stores one, `get` takes back the one
/// stored last. At most `POOL_SIZE` are kept.
pub struct ObjectPool<T> {
    slots: Vec<Box<T>>,
}

impl<T> ObjectPool<T> {
    /// The objects held, oldest first.
    pub closed spec fn items(&self) -> Seq<T> {
        self.slots@.map_values(|b: Box<T>| *b)
    }

    /// An empty pool.
    pub fn new() -> (r: Self)
        ensures
            r.items() == Seq::<T>::empty(),
    {
        let r = ObjectPool { slots: Vec::new() };
        assert(r.items() =~= Seq::<T>::empty());
        r
    }

    /// Takes the object stored last, if any.
    pub fn get(&mut self) -> (r: Option<Box<T>>)
        ensures
            r matches Some(b) ==> pool_get(old(self).items()).0 == Some(*b),
            r is None <==> pool_get(old(self).items()).0 is None,
            final(self).items() == pool_get(old(self).items()).1,
    {
        let ghost before = self.items();
        let r = self.slots.pop();
        assert(self.items() =~= pool_get(before).1);
        r
    }

    /// Stores `obj` for reuse; a full pool drops it.
    pub fn put(&mut self, obj: Box<T>)
        ensures
            final(self).items() == pool_put(old(self).items(), *obj),
    {
        if self.slots.len() < POOL_SIZE {
            let ghost before = self.items();
            let ghost x = *obj;
            self.slots.push(obj);
            assert(self.items() =~= before.push(x));
        }
    }

    /// Drops every object held.
    pub fn clear(&mut self)
        ensures
            final(self).items() == Seq::<T>::empty(),
    {
        loop
            invariant
                true,
            ensures
                self.items() == Seq::<T>::empty(),
            decreases self.items().len(),
        {
            match self.get() {
                Some(_) => {},
                None => {
                    break;
                },
            }
        }
    }
}

impl<T> Default for ObjectPool<T> {
    fn default() -> (r: Self)
        ensures
            r.items() == Seq::<T>::empty(),
    {
        ObjectPool::new()
    }
}

/// A pool never holds more than `POOL_SIZE` objects: `put` keeps the bound
/// and `get` only shrinks the pool.
pub proof fn lemma_pool_bounded<T>(s: Seq<T>, x: T)
    requires
        s.len() <= POOL_SIZE,
    ensures
        pool_put(s, x).len() <= POOL_SIZE,
        pool_get(s).1.len() <= s.len(),
{
}

/// What `put` stored, `get` gives back, and the pool is as it was; a full
/// pool drops the object instead.
pub proof fn lemma_pool_put_get<T>(s: Seq<T>, x: T)
    ensures
        s.len() < POOL_SIZE ==> pool_get(pool_put(s, x)) == (Some(x), s),
        s.len() >= POOL_SIZE ==> pool_put(s, x) == s,
{
    if s.len() < POOL_SIZE {
        assert(s.push(x).drop_last() =~= s);
    }
}

} // verus!
