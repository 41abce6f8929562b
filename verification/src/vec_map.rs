//! A table indexed by position that grows on first write and reads as the
//! default value wherever nothing was written.

use core::ops::RangeTo;
use vstd::prelude::*;

verus! {

/// The range of all indices below its `end`, as `..end` writes it.
#[verifier::external_type_specification]
#[verifier::reject_recursive_types(Idx)]
pub struct ExRangeTo<Idx>(RangeTo<Idx>);

/// A growable table of `T`, indexed from zero.
///
/// The table is modelled as the sequence of its allocated slots. A slot that
/// was never allocated reads as `T::default()` in [`VecMap::spec_get`].
#[derive(Debug)]
pub struct VecMap<T>(pub Vec<T>);

impl<T> Default for VecMap<T> {
    fn default() -> (m: Self)
        ensures
            m@ == Seq::<T>::empty(),
    {
        Self::new()
    }
}

impl<'a, T> IntoIterator for &'a VecMap<T> {
    type Item = &'a T;

    type IntoIter = core::slice::Iter<'a, T>;

    fn into_iter(self) -> (it: Self::IntoIter)
        ensures
            vstd::std_specs::slice::into_iter_elts(it) == self@,
    {
        broadcast use vstd::std_specs::slice::axiom_spec_slice_iter;

        let it = self.0.as_slice().iter();
        proof {
            assert(vstd::std_specs::slice::into_iter_elts(it) =~= self@);
        }
        it
    }
}

impl<T> IntoIterator for VecMap<T> {
    type Item = T;

    type IntoIter = std::vec::IntoIter<T>;

    fn into_iter(self) -> (it: Self::IntoIter)
        ensures
            it == vstd::std_specs::vec::spec_into_iter(self.0),
    {
        self.0.into_iter()
    }
}

impl<T> View for VecMap<T> {
    type V = Seq<T>;

    open spec fn view(&self) -> Seq<T> {
        self.0@
    }
}

/// Whether `x` is a value that `T::default()` may return: what an unwritten
/// slot of a table of `T` holds.
pub open spec fn is_default<T: Default>(x: T) -> bool {
    call_ensures(T::default, (), x)
}

/// `after` is `before` grown to at least `len` slots: the slots of `before`
/// are kept, and every added slot holds a default value.
pub open spec fn grown_to<T: Default>(before: Seq<T>, after: Seq<T>, len: int) -> bool {
    &&& after.len() == if len <= before.len() { before.len() as int } else { len }
    &&& forall|j: int| 0 <= j < before.len() ==> after[j] == before[j]
    &&& forall|j: int| before.len() <= j < after.len() ==> is_default(#[trigger] after[j])
}

impl<T> VecMap<T> {
    /// An empty table.
    pub fn new() -> (m: Self)
        ensures
            m@ == Seq::<T>::empty(),
    {
        VecMap(Vec::new())
    }

    /// An empty table with room for `capacity` slots.
    pub fn with_capacity(capacity: usize) -> (m: Self)
        ensures
            m@ == Seq::<T>::empty(),
    {
        VecMap(Vec::with_capacity(capacity))
    }

    /// The number of allocated slots.
    pub fn len(&self) -> (n: usize)
        ensures
            n == self@.len(),
    {
        self.0.len()
    }

    /// Whether no slot is allocated.
    pub fn is_empty(&self) -> (b: bool)
        ensures
            b == (self@.len() == 0),
    {
        self.0.len() == 0
    }

    /// The allocated slots themselves, for splicing.
    pub fn inner_mut(&mut self) -> (v: &mut Vec<T>)
        ensures
            *v == old(self).0,
            final(self).0 == *final(v),
    {
        &mut self.0
    }
}

impl<T: Default> VecMap<T> {
    /// The slot at `i`, which must be allocated.
    pub fn get_existing(&self, i: usize) -> (r: &T)
        requires
            i < self@.len(),
        ensures
            *r == self@[i as int],
    {
        &self.0[i]
    }

    /// The slot at `i` for writing, allocated first where the table is
    /// shorter: the table grows to `i + 1` slots and no further.
    pub fn get_mut(&mut self, i: usize) -> (r: &mut T)
        requires
            i < usize::MAX,
        ensures
            i < old(self)@.len() ==> *r == old(self)@[i as int],
            i >= old(self)@.len() ==> is_default(*r),
            final(self)@.len() == if i < old(self)@.len() {
                old(self)@.len()
            } else {
                (i + 1) as nat
            },
            final(self)@[i as int] == *final(r),
            forall|j: int|
                0 <= j < old(self)@.len() && j != i ==> final(self)@[j] == old(self)@[j],
            forall|j: int|
                old(self)@.len() <= j < final(self)@.len() && j != i ==> is_default(
                    #[trigger] final(self)@[j],
                ),
    {
        self.ensure_space_for(i);
        &mut self.0[i]
    }

    /// Allocates slots up to and including `i`, each new one with the default
    /// value. A table that already has slot `i` is left as it is.
    pub fn ensure_space_for(&mut self, i: usize)
        requires
            i < usize::MAX,
        ensures
            grown_to(old(self)@, final(self)@, i + 1),
    {
        let new_len: usize = i + 1;
        while self.0.len() < new_len
            invariant
                new_len == i + 1,
                old(self)@.len() <= self.0@.len(),
                self.0@.len() <= new_len || self.0@.len() == old(self)@.len(),
                forall|j: int| 0 <= j < old(self)@.len() ==> self.0@[j] == old(self)@[j],
                forall|j: int|
                    old(self)@.len() <= j < self.0@.len() ==> is_default(#[trigger] self.0@[j]),
            decreases new_len - self.0.len(),
        {
            self.0.push(T::default());
        }
    }
}

impl<T: Default + Copy> VecMap<T> {
    /// The value at `i`: what was written there, or a default value where
    /// the table ends before `i`. The table is left as it is.
    pub fn get(&self, i: usize) -> (r: T)
        ensures
            i < self@.len() ==> r == self@[i as int],
            i >= self@.len() ==> is_default(r),
    {
        if i < self.0.len() {
            self.0[i]
        } else {
            T::default()
        }
    }

    /// Sets every slot in the range `to` to `val`, allocating up to its end
    /// first. Slots from the end of the range on are kept.
    pub fn set_all(&mut self, to: RangeTo<usize>, val: T)
        ensures
            final(self)@.len() == if to.end <= old(self)@.len() {
                old(self)@.len()
            } else {
                to.end as nat
            },
            forall|j: int| 0 <= j < to.end ==> final(self)@[j] == val,
            forall|j: int| to.end <= j < old(self)@.len() ==> final(self)@[j] == old(self)@[j],
    {
        let to = to.end;
        if to > 0 {
            self.ensure_space_for(to - 1);
            let ghost grown = self.0@;
            let mut i: usize = 0;
            while i < to
                invariant
                    i <= to <= self.0@.len(),
                    self.0@.len() == grown.len(),
                    forall|j: int| 0 <= j < i ==> self.0@[j] == val,
                    forall|j: int| i <= j < grown.len() ==> self.0@[j] == grown[j],
                decreases to - i,
            {
                self.0.set(i, val);
                i += 1;
            }
        }
    }
}

/// What a table of booleans holds at `i`: what was written there, or
/// `false`.
pub open spec fn flag_at(row: Seq<bool>, i: int) -> bool {
    if 0 <= i < row.len() {
        row[i]
    } else {
        false
    }
}

impl VecMap<bool> {
    /// Writes `val` at `i`, allocating up to there first. Every other place
    /// reads as before.
    pub fn set_flag(&mut self, i: usize, val: bool)
        requires
            i < usize::MAX,
        ensures
            final(self)@.len() == if i < old(self)@.len() {
                old(self)@.len()
            } else {
                (i + 1) as nat
            },
            forall|j: int|
                #[trigger] flag_at(final(self)@, j) == if j == i {
                    val
                } else {
                    flag_at(old(self)@, j)
                },
    {
        self.ensure_space_for(i);
        let ghost grown = self.0@;
        self.0.set(i, val);
        proof {
            assert forall|j: int| #[trigger]
                flag_at(self.0@, j) == if j == i {
                    val
                } else {
                    flag_at(old(self)@, j)
                } by {
                if 0 <= j < grown.len() && j >= old(self)@.len() {
                    lemma_default_flag(grown[j]);
                }
            }
        }
    }

    /// Writes `val` at every place below `to`, allocating up to there first.
    /// Every other place reads as before.
    pub fn set_flags(&mut self, to: usize, val: bool)
        ensures
            final(self)@.len() == if to <= old(self)@.len() {
                old(self)@.len()
            } else {
                to as nat
            },
            forall|j: int|
                #[trigger] flag_at(final(self)@, j) == if 0 <= j < to {
                    val
                } else {
                    flag_at(old(self)@, j)
                },
    {
        self.set_all(..to, val);
    }
}

/// A boolean that was never written reads as `false`.
pub proof fn lemma_default_flag(x: bool)
    requires
        is_default(x),
    ensures
        x == false,
{
}

} // verus!
