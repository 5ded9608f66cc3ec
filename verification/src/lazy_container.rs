//! A lazy container from which items *cannot* be removed (save by destroying the container).
//! Items *can*, however, be mutated and overwritten.

use vstd::prelude::*;

verus! {

/// An item that was set: the id under which it lies now, and what lay there
/// before.
pub struct IndexEntry<I, T> {
    pub index: I,
    pub value: Option<T>,
}

/// Something that holds a value at every index and lets the value at an index
/// be changed in place.
pub trait Indexed<Idx>: Sized {
    type Output;

    /// What lies at `idx`.
    spec fn at_spec(&self, idx: &Idx) -> Self::Output;

    /// What lies at `idx`.
    fn at(&self, idx: &Idx) -> (r: &Self::Output)
        ensures
            *r == self.at_spec(idx),
    ;

    /// What lies at `idx`, to be changed in place. Nothing else changes.
    fn at_mut(&mut self, idx: &Idx) -> (r: &mut Self::Output)
        ensures
            *r == old(self).at_spec(idx),
            final(self).at_spec(idx) == *final(r),
            forall|q: Idx| q != *idx ==> #[trigger] final(self).at_spec(&q)
                == old(self).at_spec(&q),
    ;
}

/// Something that has bounds.
pub trait Bounded<Idx> {
    spec fn in_bounds_spec(&self, pos: &Idx) -> bool;

    fn in_bounds(&self, pos: &Idx) -> (r: bool)
        ensures
            r == self.in_bounds_spec(pos),
    ;
}

/// A container whose items are found by position and then handled by id.
pub trait LazyContainer<Idx>: Sized {
    type Item;

    type ItemID: Clone;

    /// Whether an item lies at `pos`.
    spec fn is_set_spec(&self, pos: &Idx) -> bool;

    /// Whether `id` is the id of the item at `pos`.
    spec fn names(&self, pos: &Idx, id: Self::ItemID) -> bool;

    /// Whether `id` is the id of some item.
    spec fn valid(&self, id: Self::ItemID) -> bool;

    /// The item with id `id`.
    spec fn item(&self, id: Self::ItemID) -> Self::Item;

    /// The id of the item at `pos`.
    fn get_id(&self, pos: &Idx) -> (r: Option<Self::ItemID>)
        ensures
            r is Some <==> self.is_set_spec(pos),
            r matches Some(id) ==> self.names(pos, id) && self.valid(id),
    ;

    /// The item with id `id`.
    fn get_at(&self, id: Self::ItemID) -> (r: &Self::Item)
        requires
            self.valid(id),
        ensures
            *r == self.item(id),
    ;

    /// The item with id `id`, to be changed in place.
    fn get_at_mut(&mut self, id: Self::ItemID) -> (r: &mut Self::Item)
        requires
            old(self).valid(id),
        ensures
            *r == old(self).item(id),
            final(self).item(id) == *final(r),
    ;

    /// Whether an item lies at `pos`.
    fn is_set(&self, pos: &Idx) -> (r: bool)
        default_ensures
            r == self.is_set_spec(pos),
    {
        self.get_id(pos).is_some()
    }

    /// Puts `val` at `pos` and hands back where it lies and what lay there
    /// before, or hands `val` back where it cannot be put.
    ///
    /// Unless a container says otherwise, an item can be put only where one
    /// lies already.
    fn set(&mut self, pos: &Idx, val: Self::Item) -> (r: Result<
        IndexEntry<Self::ItemID, Self::Item>,
        Self::Item,
    >)
        ensures
            r matches Err(v) ==> v == val,
        default_ensures
            r is Ok <==> old(self).is_set_spec(pos),
            r matches Ok(entry) ==> entry.value matches Some(before) && (exists|
                id: Self::ItemID,
            |
                #[trigger] old(self).names(pos, id) && before == old(self).item(id)
                    && final(self).item(id) == val),
    {
        if let Some(id) = self.get_id(pos) {
            let ghost named = id;
            let index = id.clone();
            let mut val = val;
            std::mem::swap(self.get_at_mut(id), &mut val);
            proof {
                assert(old(self).names(pos, named));
            }
            Ok(IndexEntry { index, value: Some(val) })
        } else {
            Err(val)
        }
    }
}

/// A container that holds an item at every position.
pub struct DenseContainer<T>(pub T);

/// A container that may hold an item at each position in bounds.
pub struct SparseContainer<T>(pub T);

/// The id of an item of a sparse container: the position at which it lies.
#[derive(Debug, Clone)]
pub struct SparseIndex<Idx: Clone> {
    idx: Idx,
}

impl<Idx: Clone> SparseIndex<Idx> {
    /// The position at which the item lies.
    pub closed spec fn index_spec(&self) -> Idx {
        self.idx
    }

    pub fn get_index(&self) -> (r: &Idx)
        ensures
            *r == self.index_spec(),
    {
        &self.idx
    }
}

impl<Idx: Copy, T: Indexed<Idx>> LazyContainer<Idx> for DenseContainer<T> {
    type Item = T::Output;

    type ItemID = Idx;

    open spec fn is_set_spec(&self, pos: &Idx) -> bool {
        true
    }

    open spec fn names(&self, pos: &Idx, id: Idx) -> bool {
        id == *pos
    }

    open spec fn valid(&self, id: Idx) -> bool {
        true
    }

    open spec fn item(&self, id: Idx) -> T::Output {
        self.0.at_spec(&id)
    }

    fn get_id(&self, pos: &Idx) -> (r: Option<Idx>) {
        let id: Idx = *pos;
        assert(self.names(pos, id) && self.valid(id));
        Some(id)
    }

    fn get_at(&self, id: Idx) -> (r: &T::Output) {
        self.0.at(&id)
    }

    fn get_at_mut(&mut self, id: Idx) -> (r: &mut T::Output) {
        self.0.at_mut(&id)
    }
}

impl<Idx: Copy, Item, T: Indexed<Idx, Output = Option<Item>> + Bounded<Idx>> LazyContainer<
    Idx,
> for SparseContainer<T> {
    type Item = Item;

    type ItemID = SparseIndex<Idx>;

    open spec fn is_set_spec(&self, pos: &Idx) -> bool {
        self.0.in_bounds_spec(pos) && self.0.at_spec(pos) is Some
    }

    open spec fn names(&self, pos: &Idx, id: SparseIndex<Idx>) -> bool {
        id.index_spec() == *pos
    }

    open spec fn valid(&self, id: SparseIndex<Idx>) -> bool {
        self.0.at_spec(&id.index_spec()) is Some
    }

    open spec fn item(&self, id: SparseIndex<Idx>) -> Item {
        self.0.at_spec(&id.index_spec())->0
    }

    fn get_id(&self, pos: &Idx) -> (r: Option<SparseIndex<Idx>>) {
        if self.in_bounds(pos) && self.0.at(pos).is_some() {
            Some(SparseIndex { idx: *pos })
        } else {
            None
        }
    }

    fn get_at(&self, id: SparseIndex<Idx>) -> (r: &Item) {
        match self.0.at(&id.idx) {
            Some(item) => item,
            None => vstd::pervasive::unreached(),
        }
    }

    fn get_at_mut(&mut self, id: SparseIndex<Idx>) -> (r: &mut Item) {
        match self.0.at_mut(&id.idx) {
            Some(item) => item,
            None => vstd::pervasive::unreached(),
        }
    }

    /// Whether an item lies at `pos`. The bounds are not looked at.
    fn is_set(&self, pos: &Idx) -> (r: bool)
        ensures
            r == (self.0.at_spec(pos) is Some),
    {
        self.0.at(pos).is_some()
    }

    /// Puts `val` at `pos`, which may have been empty, and hands back where it
    /// lies and what lay there before. Out of bounds nothing can be put, and
    /// `val` is handed back.
    fn set(&mut self, pos: &Idx, val: Item) -> (r: Result<IndexEntry<SparseIndex<Idx>, Item>, Item>)
        ensures
            r is Ok <==> old(self).in_bounds_spec(pos),
            r is Err ==> forall|q: Idx| #[trigger]
                final(self).0.at_spec(&q) == old(self).0.at_spec(&q),
            r matches Ok(entry) ==> entry.index.index_spec() == *pos && entry.value
                == old(self).0.at_spec(pos) && final(self).0.at_spec(pos) == Some(val)
                && (forall|q: Idx|
                q != *pos ==> #[trigger] final(self).0.at_spec(&q) == old(self).0.at_spec(&q)),
    {
        if self.in_bounds(pos) {
            let mut val = Some(val);
            std::mem::swap(self.0.at_mut(pos), &mut val);
            Ok(IndexEntry { index: SparseIndex { idx: *pos }, value: val })
        } else {
            Err(val)
        }
    }
}

/// A container can be asked for its bounds through [`Bounded`].
impl<Idx, T: Bounded<Idx>> Bounded<Idx> for SparseContainer<T> {
    open spec fn in_bounds_spec(&self, pos: &Idx) -> bool {
        self.0.in_bounds_spec(pos)
    }

    fn in_bounds(&self, pos: &Idx) -> (r: bool) {
        self.0.in_bounds(pos)
    }
}

/// What finds an item of a container again from its id.
pub trait InvertibleContainer<Idx>: LazyContainer<Idx> {
    /// The position of the item with id `id`.
    spec fn pos_spec(&self, id: Self::ItemID) -> Idx;

    /// The position of the item with id `id`.
    fn pos(&self, id: Self::ItemID) -> (r: Idx)
        requires
            self.valid(id),
        ensures
            r == self.pos_spec(id),
    ;

    /// Writes the position of the item with id `id` to `idx`.
    fn write_pos(&self, id: Self::ItemID, idx: &mut Idx)
        requires
            self.valid(id),
        ensures
            *final(idx) == self.pos_spec(id),
    {
        *idx = self.pos(id)
    }
}

/// A container whose items have neighbours.
pub trait LazyGraph<Idx>: LazyContainer<Idx> {
    /// The ids of the items next to the item with id `id`.
    fn adjacent(&self, id: Self::ItemID) -> (r: Vec<Self::ItemID>)
        requires
            self.valid(id),
        ensures
            forall|i: int| 0 <= i < r@.len() ==> self.valid(#[trigger] r@[i]),
    ;
}

} // verus!
