//! Grids of nodes: dense ones, which hold a node at every position in bounds,
//! and sparse ones, which may hold none.

use vstd::prelude::*;

verus! {

/// Something that has bounds.
pub trait Bounded<Idx>: Sized {
    spec fn in_bounds_spec(&self, pos: &Idx) -> bool;

    fn in_bounds(&self, pos: &Idx) -> (r: bool)
        ensures
            r == self.in_bounds_spec(pos),
    ;
}

/// A grid that holds a node at every position in bounds.
pub trait DenseGrid<Idx, Node>: Bounded<Idx> {
    /// The node at `pos`.
    spec fn node_spec(&self, pos: &Idx) -> Node;

    /// The node at `pos`.
    fn node(&self, pos: &Idx) -> (r: &Node)
        requires
            self.in_bounds_spec(pos),
        ensures
            *r == self.node_spec(pos),
    ;

    /// The node at `pos`, to be changed in place. The bounds and the other
    /// nodes stay.
    fn node_mut(&mut self, pos: &Idx) -> (r: &mut Node)
        requires
            old(self).in_bounds_spec(pos),
        ensures
            *r == old(self).node_spec(pos),
            final(self).node_spec(pos) == *final(r),
            forall|q: Idx| #[trigger] final(self).in_bounds_spec(&q)
                == old(self).in_bounds_spec(&q),
            forall|q: Idx|
                q != *pos ==> #[trigger] final(self).node_spec(&q) == old(self).node_spec(&q),
    ;
}

/// Marks the way in which a dense grid is a grid.
pub struct Dense;

/// A grid that may hold a node at each position in bounds.
pub trait SparseGrid<Idx, Node>: Bounded<Idx> {
    /// What lies at `pos`.
    spec fn slot_spec(&self, pos: &Idx) -> Option<Node>;

    /// What lies at `pos`.
    fn slot(&self, pos: &Idx) -> (r: &Option<Node>)
        requires
            self.in_bounds_spec(pos),
        ensures
            *r == self.slot_spec(pos),
    ;

    /// What lies at `pos`, to be changed in place. The bounds and the other
    /// positions stay.
    fn slot_mut(&mut self, pos: &Idx) -> (r: &mut Option<Node>)
        requires
            old(self).in_bounds_spec(pos),
        ensures
            *r == old(self).slot_spec(pos),
            final(self).slot_spec(pos) == *final(r),
            forall|q: Idx| #[trigger] final(self).in_bounds_spec(&q)
                == old(self).in_bounds_spec(&q),
            forall|q: Idx|
                q != *pos ==> #[trigger] final(self).slot_spec(&q) == old(self).slot_spec(&q),
    ;
}

/// Marks the way in which a sparse grid is a grid.
pub struct Sparse;

/// A position outside the bounds of a grid was to be written.
#[derive(Debug, Copy, Clone, Eq, PartialEq)]
pub struct OutOfBoundsError(pub &'static str);

/// A node of a dense grid was to be removed.
#[derive(Debug, Copy, Clone, Eq, PartialEq)]
pub struct CannotRemoveError(pub &'static str);

/// What can go wrong when a dense grid is edited.
#[derive(Debug, Copy, Clone, Eq, PartialEq)]
pub enum GridArrayError {
    OutOfBounds(OutOfBoundsError),
    CannotRemove(CannotRemoveError),
}

impl OutOfBoundsError {
    /// The error as a sentence.
    pub open spec fn message_spec(&self) -> Seq<char> {
        "Cannot write out of bounds to grid ("@ + self.0@ + ")"@
    }

    /// The error as a sentence.
    pub fn message(&self) -> (r: String)
        ensures
            r@ == self.message_spec(),
    {
        let mut text = String::from_str("Cannot write out of bounds to grid (");
        text.append(self.0);
        text.append(")");
        text
    }
}

impl CannotRemoveError {
    /// The error as a sentence.
    pub open spec fn message_spec(&self) -> Seq<char> {
        "Cannot remove elements from a dense grid ("@ + self.0@ + ")"@
    }

    /// The error as a sentence.
    pub fn message(&self) -> (r: String)
        ensures
            r@ == self.message_spec(),
    {
        let mut text = String::from_str("Cannot remove elements from a dense grid (");
        text.append(self.0);
        text.append(")");
        text
    }
}

impl GridArrayError {
    /// The error of a write out of bounds as an error of an edit.
    pub fn from_out_of_bounds(e: OutOfBoundsError) -> (r: GridArrayError)
        ensures
            r == GridArrayError::OutOfBounds(e),
    {
        GridArrayError::OutOfBounds(e)
    }

    /// The error of a removal as an error of an edit.
    pub fn from_cannot_remove(e: CannotRemoveError) -> (r: GridArrayError)
        ensures
            r == GridArrayError::CannotRemove(e),
    {
        GridArrayError::CannotRemove(e)
    }

    /// The error as a sentence.
    pub fn message(&self) -> (r: String)
        ensures
            r@ == (match self {
                GridArrayError::OutOfBounds(o) => o.message_spec(),
                GridArrayError::CannotRemove(c) => c.message_spec(),
            }),
    {
        match self {
            GridArrayError::OutOfBounds(o) => o.message(),
            GridArrayError::CannotRemove(c) => c.message(),
        }
    }
}

/// A grid of nodes, in one of two ways: dense or sparse.
pub trait Grid<Idx, Node, Sparsity>: Sized {
    type SetErr;

    type RemoveErr;

    type EditErr;

    /// Whether a node lies at `pos`: the position is in bounds and not empty.
    spec fn has_node(&self, pos: &Idx) -> bool;

    /// Whether `pos` can be written.
    spec fn writable(&self, pos: &Idx) -> bool;

    /// Whether what lies at a position that can be written can be taken away.
    spec fn removable() -> bool;

    /// The node at `pos`.
    spec fn node_at(&self, pos: &Idx) -> Node;

    /// Get the node at a given position, or None if there's none there
    fn get_node(&self, pos: &Idx) -> (r: Option<&Node>)
        ensures
            r is Some <==> self.has_node(pos),
            r matches Some(n) ==> *n == self.node_at(pos),
    ;

    /// Get a mutable reference to the node at a given position, or None if there's none there
    fn get_node_mut(&mut self, pos: &Idx) -> (r: Option<&mut Node>)
        ensures
            r is Some <==> old(self).has_node(pos),
            r is None ==> ((forall|q: Idx| #[trigger] final(self).writable(&q)
                == old(self).writable(&q)) && (forall|q: Idx|
                #[trigger] final(self).has_node(&q) == old(self).has_node(&q)) && (forall|q: Idx|
                old(self).has_node(&q) ==> #[trigger] final(self).node_at(&q) == old(self).node_at(
                    &q,
                ))),
            r matches Some(n) ==> *n == old(self).node_at(pos) && final(self).has_node(pos)
                && final(self).node_at(pos) == *final(n)
                    && (forall|q: Idx| #[trigger] final(self).writable(&q)
                    == old(self).writable(&q)) && (forall|q: Idx|
                q != *pos ==> #[trigger] final(self).has_node(&q) == old(self).has_node(&q)) && (
            forall|q: Idx|
                q != *pos ==> #[trigger] final(self).node_at(&q) == old(self).node_at(&q)),
    ;

    /// Get a mutable reference to the node at a given position. If it doesn't exist, put in a default
    /// and return a reference to that. Returns an error if insertion is impossible (e.g. out of bounds)
    fn get_node_def(&mut self, pos: &Idx, def: Node) -> (r: Result<&mut Node, Self::SetErr>)
        ensures
            r is Ok <==> old(self).writable(pos),
            r is Err ==> ((forall|q: Idx| #[trigger] final(self).writable(&q)
                == old(self).writable(&q)) && (forall|q: Idx|
                #[trigger] final(self).has_node(&q) == old(self).has_node(&q)) && (forall|q: Idx|
                old(self).has_node(&q) ==> #[trigger] final(self).node_at(&q) == old(self).node_at(
                    &q,
                ))),
            r matches Ok(n) ==> *n == (if old(self).has_node(pos) {
                old(self).node_at(pos)
            } else {
                def
            }) && final(self).has_node(pos) && final(self).node_at(pos) == *final(n)
                && (forall|q: Idx| #[trigger] final(self).writable(&q) == old(self).writable(&q))
                && (forall|q: Idx|
                q != *pos ==> #[trigger] final(self).has_node(&q) == old(self).has_node(&q)) && (
            forall|q: Idx|
                q != *pos ==> #[trigger] final(self).node_at(&q) == old(self).node_at(&q)),
    ;

    /// Set a node at a given position, and return the node that was there before, or None if there
    /// wasn't any. Returns an error if insertion is impossible (e.g. out of bounds)
    fn set_node(&mut self, pos: &Idx, node: Node) -> (r: Result<Option<Node>, Self::SetErr>)
        ensures
            r is Ok <==> old(self).writable(pos),
            r is Err ==> ((forall|q: Idx| #[trigger] final(self).writable(&q)
                == old(self).writable(&q)) && (forall|q: Idx|
                #[trigger] final(self).has_node(&q) == old(self).has_node(&q)) && (forall|q: Idx|
                old(self).has_node(&q) ==> #[trigger] final(self).node_at(&q) == old(self).node_at(
                    &q,
                ))),
            r matches Ok(before) ==> before == (if old(self).has_node(pos) {
                Some(old(self).node_at(pos))
            } else {
                None
            }) && final(self).has_node(pos)
                && final(self).node_at(pos) == node
                    && (forall|q: Idx| #[trigger] final(self).writable(&q)
                    == old(self).writable(&q)) && (forall|q: Idx|
                q != *pos ==> #[trigger] final(self).has_node(&q) == old(self).has_node(&q)) && (
            forall|q: Idx|
                q != *pos ==> #[trigger] final(self).node_at(&q) == old(self).node_at(&q)),
    ;

    /// Delete a node at a given position, and return the node that was there before, or None if there
    /// wasn't any. Return an error if deletion at position is impossible.
    fn remove(&mut self, pos: &Idx) -> (r: Result<Option<Node>, Self::RemoveErr>)
        ensures
            r is Ok <==> old(self).writable(pos) && Self::removable(),
            r matches Err(e) ==> e == Self::remove_failure(),
            r is Err ==> ((forall|q: Idx| #[trigger] final(self).writable(&q)
                == old(self).writable(&q)) && (forall|q: Idx|
                #[trigger] final(self).has_node(&q) == old(self).has_node(&q)) && (forall|q: Idx|
                old(self).has_node(&q) ==> #[trigger] final(self).node_at(&q) == old(self).node_at(
                    &q,
                ))),
            r matches Ok(before) ==> before == (if old(self).has_node(pos) {
                Some(old(self).node_at(pos))
            } else {
                None
            }) && !final(self).has_node(pos)
                && (forall|q: Idx| #[trigger] final(self).writable(&q) == old(self).writable(&q))
                    && (forall|q: Idx|
                q != *pos ==> #[trigger] final(self).has_node(&q) == old(self).has_node(&q)) && (
            forall|q: Idx|
                q != *pos ==> #[trigger] final(self).node_at(&q) == old(self).node_at(&q)),
    ;

    /// The error with which `remove` refuses.
    spec fn remove_failure() -> Self::RemoveErr;

    /// The error of a write as an error of an edit.
    spec fn set_error_spec(e: Self::SetErr) -> Self::EditErr;

    /// The error of a removal as an error of an edit.
    spec fn remove_error_spec(e: Self::RemoveErr) -> Self::EditErr;

    /// The error of a write as an error of an edit.
    fn set_error(e: Self::SetErr) -> (r: Self::EditErr)
        ensures
            r == Self::set_error_spec(e),
    ;

    /// The error of a removal as an error of an edit.
    fn remove_error(e: Self::RemoveErr) -> (r: Self::EditErr)
        ensures
            r == Self::remove_error_spec(e),
    ;

    /// Set or remove a node at a given position (depending on whether Some or None is passed in).
    /// Return an error if insertion/deletion is impossible
    fn set_opt_node(&mut self, pos: &Idx, node: Option<Node>) -> (r: Result<
        Option<Node>,
        Self::EditErr,
    >)
        ensures
            r is Ok <==> old(self).writable(pos) && (node is Some || Self::removable()),
            node is None ==> (r matches Err(e) ==> e == Self::remove_error_spec(
                Self::remove_failure(),
            )),
            r is Err ==> ((forall|q: Idx| #[trigger] final(self).writable(&q)
                == old(self).writable(&q)) && (forall|q: Idx|
                #[trigger] final(self).has_node(&q) == old(self).has_node(&q)) && (forall|q: Idx|
                old(self).has_node(&q) ==> #[trigger] final(self).node_at(&q) == old(self).node_at(
                    &q,
                ))),
            r matches Ok(before) ==> before == (if old(self).has_node(pos) {
                Some(old(self).node_at(pos))
            } else {
                None
            }) && (if final(self).has_node(pos) {
                Some(final(self).node_at(pos))
            } else {
                None
            })
                == node && (forall|q: Idx| #[trigger] final(self).writable(&q)
                    == old(self).writable(&q)) && (forall|q: Idx|
                q != *pos ==> #[trigger] final(self).has_node(&q) == old(self).has_node(&q)) && (
            forall|q: Idx|
                q != *pos ==> #[trigger] final(self).node_at(&q) == old(self).node_at(&q)),
    {
        match node {
            Some(node) => match self.set_node(pos, node) {
                Ok(before) => Ok(before),
                Err(e) => Err(Self::set_error(e)),
            },
            None => match self.remove(pos) {
                Ok(before) => Ok(before),
                Err(e) => Err(Self::remove_error(e)),
            },
        }
    }
}

impl<Idx, Node, T: DenseGrid<Idx, Node>> Grid<Idx, Node, Dense> for T {
    type SetErr = OutOfBoundsError;

    type RemoveErr = CannotRemoveError;

    type EditErr = GridArrayError;

    open spec fn has_node(&self, pos: &Idx) -> bool {
        self.in_bounds_spec(pos)
    }

    open spec fn writable(&self, pos: &Idx) -> bool {
        self.in_bounds_spec(pos)
    }

    open spec fn removable() -> bool {
        false
    }

    open spec fn node_at(&self, pos: &Idx) -> Node {
        self.node_spec(pos)
    }

    fn get_node(&self, pos: &Idx) -> (r: Option<&Node>) {
        if self.in_bounds(pos) {
            Some(self.node(pos))
        } else {
            None
        }
    }

    fn get_node_mut(&mut self, pos: &Idx) -> (r: Option<&mut Node>) {
        if self.in_bounds(pos) {
            Some(self.node_mut(pos))
        } else {
            None
        }
    }

    fn get_node_def(&mut self, pos: &Idx, _def: Node) -> (r: Result<&mut Node, OutOfBoundsError>) {
        if self.in_bounds(pos) {
            Ok(self.node_mut(pos))
        } else {
            Err(OutOfBoundsError("DenseGrid get_node_def"))
        }
    }

    fn set_node(&mut self, pos: &Idx, node: Node) -> (r: Result<Option<Node>, OutOfBoundsError>) {
        if self.in_bounds(pos) {
            let mut node = node;
            std::mem::swap(self.node_mut(pos), &mut node);
            Ok(Some(node))
        } else {
            Err(OutOfBoundsError("DenseGrid set_node"))
        }
    }

    open spec fn remove_failure() -> CannotRemoveError {
        CannotRemoveError("DenseGrid remove")
    }

    open spec fn set_error_spec(e: OutOfBoundsError) -> GridArrayError {
        GridArrayError::OutOfBounds(e)
    }

    open spec fn remove_error_spec(e: CannotRemoveError) -> GridArrayError {
        GridArrayError::CannotRemove(e)
    }

    fn remove(&mut self, _pos: &Idx) -> (r: Result<Option<Node>, CannotRemoveError>) {
        Err(CannotRemoveError("DenseGrid remove"))
    }

    fn set_error(e: OutOfBoundsError) -> (r: GridArrayError) {
        assert(Self::set_error_spec(e) == GridArrayError::OutOfBounds(e));
        GridArrayError::from_out_of_bounds(e)
    }

    fn remove_error(e: CannotRemoveError) -> (r: GridArrayError) {
        GridArrayError::from_cannot_remove(e)
    }
}

impl<Idx, Node, T: SparseGrid<Idx, Node>> Grid<Idx, Node, Sparse> for T {
    type SetErr = OutOfBoundsError;

    type RemoveErr = OutOfBoundsError;

    type EditErr = OutOfBoundsError;

    open spec fn has_node(&self, pos: &Idx) -> bool {
        self.in_bounds_spec(pos) && self.slot_spec(pos) is Some
    }

    open spec fn writable(&self, pos: &Idx) -> bool {
        self.in_bounds_spec(pos)
    }

    open spec fn removable() -> bool {
        true
    }

    open spec fn node_at(&self, pos: &Idx) -> Node {
        self.slot_spec(pos)->0
    }

    fn get_node(&self, pos: &Idx) -> (r: Option<&Node>) {
        if self.in_bounds(pos) {
            match self.slot(pos) {
                Some(n) => Some(n),
                None => None,
            }
        } else {
            None
        }
    }

    fn get_node_mut(&mut self, pos: &Idx) -> (r: Option<&mut Node>) {
        if self.in_bounds(pos) {
            match self.slot_mut(pos) {
                Some(n) => Some(n),
                None => None,
            }
        } else {
            None
        }
    }

    fn get_node_def(&mut self, pos: &Idx, def: Node) -> (r: Result<&mut Node, OutOfBoundsError>) {
        if self.in_bounds(pos) {
            let r = self.slot_mut(pos);
            if r.is_none() {
                *r = Some(def)
            }
            match r {
                Some(n) => Ok(n),
                None => vstd::pervasive::unreached(),
            }
        } else {
            Err(OutOfBoundsError("SparseGrid get_node_def"))
        }
    }

    fn set_node(&mut self, pos: &Idx, node: Node) -> (r: Result<Option<Node>, OutOfBoundsError>) {
        if self.in_bounds(pos) {
            let mut node = Some(node);
            std::mem::swap(self.slot_mut(pos), &mut node);
            Ok(node)
        } else {
            Err(OutOfBoundsError("SparseGrid set_node"))
        }
    }

    open spec fn remove_failure() -> OutOfBoundsError {
        OutOfBoundsError("SparseGrid remove")
    }

    open spec fn set_error_spec(e: OutOfBoundsError) -> OutOfBoundsError {
        e
    }

    open spec fn remove_error_spec(e: OutOfBoundsError) -> OutOfBoundsError {
        e
    }

    fn remove(&mut self, pos: &Idx) -> (r: Result<Option<Node>, OutOfBoundsError>) {
        if self.in_bounds(pos) {
            let mut node = None;
            std::mem::swap(self.slot_mut(pos), &mut node);
            Ok(node)
        } else {
            Err(OutOfBoundsError("SparseGrid remove"))
        }
    }

    fn set_error(e: OutOfBoundsError) -> (r: OutOfBoundsError) {
        assert(Self::set_error_spec(e) == e);
        e
    }

    fn remove_error(e: OutOfBoundsError) -> (r: OutOfBoundsError) {
        e
    }
}

} // verus!
