use voxel_rs::chunk::{ChunkSimArray, SimFace};
use voxel_rs::grid::{
    Bounded, CannotRemoveError, Dense, DenseGrid, Grid, GridArrayError, OutOfBoundsError, Sparse,
    SparseGrid,
};
use voxel_rs::grid_tree::TreeOrNode;
use voxel_rs::pos::InnerCoords;
use voxel_rs::lazy_container::{
    DenseContainer, Indexed, LazyContainer, SparseContainer,
};

struct Row {
    cells: [u8; 4],
}

impl Bounded<usize> for Row {
    fn in_bounds_spec(&self, _: &usize) -> bool {
        unreachable!()
    }

    fn in_bounds(&self, pos: &usize) -> bool {
        *pos < 4
    }
}

impl DenseGrid<usize, u8> for Row {
    fn node_spec(&self, _: &usize) -> u8 {
        unreachable!()
    }

    fn node(&self, pos: &usize) -> &u8 {
        &self.cells[*pos]
    }

    fn node_mut(&mut self, pos: &usize) -> &mut u8 {
        &mut self.cells[*pos]
    }
}

struct Shelf {
    slots: [Option<u8>; 4],
}

impl Bounded<usize> for Shelf {
    fn in_bounds_spec(&self, _: &usize) -> bool {
        unreachable!()
    }

    fn in_bounds(&self, pos: &usize) -> bool {
        *pos < 4
    }
}

impl SparseGrid<usize, u8> for Shelf {
    fn slot_spec(&self, _: &usize) -> Option<u8> {
        unreachable!()
    }

    fn slot(&self, pos: &usize) -> &Option<u8> {
        &self.slots[*pos]
    }

    fn slot_mut(&mut self, pos: &usize) -> &mut Option<u8> {
        &mut self.slots[*pos]
    }
}

#[test]
fn dense_grid_reads_and_writes_in_bounds() {
    let mut row = Row { cells: [1, 2, 3, 4] };
    assert_eq!(Grid::<usize, u8, Dense>::get_node(&row, &2), Some(&3));
    assert_eq!(Grid::<usize, u8, Dense>::get_node(&row, &4), None);
    assert_eq!(Grid::<usize, u8, Dense>::set_node(&mut row, &1, 9), Ok(Some(2)));
    assert_eq!(row.cells, [1, 9, 3, 4]);
    *Grid::<usize, u8, Dense>::get_node_mut(&mut row, &0).unwrap() = 7;
    assert_eq!(row.cells[0], 7);
    assert!(Grid::<usize, u8, Dense>::get_node_mut(&mut row, &4).is_none());
    assert_eq!(
        Grid::<usize, u8, Dense>::get_node_def(&mut row, &3, 0).map(|n| *n),
        Ok(4)
    );
}

#[test]
fn dense_grid_errors() {
    let mut row = Row { cells: [1, 2, 3, 4] };
    assert_eq!(
        Grid::<usize, u8, Dense>::set_node(&mut row, &4, 9),
        Err(OutOfBoundsError("DenseGrid set_node"))
    );
    assert_eq!(
        Grid::<usize, u8, Dense>::get_node_def(&mut row, &4, 0).map(|n| *n),
        Err(OutOfBoundsError("DenseGrid get_node_def"))
    );
    assert_eq!(
        Grid::<usize, u8, Dense>::remove(&mut row, &1),
        Err(CannotRemoveError("DenseGrid remove"))
    );
    assert_eq!(
        Grid::<usize, u8, Dense>::set_opt_node(&mut row, &1, None),
        Err(GridArrayError::CannotRemove(CannotRemoveError("DenseGrid remove")))
    );
    assert_eq!(
        Grid::<usize, u8, Dense>::set_opt_node(&mut row, &9, Some(1)),
        Err(GridArrayError::OutOfBounds(OutOfBoundsError("DenseGrid set_node")))
    );
    assert_eq!(
        Grid::<usize, u8, Dense>::set_opt_node(&mut row, &1, Some(8)),
        Ok(Some(2))
    );
    assert_eq!(row.cells, [1, 8, 3, 4]);
}

#[test]
fn grid_errors_as_sentences() {
    assert_eq!(
        OutOfBoundsError("here").message(),
        "Cannot write out of bounds to grid (here)"
    );
    assert_eq!(
        CannotRemoveError("there").message(),
        "Cannot remove elements from a dense grid (there)"
    );
    assert_eq!(
        GridArrayError::from_out_of_bounds(OutOfBoundsError("x")).message(),
        "Cannot write out of bounds to grid (x)"
    );
    assert_eq!(
        GridArrayError::from_cannot_remove(CannotRemoveError("y")).message(),
        "Cannot remove elements from a dense grid (y)"
    );
}

#[test]
fn sparse_grid_sets_and_removes() {
    let mut shelf = Shelf { slots: [None, Some(2), None, None] };
    assert_eq!(Grid::<usize, u8, Sparse>::get_node(&shelf, &1), Some(&2));
    assert_eq!(Grid::<usize, u8, Sparse>::get_node(&shelf, &0), None);
    assert_eq!(Grid::<usize, u8, Sparse>::get_node(&shelf, &4), None);
    assert_eq!(Grid::<usize, u8, Sparse>::set_node(&mut shelf, &0, 5), Ok(None));
    assert_eq!(Grid::<usize, u8, Sparse>::set_node(&mut shelf, &1, 6), Ok(Some(2)));
    assert_eq!(shelf.slots, [Some(5), Some(6), None, None]);
    assert_eq!(Grid::<usize, u8, Sparse>::remove(&mut shelf, &1), Ok(Some(6)));
    assert_eq!(Grid::<usize, u8, Sparse>::remove(&mut shelf, &1), Ok(None));
    assert_eq!(
        Grid::<usize, u8, Sparse>::remove(&mut shelf, &4),
        Err(OutOfBoundsError("SparseGrid remove"))
    );
    assert_eq!(
        Grid::<usize, u8, Sparse>::set_node(&mut shelf, &4, 1),
        Err(OutOfBoundsError("SparseGrid set_node"))
    );
    assert_eq!(
        Grid::<usize, u8, Sparse>::get_node_def(&mut shelf, &2, 9).map(|n| *n),
        Ok(9)
    );
    assert_eq!(
        Grid::<usize, u8, Sparse>::get_node_def(&mut shelf, &0, 9).map(|n| *n),
        Ok(5)
    );
    assert_eq!(
        Grid::<usize, u8, Sparse>::get_node_def(&mut shelf, &7, 9).map(|n| *n),
        Err(OutOfBoundsError("SparseGrid get_node_def"))
    );
    assert_eq!(shelf.slots, [Some(5), None, Some(9), None]);
    assert!(Grid::<usize, u8, Sparse>::get_node_mut(&mut shelf, &1).is_none());
    *Grid::<usize, u8, Sparse>::get_node_mut(&mut shelf, &2).unwrap() = 1;
    assert_eq!(shelf.slots[2], Some(1));
    assert_eq!(
        Grid::<usize, u8, Sparse>::set_opt_node(&mut shelf, &2, None),
        Ok(Some(1))
    );
    assert_eq!(
        Grid::<usize, u8, Sparse>::set_opt_node(&mut shelf, &2, Some(3)),
        Ok(None)
    );
}

struct Wrapping {
    cells: [u8; 4],
}

impl Indexed<usize> for Wrapping {
    type Output = u8;

    fn at_spec(&self, _: &usize) -> u8 {
        unreachable!()
    }

    fn at(&self, idx: &usize) -> &u8 {
        &self.cells[*idx % 4]
    }

    fn at_mut(&mut self, idx: &usize) -> &mut u8 {
        &mut self.cells[*idx % 4]
    }
}

struct Pegs {
    slots: [Option<u8>; 8],
}

impl Indexed<usize> for Pegs {
    type Output = Option<u8>;

    fn at_spec(&self, _: &usize) -> Option<u8> {
        unreachable!()
    }

    fn at(&self, idx: &usize) -> &Option<u8> {
        &self.slots[*idx % 8]
    }

    fn at_mut(&mut self, idx: &usize) -> &mut Option<u8> {
        &mut self.slots[*idx % 8]
    }
}

impl voxel_rs::lazy_container::Bounded<usize> for Pegs {
    fn in_bounds_spec(&self, _: &usize) -> bool {
        unreachable!()
    }

    fn in_bounds(&self, pos: &usize) -> bool {
        *pos < 4
    }
}

#[test]
fn dense_container_knows_every_position() {
    let mut c = DenseContainer(Wrapping { cells: [1, 2, 3, 4] });
    assert_eq!(c.get_id(&2), Some(2));
    assert!(c.is_set(&3));
    assert_eq!(*c.get_at(1), 2);
    *c.get_at_mut(1) = 9;
    assert_eq!(c.0.cells, [1, 9, 3, 4]);
    let entry = c.set(&0, 7).ok().unwrap();
    assert_eq!(entry.index, 0);
    assert_eq!(entry.value, Some(1));
    assert_eq!(c.0.cells, [7, 9, 3, 4]);
}

#[test]
fn sparse_container_sets_where_in_bounds() {
    let mut slots = [None; 8];
    slots[1] = Some(5);
    slots[6] = Some(8);
    let mut c = SparseContainer(Pegs { slots });
    assert_eq!(c.get_id(&1).map(|id| *id.get_index()), Some(1));
    assert!(c.get_id(&0).is_none());
    // In use but out of bounds.
    assert!(c.get_id(&6).is_none());
    assert!(c.is_set(&6));
    assert!(c.is_set(&1));
    assert!(!c.is_set(&0));
    let id = c.get_id(&1).unwrap();
    assert_eq!(*c.get_at(id.clone()), 5);
    *c.get_at_mut(id) = 6;
    assert_eq!(c.0.slots[1], Some(6));
    let entry = c.set(&0, 3).ok().unwrap();
    assert_eq!(*entry.index.get_index(), 0);
    assert_eq!(entry.value, None);
    let entry = c.set(&1, 4).ok().unwrap();
    assert_eq!(entry.value, Some(6));
    assert_eq!(c.set(&5, 1).err(), Some(1));
    assert_eq!(c.0.slots[5], None);
}

#[test]
fn tree_or_node() {
    let node: TreeOrNode<u8, &str, ()> = TreeOrNode::Node("leaf");
    assert!(!node.is_nothing());
    assert_eq!(node.node(), Some("leaf"));
    let tree: TreeOrNode<u8, &str, ()> = TreeOrNode::Tree((), 3);
    assert_eq!(tree.node(), None);
    let nothing: TreeOrNode<u8, &str, ()> = TreeOrNode::Nothing;
    assert!(nothing.is_nothing());
}

#[test]
fn simulation_array_is_a_dense_container() {
    let mut c = DenseContainer(ChunkSimArray::empty());
    let at = InnerCoords::new(1, 2, 3).unwrap();
    let id = c.get_id(&at).unwrap();
    assert_eq!(id, at);
    assert!(c.is_set(&at));
    assert!(!c.get_at(id).contains(SimFace::Top));
    c.get_at_mut(id).insert(SimFace::Top);
    assert!(c.get_at(id).contains(SimFace::Top));
    assert!(c.0.get(&at).contains(SimFace::Top));
    assert!(!c.0.get(&InnerCoords::new(3, 2, 1).unwrap()).contains(SimFace::Top));
    assert!(Indexed::at(&c.0, &at).contains(SimFace::Top));
}
