use vstd::prelude::*;

verus! {

/// A `ROWS` x `COLS` matrix of `T` elements.
#[derive(Debug, Copy, Clone)]
pub struct Matrix<T, const ROWS: usize, const COLS: usize> {
    /// Matrix elements, in row-major order.
    pub elements: [[T; COLS]; ROWS],
}

impl<T, const ROWS: usize, const COLS: usize> Matrix<T, ROWS, COLS> {
    /// Creates a matrix from its elements, given in row-major order.
    pub fn new(elements: [[T; COLS]; ROWS]) -> (r: Self)
        ensures
            r.elements == elements,
    {
        Self { elements }
    }
}

} // verus!
