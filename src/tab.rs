use vstd::prelude::*;

verus! {

#[derive(Debug)]
pub struct TabSorting {
    pub reverse: bool,
    pub column: SortingColumn,
}

#[derive(Clone, Copy, Debug, PartialEq, Eq, Structural)]
pub enum SortingColumn {
    Filename,
    Date,
    Size,
}

} // verus!
