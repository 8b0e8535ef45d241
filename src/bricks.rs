use vstd::prelude::*;

verus! {

pub struct Color {
    pub id: u32,
    pub name: String,
    pub rgb: String,
    pub is_trans: bool,
}

/// A category of the part catalog, with its parts.
#[derive(Clone, Debug, Default)]
pub struct PartCategories {
    pub id: u32,
    pub name: String,
    pub parts: Vec<Part>,
}

/// A catalog entry: part number, name, category id and material.
#[derive(Clone, Debug, Default)]
pub struct Part {
    pub number: String,
    pub name: String,
    pub category: u32,
    pub material: String,
}

} // verus!
