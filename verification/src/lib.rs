//! Combinations of an ordered pool in lexicographic index order, eagerly or one
//! at a time, together with a small vertex-attribute layout calculator.

pub mod binomial;
pub mod counting;
pub mod eager;
pub mod index_state;
pub mod laws;
pub mod lazy;
pub mod listing;
pub mod tuples;
pub mod vertex;
pub mod views;

pub use counting::punctuated;
pub use eager::combinations;
pub use index_state::IndexState;
pub use lazy::iter_combinations;
pub use lazy::CombIndicesIter;
pub use vertex::get_attr_data;
pub use vertex::supports;
pub use vertex::vertex_macro_derive;
pub use vertex::AttrData;
pub use vertex::FieldType;
pub use vertex::VertexAttribute;
