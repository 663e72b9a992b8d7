pub mod identifier;
pub mod indexed_set;
pub mod kitties;
