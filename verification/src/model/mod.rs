pub mod control;
pub mod document;
pub mod image;
pub mod page;
pub mod paragraph;
pub mod shape;
pub mod table;
