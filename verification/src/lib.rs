pub mod model;
pub mod serializer;
