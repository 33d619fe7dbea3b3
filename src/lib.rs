pub mod canvas;
pub mod csg;
pub mod intersection;
pub mod math;
pub mod obj;
pub mod shape;
pub mod world;
