//! A small verified ray-tracing core: exact vector and ray arithmetic over
//! rational numbers, sphere-intersection tests, fixed shading policies, and
//! the renderers for four static scenes. Command-line dispatch, progress
//! reporting and file writing live outside the library.

pub mod pixel;
pub mod rat;
pub mod scenes;
pub mod shade;
pub mod vec3;
