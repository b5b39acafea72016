//! A path-tracing engine over exact fixed-point arithmetic: vector
//! algebra, ray-sphere intersection, three scattering materials and a
//! recursive radiance function, each with a verified contract. Scalars
//! count billionths, so the geometry of every render step is stated and
//! proved exactly; image encoding and persistence live outside the
//! library and consume the pixel stream it produces.

use vstd::prelude::*;

pub mod fixed;
pub mod camera;
pub mod colour;
pub mod hittable;
pub mod interval;
pub mod material;
pub mod random;
pub mod ray;
pub mod scene;
pub mod vector;

verus! {

/// Errors the rendering pipeline can report to its callers.
#[derive(Debug, Clone, Copy, PartialEq, Eq, Structural)]
pub enum RaytracerError {
    SceneRenderError,
    SceneSaveError,
}

} // verus!
