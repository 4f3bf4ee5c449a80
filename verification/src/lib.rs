//! An offline path-tracing renderer over fixed-point arithmetic.
//!
//! A scene of spheres with scattering or emissive materials is rendered into a
//! row-major raster image by following camera rays through the scene.  All
//! geometry and color arithmetic uses a signed fixed-point scalar (see
//! [`math`]), so every numeric step of the light-transport core carries an
//! exact contract.

pub mod camera;
pub mod color;
pub mod image;
pub mod object;
pub mod material;
pub mod math;
pub mod ray;
pub mod scene;
pub mod shape;
pub mod vec3;
