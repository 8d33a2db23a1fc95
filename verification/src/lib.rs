//! The logic behind a scene of six worlds joined by a trefoil-knot portal
//! and six spherical portals: which world a traveller ends up in, how the
//! scene's meshes are laid out, and where the props of each world stand.

pub mod worlds;
pub mod portal;
pub mod portal_laws;
pub mod knot;
pub mod subdivision;
pub mod scene;
pub mod shapes;
pub mod geometry;
