//! Navmesh generation for tile maps: each grid vertex is classified by its
//! blocked quadrants, the clearance-offset boundary is stitched into edges, and
//! the triangles of a constrained triangulation are kept where they lie on
//! navigable tiles.
pub mod vertex;
pub mod foreign;
pub mod classify;
pub mod stitch;
pub mod mesh;
pub mod nav;
