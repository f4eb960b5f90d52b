//! A dynamic two-dimensional Delaunay triangulation over an integer grid.
//!
//! Points are inserted and removed one at a time; after each change the mesh
//! is again a triangulation of the points. All decisions are taken by exact
//! integer predicates.
//!
//! The crate is organised in layers:
//!
//! - `math`: points and the exact predicates on them;
//! - `handles`: fixed handles, plain integer identifiers;
//! - `mesh`, `mesh_insert`, `mesh_remove`: the mathematical model of a
//!   half-edge mesh, and what the edits do to it;
//! - `geometry`, `orientation`, `solidity`, `flips`, `locality`: what
//!   insertions keep true of a mesh of triangles, that its triangles are
//!   counterclockwise, that every edge borders one, that every vertex has an
//!   edge, that a legalization ends within its limit of flips, and that the
//!   edges away from a new vertex stay locally Delaunay;
//! - `dcel`: the half-edge mesh in arrays, with the edits;
//! - `edge_stack`: the stack of edges that wait for legalization;
//! - `delaunay`: the triangulation with location, insertion and removal;
//! - `handle_impls`: dynamic handles, which navigate the mesh.
pub mod dcel;
pub mod delaunay;
pub mod edge_stack;
pub mod flips;
pub mod geometry;
pub mod handle_impls;
pub mod handles;
pub mod locality;
pub mod math;
pub mod mesh;
pub mod mesh_insert;
pub mod mesh_remove;
pub mod orientation;
pub mod solidity;
