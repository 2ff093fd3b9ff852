//! Bezier path editing and grid rasterisation on the integer lattice.
//!
//! A [`Path`] is a sequence of [`PathElement`]s over lattice [`Point`]s: it
//! begins with a `Move`, draws straight edges, quadratics and cubics, and may
//! end in a `Close`. A [`BezEditor`] holds the paths of a drawing in a
//! [`PathStore`] together with at most one selected point, and changes them
//! by five steps: pick, drag, insert, close and elevate. [`raster`] finds the
//! grid cells that the boundary of a path crosses, by a [`Sweep`] over
//! grid-aligned lines along each axis.
//!
//! # Choices
//!
//! * Coordinates are integers. End points, and the control point of a
//!   quadratic, are lattice points; the control points of a cubic are held in
//!   thirds of a lattice step, as a [`Fine`]. Distances are compared by their
//!   squares and a crossing of a straight edge with a grid line is taken as
//!   an exact fraction, so no result depends on rounding in between. Only
//!   the samples by which a curve is drawn are rounded, to the nearest
//!   lattice point.
//! * A pick takes the first point in scan order (path, element, point slot)
//!   that lies strictly inside the pick radius.
//! * Closing a path appends a `Close` and nothing else. The edge back to the
//!   start is implied: it is among the path's segments where the pen is not
//!   already at the start.
//! * Elevation is degree elevation: the control points of the cubic lie at
//!   the thirds of a straight edge, or two thirds of the way from each end
//!   of a quadratic to its control point. In thirds of a lattice step these
//!   are whole numbers, so the cubic is exactly the curve that the segment
//!   was: an elevated edge lies on the edge, point for point.
//! * The sweep keeps every segment whose extent reaches a line, also where
//!   two segments have the same extent.
//! * Where a curve meets a grid line is not computed here. [`raster`] lists
//!   the tests that fall on curves and takes their crossings as values.

pub mod arith;
pub mod cells;
pub mod draw;
pub mod editor;
pub mod element;
pub mod laws;
pub mod path;
pub mod point;
pub mod raster;
pub mod segment;
pub mod seqs;
pub mod store;
pub mod sweep;

pub use cells::{Cell, CellSet};
pub use draw::Primitive;
pub use editor::{BezEditor, Input, Selection};
pub use element::PathElement;
pub use path::Path;
pub use point::{Fine, Point};
pub use segment::{Segment, Span};
pub use store::PathStore;
pub use sweep::Sweep;
