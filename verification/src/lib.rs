//! The playing field of a duel: a grid of square cells, grouped into layers of
//! cells that are drawn as one outlined shape.
//!
//! [`duel::GridMap`] decodes a field from pixel data. [`duel::Grids`] keeps
//! which cell belongs to which layer and works out, after every change, the
//! tile shape and rotation of exactly the cells whose outline changed. The
//! functions of `duel::input_systems` and `duel::update_systems` hold the rules
//! by which pointer events and selections change the look of the cells.

pub mod duel;
pub mod minion;
pub mod prelude;
