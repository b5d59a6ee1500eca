//! A grid of typed cells, kept in layers, in one binary and two text
//! dialects.
//!
//! `tile` holds the cell type, `grid` the layered grid and its coordinate
//! accessors, `wire` the byte cursor and byte buffer that the binary codec
//! drives, `codec` the binary dialect in both directions, `text` the two text
//! dialects in both directions, `legend` the colours that a marked text
//! document may carry beside its grid, and `dispatch` the choice of a dialect
//! for writing and for reading. `laws`, `text_laws` and `legend_laws` state
//! what holds between reading and writing, and between coordinates and
//! indices.

pub mod codec;
pub mod dispatch;
pub mod grid;
pub mod laws;
pub mod legend;
pub mod legend_laws;
pub mod text;
pub mod text_laws;
pub mod tile;
pub mod wire;

pub use codec::DecodeError;
pub use dispatch::{EncodeError, LoadError};
pub use grid::{DimensionType, GridModel, IMF};
pub use legend::{Color, Legend, LegendEntry};
pub use text::{ParseError, Stage};
pub use tile::{Sides, Tile, TileType};
