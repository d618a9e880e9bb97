//! newmac-core — the shared brains behind the newmac picker.
//!
//! Everything the picker needs that isn't drawing:
//! * [`catalog`] — the package catalog and its cross-reference checks.
//! * [`search`] — fuzzy search / ranking across the catalog.
//! * [`selection`] — the user's picks + toggles, read from / written to
//!   `newmac.conf` in the exact shape the bash `install.sh` consumes.
//! * [`brew`] — popular Homebrew formulae/casks and custom additions.
//! * [`theme`] — the colour palettes, for live swatch previews.
//! * [`flavour`] — named premade setups.
//! * [`gensh`] — the generated `catalog.sh` / `presets.sh` bash sources.
//! * [`picker`], [`app`], [`keys`], [`mouse`] — the picker: its state, what it
//!   lists, and how each key or click changes it.
//! * [`idset`], [`text`] — an ordered id set and the text helpers under it all.
//!
//! The install logic itself stays in bash — this crate only decides *what*
//! to install and records it.
use vstd::prelude::*;

pub mod app;
pub mod brew;
pub mod catalog;
pub mod flavour;
pub mod gensh;
pub mod idset;
pub mod keys;
pub mod mouse;
pub mod picker;
pub mod search;
pub mod selection;
pub mod summary;
pub mod text;
pub mod theme;

verus! {

} // verus!
