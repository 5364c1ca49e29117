//! An icon catalog and query engine.
//!
//! The library models the catalog of a desktop icon theme: it derives
//! category tags from an icon's filesystem path, discovers which icon
//! names are symlink aliases of other icons, and evaluates the
//! incremental search/filter/sort pipeline that produces the visible,
//! ordered subset of the catalog.

pub mod alias;
pub mod category;
pub mod engine;
pub mod fuzzy;
pub mod icon;
pub mod query;
pub mod rank;
pub mod text;
