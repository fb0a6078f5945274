//! The component library: gates, arithmetic blocks, latches, clocks and
//! plexers.
pub mod arithmetic;
pub mod clocks;
pub mod drive;
pub mod gates;
pub mod kind;
pub mod latches;
pub mod multiplication;
pub mod plexers;
pub mod select;
