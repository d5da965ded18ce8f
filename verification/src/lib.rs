//! Package conversion: what is read out of an `.rpm`, what goes into a
//! Debian source tree or an RPM spec file, and the decisions in between.
pub mod deb;
pub mod laws;
pub mod outside;
pub mod package;
pub mod path;
pub mod rpm;
pub mod table;
pub mod text;
