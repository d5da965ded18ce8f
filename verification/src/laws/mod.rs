//! What holds of the library as a whole, stated over what goes in and what
//! comes out.
pub mod debian;
pub mod path;
pub mod preparing;
pub mod reading;
pub mod scripts;
pub mod text;
pub mod unpacking;
pub mod writing;
