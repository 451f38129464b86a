//! What the parts of the library are for, said of what goes in and what comes out.

pub mod drawing;
pub mod machine;
pub mod passing;
pub mod tiles;
pub mod writing;
