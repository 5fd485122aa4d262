//! Reading and writing of `SYSTEM.CNF`, the small `KEY = VALUE` file that
//! names a disc image's boot program, its version and its video mode.

pub mod cnf;
pub mod laws;
pub mod text;
pub mod video;

pub use video::{Error, VideoMode};
pub use cnf::SystemCnf;
