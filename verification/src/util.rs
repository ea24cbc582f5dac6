//! Small building blocks shared by the copy paths.

pub mod aligned_buf;
pub mod temp_name;
