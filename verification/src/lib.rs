//! Block-matching motion estimation between two video frames, and the
//! synthesis of the frame that lies between them.

pub mod frame;
pub mod compensator;
pub mod estimator;
pub mod operations;
pub mod plotter;
