//! Grading engine for calculator programs: the binary variable and file
//! formats of the calculator, the emulator automation descriptor, and the
//! evaluation of a lesson's test tree.
pub mod record;
pub mod token;
pub mod tifloat;
pub mod lesson;
pub mod encode;
pub mod config;
pub mod grade;
pub mod session;
pub mod submission;
