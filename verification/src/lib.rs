//! Verified cores of a family of small Unix-style text utilities.
//!
//! Every module holds the decisions and computations of one utility as
//! functions from plain values to plain values, each with a contract that
//! Verus proves. Reading files, parsing the command line and writing to
//! the terminal are left to the program that links this library.

pub mod calr;
pub mod catr;
pub mod commr;
pub mod cutr;
pub mod decimal;
pub mod echor;
pub mod findr;
pub mod fortuner;
pub mod grepr;
pub mod headr;
pub mod input;
pub mod lines;
pub mod lsr;
pub mod pattern;
pub mod tailr;
pub mod text;
pub mod uniqr;
pub mod wcr;
