//! `gi`: the logic of a terminal client for git.
//!
//! The library decides; it never touches a process, a file or a screen. Each
//! call of git is described as a list of arguments, and what the call printed
//! comes back as a value.
//!
//! - `text`: operations on text.
//! - `git`: the calls of git, and what their output means.
//! - `tree`: the changed files as rows of folders and files.
//! - `work`: jobs, and the steps in which they are done.
//! - `app`: the state of the program; `model`: what each key and answer does to it.
//! - `ui`: what is drawn, and where.
//! - `rows`, `laws`: what holds of all of this.
//! - `sides`: which files are shown, counted and in what order.
//! - `actions`, `keys`: what each key does, and what it leaves as it is.
//! - `runs`: the calls that a job makes, and what becomes of their replies.
//! - `readings`: what the output of git means.
//! - `screen`, `looks`: what can be read on the screen, and how it looks.
//! - `outside`: what is taken on trust of other crates.

use vstd::prelude::*;

pub mod actions;
pub mod app;
pub mod git;
pub mod keys;
pub mod laws;
pub mod looks;
pub mod model;
pub mod outside;
pub mod readings;
pub mod rows;
pub mod runs;
pub mod screen;
pub mod sides;
pub mod text;
pub mod tree;
pub mod ui;
pub mod work;

verus! {

} // verus!
