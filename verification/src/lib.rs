//! Decision logic of an automated "opening reroll" helper for a mobile game:
//! text matching on recognised screen text, selection of the wanted opening,
//! page recognition and the step machine that drives one reroll attempt.

pub mod text;
pub mod order;
pub mod selection;
pub mod geometry;
pub mod pages;
pub mod machine;
pub mod transitions;
pub mod keys;
pub mod screen_size;
pub mod config;
pub mod catalog;
pub mod shell;
pub mod device;
pub mod picture;
