//! Batch image translation through the image page of Google Translate.
//!
//! The page has no interface for programs, so a browser is driven: the image is put into the
//! page's file input, and the page's own reply holds the result. This crate makes the decisions
//! and holds the data; the program around it touches files, browsers and the screen. Where the
//! two alternate, the crate offers a step: a function from a state and an event to the next
//! state and the action to take.
//!
//! - [`path`], [`spelling`], [`writing`], [`naming`]: paths, how they are written, put together
//!   and taken apart, and what a file name tells.
//! - [`collect`], [`tree`], [`shown`], [`mirror`]: the images of a directory tree, how they are
//!   shown, and where their results go.
//! - [`lang`], [`text`]: languages, text.
//! - [`page`], [`codec`]: the scripts that run in the page, and the notation of their data.
//! - [`translate`], [`course`], [`retry`], [`worker`], [`crew`], [`batch`]: one image and the
//!   course of its translation, its tries, the work of one browser, of all browsers together,
//!   and a whole batch.
//! - [`chrome`], [`browser`], [`console`], [`font`], [`gui`]: the browser's launch and where it
//!   is looked for, the terminal, and the window.

pub mod batch;
pub mod browser;
pub mod chrome;
pub mod codec;
pub mod collect;
pub mod config;
pub mod console;
pub mod course;
pub mod crew;
pub mod font;
pub mod gui;
pub mod lang;
pub mod mirror;
pub mod naming;
pub mod page;
pub mod path;
pub mod retry;
pub mod shown;
pub mod spelling;
pub mod text;
pub mod translate;
pub mod tree;
pub mod worker;
pub mod writing;
