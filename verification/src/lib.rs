//! Waymenu core: catalog construction, recency-biased ranking and search,
//! bounded launch history, settings resolution, and launch dispatch for a
//! wlroots launcher/menu. The presentation layer around it is unverified and
//! lives outside this crate; it hands the library plain values and performs
//! the file, process and display work the library decides on.

pub mod app_context;
pub mod cli;
pub mod config;
pub mod env;
pub mod history;
pub mod launch;
pub mod list_item;
pub mod rank;
pub mod seqs;
pub mod text;
