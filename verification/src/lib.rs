//! Single-domain content harvesting: sitemap discovery, fetch-strategy
//! classification, HTML to Markdown rendering and the per-URL pipeline that
//! ties them together.
//!
//! Network transport and disk access stay with the caller. The library
//! holds the decisions and the text processing: each of its state machines
//! says what is to be fetched, waited for or saved next, and takes the
//! outcome back.
//!
//! - [`domain_detector`]: which fetch strategy a domain gets.
//! - [`robots`] and [`sitemap`]: which pages a site publishes.
//! - [`dom`], [`markdown`], [`html_to_markdown`] and [`html_converter`]:
//!   from markup to Markdown.
//! - [`file_manager`]: what the files are called.
//! - [`page_job`] and [`crawler`]: the work on one URL, and the run over a
//!   domain.
//! - [`config`], [`errors`], [`logging`], [`text`] and [`urls`]: settings,
//!   failures, bookkeeping and the tools that the rest is made with.

pub mod config;
pub mod crawler;
pub mod dom;
pub mod domain_detector;
pub mod errors;
pub mod file_manager;
pub mod html_converter;
pub mod html_to_markdown;
pub mod logging;
pub mod markdown;
pub mod page_job;
pub mod robots;
pub mod sitemap;
pub mod text;
pub mod urls;
