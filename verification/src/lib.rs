//! Verified core of a Markdown blog engine: input validation, rate limiting,
//! configuration checks and the text transformations behind the pages.

pub mod activity;
pub mod api;
pub mod env;
pub mod feed;
pub mod markdown;
pub mod pager;
pub mod pages;
pub mod rate_limit;
pub mod redirect;
pub mod session;
pub mod security;
pub mod shared;
pub mod surreal;
pub mod text;
pub mod validation;
