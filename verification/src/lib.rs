//! Document control for quality management: converting office files for the
//! editor, and the rules of the document, user and notification resources.

pub mod clock;
pub mod config;
pub mod convert;
pub mod database;
pub mod error;
pub mod logger;
pub mod order;
pub mod text;
