pub mod cache;
pub mod clock;
pub mod config;
pub mod count;
pub mod double;
pub mod feed;
pub mod flags;
pub mod follows;
pub mod images;
pub mod json;
pub mod merge_laws;
pub mod output;
pub mod pace;
pub mod page;
pub mod pattern;
pub mod profile;
pub mod query;
pub mod record;
pub mod rounding;
pub mod run;
pub mod scan;
pub mod script;
pub mod session;
pub mod shutdown;
pub mod text;
pub mod visit;
