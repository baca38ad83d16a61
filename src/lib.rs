//! Resumable harvesting of a paginated question listing: page planning,
//! record extraction and the per-page ingest state machine.

pub mod planner;
pub mod text;
pub mod stamp;
pub mod extract;
mod markup;
pub mod crawl;
