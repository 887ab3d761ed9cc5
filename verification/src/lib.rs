//! A verified core for an mdBook preprocessor that renders timelines.
pub mod assets;
pub mod card;
pub mod config;
pub mod desc;
pub mod entry;
pub mod markdown;
pub mod num;
pub mod preprocess;
pub mod render;
pub mod text;

pub use card::{indentation_of, parse_card, parse_entries};
pub use config::TimelineConfig;
pub use desc::join_desc_block;
pub use entry::TimelineEntry;
pub use markdown::{md_html, md_inline, render_desc_html};
pub use preprocess::TimelinePreprocessor;
pub use render::{compute_gap_label, labels_gap_fit, render_entry, render_gap, render_timeline};
