pub mod model;
pub mod parse;
pub mod render;
pub mod scrape;
pub mod xml_escape;

pub use model::{
    FeedDocument, FeedEntry, FeedError, KemonoFeed, KemonoPost, Timestamp, epoch_timestamp,
    kemono_entry, kemono_feed, kemono_link,
};
pub use render::{render_document, render_feed};
pub use scrape::{first_paragraph, get_kemono_name};
