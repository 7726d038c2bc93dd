pub mod backfill_items;
pub mod download_lists;
pub mod poll_for_updates;
