//! Photo editor core: the culling, history, naming and pixel-bookkeeping
//! rules of a non-destructive photo editor, with their contracts proved.

pub mod cull;
pub mod history;
pub mod text;
pub mod presets;
pub mod metadata;
pub mod recent;
pub mod paths;
pub mod histogram;
pub mod geometry;
pub mod worker;
pub mod export;
pub mod crop;
pub mod masks;
pub mod ui;
pub mod listing;
pub mod thumbs;
