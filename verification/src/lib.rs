//! A verified terminal-emulator core.

pub mod advance_laws;
pub mod advancing;
pub mod batches;
pub mod blocks;
pub mod bounded_text;
pub mod cache_laws;
pub mod caches;
pub mod cell;
pub mod click;
pub mod click_laws;
pub mod clipboard;
pub mod collapses;
pub mod colors;
pub mod command_laws;
pub mod commands;
pub mod control;
pub mod control_laws;
pub mod csi;
pub mod cursor;
pub mod document;
pub mod editing;
pub mod escape_laws;
pub mod extraction;
pub mod field_laws;
pub mod fields;
pub mod fold_copy_laws;
pub mod fold_laws;
pub mod folded_selection;
pub mod folding;
pub mod fresh_laws;
pub mod geometry;
pub mod grid;
pub mod hidden_laws;
pub mod history;
pub mod host;
pub mod host_laws;
pub mod jump_laws;
pub mod keyboard;
pub mod layout;
pub mod lifecycle;
pub mod line_order;
pub mod locating;
pub mod lookup;
pub mod marks;
pub mod materialize;
pub mod mode_laws;
pub mod modes;
pub mod mouse_laws;
pub mod navigation;
pub mod origin_laws;
pub mod osc133;
pub mod output;
pub mod owner_laws;
pub mod packet_laws;
pub mod palette_laws;
pub mod parser;
pub mod pen;
pub mod place_laws;
pub mod placing;
pub mod plan;
pub mod planning;
pub mod print_laws;
pub mod projected;
pub mod projection;
pub mod provenance;
pub mod queries;
pub mod query_laws;
pub mod reading_laws;
pub mod refold_laws;
pub mod reports;
pub mod resize;
pub mod resize_laws;
pub mod reveal_laws;
pub mod screens;
pub mod scroll_laws;
pub mod scrolling;
pub mod select_laws;
pub mod selection;
pub mod setup;
pub mod shift_laws;
pub mod showing;
pub mod sight_laws;
pub mod spans;
pub mod stamp_laws;
pub mod state;
pub mod style_laws;
pub mod summaries;
pub mod sync_laws;
pub mod text;
pub mod text_laws;
pub mod view;
pub mod view_laws;
pub mod viewport;
pub mod word_laws;
pub mod words;
pub mod writing;
