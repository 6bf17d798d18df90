//! Verified core logic of the HAVI browser components: the JSONqa metadata
//! syntax, media assets, MIME policy and playback state, text byte ranges
//! and font runs, paint animation bookkeeping, the SVG resource graph and
//! paint values, block margin collapsing, `innerText`, the HPPR connection
//! pool's bookkeeping, and devtools actor decisions.

pub mod chars;
pub mod text_range;
pub mod qa_value;
pub mod qa_grammar;
pub mod qa_parse;
pub mod qa_format;
pub mod qa_laws;
pub mod media_asset;
pub mod text;
pub mod text_segments;
pub mod inner_text;
pub mod rendered_text;
pub mod media_mime;
pub mod media_control;
pub mod au;
pub mod block_margins;
pub mod offset_parent;
pub mod canvas_background;
pub mod fragment_arena;
pub mod text_hit;
pub mod hppr_media;
pub mod hppr_chunks;
pub mod hppr_pool;
pub mod animation;
pub mod touch;
pub mod font_fallback;
pub mod svg_reference;
pub mod hppr_coordinate;
pub mod scroll;
pub mod scroll_container;
pub mod svg_types;
pub mod geometry;
pub mod svg_resources;
pub mod web_fonts;
pub mod devtools_watch;
pub mod devtools_screenshot;
pub mod hppr_error;
pub mod hppr_null_packet;
pub mod hppr_watch_stream;
pub mod svg_style;
pub mod svg_paint;
pub mod svg_dependencies;
