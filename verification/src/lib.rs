//! Verified core of a libretro debugging frontend: memory-region addressing,
//! RAM search, register and sprite decoders, input history, rate limiting.
pub mod fmt;
pub mod text;
pub mod vdp;
pub mod memory;
pub mod core_log;
pub mod input_log;
pub mod nes;
pub mod video;
pub mod debug_state;
pub mod training;
pub mod sprites;
pub mod chr_rom;
pub mod nametable;
pub mod parse;
pub mod search_panel;
pub mod watch_panel;
pub mod hex_view;
pub mod training_panel;
pub mod panels;
pub mod matchup;
pub mod chr_editor;
pub mod tile_viewer;
pub mod bindings;
pub mod regions;
pub mod disassembly;
pub mod frame_inspector;
pub mod busmap;
pub mod framelab;
pub mod sample_queue;
pub mod listing_order;
pub mod provenance;
