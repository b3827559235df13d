//! Interface-side state: panel selection, modal status flags, clickable
//! region maps, the navigation stack, and the per-panel action tables.

pub mod draw_blocks;
pub mod gui_state;
pub mod nav;
