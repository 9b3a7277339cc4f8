//! A small image relay server library: a color table that maps pixels to
//! palette indices, a packed 4-bit image encoding, HTTP header building,
//! request routing, the byte relay state, and laundry-room availability.

pub mod color_table;
pub mod helper;
pub mod laundry_view;
pub mod state;
pub mod request;
