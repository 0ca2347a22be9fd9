//! A terminal view toolkit: layered, focusable views that negotiate their
//! size, wrap and scroll text, route key events and describe what they draw
//! as a list of drawing operations for a terminal backend to carry out.

pub mod align;
pub mod div;
pub mod event;
pub mod lines;
pub mod printer;
pub mod theme;
pub mod vec;
pub mod view;
