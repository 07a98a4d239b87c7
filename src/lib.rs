//! Edge-of-screen color sampling for an ambient LED strip: a pixel grid
//! reducer, the clockwise perimeter walk that orders its border cells, the
//! serial frame that carries them, and the handoff between producer threads
//! and the consumer.
pub mod grid;
pub mod frame;
pub mod handoff;
pub mod link;
pub mod history;
