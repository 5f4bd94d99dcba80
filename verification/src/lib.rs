//! Animated desktop mascot driven by the state of coding-assistant sessions:
//! the pack's state graph and its transition engine, frame timing and pixel
//! preparation of decoded WebP animations, the mascot's state machine, the
//! aggregation of session states, and the small text formats it saves.

pub mod anim;
pub mod controller;
pub mod engine;
pub mod pack;
pub mod settings;
pub mod state;
pub mod text;

pub use anim::{Anim, AnimError, DecodedFrame, Frame};
pub use controller::{App, PointerAction, PressKind, StartError};
pub use engine::{eval_conditions, initial_edge, loop_for, pick_transition};
pub use pack::{webp_path_for, Edge, EdgeCondition, EdgeVideos, Pack};
pub use state::{ClaudeCodeState, SessionReport};
