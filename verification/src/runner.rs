//! Driving a script: when each event happens, what is captured, and when the run
//! is over.

pub mod capture;
pub mod course;
pub mod keys;
pub mod launch;
pub mod laws;
pub mod mouse;
pub mod options;
pub mod osc22;
pub mod reports;
pub mod require;
pub mod screen;
pub mod screenshot;
pub mod session;
pub mod stats;
pub mod theme;
pub mod timeline;
pub mod tracker;
pub mod way;
pub mod ways;

pub use capture::{capture, BlinkState, CellReading, ScreenReading};
pub use keys::{
    format_kitty_flags, key_requires_kitty_extended, warn_if_kitty_extended_required, KittyFlags,
};
pub use launch::{
    run, run_with_raw_frame_consumer, run_with_raw_frame_consumers, Consumer, RendererBackend,
    RunFacts, RunPlan,
};
pub use mouse::resolve_mouse_position;
pub use options::{derive_options, CellMetrics, PtySize};
pub use osc22::Osc22Parser;
pub use session::{Action, Delivery, MouseReport, Session, Step, WaitState};
pub use stats::{RunOptions, RunOutput, RunStats};
pub use theme::apply_theme;
pub use timeline::{build_timeline, MousePath, MouseSegment, Scheduled};
pub use tracker::{Notice, TerminalReading, TerminalStateTracker};
