//! The X11 side: capture, input injection, clipboard, and the X server itself.

pub mod capture;
pub mod clipboard;
pub mod detector;
pub mod input;
pub mod supervisor;

pub use capture::{DirtyBounds, DirtyTracker, X11CaptureEngine};
pub use clipboard::X11ClipboardBridge;
pub use detector::{X11Detector, X11DisplayState};
pub use input::X11InputInjector;
pub use supervisor::{X11ProcessGuard, X11Supervisor};
