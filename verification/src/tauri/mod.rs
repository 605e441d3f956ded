//! External webviews: what may be opened, and what becomes of it.
pub mod capture;
pub mod dpi;
pub mod flow;
pub mod hub;
pub mod sketch;
pub mod trace;
pub mod webkitgtk;
pub mod webview;
