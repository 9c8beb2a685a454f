//! Native backend logic of a small desktop utility window: a global-hotkey
//! registry keyed by key combinations, the event routing that resolves a
//! pressed combination back to its action, and the window-sizing policy.
pub mod strutil;
pub mod combo;
pub mod registry;
pub mod size_policy;
