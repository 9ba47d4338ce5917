//! A terminal-screen emulation and window-extraction engine.
//!
//! Raw bytes from a full-screen (curses-style) remote application are
//! decoded into a character grid with cursor and charset state
//! (`screen`); the grid is decomposed into the rectangular sub-windows
//! it was drawn with (`window`); each window's cells become text lines
//! (`lines`); and the two-row status window is parsed into typed fields
//! (`status`).  `game` ties the pieces together into one per-game
//! record, and `keys` holds small helpers for driving the application.
//!
//! Every component is specified against a mathematical model of its
//! state, and each operation is proved to follow that model exactly.

pub mod game;
pub mod keys;
pub mod lines;
pub mod screen;
pub mod status;
pub mod window;
