//! Time-merged browsing of bunyan logs.

pub mod app;
pub mod area;
pub mod clock;
pub mod command;
pub mod dialog;
pub mod display;
pub mod double;
pub mod editor;
pub mod engine;
pub mod event;
pub mod filter;
pub mod format;
pub mod help;
pub mod key;
pub mod long_op;
pub mod number;
pub mod pattern;
pub mod position;
pub mod queue;
pub mod rows;
pub mod screen;
pub mod search;
pub mod seeit;
pub mod session;
pub mod source;
pub mod startup;
pub mod tab;
pub mod text;
pub mod walk;
