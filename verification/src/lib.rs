//! The state and the rules behind a terminal dashboard of coding agents.
//!
//! Everything a key press, a mouse press or a reading of the machine decides is
//! here, as functions from plain values to plain values: which row the cursor
//! is on, what a panel says, where a tab lands after its neighbour closed. What
//! draws the result and what talks to the operating system is elsewhere.
#![allow(unused_imports)]

pub mod app;
pub mod bar;
pub mod bottom;
pub mod clipboard;
pub mod data;
pub mod figures;
pub mod footer;
pub mod geometry;
pub mod keyboard;
pub mod keys;
pub mod layout;
pub mod modals;
pub mod model;
pub mod order;
pub mod outside;
pub mod overview;
pub mod panels;
pub mod panes;
pub mod preview;
pub mod profiles;
pub mod quota;
pub mod rave;
pub mod reader;
pub mod remote;
pub mod render;
pub mod qr;
pub mod runloop;
pub mod scrollbar;
pub mod seen;
pub mod select;
pub mod settings;
pub mod share;
pub mod sound;
pub mod styled;
pub mod tabs;
pub mod text;
pub mod transcript;
pub mod wrap;
