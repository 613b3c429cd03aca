//! A remote terminal that survives roaming and packet loss.
//!
//! The server runs a terminal emulator, the client shows a copy of its screen, and the
//! two keep their states in step by exchanging diffs inside sealed datagrams.

pub mod text;
pub mod utf8;
pub mod views;
pub mod widths;
pub mod words;
pub mod shell;
pub mod big_endian;
pub mod base64;

pub mod parser;
pub mod cell;
pub mod row;
pub mod draw_state;
pub mod framebuffer;
pub mod functions;
pub mod dispatcher;
pub mod emulator;

pub mod frame;
pub mod display;
pub mod typing;
pub mod commands;
pub mod mirror;
pub mod likeness;
pub mod redraw;
pub mod convergence;
pub mod reachable;
pub mod unlinked;
pub mod indifference;
pub mod control;
pub mod modes;
pub mod sequences;

pub mod predicted;
pub mod overlay;
pub mod prediction;
pub mod foresight;
pub mod drawing;
pub mod judging;

pub mod protobufs;
pub mod user;
pub mod complete;

pub mod crypto;
pub mod packet;
pub mod compressor;
pub mod fragment;
pub mod connection;
pub mod sender;
pub mod transport;
pub mod receiving;
pub mod session;
pub mod roaming;
pub mod pacing;
pub mod wire;

pub mod server;
pub mod client;
pub mod child;
pub mod login;
pub mod args;
pub mod opts;
pub mod locale;
pub mod terminfo;
pub mod launcher;
pub mod choices;
pub mod launch;
pub mod endpoints;
