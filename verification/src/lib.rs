//! Retained UI trees behind a C boundary.
//!
//! A caller describes a tree as a buffer of commands ([`decode`]); the tree is
//! committed to a view ([`views`]), updated in place ([`tree`]) and rendered as
//! elements ([`render`]). Keys and clicks come back as events ([`events`]).

pub mod abi;
pub mod boundary;
pub mod buffers;
pub mod builder;
pub mod command;
pub mod decode;
pub mod encode;
pub mod events;
pub mod growth;
pub mod identity;
pub mod input;
pub mod labels;
pub mod laws;
pub mod looks;
pub mod machine;
pub mod node;
pub mod paths;
pub mod reader;
pub mod render;
pub mod scroll;
pub mod session;
pub mod setters;
pub mod sources;
pub mod stream;
pub mod style;
pub mod text;
pub mod tree;
pub mod views;
pub mod window;
pub mod wire;
