//! Turns one JSON document into a command-line grammar and the matching run-time
//! instructions, and turns parsed arguments into the environment of the program to launch.

pub mod config;
pub mod decode;
pub mod document;
pub mod encode;
pub mod environ;
pub mod error;
pub mod json;
pub mod named;
pub mod naming;
pub mod order;
pub mod shape;
pub mod split;
pub mod walk;
