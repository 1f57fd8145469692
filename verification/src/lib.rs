//! Planning logic for generating Unreal Engine assets from their serialised
//! (JSON) dumps: command-line arguments, configuration checks, dependency
//! discovery, generation order and report texts.
#![allow(non_snake_case)]

pub mod text;
pub mod input;
pub mod pattern;
pub mod output;
pub mod walk;
pub mod process;
pub mod schedule;
pub mod report;
pub mod config;
pub mod fs;
