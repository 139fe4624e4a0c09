use vstd::prelude::*;

pub mod audio;
pub mod browse;
pub mod cli;
pub mod config;
pub mod control;
pub mod db;
pub mod discord;
pub mod doctor;
pub mod features;
pub mod grouping;
pub mod i18n;
pub mod library;
pub mod lyrics;
pub mod m3u;
pub mod model;
pub mod numbers;
pub mod omarchy;
pub mod pathname;
pub mod paths;
pub mod profiling;
pub mod session;
pub mod sorting;
pub mod text;
pub mod tui;
pub mod unicode;

verus! {

} // verus!
