//! Scene detection: scene lists, timing, and the integer decision logic behind detectors.
#![allow(unused_imports)]

use vstd::prelude::*;

pub mod model;
pub mod scene_list;
pub mod review;
pub mod timing;
pub mod text;
pub mod timeline;
pub mod numeral;
pub mod ffmpeg;
pub mod timecode;
pub mod paths;
pub mod artifacts;
pub mod stats;
pub mod decisions;
pub mod similarity;
pub mod detector;
pub mod browser;
pub mod reports;
