//! WebVTT subtitle cues carried inside an H.264 video stream.
//!
//! Cues are queued per subtitle track and, paced by a send frequency, turned
//! into chunks of WebVTT text. Each chunk travels as an SEI message of type
//! *user_data_unregistered* inside a NAL unit, framed either with Annex B
//! start codes or with AVCC length prefixes. Every step of that pipeline is
//! specified over byte sequences and proved against its specification.

pub mod time;
pub mod sink;
pub mod endian;
pub mod rbsp;
pub mod nal;
pub mod sei;
pub mod webvtt;
pub mod annex_b;
pub mod avcc;
pub mod text;
pub mod muxer;
pub mod codec;
