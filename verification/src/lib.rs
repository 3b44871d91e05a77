//! Verified core of a small FFmpeg front end: the ffmpeg / yt-dlp command lines,
//! the encoder fallback chain, output naming and the text scraping it relies on.

pub mod convert;
pub mod encoder;
pub mod jobs;
pub mod media;
pub mod num;
pub mod paths;
pub mod text;
pub mod tools;
pub mod web;
pub mod ytdlp;
