//! A small "system fetch" library: it turns raw host facts (the contents of
//! a memory-info or cpu-info text source, an uptime in seconds, plain fact
//! strings) into the labeled lines of a terminal report.

pub mod cpuinfo;
pub mod digits;
pub mod meminfo;
pub mod render;
pub mod report;
pub mod scan;
pub mod style;
pub mod units;
