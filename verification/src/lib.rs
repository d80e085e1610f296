//! Ranks photos by how likely they are to show a person whose face could not be
//! seen (occluded, turned away): by how near they are in time, and by camera, to
//! photos that are confirmed to show that person, refined by a comparison of
//! colors for the closest calls.
//!
//! This library holds the decisions and what they compute from plain values.
//! Files are read, programs run, threads used and floating point scores
//! computed around it.
pub mod calendar;
pub mod candidate;
pub mod capture;
pub mod color;
pub mod humanize;
pub mod loading;
pub mod media;
pub mod paths;
pub mod proximity;
pub mod ranking;
pub mod text;
