//! Cultural dial positions for agent personality.
//!
//! The geometry of the dial (coordinates, distances, centroids) is real-valued
//! and lives outside this crate. What is verified here is everything that
//! decides on top of those numbers: which item is nearest, which pairs are
//! closest, how traditions are assigned to clusters, how a distance matrix is
//! laid out, and how evolution timelines are recorded.
//!
//! Distances enter the verified code as order keys (see [`rank`]): an
//! `Option<u64>` that compares exactly like the real number it stands for,
//! with `None` for a value that is not a number.

pub mod rank;
pub mod distance;
pub mod tradition;
pub mod clustering;
pub mod evolution;
