//! Summarises Kubernetes pod state into one compact report row per pod.
//!
//! A run takes the JSON text of a pod list, a name filter, an ordered list
//! of image rename rules and the present instant, and gives one row per
//! pod that the filter keeps: readiness, merged status, restarts, age,
//! security posture and images. Every function states what it returns
//! over a mathematical model of its arguments.
//!
//! - [`json`]: JSON documents as plain data.
//! - [`status`]: readiness, restarts and merged status.
//! - [`age`]: creation time to coarse human duration.
//! - [`images`]: rename rules and the sorted list of distinct images.
//! - [`security`]: pod-level and container-level security postures.
//! - [`row`]: the rows of a pod list.
//! - [`source`]: the arguments and the outcome of the cluster query.
//! - [`pattern`], [`text`], [`error`]: regular expressions, text building
//!   blocks and the kinds of failure.

pub mod age;
pub mod error;
pub mod images;
pub mod json;
pub mod pattern;
pub mod row;
pub mod security;
pub mod source;
pub mod status;
pub mod text;
