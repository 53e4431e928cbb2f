//! A differential update engine: validated metadata, package planning,
//! download range coalescing, progress accounting and package building rules.
pub mod names;
pub mod metadata;
pub mod planner;
pub mod state;
pub mod workspace;
pub mod codecs;
pub mod progress;
pub mod download;
pub mod packager;
pub mod apply;
pub mod repository;
