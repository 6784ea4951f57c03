//! Core of a terminal dashboard that monitors and controls containers on a
//! single host.
//!
//! The library owns the state refresh and reconciliation logic: deciding which
//! refresh class is due on a tick, merging asynchronous and partially failed
//! poll results into a canonical in-memory model, keeping bounded per-entity
//! history series, and projecting the canonical entity list into the
//! filtered/grouped view that a renderer and an input dispatcher consume.
//! All I/O (the container runtime, host probes, the terminal) lives outside
//! this crate; callers hand in plain values and receive plain values back.

pub mod action;
pub mod cgroup;
pub mod config;
pub mod engine;
pub mod entity;
pub mod history;
pub mod projection;
pub mod sessions;
pub mod stats;
pub mod status;
pub mod text;
pub mod viewstate;

pub use action::{Action, RuntimeCommand};
pub use engine::{Engine, GpuSample, HostSample, RefreshKind};
pub use entity::{ContainerInfo, ContainerStats, EntityDescriptor, PortMapping, SystemStats};
pub use history::StatsHistory;
pub use projection::{ContainerList, Row};
pub use status::{ContainerStatus, StatusFilter};
pub use viewstate::{CreateContainerForm, CreateMode, FilterBar, ListViewMode, ViewMode};
