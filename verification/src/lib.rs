//! Local infrastructure intelligence: discovery of containers and networks,
//! traffic classification, security findings, metadata indexing and topology
//! layout, with the core logic verified.

pub mod auth;
pub mod clustering;
pub mod discovery;
pub mod dns;
pub mod error;
pub mod graph;
pub mod history;
pub mod metadata;
pub mod models;
pub mod monitoring;
pub mod network;
pub mod procnet;
pub mod security;
pub mod text;
pub mod topology;
pub mod visualization;
