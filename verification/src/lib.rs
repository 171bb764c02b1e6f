//! The logic of the DNS-AI client: the resolver addresses it knows and how it learns new ones,
//! the DNS messages it reads and composes, what it remembers of a machine's previous DNS settings,
//! and the decisions behind every step that changes them.

pub mod addr;
pub mod app;
pub mod autostart;
pub mod backup;
pub mod config;
pub mod dnsmsg;
pub mod endpoints;
pub mod ipc;
pub mod iptext;
pub mod launch;
pub mod logging;
pub mod mark;
pub mod netif;
pub mod paths;
pub mod report;
pub mod rescue;
pub mod service;
pub mod setup;
pub mod stub;
pub mod text;
pub mod tray;
