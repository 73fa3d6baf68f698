//! Core of a download/upload task service: task configuration and state
//! machine, transfer decisions, priority scheduling and the client event
//! framing, with machine-checked contracts.
//!
//! The record of the tasks and the choice of the running ones are in
//! `scheduler`, `qos` and `queue`; what a transfer decides on a response or
//! an error is in `request_task`, `download` and `upload`; the messages to
//! client processes are in `client` and `manager`; how a configuration
//! travels in a message is in `parcel` and `serialize`; the commands of
//! callers are in `construct` and `command`; what is kept of tasks between
//! runs is in `database`.

pub mod ability;
pub mod app_state;
pub mod client;
pub mod command;
pub mod config;
pub mod construct;
pub mod database;
pub mod download;
pub mod error;
pub mod info;
pub mod lru;
pub mod manager;
pub mod network_manager;
pub mod notification_bar;
pub mod notify;
pub mod parcel;
pub mod permission;
pub mod pre_download;
pub mod progress;
pub mod qos;
pub mod queue;
pub mod reason;
pub mod register;
pub mod request_task;
pub mod scheduler;
pub mod serialize;
pub mod service;
pub mod strmap;
pub mod task_id_generator;
pub mod task_manager;
pub mod text;
pub mod upload;
pub mod utils;
pub mod wire;
