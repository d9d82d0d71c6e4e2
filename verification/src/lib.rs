//! The decision core of a terminal multiplexer.
//!
//! A server keeps sessions of tabs of panes. This crate holds what the server knows and
//! decides: how panes are arranged and drawn, where a click lands, what a command or a
//! message of a client changes, and what is left to be done outside. It does no input or
//! output: terminals, sockets, files, and processes are the business of its caller, who
//! hands over what was read and carries out the plans that come back.
//!
//! Each type has a mathematical view, and each function says what it does over those
//! views. Laws that span functions are proof functions whose names begin with `law_`.

pub mod agent_laws;
pub mod agents;
pub mod arrangement_laws;
pub mod audience_laws;
pub mod automatic_laws;
pub mod bar_laws;
pub mod blit;
pub mod boxes;
pub mod browse;
pub mod client;
pub mod clients;
pub mod command;
pub mod command_laws;
pub mod composed;
pub mod compositor;
pub mod config;
pub mod connection;
pub mod detection;
pub mod dormant;
pub mod edit_laws;
pub mod edits;
pub mod effect_laws;
pub mod follow_up;
pub mod forwarding;
pub mod frame_laws;
pub mod frames;
pub mod geometry;
pub mod gesture_laws;
pub mod grid;
pub mod hit;
pub mod jobs;
pub mod layout;
pub mod layout_laws;
pub mod layout_modes;
pub mod lookup;
pub mod message;
pub mod mouse;
pub mod names;
pub mod naming;
pub mod order_laws;
pub mod paths;
pub mod picture_laws;
pub mod placement_laws;
pub mod pointer;
pub mod protocol;
pub mod ratio;
pub mod render;
pub mod reply_laws;
pub mod report_laws;
pub mod saving_laws;
pub mod screen;
pub mod selection;
pub mod session;
pub mod session_laws;
pub mod session_tree;
pub mod sizing;
pub mod startup;
pub mod state;
pub mod status_bar;
pub mod tab;
pub mod tab_laws;
pub mod tab_strip;
pub mod text;
pub mod validity;
pub mod views;
pub mod wire;
