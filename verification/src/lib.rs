//! ipwatch monitors the external IP, its geolocation and DNS to verify VPN
//! status.
//!
//! This crate holds the decisions: what counts as a change, what is recorded,
//! what the tray and toasts say, how providers are failed over, what a leak
//! test concludes, which map tiles are served and which cached ones go. Every
//! item states its behaviour in a contract. Network, files, database and
//! windows belong to the program around it, which hands over plain values and
//! acts on what comes back.
pub mod addr;
pub mod app;
pub mod db;
pub mod dnsleak;
pub mod http;
pub mod json;
pub mod netinfo;
pub mod poller;
pub mod providers;
pub mod settings;
pub mod text;
