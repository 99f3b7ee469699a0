//! A policy-routing DNS forwarder core: request routing by domain and
//! record type, response filtering by upstream, domain and answer
//! addresses, and the first-accepted-wins decision over upstream answers.

pub mod bridge;
pub mod config;
pub mod dispatch;
pub mod domain;
pub mod filter;
pub mod handler;
pub mod ip;
pub mod text;
