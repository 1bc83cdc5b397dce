//! Feature-extraction core of a traffic-analysis tool.
//!
//! Observed network packets are folded into canonical, bidirectional flow
//! records: a direction-independent flow identity, per-direction running
//! aggregates, active/idle burst segmentation, exact descriptive statistics,
//! and a flow table with a textual persisted representation.

pub mod active;
pub mod codec;
pub mod error;
pub mod flag;
pub mod flow;
pub mod flow_id;
pub mod flow_information;
pub mod generator;
pub mod information;
pub mod ip;
pub mod json;
pub mod packet;
pub mod stats;
pub mod text;
pub mod time;
