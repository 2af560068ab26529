//! Verified core of a geospatial stream processor: event time, windows,
//! watermarks, joins, operators and their bookkeeping.
pub mod binary64;
pub mod checkpoint;
pub mod edge;
pub mod event;
pub mod geofence;
pub mod json;
pub mod kafka;
pub mod keyed;
pub mod metrics;
pub mod mqtt;
pub mod operator;
pub mod pipeline;
pub mod predict;
pub mod proximity;
pub mod replay;
pub mod spatial_agg;
pub mod state;
pub mod temporal_join;
pub mod tenant;
pub mod text;
pub mod time;
pub mod topology;
pub mod watermark;
pub mod window;
