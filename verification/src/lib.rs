//! Binary codecs for PostgreSQL wire values, with machine-checked contracts.
//!
//! Every decoder states exactly which byte strings it accepts and what value
//! comes out; every encoder states exactly which bytes it appends. The text
//! search query codec additionally proves that decoding undoes encoding.

pub mod buffer;
pub mod error;
pub mod pg_geometry;
pub mod pg_hstore;
pub mod pg_interval;
pub mod pg_lsn;
pub mod pg_macaddr8;
pub mod pg_range_formatter;
pub mod pg_snapshot;
pub mod pg_time_tz;
pub mod pg_tsquery;
pub mod pg_tsvector;
pub mod pg_xid;
pub mod pg_xml;
pub mod text;
pub mod wire;
