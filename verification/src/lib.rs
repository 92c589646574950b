//! atmoq: the atproto firehose over MoQ.
//!
//! The library is what the program decides and computes; reading, sending and
//! waiting are left to the program around it.
//!
//! - Frames: [`drisl`] says which bytes are DRISL, [`cbor`] holds decoded
//!   values, [`frame`] takes a wire frame apart, [`car`] finds blocks by CID.
//! - Printing: [`json`] renders values, [`encoding`] writes bytes as text,
//!   [`events`] says which lines a stream of frames gives, [`conformance`] which
//!   a corpus does.
//! - Relaying: [`ingest`] takes upstream messages, [`pump`] says what is
//!   published and when the cursor is kept, [`groups`] cuts the stream into
//!   groups, [`router`] sends frames to per-account tracks, [`reader`] and
//!   [`dialect07`] keep the two MoQ legs going, [`backoff`] says how long to
//!   wait, [`resume`] says where to go on after a restart.
//! - Keeping: [`store`] keeps groups in segments for replay.
//! - Watching: [`metrics`] counts, [`web`] answers requests, [`heap`] says
//!   whether heap profiles can be had.
//! - Beneath: [`text`], [`order`], [`powers`], [`assoc`] and [`seconds`].
//!
//! What holds of a module as a whole stands in its `laws`.

pub mod assoc;
pub mod backoff;
pub mod car;
pub mod cbor;
pub mod conformance;
pub mod dialect07;
pub mod drisl;
pub mod encoding;
pub mod events;
pub mod frame;
pub mod groups;
pub mod heap;
pub mod ingest;
pub mod json;
pub mod metrics;
pub mod order;
pub mod powers;
pub mod pump;
pub mod reader;
pub mod resume;
pub mod router;
pub mod seconds;
pub mod store;
pub mod text;
pub mod web;
