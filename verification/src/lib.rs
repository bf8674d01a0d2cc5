//! Ingestion of an IPTV channel playlist and a TV guide, with filtering,
//! search and a freshness policy for cached copies of both.
//!
//! - [`record`] reads and writes the two-line record of a playlist entry;
//!   [`document`] reads and writes whole playlists; [`playlist`] holds the
//!   entries and the exclusions that derive the filtered view.
//! - [`timestamp`] holds the zoned times of the guide; [`epg`] the guide,
//!   its XML text and its pruning; [`guide_search`] the search for
//!   programmes that are on or still to come.
//! - [`search`] joins guide and playlist for a query; [`service`] decides
//!   what an upstream answer comes to; [`cache`] decides when a cached
//!   source is served and when it is fetched again.
//! - [`text`], [`lines`], [`number`], [`lookup`] and [`order`] are the
//!   tools of the others.
//! - [`record_proofs`], [`lines_proofs`] and [`document_proofs`] show that
//!   the order of attributes does not matter and that a playlist that is
//!   written reads back as it was.
//!
//! Contracts are stated over sequences of characters and the views of the
//! data types. Calendar arithmetic, case mapping, joining and sorting are
//! done by chrono, std and itertools; their contracts are believed, not
//! proved, and say so where they stand.

pub mod cache;
pub mod document;
pub mod document_proofs;
pub mod epg;
pub mod guide_search;
pub mod lines;
pub mod lines_proofs;
pub mod lookup;
pub mod number;
pub mod order;
pub mod playlist;
pub mod record;
pub mod record_proofs;
pub mod search;
pub mod service;
pub mod text;
pub mod timestamp;
