//! Share-limit rule engine for a torrent client's sync stream.
//!
//! The server answers each sync request with everything it knows or with
//! the changes since the last answer. `client` merges those answers into
//! the torrents known (`store`, `qbittorrent`); `config` holds the rules and
//! says which torrent meets which (`comparison` reads their thresholds);
//! `reconcile` holds every known torrent against the rules and lists the
//! limits that must change. `ratio` and `text` carry share ratios and the
//! writing of texts.

pub mod client;
pub mod comparison;
pub mod config;
pub mod qbittorrent;
pub mod ratio;
pub mod reconcile;
pub mod store;
pub mod text;
