//! Status and demo listings of QuakeWorld QTV relay servers.
//!
//! `status` holds the UDP status protocol: the request bytes and the
//! validation of a reply. `demos` holds the HTTP demo listing: its URLs and
//! the parsing of a listing body. `per_address` holds the record that a
//! fan-out over many servers fills, one outcome per address.
pub mod demos;
pub mod per_address;
pub mod status;

pub use demos::{
    demo_filenames_url, demo_filenames_from_body, demo_urls_from_filenames, fetch_status,
    filename_to_url,
};
pub use per_address::{Outcome, PerAddress, collect_outcomes};
pub use status::{StatusError, parse_status87_response, status87_command, status_from_reply};
