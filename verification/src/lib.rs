//! Decoding of the ENDF-6 nuclear-data exchange format: fixed-width records,
//! forward scanning for sections, and the TAB1 and TAB2 tabulated functions.
//!
//! A record is a line of 80 columns: 66 columns of payload, free text or six
//! fields of eleven columns, and an identifier in the last 14. Real numbers
//! are decoded to decimal literals, which are their exact values; turning a
//! literal into a binary floating-point number is left to the caller.

#![allow(non_snake_case)]

pub mod delayed_photon;
pub mod description;
pub mod error;
pub mod integer;
pub mod list;
pub mod number;
pub mod record;
pub mod scan;
pub mod source;
pub mod table;
pub mod tabular;
pub mod text;

pub use delayed_photon::DelayedPhotonData;
pub use description::{
    parse_directory_entry, parse_ref_row, parse_zsym_row, DescriptionCard, DirectoryEntry,
};
pub use error::ReadError;
pub use list::{read_int_rows, read_real_list, read_real_rows};
pub use number::{parse_real, parse_real_buf, Decimal, Real};
pub use record::{
    parse_cont_record, parse_int_list, parse_real_row, parse_real_row_buf, parse_record_ident,
    parse_text_record,
};
pub use scan::{seek_to_tuple, seek_to_tuple_mat};
pub use source::Source;
pub use table::PairTable;
pub use tabular::{InterpolationInterval, InterpolationScheme, Tab1, Tab2};
