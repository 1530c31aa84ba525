//! Reading the binary timezone files of the tz database, and asking the
//! timeline that such a file holds which zone was in force at an instant and
//! how many leap seconds had been counted by then.

pub mod error;
pub mod format;
pub mod reader;
pub mod search;
pub mod timeline;
pub mod tzfile;

pub use crate::error::ReadError;
pub use crate::reader::Reader;
pub use crate::search::{bsearch_no_less, first_after, first_not_before};
pub use crate::tzfile::{Timezone, TzFile};
