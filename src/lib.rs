//! Attitude playback core: the replay-trace format and the cyclic playback cursor.

pub mod numeral;
pub mod playback;
pub mod trace;

pub use numeral::is_numeric_field;
pub use playback::{Action, Playback};
pub use trace::{load_trace, validate_records, Trace, TraceError, COLUMN_COUNT};
