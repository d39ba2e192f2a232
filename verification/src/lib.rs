//! Terminal input decoding: a verified escape-sequence decoder that turns
//! raw terminal bytes into typed input events, together with the pure parts
//! of the surrounding input machinery — decimal field parsing, the
//! cursor-position report of the Device Status Query, the receive-loop
//! state machine of the asynchronous reader, and the terminal geometry
//! queries.
//!
//! Every event comes paired with the exact wire bytes it was decoded from;
//! the raw bytes of the decoded events of a buffer concatenate back to the
//! buffer, and decoding is a pure function of the input bytes. Both laws
//! are proved in `grammar`.

pub mod c0;
pub mod csi;
pub mod decode;
pub mod evt;
pub mod grammar;
pub mod input;
pub mod term;
pub mod util;

pub use c0::{C0, Idiom};
pub use csi::{cus_pos_rpt, parse_cus_pos, Csi};
pub use decode::{decode_all, Decoder, Parsed};
pub use evt::{Event, EventAndRaw, Key, Mouse, Nav, Window};
pub use input::{is_cus_pos_end, ReadLoop, ReadStep, RecvEvent};
pub use term::{term_size, term_size_px, WinSize};
pub use util::bytes_to_uint;
