//! Record and replay of WinHttp traffic: the logic of the hook library.
//!
//! The modules hold what the hooks compute; the hooks themselves, the
//! database and the Windows calls stand outside the library.
pub mod patch;
pub mod utf16;
pub mod radix64;
pub mod values;
pub mod replay;
pub mod text;
pub mod record;
pub mod schema;
pub mod status;
pub mod inject;
