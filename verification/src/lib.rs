//! The verified core of a desktop mail client: wire codecs (Modified UTF-7,
//! RFC 2047, base64, quoted-printable, iCalendar, Sieve), UID sequence-set
//! compaction, the local message cache with its retention and watermark
//! rules, and the pure decision logic of the IMAP, JMAP and SMTP layers.
//! The hosting process owns sockets, clocks and disks; everything here is
//! plain values in, plain values out.

use vstd::prelude::*;

pub mod ai;
pub mod autoconfig;
pub mod b64;
pub mod cache;
pub mod caldav;
pub mod carddav;
pub mod cloud;
pub mod crypto;
pub mod dayplan;
pub mod imap;
pub mod jmap;
pub mod mime;
pub mod rfc2047;
pub mod sieve;
pub mod smtp;
pub mod storage;
pub mod textutil;
pub mod uidseq;
pub mod utf7;

verus! {

} // verus!
