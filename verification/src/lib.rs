//! A per-owner persistent favorites store on a shared ledger.
//!
//! Each owner identity holds at most one record: a number, a short color, and
//! a short list of hobbies. The record lives at an address derived
//! deterministically from the owner's identity, in a fixed-capacity binary
//! encoding sized once, at creation, for the largest possible record.

pub mod address;
pub mod codec;
pub mod errors;
pub mod handler;
pub mod ledger;
pub mod record;
