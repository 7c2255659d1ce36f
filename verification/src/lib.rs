//! Explains why an encrypted room event could not be decrypted.
//!
//! The entry point is [`UtdCause::determine`]. It weighs the reason that decryption failed
//! for against what the event says of itself (whether we were in the room, when it was sent)
//! and against the state of the current device.

pub mod decryption;
pub mod embedding;
pub mod embedding_laws;
pub mod event;
pub mod json;
pub mod json_laws;
pub mod laws;
pub mod membership;
pub mod membership_laws;
pub mod time;
pub mod utd_cause;

pub use decryption::{
    DeviceLinkProblem, UnableToDecryptInfo, UnableToDecryptReason, VerificationLevel, WithheldCode,
};
pub use embedding::{cut_out, Standalone, Step};
pub use event::{membership_at_event, time_of_event};
pub use json::{array_elements, object_members, raw_object_members, trim_start, Member, RawMember};
pub use membership::{membership_member, Membership};
pub use time::MilliSecondsSinceUnixEpoch;
pub use utd_cause::{CryptoContextInfo, UtdCause};
