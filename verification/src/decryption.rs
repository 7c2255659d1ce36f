//! What is known of a failed attempt to decrypt an event.

use vstd::prelude::*;

verus! {

/// Metadata about an event that could not be decrypted.
#[derive(Clone, Debug)]
pub struct UnableToDecryptInfo {
    /// The ID of the session that was used to encrypt the message, where the event has one.
    pub session_id: Option<String>,
    /// Why the event could not be decrypted.
    pub reason: UnableToDecryptReason,
}

/// Why an event could not be decrypted.
#[derive(Clone, Debug)]
pub enum UnableToDecryptReason {
    /// The reason was not recorded, or is not one of those below.
    Unknown,
    /// The `m.room.encrypted` event should have been decrypted, but was malformed.
    MalformedEncryptedEvent,
    /// The Megolm session that encrypted the event is missing. If the sender told us why they
    /// withheld it, this is the code that they gave.
    MissingMegolmSession(Option<WithheldCode>),
    /// We have the Megolm session, but only from a later message on.
    UnknownMegolmMessageIndex,
    /// The Megolm session is there, but decryption with it failed.
    MegolmDecryptionFailure,
    /// The event was decrypted, but its plaintext could not be deserialized.
    PayloadDeserializationFailure,
    /// The sender's keys in the plaintext are not those of the device that holds the session.
    MismatchedIdentityKeys,
    /// The sender's identity does not meet the trust requirement for decryption. The level is
    /// the one that it has reached.
    SenderIdentityNotTrusted(VerificationLevel),
}

/// The code that a sender gives for not sharing a key with us.
#[derive(Clone, Debug)]
pub enum WithheldCode {
    /// The user or device was blocked.
    Blacklisted,
    /// The user or device is not verified.
    Unverified,
    /// We are not allowed to have the key, for instance because we were not in the room.
    Unauthorised,
    /// The device that we asked does not have the key.
    Unavailable,
    /// An Olm session could not be established.
    NoOlm,
    /// A code that this library has no name for.
    Custom(String),
}

/// How far the sender of an event falls short of being verified.
#[derive(Clone, Debug)]
pub enum VerificationLevel {
    /// The sending user was never verified.
    UnverifiedIdentity,
    /// The sending user was verified, and has since changed identity.
    VerificationViolation,
    /// The sending device was not signed by its owner.
    UnsignedDevice,
    /// The sending device could not be linked to the event.
    UnlinkedDevice(DeviceLinkProblem),
}

/// Why an event could not be linked to the device that sent it.
#[derive(Clone, Copy, Debug)]
pub enum DeviceLinkProblem {
    /// The device is missing: it was deleted, or we have not learnt of it.
    MissingDevice,
    /// The key comes from an insecure source, such as an imported file.
    InsecureSource,
}

} // verus!
