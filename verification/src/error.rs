//! The errors of the backup engine.

use vstd::prelude::*;
use crate::text::join_text;

verus! {

/// The error of the password hashing crate; opaque here.
#[verifier::external_type_specification]
#[verifier::external_body]
pub struct ExPasswordHashError(argon2::password_hash::Error);

/// The error of std's I/O; opaque here.
#[verifier::external_type_specification]
#[verifier::external_body]
pub struct ExIoError(std::io::Error);

/// The error of a directory walk; opaque here.
#[verifier::external_type_specification]
#[verifier::external_body]
pub struct ExWalkError(walkdir::Error);

/// What can go wrong with a password.
#[derive(Debug)]
pub enum PasswordError {
    /// The password is not the one the destination is bound to.
    IncorrectPassword,
    /// The password breaks the policy; the text lists the policy.
    InvalidFormat(String),
    /// The hashing crate failed, or the stored record is not a hash string.
    HashError(argon2::password_hash::Error),
    /// The password could not be read.
    InputError(std::io::Error),
}

/// What can go wrong in any operation.
#[derive(Debug)]
pub enum SnapError {
    Command(String),
    Config(String),
    Backup(String),
    Restore(String),
    Delete(String),
    Password(PasswordError),
    IOError(std::io::Error),
    DirError(walkdir::Error),
    /// A message, and what the cipher reported.
    EncryptError(String, String),
    InvalidCompressor(String),
    InvalidSnapshotLayout(String),
    SerializationError(String),
}

/// The text of a hashing error.
///
/// Calls the `Debug` formatting of `argon2::password_hash::Error`; nothing is
/// claimed of the text.
#[verifier::external_body]
fn hash_error_text(err: &argon2::password_hash::Error) -> String {
    format!("{err:?}")
}

/// The text of an I/O error.
///
/// Calls the `Display` formatting of `std::io::Error`; nothing is claimed of
/// the text.
#[verifier::external_body]
fn io_error_text(err: &std::io::Error) -> String {
    format!("{err}")
}

/// The text of a directory-walk error.
///
/// Calls the `Debug` formatting of `walkdir::Error`; nothing is claimed of the
/// text.
#[verifier::external_body]
fn walk_error_text(err: &walkdir::Error) -> String {
    format!("{err:?}")
}

impl PasswordError {
    /// The variant's name; for a policy violation, the name and the policy text
    /// in round brackets.
    pub open spec fn spec_describe(&self, detail: Seq<char>) -> Seq<char> {
        match self {
            PasswordError::IncorrectPassword => "IncorrectPassword"@,
            PasswordError::InvalidFormat(m) => "InvalidFormat("@ + m@ + ")"@,
            PasswordError::HashError(_) => "HashError("@ + detail + ")"@,
            PasswordError::InputError(_) => "InputError("@ + detail + ")"@,
        }
    }

    /// A one-line description. For the two variants that carry an outside
    /// error, its text stands between the brackets.
    pub fn describe(&self) -> (s: String)
        ensures
            exists|detail: Seq<char>| s@ == self.spec_describe(detail),
    {
        match self {
            PasswordError::IncorrectPassword => {
                let s = String::from_str("IncorrectPassword");
                assert(s@ == self.spec_describe(Seq::empty()));
                s
            },
            PasswordError::InvalidFormat(m) => {
                let mut s = join_text("InvalidFormat(", m.as_str());
                s.append(")");
                assert(s@ == self.spec_describe(Seq::empty()));
                s
            },
            PasswordError::HashError(e) => {
                let t = hash_error_text(e);
                let mut s = join_text("HashError(", t.as_str());
                s.append(")");
                assert(s@ == self.spec_describe(t@));
                s
            },
            PasswordError::InputError(e) => {
                let t = io_error_text(e);
                let mut s = join_text("InputError(", t.as_str());
                s.append(")");
                assert(s@ == self.spec_describe(t@));
                s
            },
        }
    }
}

impl SnapError {
    /// The diagnostic line: the kind of error, a colon, and the detail.
    pub open spec fn spec_message(&self, detail: Seq<char>) -> Seq<char> {
        match self {
            SnapError::Command(m) => "Command Error: "@ + m@,
            SnapError::Config(m) => "Config Error: "@ + m@,
            SnapError::Backup(m) => "Backup Error: "@ + m@,
            SnapError::Restore(m) => "Restore Error: "@ + m@,
            SnapError::Delete(m) => "Delete Error: "@ + m@,
            SnapError::Password(_) => "Password Error: "@ + detail,
            SnapError::IOError(_) => "IO Error: "@ + detail,
            SnapError::DirError(_) => "Directory Traversal Error: "@ + detail,
            SnapError::EncryptError(m, _) => "Encryption/Decryption Error: "@ + m@,
            SnapError::InvalidCompressor(m) => "Compress/Decompress Error: "@ + m@,
            SnapError::InvalidSnapshotLayout(p) => "Invalid Snapshot Layout: "@ + p@,
            SnapError::SerializationError(m) => "Serialization Error: "@ + m@,
        }
    }

    /// The diagnostic line shown to the user. For a password error the detail
    /// is its description; for an outside error, its text.
    pub fn to_message(&self) -> (s: String)
        ensures
            exists|detail: Seq<char>| s@ == self.spec_message(detail),
            match self {
                SnapError::Password(e) => exists|d: Seq<char>|
                    s@ == "Password Error: "@ + e.spec_describe(d),
                _ => true,
            },
    {
        match self {
            SnapError::Command(m) => {
                let s = join_text("Command Error: ", m.as_str());
                assert(s@ == self.spec_message(Seq::empty()));
                s
            },
            SnapError::Config(m) => {
                let s = join_text("Config Error: ", m.as_str());
                assert(s@ == self.spec_message(Seq::empty()));
                s
            },
            SnapError::Backup(m) => {
                let s = join_text("Backup Error: ", m.as_str());
                assert(s@ == self.spec_message(Seq::empty()));
                s
            },
            SnapError::Restore(m) => {
                let s = join_text("Restore Error: ", m.as_str());
                assert(s@ == self.spec_message(Seq::empty()));
                s
            },
            SnapError::Delete(m) => {
                let s = join_text("Delete Error: ", m.as_str());
                assert(s@ == self.spec_message(Seq::empty()));
                s
            },
            SnapError::Password(e) => {
                let t = e.describe();
                let s = join_text("Password Error: ", t.as_str());
                assert(s@ == self.spec_message(t@));
                s
            },
            SnapError::IOError(e) => {
                let t = io_error_text(e);
                let s = join_text("IO Error: ", t.as_str());
                assert(s@ == self.spec_message(t@));
                s
            },
            SnapError::DirError(e) => {
                let t = walk_error_text(e);
                let s = join_text("Directory Traversal Error: ", t.as_str());
                assert(s@ == self.spec_message(t@));
                s
            },
            SnapError::EncryptError(m, _) => {
                let s = join_text("Encryption/Decryption Error: ", m.as_str());
                assert(s@ == self.spec_message(Seq::empty()));
                s
            },
            SnapError::InvalidCompressor(m) => {
                let s = join_text("Compress/Decompress Error: ", m.as_str());
                assert(s@ == self.spec_message(Seq::empty()));
                s
            },
            SnapError::InvalidSnapshotLayout(p) => {
                let s = join_text("Invalid Snapshot Layout: ", p.as_str());
                assert(s@ == self.spec_message(Seq::empty()));
                s
            },
            SnapError::SerializationError(m) => {
                let s = join_text("Serialization Error: ", m.as_str());
                assert(s@ == self.spec_message(Seq::empty()));
                s
            },
        }
    }
}

impl From<PasswordError> for SnapError {
    fn from(err: PasswordError) -> (r: Self) {
        SnapError::Password(err)
    }
}

impl vstd::std_specs::convert::FromSpecImpl<PasswordError> for SnapError {
    open spec fn obeys_from_spec() -> bool {
        true
    }

    open spec fn from_spec(err: PasswordError) -> Self {
        SnapError::Password(err)
    }
}

impl From<std::io::Error> for SnapError {
    fn from(err: std::io::Error) -> (r: Self) {
        SnapError::IOError(err)
    }
}

impl vstd::std_specs::convert::FromSpecImpl<std::io::Error> for SnapError {
    open spec fn obeys_from_spec() -> bool {
        true
    }

    open spec fn from_spec(err: std::io::Error) -> Self {
        SnapError::IOError(err)
    }
}

impl From<walkdir::Error> for SnapError {
    fn from(err: walkdir::Error) -> (r: Self) {
        SnapError::DirError(err)
    }
}

impl vstd::std_specs::convert::FromSpecImpl<walkdir::Error> for SnapError {
    open spec fn obeys_from_spec() -> bool {
        true
    }

    open spec fn from_spec(err: walkdir::Error) -> Self {
        SnapError::DirError(err)
    }
}

impl From<(String, String)> for SnapError {
    /// A cipher failure from a message and what the cipher reported.
    fn from(ctx: (String, String)) -> (r: Self) {
        SnapError::EncryptError(ctx.0, ctx.1)
    }
}

impl vstd::std_specs::convert::FromSpecImpl<(String, String)> for SnapError {
    open spec fn obeys_from_spec() -> bool {
        true
    }

    open spec fn from_spec(ctx: (String, String)) -> Self {
        SnapError::EncryptError(ctx.0, ctx.1)
    }
}

impl From<argon2::password_hash::Error> for PasswordError {
    fn from(err: argon2::password_hash::Error) -> (r: Self) {
        PasswordError::HashError(err)
    }
}

impl vstd::std_specs::convert::FromSpecImpl<argon2::password_hash::Error> for PasswordError {
    open spec fn obeys_from_spec() -> bool {
        true
    }

    open spec fn from_spec(err: argon2::password_hash::Error) -> Self {
        PasswordError::HashError(err)
    }
}

impl From<std::io::Error> for PasswordError {
    fn from(err: std::io::Error) -> (r: Self) {
        PasswordError::InputError(err)
    }
}

impl vstd::std_specs::convert::FromSpecImpl<std::io::Error> for PasswordError {
    open spec fn obeys_from_spec() -> bool {
        true
    }

    open spec fn from_spec(err: std::io::Error) -> Self {
        PasswordError::InputError(err)
    }
}

} // verus!
