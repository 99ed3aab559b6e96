//! The error taxonomy of the library, by kind.
//!
//! Every payload is carried as a plain `String` so that errors coming from
//! outside subsystems (the database file, the HTTP client, the keyring, the
//! notification subsystem) arrive here already rendered as text.

use vstd::prelude::*;

verus! {

/// One error, classified by kind.
#[derive(Debug, Clone)]
pub enum Error {
    Config(String),
    Database(String),
    Io(String),
    Auth(String),
    ProtonApi(String),
    Http(String),
    Json(String),
    Keyring(String),
    Sync(String),
    FileNotFound(String),
    InvalidPath(String),
    Encryption(String),
    InvalidState(String),
    Timeout,
    Cancelled,
    Watch(String),
}

impl Error {
    /// The rendered description: a kind prefix followed by the payload.
    pub open spec fn spec_message(self) -> Seq<char> {
        match self {
            Error::Config(m) => "Configuration error: "@ + m@,
            Error::Database(m) => "Database error: "@ + m@,
            Error::Io(m) => "IO error: "@ + m@,
            Error::Auth(m) => "Authentication error: "@ + m@,
            Error::ProtonApi(m) => "Proton API error: "@ + m@,
            Error::Http(m) => "HTTP request error: "@ + m@,
            Error::Json(m) => "JSON serialization error: "@ + m@,
            Error::Keyring(m) => "Keyring error: "@ + m@,
            Error::Sync(m) => "Sync error: "@ + m@,
            Error::FileNotFound(m) => "File not found: "@ + m@,
            Error::InvalidPath(m) => "Invalid path: "@ + m@,
            Error::Encryption(m) => "Encryption error: "@ + m@,
            Error::InvalidState(m) => "Invalid state: "@ + m@,
            Error::Timeout => "Timeout"@,
            Error::Cancelled => "Cancelled"@,
            Error::Watch(m) => "Watch error: "@ + m@,
        }
    }

    /// Render the description.
    pub fn message(&self) -> (s: String)
        ensures
            s@ == self.spec_message(),
    {
        match self {
            Error::Config(m) => {
                let mut s = "Configuration error: ".to_owned();
                s.append(m.as_str());
                s
            },
            Error::Database(m) => {
                let mut s = "Database error: ".to_owned();
                s.append(m.as_str());
                s
            },
            Error::Io(m) => {
                let mut s = "IO error: ".to_owned();
                s.append(m.as_str());
                s
            },
            Error::Auth(m) => {
                let mut s = "Authentication error: ".to_owned();
                s.append(m.as_str());
                s
            },
            Error::ProtonApi(m) => {
                let mut s = "Proton API error: ".to_owned();
                s.append(m.as_str());
                s
            },
            Error::Http(m) => {
                let mut s = "HTTP request error: ".to_owned();
                s.append(m.as_str());
                s
            },
            Error::Json(m) => {
                let mut s = "JSON serialization error: ".to_owned();
                s.append(m.as_str());
                s
            },
            Error::Keyring(m) => {
                let mut s = "Keyring error: ".to_owned();
                s.append(m.as_str());
                s
            },
            Error::Sync(m) => {
                let mut s = "Sync error: ".to_owned();
                s.append(m.as_str());
                s
            },
            Error::FileNotFound(m) => {
                let mut s = "File not found: ".to_owned();
                s.append(m.as_str());
                s
            },
            Error::InvalidPath(m) => {
                let mut s = "Invalid path: ".to_owned();
                s.append(m.as_str());
                s
            },
            Error::Encryption(m) => {
                let mut s = "Encryption error: ".to_owned();
                s.append(m.as_str());
                s
            },
            Error::InvalidState(m) => {
                let mut s = "Invalid state: ".to_owned();
                s.append(m.as_str());
                s
            },
            Error::Timeout => "Timeout".to_owned(),
            Error::Cancelled => "Cancelled".to_owned(),
            Error::Watch(m) => {
                let mut s = "Watch error: ".to_owned();
                s.append(m.as_str());
                s
            },
        }
    }
}

} // verus!
