//! Errors of the store's operations.
use vstd::prelude::*;

verus! {

/// What can go wrong in an operation on a database.
#[derive(Debug, PartialEq, Eq)]
pub enum Error {
    /// A database of this name exists already.
    AlreadyExists(String),
    /// The ciphertext did not authenticate: a wrong passphrase or a damaged file.
    Authentication,
    /// The decrypted records are not valid UTF-8 text.
    Encoding,
    /// The file is too short to hold its salt.
    Salt,
    /// The file is too short to hold its nonce.
    Nonce,
    /// The system's random generator failed.
    Randomness,
    /// The key could not be derived with the configured parameters.
    KeyDerivation,
    /// The records could not be encrypted.
    Encryption,
    /// Reading or writing the database file failed.
    Io(String),
    /// The storage directory could not be resolved.
    Configuration(String),
}

impl Error {
    /// A sentence for the user.
    pub fn message(&self) -> (r: String)
        ensures
            r@ == match self {
                Error::AlreadyExists(name) => "That database already exists: "@ + name@,
                Error::Authentication => "Incorrect password"@,
                Error::Encoding => "String error: records are not valid UTF-8"@,
                Error::Salt => "Error reading salt"@,
                Error::Nonce => "Error reading nonce"@,
                Error::Randomness => "Error: the system random generator failed"@,
                Error::KeyDerivation => "Cipher error: key derivation failed"@,
                Error::Encryption => "Cipher error: encryption failed"@,
                Error::Io(msg) => "File error: "@ + msg@,
                Error::Configuration(msg) => "Variable error: "@ + msg@,
            },
    {
        match self {
            Error::AlreadyExists(name) => {
                let mut m = String::from_str("That database already exists: ");
                m.append(name.as_str());
                m
            },
            Error::Authentication => String::from_str("Incorrect password"),
            Error::Encoding => String::from_str("String error: records are not valid UTF-8"),
            Error::Salt => String::from_str("Error reading salt"),
            Error::Nonce => String::from_str("Error reading nonce"),
            Error::Randomness => String::from_str("Error: the system random generator failed"),
            Error::KeyDerivation => String::from_str("Cipher error: key derivation failed"),
            Error::Encryption => String::from_str("Cipher error: encryption failed"),
            Error::Io(msg) => {
                let mut m = String::from_str("File error: ");
                m.append(msg.as_str());
                m
            },
            Error::Configuration(msg) => {
                let mut m = String::from_str("Variable error: ");
                m.append(msg.as_str());
                m
            },
        }
    }
}

} // verus!
