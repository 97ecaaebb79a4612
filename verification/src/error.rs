//! The failures that end an installation.

use vstd::prelude::*;
use vstd::string::*;

verus! {

/// Why an installation stopped.
#[derive(Debug)]
pub enum Error {
    /// No install directory was given and the game library knows no
    /// installation of the game.
    GameNotFound,
    /// The install directory that was given does not exist.
    MissingDirectory,
    /// The runtime archive could not be read or unpacked; the text says why.
    Zip(String),
    /// The runtime archive could not be fetched; the text says why.
    Reqwest(String),
    /// The settings file is no key/value document; the number is that of its
    /// first malformed line, counted from one.
    Ini(usize),
    /// A file or directory could not be read or written; the text says why.
    Io(String),
}

/// The character of a digit.
pub open spec fn digit_text(digit: nat) -> Seq<char>
    recommends
        digit < 10,
{
    if digit == 0 {
        "0"@
    } else if digit == 1 {
        "1"@
    } else if digit == 2 {
        "2"@
    } else if digit == 3 {
        "3"@
    } else if digit == 4 {
        "4"@
    } else if digit == 5 {
        "5"@
    } else if digit == 6 {
        "6"@
    } else if digit == 7 {
        "7"@
    } else if digit == 8 {
        "8"@
    } else {
        "9"@
    }
}

/// A number in decimal digits.
pub open spec fn decimal_text(number: nat) -> Seq<char>
    decreases number,
{
    if number < 10 {
        digit_text(number)
    } else {
        decimal_text(number / 10) + digit_text(number % 10)
    }
}

/// The character of a digit.
fn digit(value: usize) -> (text: &'static str)
    requires
        value < 10,
    ensures
        text@ == digit_text(value as nat),
{
    if value == 0 {
        "0"
    } else if value == 1 {
        "1"
    } else if value == 2 {
        "2"
    } else if value == 3 {
        "3"
    } else if value == 4 {
        "4"
    } else if value == 5 {
        "5"
    } else if value == 6 {
        "6"
    } else if value == 7 {
        "7"
    } else if value == 8 {
        "8"
    } else {
        "9"
    }
}

/// A number in decimal digits.
pub fn decimal(number: usize) -> (text: String)
    ensures
        text@ == decimal_text(number as nat),
    decreases number,
{
    if number < 10 {
        String::from_str(digit(number))
    } else {
        let mut text = decimal(number / 10);
        text.append(digit(number % 10));
        text
    }
}

impl Error {
    /// What the user is told.
    pub open spec fn text(self) -> Seq<char> {
        match self {
            Error::GameNotFound => "Game not found"@,
            Error::MissingDirectory => "Directory doesn't exist"@,
            Error::Zip(reason) => reason@,
            Error::Reqwest(reason) => reason@,
            Error::Ini(line) => "Settings file is malformed at line "@ + decimal_text(line as nat),
            Error::Io(reason) => reason@,
        }
    }

    /// The two are the same failure, with the same text or number.
    pub open spec fn same_as(self, other: Error) -> bool {
        match (self, other) {
            (Error::GameNotFound, Error::GameNotFound) => true,
            (Error::MissingDirectory, Error::MissingDirectory) => true,
            (Error::Zip(a), Error::Zip(b)) => a@ == b@,
            (Error::Reqwest(a), Error::Reqwest(b)) => a@ == b@,
            (Error::Ini(a), Error::Ini(b)) => a == b,
            (Error::Io(a), Error::Io(b)) => a@ == b@,
            _ => false,
        }
    }

    /// What the user is told.
    pub fn message(&self) -> (text: String)
        ensures
            text@ == self.text(),
    {
        match self {
            Error::GameNotFound => String::from_str("Game not found"),
            Error::MissingDirectory => String::from_str("Directory doesn't exist"),
            Error::Zip(reason) => reason.clone(),
            Error::Reqwest(reason) => reason.clone(),
            Error::Ini(line) => {
                let number = decimal(*line);
                String::from_str("Settings file is malformed at line ").concat(number.as_str())
            },
            Error::Io(reason) => reason.clone(),
        }
    }
}

} // verus!
