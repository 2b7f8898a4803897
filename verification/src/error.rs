//! What can go wrong on a board.

use vstd::prelude::*;
use vstd::string::StringExecFns;

verus! {

/// The errors of the board, its database and its remapping table.
#[derive(Debug)]
#[non_exhaustive]
pub enum Error {
    /// An entry is to be created under a key that already has one.
    AlreadyExists {
        /// The key of the existing entry.
        key: String,
    },
    /// A rule is to be added for a key that already has one.
    AlreadyRemapped {
        /// The key that is already remapped.
        key: String,
        /// The target of the existing rule.
        remapped: String,
    },
    /// There is no entry under the key.
    NotFound {
        /// The key that was looked up.
        key: String,
    },
    /// The entry under the key holds a value of another type.
    WrongType {
        /// The key of the entry.
        key: String,
    },
    /// The entry under the key is locked by a guard.
    IsLocked {
        /// The key of the entry.
        key: String,
    },
    /// A rule points to the parent of a board that has none.
    NoParent {
        /// The key that has the rule.
        key: String,
        /// The key that the rule names on the parent.
        remapped: String,
    },
    /// The rule of the key gives a constant, which is no entry of any board.
    Assignment {
        /// The key that has the rule.
        key: String,
        /// The constant that the rule gives.
        value: String,
    },
    /// Something happened that the library holds to be impossible. The
    /// library itself never gives this error; it is there for code around
    /// the library that finds one of its own rules broken.
    Unexpected {
        /// Where it happened.
        location: String,
    },
}

/// An [`Error`] with its strings as sequences of characters.
pub enum ErrorView {
    AlreadyExists { key: Seq<char> },
    AlreadyRemapped { key: Seq<char>, remapped: Seq<char> },
    NotFound { key: Seq<char> },
    WrongType { key: Seq<char> },
    IsLocked { key: Seq<char> },
    NoParent { key: Seq<char>, remapped: Seq<char> },
    Assignment { key: Seq<char>, value: Seq<char> },
    Unexpected { location: Seq<char> },
}

impl View for Error {
    type V = ErrorView;

    open spec fn view(&self) -> ErrorView {
        match self {
            Error::AlreadyExists { key } => ErrorView::AlreadyExists { key: key@ },
            Error::AlreadyRemapped { key, remapped } => ErrorView::AlreadyRemapped {
                key: key@,
                remapped: remapped@,
            },
            Error::NotFound { key } => ErrorView::NotFound { key: key@ },
            Error::WrongType { key } => ErrorView::WrongType { key: key@ },
            Error::IsLocked { key } => ErrorView::IsLocked { key: key@ },
            Error::NoParent { key, remapped } => ErrorView::NoParent {
                key: key@,
                remapped: remapped@,
            },
            Error::Assignment { key, value } => ErrorView::Assignment { key: key@, value: value@ },
            Error::Unexpected { location } => ErrorView::Unexpected { location: location@ },
        }
    }
}

/// The error in words.
pub open spec fn message_text(e: ErrorView) -> Seq<char> {
    match e {
        ErrorView::AlreadyExists { key } => "an entry for the key "@ + key + " already exists"@,
        ErrorView::AlreadyRemapped { key, remapped } => "key "@ + key + " is already remapped as "@
            + remapped,
        ErrorView::NotFound { key } => "an entry for the key "@ + key + " is not existing"@,
        ErrorView::WrongType { key } => "the entry for the key "@ + key
            + " is stored with a different type"@,
        ErrorView::IsLocked { key } => "the entry for the key "@ + key + " is locked"@,
        ErrorView::NoParent { key, remapped } => "key "@ + key + " is remapped to "@ + remapped
            + " of a parent that is not there"@,
        ErrorView::Assignment { key, value } => "key "@ + key + " has the constant "@ + value
            + " assigned"@,
        ErrorView::Unexpected { location } => "an unexpected error occured in "@ + location,
    }
}

impl Error {
    /// The error in words, for a log or a person.
    pub fn message(&self) -> (r: String)
        ensures
            r@ == message_text(self@),
    {
        match self {
            Error::AlreadyExists { key } => {
                let mut r = String::from_str("an entry for the key ");
                r.append(key.as_str());
                r.append(" already exists");
                r
            },
            Error::AlreadyRemapped { key, remapped } => {
                let mut r = String::from_str("key ");
                r.append(key.as_str());
                r.append(" is already remapped as ");
                r.append(remapped.as_str());
                r
            },
            Error::NotFound { key } => {
                let mut r = String::from_str("an entry for the key ");
                r.append(key.as_str());
                r.append(" is not existing");
                r
            },
            Error::WrongType { key } => {
                let mut r = String::from_str("the entry for the key ");
                r.append(key.as_str());
                r.append(" is stored with a different type");
                r
            },
            Error::IsLocked { key } => {
                let mut r = String::from_str("the entry for the key ");
                r.append(key.as_str());
                r.append(" is locked");
                r
            },
            Error::NoParent { key, remapped } => {
                let mut r = String::from_str("key ");
                r.append(key.as_str());
                r.append(" is remapped to ");
                r.append(remapped.as_str());
                r.append(" of a parent that is not there");
                r
            },
            Error::Assignment { key, value } => {
                let mut r = String::from_str("key ");
                r.append(key.as_str());
                r.append(" has the constant ");
                r.append(value.as_str());
                r.append(" assigned");
                r
            },
            Error::Unexpected { location } => {
                let mut r = String::from_str("an unexpected error occured in ");
                r.append(location.as_str());
                r
            },
        }
    }

    /// The error for a missing entry under `key`.
    pub fn not_found(key: &str) -> (e: Error)
        ensures
            e@ == (ErrorView::NotFound { key: key@ }),
    {
        Error::NotFound { key: key.to_owned() }
    }

    /// The error for an entry of another type under `key`.
    pub fn wrong_type(key: &str) -> (e: Error)
        ensures
            e@ == (ErrorView::WrongType { key: key@ }),
    {
        Error::WrongType { key: key.to_owned() }
    }

    /// The error for a locked entry under `key`.
    pub fn is_locked(key: &str) -> (e: Error)
        ensures
            e@ == (ErrorView::IsLocked { key: key@ }),
    {
        Error::IsLocked { key: key.to_owned() }
    }

    /// The error for an entry that already exists under `key`.
    pub fn already_exists(key: &str) -> (e: Error)
        ensures
            e@ == (ErrorView::AlreadyExists { key: key@ }),
    {
        Error::AlreadyExists { key: key.to_owned() }
    }
}

} // verus!
