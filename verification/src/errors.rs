use vstd::prelude::*;

verus! {

/// The failures a walk can hit, each unrecoverable: the whole run stops at
/// the first one and its message is reported.
pub enum ListError {
    /// The traversal could not advance to the next entry.
    EntryRead,
    /// The metadata of the entry at `path` could not be read.
    Metadata { path: String },
    /// The modification time of an entry could not be obtained.
    ModifiedTime,
}

impl ListError {
    /// The message reported for this failure.
    pub open spec fn spec_message(&self) -> Seq<char> {
        match self {
            ListError::EntryRead => "Error getting file entry"@,
            ListError::Metadata { path } => "Failed extracting metadata for "@ + path@
                + ". Perhaps you are missing permissions?"@,
            ListError::ModifiedTime => "Could not get date modified for the entry"@,
        }
    }

    /// A human-readable description of the failure, naming the offending
    /// path where one is known.
    pub fn message(&self) -> (r: String)
        ensures
            r@ == self.spec_message(),
    {
        match self {
            ListError::EntryRead => String::from_str("Error getting file entry"),
            ListError::Metadata { path } => {
                let mut r = String::from_str("Failed extracting metadata for ");
                r.append(path.as_str());
                r.append(". Perhaps you are missing permissions?");
                r
            },
            ListError::ModifiedTime => String::from_str(
                "Could not get date modified for the entry",
            ),
        }
    }
}

} // verus!
