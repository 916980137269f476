//! What can go wrong when a volume is opened or read.

use vstd::prelude::*;

verus! {

broadcast use vstd::string::group_string_axioms;

/// The sizes of a volume's parts.
#[derive(Clone, Copy, Debug, PartialEq, Eq, Structural)]
pub struct NtfsInfo {
    pub cluster_size: u32,
    pub sector_size: u16,
}

/// What went wrong, with the text that came with it.
#[derive(Debug)]
pub enum MftError {
    Io(String),
    NtfsParse(String),
    NtfsPanic(String),
    PermissionDenied { path: String },
}

/// The text that an error is shown with.
pub open spec fn mft_error_text(e: MftError) -> Seq<char> {
    match e {
        MftError::Io(what) => "I/O error: "@ + what@,
        MftError::NtfsParse(what) => "NTFS parse error: "@ + what@,
        MftError::NtfsPanic(what) => "NTFS parser panicked: "@ + what@,
        MftError::PermissionDenied { path } => "Permission denied opening '"@ + path@
            + "'. On Windows, raw volume access (\\\\.\\C:) requires Administrator privileges. Run as Administrator or provide an NTFS image file path."@,
    }
}

impl MftError {
    /// The text that the error is shown with.
    pub fn message(&self) -> (r: String)
        ensures
            r@ == mft_error_text(*self),
    {
        match self {
            MftError::Io(what) => {
                let mut r = "I/O error: ".to_string();
                r.append(what.as_str());
                r
            },
            MftError::NtfsParse(what) => {
                let mut r = "NTFS parse error: ".to_string();
                r.append(what.as_str());
                r
            },
            MftError::NtfsPanic(what) => {
                let mut r = "NTFS parser panicked: ".to_string();
                r.append(what.as_str());
                r
            },
            MftError::PermissionDenied { path } => {
                let mut r = "Permission denied opening '".to_string();
                r.append(path.as_str());
                r.append(
                    "'. On Windows, raw volume access (\\\\.\\C:) requires Administrator privileges. Run as Administrator or provide an NTFS image file path.",
                );
                r
            },
        }
    }

    /// What went wrong when a file was read: whether the system refused it, and its text.
    pub fn of_io(denied: bool, what: String) -> (r: MftError)
        ensures
            if denied {
                r matches MftError::PermissionDenied { path } && path@ == Seq::<char>::empty()
            } else {
                r == MftError::Io(what)
            },
    {
        if denied {
            MftError::PermissionDenied { path: String::new() }
        } else {
            MftError::Io(what)
        }
    }

    /// What went wrong when a volume was opened.
    pub fn of_open(path: &str, denied: bool, what: String) -> (r: MftError)
        ensures
            if denied {
                r matches MftError::PermissionDenied { path: p } && p@ == path@
            } else {
                r == MftError::Io(what)
            },
    {
        if denied {
            MftError::PermissionDenied { path: path.to_string() }
        } else {
            MftError::Io(what)
        }
    }

    /// What went wrong when the parser gave up; it may have left a text.
    pub fn of_panic(text: Option<String>) -> (r: MftError)
        ensures
            r matches MftError::NtfsPanic(what) && what@ == (match text {
                Some(t) => t@,
                None => "unknown panic"@,
            }),
    {
        match text {
            Some(t) => MftError::NtfsPanic(t),
            None => MftError::NtfsPanic("unknown panic".to_string()),
        }
    }
}

} // verus!
