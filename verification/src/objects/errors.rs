//! Errors raised while finding objects.

use vstd::prelude::*;
use vstd::string::StringExecFns;

verus! {

/// Raised when a request for one object finds either no object or several
/// candidates.
#[derive(Debug)]
pub struct FindObjectError {
    /// The objects the request may have been searching for.
    pub candidates: Option<Vec<String>>,
}

/// Raised when an object id is invalid or missing, for example when a
/// commit has no tree reference.
#[derive(Debug, Clone, Copy, PartialEq, Eq, Structural)]
pub struct InvalidObjectIdError {}

/// The message of a find error.
pub open spec fn find_error_text(candidates: Option<Vec<String>>) -> Seq<char> {
    match candidates {
        Some(_) => "multiple objects found"@,
        None => "no objects found"@,
    }
}

/// The message of an invalid-id error.
pub open spec fn invalid_object_id_text() -> Seq<char> {
    "invalid or missing object ID"@
}

impl FindObjectError {
    /// An error saying that no objects were found.
    pub fn none() -> (e: FindObjectError)
        ensures
            e.candidates is None,
    {
        FindObjectError { candidates: None }
    }

    /// An error saying that several objects were found, listing them.
    ///
    /// An empty slice gives the same error as [`FindObjectError::none`].
    pub fn some(candidates: &[String]) -> (e: FindObjectError)
        ensures
            candidates@.len() == 0 ==> e.candidates is None,
            candidates@.len() > 0 ==> {
                &&& e.candidates is Some
                &&& e.candidates->0@.len() == candidates@.len()
                &&& forall|i: int| 0 <= i < candidates@.len() ==> #[trigger] e.candidates->0@[i]@ == candidates@[i]@
            },
    {
        if candidates.len() == 0 {
            return FindObjectError::none();
        }
        let mut listed: Vec<String> = Vec::new();
        let mut i: usize = 0;
        while i < candidates.len()
            invariant
                i <= candidates@.len(),
                listed@.len() == i,
                forall|j: int| 0 <= j < i ==> #[trigger] listed@[j]@ == candidates@[j]@,
            decreases candidates@.len() - i,
        {
            listed.push(candidates[i].clone());
            i = i + 1;
        }
        FindObjectError { candidates: Some(listed) }
    }

    /// The error message.
    pub fn message(&self) -> (m: String)
        ensures
            m@ == find_error_text(self.candidates),
    {
        match self.candidates {
            Some(_) => String::from_str("multiple objects found"),
            None => String::from_str("no objects found"),
        }
    }
}

impl InvalidObjectIdError {
    /// The error message.
    pub fn message(&self) -> (m: String)
        ensures
            m@ == invalid_object_id_text(),
    {
        String::from_str("invalid or missing object ID")
    }
}

} // verus!
