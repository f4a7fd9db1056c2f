//! The auxiliary paths named by the rule file, and their validation.

use vstd::prelude::*;

verus! {

/// Relies on `std::path::Path::is_dir`: whether the path names an
/// existing directory. The answer depends on the state of the machine,
/// so nothing is promised of it.
#[verifier::external_body]
fn path_is_dir(path: &str) -> bool {
    std::path::Path::new(path).is_dir()
}

/// Paths used by the program for various purposes.
#[derive(Debug)]
pub struct AuxillaryPaths {
    /// The path to the directory where old and new transaction files
    /// will be stored.
    pub storage: String,
}

/// The message that rejects a storage path.
pub open spec fn spec_storage_err(storage: Seq<char>) -> Seq<char> {
    "The storage path "@ + storage + " is not a directory."@
}

impl AuxillaryPaths {
    pub fn new(storage: String) -> (r: Self)
        ensures
            r.storage@ == storage@,
    {
        AuxillaryPaths { storage }
    }

    /// The validation verdict, given whether the storage path names a
    /// directory: it is rejected exactly when it does not.
    pub fn validate_given(&self, storage_is_dir: bool) -> (r: Result<(), String>)
        ensures
            r.is_ok() == storage_is_dir,
            r.is_err() ==> (r->Err_0)@ == spec_storage_err(self.storage@),
    {
        if !storage_is_dir {
            let mut out = String::new();
            out.append("The storage path ");
            out.append(self.storage.as_str());
            out.append(" is not a directory.");
            proof {
                assert(out@ =~= spec_storage_err(self.storage@));
            }
            return Err(out);
        }
        Ok(())
    }

    /// Ensure the contained data is correct: the storage path must name
    /// a directory on this machine. Whether it does depends on the
    /// filesystem; the error, when one comes, names the path.
    pub fn validate(&self) -> (r: Result<(), String>)
        ensures
            r.is_err() ==> (r->Err_0)@ == spec_storage_err(self.storage@),
    {
        let is_dir = path_is_dir(self.storage.as_str());
        self.validate_given(is_dir)
    }
}

} // verus!
