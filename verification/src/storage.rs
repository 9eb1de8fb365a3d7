use vstd::prelude::*;

verus! {

/// A JSON file holding the stored collections; reading and writing it is
/// the application's part.
pub struct FileStorage {
    file_path: String,
}

impl FileStorage {
    /// The path of the file.
    pub closed spec fn path(&self) -> Seq<char> {
        self.file_path@
    }

    /// Storage kept in the file at `file_path`.
    pub fn new(file_path: &str) -> (s: Self)
        ensures
            s.path() == file_path@,
    {
        FileStorage { file_path: file_path.to_string() }
    }

    /// The path of the file.
    pub fn file_path(&self) -> (p: &str)
        ensures
            p@ == self.path(),
    {
        self.file_path.as_str()
    }
}

} // verus!
