//! Collections of input file paths.
use vstd::prelude::*;

verus! {

/// An ordered collection of file paths, as plain strings.
pub struct FilePathEntries {
    entries: Vec<String>,
}

impl View for FilePathEntries {
    type V = Seq<Seq<char>>;

    closed spec fn view(&self) -> Seq<Seq<char>> {
        self.entries@.map_values(|s: String| s@)
    }
}

impl FilePathEntries {
    /// The collection holding one file path.
    pub fn from(path: &str) -> (r: FilePathEntries)
        ensures
            r@ =~= seq![path@],
    {
        let mut entries: Vec<String> = Vec::new();
        entries.push(path.to_owned());
        FilePathEntries { entries }
    }

    /// The paths, in order.
    pub fn paths(&self) -> (r: &Vec<String>)
        ensures
            r@.map_values(|s: String| s@) == self@,
    {
        &self.entries
    }
}

} // verus!
