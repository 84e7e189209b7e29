//! One discovered source file, already read to completion: its path and its
//! full contents as plain values. File discovery and reading themselves are
//! an outer layer's responsibility; the extraction core only consumes what
//! was read.

use vstd::prelude::*;

verus! {

/// The mathematical value of a read file: its path and contents as character
/// sequences.
pub ghost struct ReadFileView {
    pub path: Seq<char>,
    pub contents: Seq<char>,
}

/// A source file that was read to completion.
pub struct ReadFile {
    path: String,
    contents: String,
}

impl View for ReadFile {
    type V = ReadFileView;

    closed spec fn view(&self) -> ReadFileView {
        ReadFileView { path: self.path@, contents: self.contents@ }
    }
}

impl ReadFile {
    pub fn new(path: String, contents: String) -> (f: ReadFile)
        ensures
            f@ == (ReadFileView { path: path@, contents: contents@ }),
    {
        ReadFile { path, contents }
    }

    pub fn get_path(&self) -> (r: String)
        ensures
            r@ == self@.path,
    {
        self.path.clone()
    }

    pub fn get_contents(&self) -> (r: String)
        ensures
            r@ == self@.contents,
    {
        self.contents.clone()
    }
}

/// File discovery's filtering decision: whether a file's extension is one of
/// the accepted extensions, by exact character equality.
pub fn extension_accepted(extension: &str, accepted: &Vec<String>) -> (r: bool)
    ensures
        r == exists|j: int| 0 <= j < accepted@.len() && accepted@[j]@ == extension@,
{
    let sought = extension.to_owned();
    let mut j: usize = 0;
    while j < accepted.len()
        invariant
            j <= accepted@.len(),
            sought@ == extension@,
            forall|k: int| 0 <= k < j ==> accepted@[k]@ != extension@,
        decreases accepted@.len() - j,
    {
        if accepted[j] == sought {
            return true;
        }
        j = j + 1;
    }
    false
}

} // verus!
