//! The option bundle the command-line surface hands to an operation:
//! the archive path, the file list, the block size, and the toggles.

use vstd::prelude::*;

verus! {

/// One command-line toggle, kept for the operation that runs.
#[derive(Debug)]
pub enum TarOption {
    AbsoluteNames,
    ACLs,
    AfterDate,
    Anchored,
    AtimePreserve { arg: String },
    Verbose,
}

/// The mathematical content of an option bundle.
pub struct TarOptionsView {
    pub block_size: usize,
    pub archive: Seq<char>,
    pub files: Seq<Seq<char>>,
    pub options: Seq<TarOption>,
}

/// Holds common information that is parsed from command-line
/// arguments and changes the current execution.
#[derive(Debug)]
pub struct TarOptions {
    block_size: usize,
    archive: String,
    files: Vec<String>,
    options: Vec<TarOption>,
}

impl View for TarOptions {
    type V = TarOptionsView;

    closed spec fn view(&self) -> TarOptionsView {
        TarOptionsView {
            block_size: self.block_size,
            archive: self.archive@,
            files: self.files@.map(|i: int, f: String| f@),
            options: self.options@,
        }
    }
}

impl Default for TarOptions {
    /// Safe default values for one execution: a block size of 512
    /// bytes, and empty archive name, file list and option list.
    fn default() -> (r: TarOptions)
        ensures
            r@.block_size == 512,
            r@.archive.len() == 0,
            r@.files.len() == 0,
            r@.options.len() == 0,
    {
        let r = TarOptions {
            block_size: 512,
            archive: String::new(),
            files: Vec::new(),
            options: Vec::new(),
        };
        assert(r@.files =~= Seq::<Seq<char>>::empty());
        r
    }
}

impl TarOptions {
    /// The files named on the command line.
    pub fn files(&self) -> (r: &Vec<String>)
        ensures
            r@.map(|i: int, f: String| f@) == self@.files,
    {
        &self.files
    }

    /// The files named on the command line, for modification.
    pub fn files_mut(&mut self) -> (r: &mut Vec<String>)
        ensures
            r@.map(|i: int, f: String| f@) == old(self)@.files,
            final(self)@ == (TarOptionsView {
                files: final(r)@.map(|i: int, f: String| f@),
                ..old(self)@
            }),
    {
        &mut self.files
    }

    /// The archive path.
    pub fn archive(&self) -> (r: &String)
        ensures
            r@ == self@.archive,
    {
        &self.archive
    }

    /// The archive path, for modification.
    pub fn archive_mut(&mut self) -> (r: &mut String)
        ensures
            r@ == old(self)@.archive,
            final(self)@ == (TarOptionsView { archive: final(r)@, ..old(self)@ }),
    {
        &mut self.archive
    }

    /// The toggles in effect.
    pub fn options(&self) -> (r: &Vec<TarOption>)
        ensures
            r@ == self@.options,
    {
        &self.options
    }

    /// The toggles in effect, for modification.
    pub fn options_mut(&mut self) -> (r: &mut Vec<TarOption>)
        ensures
            r@ == old(self)@.options,
            final(self)@ == (TarOptionsView { options: final(r)@, ..old(self)@ }),
    {
        &mut self.options
    }
}

} // verus!
