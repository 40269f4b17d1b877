//! Where keywords come from.
use vstd::prelude::*;

use crate::error::KeywordSourceError;
use crate::text::{copy_texts, texts};
use crate::watchlist::{file_load, load_domain_file, loads, FileRead};

verus! {

/// A source of keywords.
pub trait KeywordSource {
    /// The keywords as they are now.
    fn load(&self) -> Result<Vec<String>, KeywordSourceError>;
}

/// Keywords held in memory.
#[derive(Clone, Debug, Default)]
pub struct MemoryKeywordSource {
    keywords: Vec<String>,
}

impl MemoryKeywordSource {
    /// The keywords that the source holds.
    pub closed spec fn held(&self) -> Seq<Seq<char>> {
        texts(self.keywords@)
    }

    /// A source with the given keywords.
    pub fn new(keywords: &[String]) -> (r: Self)
        ensures
            r.held() == texts(keywords@),
    {
        MemoryKeywordSource { keywords: copy_texts(keywords) }
    }

    /// Replaces the keywords.
    pub fn set(&mut self, keywords: &[String])
        ensures
            final(self).held() == texts(keywords@),
    {
        self.keywords = copy_texts(keywords);
    }
}

impl KeywordSource for MemoryKeywordSource {
    /// The keywords that the source holds.
    fn load(&self) -> (r: Result<Vec<String>, KeywordSourceError>)
        ensures
            r is Ok,
            texts(r->Ok_0@) == self.held(),
    {
        Ok(copy_texts(self.keywords.as_slice()))
    }
}

/// Keywords in a file, one per line. Blank lines and `#` comments are ignored.
#[derive(Clone, Debug)]
pub struct FileKeywordSource {
    path: String,
}

impl FileKeywordSource {
    /// The path of the file.
    pub closed spec fn spec_path(&self) -> Seq<char> {
        self.path@
    }

    /// A source that reads the given file.
    pub fn new(path: &str) -> (r: Self)
        ensures
            r.spec_path() == path@,
    {
        FileKeywordSource { path: path.to_owned() }
    }

    /// The path of the file.
    pub fn path(&self) -> (r: &str)
        ensures
            r@ == self.spec_path(),
    {
        self.path.as_str()
    }

    /// The keywords, given what reading the file gave.
    pub fn load_from(&self, read: &FileRead) -> (r: Result<Vec<String>, KeywordSourceError>)
        ensures
            loads(r, file_load(self.spec_path(), *read)),
    {
        load_domain_file(self.path.as_str(), read)
    }
}

} // verus!
