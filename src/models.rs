use vstd::prelude::*;

verus! {

/// The text a caller submits to register a document.
#[derive(Debug, Clone)]
pub struct DocumentRequest {
    pub title: String,
    pub description: String,
    pub url: String,
}

/// A registered document and the number of votes cast for it.
#[derive(Debug, Clone)]
pub struct Document {
    pub title: String,
    pub description: String,
    pub url: String,
    pub votes: u64,
    pub creator: String,
}

/// An account's vote credits. `voted` is part of the record but no operation changes it.
#[derive(Debug, Clone)]
pub struct User {
    pub account: String,
    pub available_votes: u64,
    pub voted: u64,
}

impl Document {
    /// A field-by-field copy.
    pub fn copy(&self) -> (r: Document)
        ensures
            r == *self,
    {
        Document {
            title: self.title.clone(),
            description: self.description.clone(),
            url: self.url.clone(),
            votes: self.votes,
            creator: self.creator.clone(),
        }
    }
}

impl User {
    /// A field-by-field copy.
    pub fn copy(&self) -> (r: User)
        ensures
            r == *self,
    {
        User { account: self.account.clone(), available_votes: self.available_votes, voted: self.voted }
    }
}

} // verus!
