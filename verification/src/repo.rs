use vstd::prelude::*;

verus! {

/// An error reported by a mail repository.
pub struct RepoError {
    pub message: String,
}

/// The texts of a list of strings.
pub open spec fn names(v: Seq<String>) -> Seq<Seq<char>> {
    v.map_values(|s: String| s@)
}

/// The view of a search answer: the found file names, or the repository's error.
pub open spec fn answer_view(r: Result<Vec<String>, RepoError>) -> Result<Seq<Seq<char>>, Seq<char>> {
    match r {
        Ok(v) => Ok(names(v@)),
        Err(e) => Err(e.message@),
    }
}

/// A store of mails that can be searched with notmuch queries.
pub trait MailRepo {
    /// Whether `result` is an answer this repository may give to `query`.
    /// A repository that does not say may give any answer: its searches depend on
    /// the mails stored, which can change between two searches.
    closed spec fn may_answer(&self, query: Seq<char>, result: Result<Seq<Seq<char>>, Seq<char>>) -> bool {
        true
    }

    /// Searches for the messages that match `query` and returns their file names.
    fn search_message(&self, query: &str) -> (r: Result<Vec<String>, RepoError>)
        ensures
            self.may_answer(query@, answer_view(r)),
    ;
}

} // verus!
