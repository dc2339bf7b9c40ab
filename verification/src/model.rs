//! What the engines decide: the outcome of a run, as a function of the answers
//! the repository gave, and when such a list of answers explains a run.

use vstd::prelude::*;
use crate::repo::MailRepo;

verus! {

/// An answer of the repository: the file names it found, or the text of its error.
pub type Answer = Result<Seq<Seq<char>>, Seq<char>>;

/// Why a run failed.
pub enum Failure {
    /// The repository failed, with this message.
    Repo(Seq<char>),
    /// Rules that must not overlap matched this many messages in common.
    Overlap(nat),
    /// A message already assigned to the first folder was to be assigned to the second.
    Ambiguous(Seq<char>, Seq<char>),
}

/// The result of a run: each file to its destination folder, or why the run failed.
pub type Outcome = Result<Map<Seq<char>, Seq<char>>, Failure>;

/// The state of a run between two answers.
pub enum Progress {
    /// More queries are to be asked; the messages found so far by overlap checks,
    /// and the assignments made so far.
    Running(nat, Map<Seq<char>, Seq<char>>),
    /// The run is over.
    Done(Outcome),
}

/// `n` capped at the largest `usize`.
pub open spec fn cap(n: nat) -> nat {
    if n > usize::MAX {
        usize::MAX as nat
    } else {
        n
    }
}

/// The repository may have given each answer of `t` to the query asked at that point.
pub open spec fn answered<R: MailRepo>(repo: &R, queries: Seq<Seq<char>>, t: Seq<Answer>) -> bool {
    &&& t.len() <= queries.len()
    &&& forall|k: int| 0 <= k < t.len() ==> #[trigger] repo.may_answer(queries[k], t[k])
}

/// `t` is the list of answers of a run that asked `queries` in order, took each answer
/// while it was running, stopped as soon as it was done, and ended with `outcome`.
pub open spec fn explained_by<R: MailRepo>(
    repo: &R,
    queries: Seq<Seq<char>>,
    run: spec_fn(Seq<Answer>) -> Progress,
    outcome: Outcome,
    t: Seq<Answer>,
) -> bool {
    &&& answered(repo, queries, t)
    &&& forall|k: int| 0 <= k < t.len() ==> (#[trigger] run(t.take(k))) is Running
    &&& run(t) == Progress::Done(outcome)
}

/// A run is still under way after the answers `t`.
pub open spec fn under_way<R: MailRepo>(
    repo: &R,
    queries: Seq<Seq<char>>,
    run: spec_fn(Seq<Answer>) -> Progress,
    t: Seq<Answer>,
) -> bool {
    &&& answered(repo, queries, t)
    &&& forall|k: int| 0 <= k < t.len() ==> (#[trigger] run(t.take(k))) is Running
}

/// Taking one more answer keeps a running run's history well formed.
pub proof fn lemma_under_way_step<R: MailRepo>(
    repo: &R,
    queries: Seq<Seq<char>>,
    run: spec_fn(Seq<Answer>) -> Progress,
    t: Seq<Answer>,
    a: Answer,
)
    requires
        under_way(repo, queries, run, t),
        run(t) is Running,
        t.len() < queries.len(),
        repo.may_answer(queries[t.len() as int], a),
    ensures
        under_way(repo, queries, run, t.push(a)),
        t.push(a).drop_last() == t,
{
    let t2 = t.push(a);
    assert(t2.drop_last() =~= t);
    assert forall|k: int| 0 <= k < t2.len() implies #[trigger] repo.may_answer(queries[k], t2[k]) by {
        if k < t.len() {
            assert(t2[k] == t[k]);
        }
    }
    assert forall|k: int| 0 <= k < t2.len() implies (#[trigger] run(t2.take(k))) is Running by {
        if k < t.len() {
            assert(t2.take(k) =~= t.take(k));
        } else {
            assert(t2.take(k) =~= t);
        }
    }
}

} // verus!
