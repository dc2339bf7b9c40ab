//! Applying the rules of the basic form: where there are two rules or more, one check
//! that no message matches all the rules at once; then each rule assigns its messages,
//! none of them twice.

use vstd::prelude::*;
use crate::actions::{add_spellings, spelled_as, Actions};
use crate::assign::{assign_unique, insert_unique};
use crate::basic::config::{Config, Rule};
use crate::model::{explained_by, lemma_under_way_step, under_way, Answer, Failure, Outcome, Progress};
use crate::query::{append_date_clause, conjunction_prefix, conjunction_text, rule_query, rule_query_text};
use crate::repo::{answer_view, MailRepo, RepoError};
use crate::text::{decimal, usize_to_decimal};

verus! {

/// Why applying the rules failed.
pub enum EngineError {
    /// The repository could not answer a query.
    Repo(RepoError),
    /// `count` messages match all the rules at once.
    Overlap { count: usize },
    /// A message assigned to folder `previous` was to be assigned to `folder` too.
    Ambiguous { previous: String, folder: String },
}

impl EngineError {
    /// What the error stands for in the model of a run.
    pub open spec fn view(self) -> Failure {
        match self {
            EngineError::Repo(e) => Failure::Repo(e.message@),
            EngineError::Overlap { count } => Failure::Overlap(count as nat),
            EngineError::Ambiguous { previous, folder } => Failure::Ambiguous(previous@, folder@),
        }
    }

    /// The text of the error, as it is reported to the user.
    pub open spec fn spec_message(self) -> Seq<char> {
        match self {
            EngineError::Repo(e) => e.message@,
            EngineError::Overlap { count } => "Rules overlap! overlap count: "@ + decimal(count as nat),
            EngineError::Ambiguous { previous, folder } => "Ambiguous result: "@ + previous@ + " and "@
                + folder@,
        }
    }

    /// The text of the error, as it is reported to the user.
    pub fn message(&self) -> (s: String)
        ensures
            s@ == self.spec_message(),
    {
        match self {
            EngineError::Repo(e) => e.message.clone(),
            EngineError::Overlap { count } => {
                let mut s = String::from_str("Rules overlap! overlap count: ");
                let digits = usize_to_decimal(*count);
                s.append(digits.as_str());
                s
            },
            EngineError::Ambiguous { previous, folder } => {
                let mut s = String::from_str("Ambiguous result: ");
                s.append(previous.as_str());
                s.append(" and ");
                s.append(folder.as_str());
                s
            },
        }
    }
}

/// The outcome that a result of the engine stands for.
pub open spec fn result_view(r: Result<Actions, EngineError>) -> Outcome {
    match r {
        Ok(a) => Ok(a@),
        Err(e) => Err(e.view()),
    }
}

/// The queries of the rules, in order.
pub open spec fn rule_queries(cfg: Config) -> Seq<Seq<char>> {
    cfg.rules@.map_values(|r: Rule| r.query@)
}

/// Whether the run first checks that no message matches all the rules at once: it
/// does when there are two rules or more (one rule overlaps no other).
pub open spec fn overlap_checked(cfg: Config) -> bool {
    cfg.rules@.len() >= 2
}

/// The number of queries asked before the rules' own queries.
pub open spec fn basic_offset(cfg: Config) -> int {
    if overlap_checked(cfg) { 1 } else { 0 }
}

/// The queries asked: the conjunction of all rules (when there are two or more), then
/// one per rule.
pub open spec fn basic_queries(cfg: Config) -> Seq<Seq<char>> {
    let rule_texts = Seq::new(
        cfg.rules@.len(),
        |i: int| rule_query_text(cfg.rules@[i].folder@, cfg.rules@[i].query@, cfg.max_age_days),
    );
    if overlap_checked(cfg) {
        seq![conjunction_text(rule_queries(cfg), cfg.max_age_days)] + rule_texts
    } else {
        rule_texts
    }
}

/// Where a run starts.
pub open spec fn basic_start(cfg: Config) -> Progress {
    if cfg.rules@.len() == 0 {
        Progress::Done(Ok(Map::empty()))
    } else {
        Progress::Running(0, Map::empty())
    }
}

/// Taking answer `a` to the `k`-th query: the conjunction (asked first when there are
/// two rules or more) fails the run when it found messages; a rule's query assigns its messages, failing on one assigned before.
pub open spec fn basic_feed(cfg: Config, st: Progress, k: int, a: Answer) -> Progress {
    match st {
        Progress::Done(o) => Progress::Done(o),
        Progress::Running(hits, m) => match a {
            Err(e) => Progress::Done(Err(Failure::Repo(e))),
            Ok(found) => if overlap_checked(cfg) && k == 0 {
                if found.len() > 0 {
                    Progress::Done(Err(Failure::Overlap(found.len())))
                } else {
                    Progress::Running(0, m)
                }
            } else {
                let i = k - basic_offset(cfg);
                let folder = cfg.rules@[i].folder@;
                match insert_unique(m, found, folder) {
                    Err(previous) => Progress::Done(Err(Failure::Ambiguous(previous, folder))),
                    Ok(m2) => if i == cfg.rules@.len() - 1 {
                        Progress::Done(Ok(m2))
                    } else {
                        Progress::Running(hits, m2)
                    },
                }
            },
        },
    }
}

/// The state of a run after the answers `t`.
pub open spec fn basic_run(cfg: Config, t: Seq<Answer>) -> Progress
    decreases t.len(),
{
    if t.len() == 0 {
        basic_start(cfg)
    } else {
        basic_feed(cfg, basic_run(cfg, t.drop_last()), t.len() - 1, t.last())
    }
}

/// The spelling each file is kept in after a run was given the answers `t`: the one
/// the rule that took it found it in (the overlap check keeps none).
pub open spec fn basic_spellings(cfg: Config, t: Seq<Answer>) -> Map<Seq<char>, Seq<char>>
    decreases t.len(),
{
    if t.len() == 0 {
        Map::empty()
    } else {
        let before = basic_spellings(cfg, t.drop_last());
        match t.last() {
            Ok(found) => if t.len() - 1 < basic_offset(cfg) {
                before
            } else {
                add_spellings(before, found)
            },
            Err(_) => before,
        }
    }
}

/// `t` explains `outcome` as the result of applying the rules of `cfg`.
pub open spec fn basic_explains<R: MailRepo>(repo: &R, cfg: Config, outcome: Outcome, t: Seq<Answer>) -> bool {
    explained_by(repo, basic_queries(cfg), |u: Seq<Answer>| basic_run(cfg, u), outcome, t)
}

/// The state of a run that has applied `i` rules, with assignments `m`.
pub open spec fn basic_progress(cfg: Config, i: int, m: Map<Seq<char>, Seq<char>>) -> Progress {
    if i == cfg.rules@.len() {
        Progress::Done(Ok(m))
    } else {
        Progress::Running(0, m)
    }
}

/// The query for the messages that all rules match.
pub fn combined_query(cfg: &Config) -> (q: String)
    requires
        cfg.rules@.len() > 0,
    ensures
        q@ == conjunction_text(rule_queries(*cfg), cfg.max_age_days),
{
    let n = cfg.rules.len();
    let mut q = String::new();
    let mut i: usize = 0;
    while i < n - 1
        invariant
            n == cfg.rules@.len(),
            n > 0,
            i <= n - 1,
            q@ == conjunction_prefix(rule_queries(*cfg).take(i as int)),
        decreases n - 1 - i,
    {
        q.append("(");
        q.append(cfg.rules[i].query.as_str());
        q.append(") AND ");
        proof {
            let qs = rule_queries(*cfg);
            assert(qs.take(i + 1).drop_last() =~= qs.take(i as int));
        }
        i = i + 1;
    }
    q.append("(");
    q.append(cfg.rules[n - 1].query.as_str());
    q.append(")");
    append_date_clause(&mut q, cfg.max_age_days);
    assert(rule_queries(*cfg).drop_last() =~= rule_queries(*cfg).take(n - 1));
    q
}

/// Applies the rules to the mails in the repository: fails when, of two rules or more,
/// some message matches all rules at once, or is found by two rules (or twice by one); otherwise assigns
/// every message found by a rule outside its folder to that folder, under the spelling
/// it was found in. It is the outcome of the run on the answers the repository gave to
/// its queries.
pub fn apply_rules<R: MailRepo>(cfg: &Config, repo: &R) -> (r: Result<Actions, EngineError>)
    ensures
        exists|t: Seq<Answer>|
            #[trigger] basic_explains(repo, *cfg, result_view(r), t) && spelled_as(r, basic_spellings(*cfg, t)),
{
    let ghost run = |u: Seq<Answer>| basic_run(*cfg, u);
    let ghost queries = basic_queries(*cfg);
    let ghost mut t: Seq<Answer> = Seq::empty();
    let mut actions = Actions::new();
    let n = cfg.rules.len();
    if n > 1 {
        let query = combined_query(cfg);
        let found = repo.search_message(query.as_str());
        let ghost a = answer_view(found);
        proof {
            lemma_under_way_step(repo, queries, run, t, a);
        }
        match found {
            Err(e) => {
                let r = Err(EngineError::Repo(e));
                proof {
                    t = t.push(a);
                    assert(basic_explains(repo, *cfg, result_view(r), t));
                }
                return r;
            },
            Ok(messages) => {
                let count = messages.len();
                proof {
                    let before = t;
                    t = t.push(a);
                    assert(t.drop_last() =~= before);
                    assert(basic_spellings(*cfg, before) == Map::<Seq<char>, Seq<char>>::empty());
                    assert(basic_spellings(*cfg, t) == Map::<Seq<char>, Seq<char>>::empty());
                }
                if count > 0 {
                    let r = Err(EngineError::Overlap { count });
                    assert(basic_explains(repo, *cfg, result_view(r), t));
                    return r;
                }
            },
        }
    }
    let mut i: usize = 0;
    while i < n
        invariant
            n == cfg.rules@.len(),
            i <= n,
            t.len() == basic_offset(*cfg) + i,
            run == (|u: Seq<Answer>| basic_run(*cfg, u)),
            queries == basic_queries(*cfg),
            under_way(repo, queries, run, t),
            basic_run(*cfg, t) == basic_progress(*cfg, i as int, actions@),
            actions.spellings() == basic_spellings(*cfg, t),
        decreases n - i,
    {
        let rule = &cfg.rules[i];
        let ghost k = t.len() as int;
        assert(queries[k] == rule_query_text(rule.folder@, rule.query@, cfg.max_age_days));
        let query = rule_query(rule.folder.as_str(), rule.query.as_str(), cfg.max_age_days);
        let found = repo.search_message(query.as_str());
        let ghost a = answer_view(found);
        proof {
            lemma_under_way_step(repo, queries, run, t, a);
        }
        match found {
            Err(e) => {
                let r = Err(EngineError::Repo(e));
                proof {
                    t = t.push(a);
                    assert(basic_explains(repo, *cfg, result_view(r), t));
                }
                return r;
            },
            Ok(messages) => {
                match assign_unique(&mut actions, messages, &rule.folder) {
                    Err(previous) => {
                        let r = Err(EngineError::Ambiguous { previous, folder: rule.folder.clone() });
                        proof {
                            t = t.push(a);
                            assert(basic_explains(repo, *cfg, result_view(r), t));
                        }
                        return r;
                    },
                    Ok(()) => {
                        proof {
                            let before = t;
                            t = t.push(a);
                            assert(t.drop_last() =~= before);
                        }
                    },
                }
            },
        }
        i = i + 1;
    }
    let r = Ok(actions);
    assert(basic_explains(repo, *cfg, result_view(r), t) && spelled_as(r, basic_spellings(*cfg, t)));
    r
}

} // verus!
