//! Applying the rules to the mails in a repository. The result assigns messages
//! (files) to their new destination folders; no message is moved here.

use vstd::prelude::*;
use crate::actions::{add_spellings, spelled_as, Actions};
use crate::assign::{assign_all, assign_unique, filter_messages_with_prefix, insert_all, insert_unique, under_prefix};
use crate::config::{Config, MatchMode, Rule};
use crate::model::{cap, explained_by, lemma_under_way_step, under_way, Answer, Failure, Outcome, Progress};
use crate::paths::{join, path_join};
use crate::query::{
    all_query, all_query_text, exclusion, extend_exclusion, first_query, first_query_text, overlap_query,
    overlap_query_text, rule_query, rule_query_text,
};
use crate::repo::{answer_view, names, MailRepo, RepoError};
use crate::text::usize_to_decimal;

verus! {

/// Why applying the rules failed.
pub enum EngineError {
    /// The repository could not answer a query.
    Repo(RepoError),
    /// Rules that must be pairwise distinct matched `count` messages in common.
    Overlap { count: usize },
    /// A message assigned to folder `previous` was to be assigned to `folder` too.
    Ambiguous { previous: String, folder: String },
}

impl EngineError {
    /// What the error stands for in the model of a run.
    pub open spec fn view(self) -> Failure {
        match self {
            EngineError::Repo(e) => Failure::Repo(e.message@),
            EngineError::Overlap { count } => Failure::Overlap(count as nat),
            EngineError::Ambiguous { previous, folder } => Failure::Ambiguous(previous@, folder@),
        }
    }

    /// The text of the error, as it is reported to the user.
    pub open spec fn spec_message(self) -> Seq<char> {
        match self {
            EngineError::Repo(e) => e.message@,
            EngineError::Overlap { count } => "Rules overlap ("@ + crate::text::decimal(count as nat)
                + " messages)"@,
            EngineError::Ambiguous { previous, folder } =>
                "Ambiguous rule! Message already assigned to folder "@ + previous@
                + ", cannot assign to folder "@ + folder@,
        }
    }

    /// The text of the error, as it is reported to the user.
    pub fn message(&self) -> (s: String)
        ensures
            s@ == self.spec_message(),
    {
        match self {
            EngineError::Repo(e) => e.message.clone(),
            EngineError::Overlap { count } => {
                let mut s = String::from_str("Rules overlap (");
                let digits = usize_to_decimal(*count);
                s.append(digits.as_str());
                s.append(" messages)");
                s
            },
            EngineError::Ambiguous { previous, folder } => {
                let mut s = String::from_str("Ambiguous rule! Message already assigned to folder ");
                s.append(previous.as_str());
                s.append(", cannot assign to folder ");
                s.append(folder.as_str());
                s
            },
        }
    }
}

/// The outcome that a result of an engine stands for.
pub open spec fn result_view(r: Result<Actions, EngineError>) -> Outcome {
    match r {
        Ok(a) => Ok(a@),
        Err(e) => Err(e.view()),
    }
}

/// The queries of the rules, in order.
pub open spec fn rule_queries(cfg: Config) -> Seq<Seq<char>> {
    cfg.rules@.map_values(|r: Rule| r.query@)
}

/// The prefix of rule `i`, if it has one.
pub open spec fn rule_prefix(cfg: Config, i: int) -> Option<Seq<char>> {
    match cfg.rules@[i].prefix {
        Some(p) => Some(p@),
        None => None,
    }
}

// ---------------------------------------------------------------------------
// Modes in which a later rule overrides an earlier one: first and all.

/// The queries asked when every rule is applied in turn.
pub open spec fn all_queries(cfg: Config) -> Seq<Seq<char>> {
    Seq::new(
        cfg.rules@.len(),
        |i: int| all_query_text(cfg.rules@[i].query@, cfg.max_age_days),
    )
}

/// The queries asked when the first matching rule wins: each rule's query
/// excludes what the earlier rules match.
pub open spec fn first_queries(cfg: Config) -> Seq<Seq<char>> {
    Seq::new(
        cfg.rules@.len(),
        |i: int|
            first_query_text(
                cfg.rules@[i].folder@,
                cfg.rules@[i].query@,
                exclusion(rule_queries(cfg).take(i)),
                cfg.max_age_days,
            ),
    )
}

/// Where a run in which later rules override earlier ones starts.
pub open spec fn override_start(cfg: Config) -> Progress {
    if cfg.rules@.len() == 0 {
        Progress::Done(Ok(Map::empty()))
    } else {
        Progress::Running(0, Map::empty())
    }
}

/// Taking answer `a` to the query of rule `k`: its messages go to its folder.
pub open spec fn override_feed(cfg: Config, st: Progress, k: int, a: Answer) -> Progress {
    match st {
        Progress::Done(o) => Progress::Done(o),
        Progress::Running(hits, m) => match a {
            Err(e) => Progress::Done(Err(Failure::Repo(e))),
            Ok(found) => {
                let m2 = insert_all(m, found, cfg.rules@[k].folder@);
                if k == cfg.rules@.len() - 1 {
                    Progress::Done(Ok(m2))
                } else {
                    Progress::Running(hits, m2)
                }
            },
        },
    }
}

/// The state of a run in which later rules override earlier ones, after the answers `t`.
pub open spec fn override_run(cfg: Config, t: Seq<Answer>) -> Progress
    decreases t.len(),
{
    if t.len() == 0 {
        override_start(cfg)
    } else {
        override_feed(cfg, override_run(cfg, t.drop_last()), t.len() - 1, t.last())
    }
}

/// `t` explains `outcome` as the result of applying the rules in turn.
pub open spec fn all_explains<R: MailRepo>(repo: &R, cfg: Config, outcome: Outcome, t: Seq<Answer>) -> bool {
    explained_by(repo, all_queries(cfg), |u: Seq<Answer>| override_run(cfg, u), outcome, t)
}

/// `t` explains `outcome` as the result of applying the rules, the first match winning.
pub open spec fn first_explains<R: MailRepo>(repo: &R, cfg: Config, outcome: Outcome, t: Seq<Answer>) -> bool {
    explained_by(repo, first_queries(cfg), |u: Seq<Answer>| override_run(cfg, u), outcome, t)
}

/// The state of an overriding run that has applied `i` of the rules, with assignments `m`.
pub open spec fn override_progress(cfg: Config, i: int, m: Map<Seq<char>, Seq<char>>) -> Progress {
    if i == cfg.rules@.len() {
        Progress::Done(Ok(m))
    } else {
        Progress::Running(0, m)
    }
}

/// The spelling each file is kept in after a run in which later rules override earlier
/// ones was given the answers `t`: the first spelling any rule found it in.
pub open spec fn override_spellings(t: Seq<Answer>) -> Map<Seq<char>, Seq<char>>
    decreases t.len(),
{
    if t.len() == 0 {
        Map::empty()
    } else {
        let before = override_spellings(t.drop_last());
        match t.last() {
            Ok(found) => add_spellings(before, found),
            Err(_) => before,
        }
    }
}

/// Applies every rule in turn; a message that several rules match ends in the
/// folder of the last of them, under the spelling it was first found in.
pub fn apply_all<R: MailRepo>(cfg: &Config, repo: &R) -> (r: Result<Actions, EngineError>)
    ensures
        exists|t: Seq<Answer>|
            #[trigger] all_explains(repo, *cfg, result_view(r), t) && spelled_as(r, override_spellings(t)),
{
    let ghost run = |u: Seq<Answer>| override_run(*cfg, u);
    let ghost queries = all_queries(*cfg);
    let ghost mut t: Seq<Answer> = Seq::empty();
    let mut actions = Actions::new();
    let n = cfg.rules.len();
    let mut i: usize = 0;
    while i < n
        invariant
            n == cfg.rules@.len(),
            i <= n,
            t.len() == i,
            run == (|u: Seq<Answer>| override_run(*cfg, u)),
            queries == all_queries(*cfg),
            under_way(repo, queries, run, t),
            override_run(*cfg, t) == override_progress(*cfg, i as int, actions@),
            actions.spellings() == override_spellings(t),
        decreases n - i,
    {
        let rule = &cfg.rules[i];
        let query = all_query(rule.query.as_str(), cfg.max_age_days);
        let found = repo.search_message(query.as_str());
        let ghost a = answer_view(found);
        proof {
            lemma_under_way_step(repo, queries, run, t, a);
        }
        match found {
            Err(e) => {
                let r = Err(EngineError::Repo(e));
                proof {
                    t = t.push(a);
                    assert(all_explains(repo, *cfg, result_view(r), t));
                }
                return r;
            },
            Ok(messages) => {
                assign_all(&mut actions, messages, &rule.folder);
                proof {
                    let before = t;
                    t = t.push(a);
                    assert(t.drop_last() =~= before);
                }
            },
        }
        i = i + 1;
    }
    let r = Ok(actions);
    assert(all_explains(repo, *cfg, result_view(r), t) && spelled_as(r, override_spellings(t)));
    r
}

/// Applies the rules in turn, each to the messages that no earlier rule matches,
/// so that the first rule matching a message decides its folder; a file is kept under
/// the spelling it was first found in.
pub fn apply_first<R: MailRepo>(cfg: &Config, repo: &R) -> (r: Result<Actions, EngineError>)
    ensures
        exists|t: Seq<Answer>|
            #[trigger] first_explains(repo, *cfg, result_view(r), t) && spelled_as(r, override_spellings(t)),
{
    let ghost run = |u: Seq<Answer>| override_run(*cfg, u);
    let ghost queries = first_queries(*cfg);
    let ghost mut t: Seq<Answer> = Seq::empty();
    let mut actions = Actions::new();
    let mut exclude = String::new();
    let n = cfg.rules.len();
    let mut i: usize = 0;
    assert(rule_queries(*cfg).take(0).len() == 0);
    while i < n
        invariant
            n == cfg.rules@.len(),
            i <= n,
            t.len() == i,
            run == (|u: Seq<Answer>| override_run(*cfg, u)),
            queries == first_queries(*cfg),
            exclude@ == exclusion(rule_queries(*cfg).take(i as int)),
            under_way(repo, queries, run, t),
            override_run(*cfg, t) == override_progress(*cfg, i as int, actions@),
            actions.spellings() == override_spellings(t),
        decreases n - i,
    {
        let rule = &cfg.rules[i];
        let query = first_query(rule.folder.as_str(), rule.query.as_str(), exclude.as_str(), cfg.max_age_days);
        let found = repo.search_message(query.as_str());
        let ghost a = answer_view(found);
        proof {
            lemma_under_way_step(repo, queries, run, t, a);
        }
        match found {
            Err(e) => {
                let r = Err(EngineError::Repo(e));
                proof {
                    t = t.push(a);
                    assert(first_explains(repo, *cfg, result_view(r), t));
                }
                return r;
            },
            Ok(messages) => {
                assign_all(&mut actions, messages, &rule.folder);
                proof {
                    let before = t;
                    t = t.push(a);
                    assert(t.drop_last() =~= before);
                }
            },
        }
        extend_exclusion(&mut exclude, rule.query.as_str());
        proof {
            assert(rule_queries(*cfg).take(i + 1) =~= rule_queries(*cfg).take(i as int).push(rule.query@));
        }
        i = i + 1;
    }
    let r = Ok(actions);
    assert(first_explains(repo, *cfg, result_view(r), t) && spelled_as(r, override_spellings(t)));
    r
}

// ---------------------------------------------------------------------------
// The unique mode: rules must not overlap.

/// The text of an optional string.
pub open spec fn opt_view(o: Option<String>) -> Option<Seq<char>> {
    match o {
        Some(s) => Some(s@),
        None => None,
    }
}

/// The prefix within which two rules may match the same messages: `Some(None)` when
/// anywhere, `Some(Some(p))` when only under `p` (the longer of two nested prefixes),
/// and `None` when their prefixes are not prefixes of one another, so that they
/// cannot match the same message.
pub open spec fn pair_prefix(lhs: Option<Seq<char>>, rhs: Option<Seq<char>>) -> Option<Option<Seq<char>>> {
    match (lhs, rhs) {
        (None, None) => Some(None),
        (Some(lp), Some(rp)) => if rp.is_prefix_of(lp) {
            Some(Some(lp))
        } else if lp.is_prefix_of(rp) {
            Some(Some(rp))
        } else {
            None
        },
        (Some(p), None) => Some(Some(p)),
        (None, Some(p)) => Some(Some(p)),
    }
}

/// The scope of the overlap check of rules `i` and `j`, with the prefix made a path
/// inside the mail directory; `None` when the pair is not checked.
pub open spec fn pair_scope(cfg: Config, i: int, j: int) -> Option<Option<Seq<char>>> {
    match pair_prefix(rule_prefix(cfg, i), rule_prefix(cfg, j)) {
        None => None,
        Some(None) => Some(None),
        Some(Some(p)) => Some(Some(path_join(cfg.maildir@, p))),
    }
}

/// The pairs `(i, b)` with `i < b < j` whose overlap is checked, in order.
pub open spec fn pair_row(cfg: Config, i: int, j: int) -> Seq<(int, int)>
    decreases j - i,
{
    if j <= i + 1 {
        Seq::empty()
    } else {
        pair_row(cfg, i, j - 1) + if pair_scope(cfg, i, j - 1) is Some {
            seq![(i, j - 1)]
        } else {
            Seq::empty()
        }
    }
}

/// The checked pairs whose first rule comes before rule `i`, in order.
pub open spec fn pairs_before(cfg: Config, i: int) -> Seq<(int, int)>
    decreases i,
{
    if i <= 0 {
        Seq::empty()
    } else {
        pairs_before(cfg, i - 1) + pair_row(cfg, i - 1, cfg.rules@.len() as int)
    }
}

/// All pairs of rules `(i, j)`, `i < j`, whose overlap is checked, in order.
pub open spec fn checked_pairs(cfg: Config) -> Seq<(int, int)> {
    pairs_before(cfg, cfg.rules@.len() as int)
}

/// The queries asked in the unique mode: one per checked pair, then one per rule.
pub open spec fn unique_queries(cfg: Config) -> Seq<Seq<char>> {
    checked_pairs(cfg).map_values(
        |p: (int, int)|
            overlap_query_text(cfg.rules@[p.0].query@, cfg.rules@[p.1].query@, cfg.max_age_days),
    ) + Seq::new(
        cfg.rules@.len(),
        |i: int| rule_query_text(cfg.rules@[i].folder@, cfg.rules@[i].query@, cfg.max_age_days),
    )
}

/// How many of the messages found for a checked pair count as overlapping.
pub open spec fn pair_hits(cfg: Config, pair: (int, int), found: Seq<Seq<char>>) -> nat {
    match pair_scope(cfg, pair.0, pair.1) {
        Some(Some(prefix)) => under_prefix(found, prefix).len(),
        _ => found.len(),
    }
}

/// The messages found for rule `i` that the rule takes: those under its prefix, if it has one.
pub open spec fn rule_matches(cfg: Config, i: int, found: Seq<Seq<char>>) -> Seq<Seq<char>> {
    match rule_prefix(cfg, i) {
        Some(p) => under_prefix(found, path_join(cfg.maildir@, p)),
        None => found,
    }
}

/// Where a unique-mode run starts.
pub open spec fn unique_start(cfg: Config) -> Progress {
    if cfg.rules@.len() == 0 {
        Progress::Done(Ok(Map::empty()))
    } else {
        Progress::Running(0, Map::empty())
    }
}

/// Taking answer `a` to the `k`-th query of a unique-mode run: an overlap check adds
/// to the overlapping messages, and the last check fails the run if there are any;
/// a rule's query assigns its messages, failing on a message assigned before.
pub open spec fn unique_feed(cfg: Config, st: Progress, k: int, a: Answer) -> Progress {
    match st {
        Progress::Done(o) => Progress::Done(o),
        Progress::Running(hits, m) => match a {
            Err(e) => Progress::Done(Err(Failure::Repo(e))),
            Ok(found) => {
                let checks = checked_pairs(cfg).len() as int;
                if k < checks {
                    let total = hits + pair_hits(cfg, checked_pairs(cfg)[k], found);
                    if k == checks - 1 && total > 0 {
                        Progress::Done(Err(Failure::Overlap(cap(total))))
                    } else {
                        Progress::Running(total, m)
                    }
                } else {
                    let i = k - checks;
                    let folder = cfg.rules@[i].folder@;
                    match insert_unique(m, rule_matches(cfg, i, found), folder) {
                        Err(previous) => Progress::Done(Err(Failure::Ambiguous(previous, folder))),
                        Ok(m2) => if i == cfg.rules@.len() - 1 {
                            Progress::Done(Ok(m2))
                        } else {
                            Progress::Running(hits, m2)
                        },
                    }
                }
            },
        },
    }
}

/// The state of a unique-mode run after the answers `t`.
pub open spec fn unique_run(cfg: Config, t: Seq<Answer>) -> Progress
    decreases t.len(),
{
    if t.len() == 0 {
        unique_start(cfg)
    } else {
        unique_feed(cfg, unique_run(cfg, t.drop_last()), t.len() - 1, t.last())
    }
}

/// `t` explains `outcome` as the result of the unique mode.
pub open spec fn unique_explains<R: MailRepo>(repo: &R, cfg: Config, outcome: Outcome, t: Seq<Answer>) -> bool {
    explained_by(repo, unique_queries(cfg), |u: Seq<Answer>| unique_run(cfg, u), outcome, t)
}

/// The state of a unique-mode run after the overlap checks answered so far (`k` of them),
/// which found `hits` overlapping messages.
pub open spec fn overlap_progress(cfg: Config, k: int, hits: nat) -> Progress {
    if k == checked_pairs(cfg).len() && hits > 0 {
        Progress::Done(Err(Failure::Overlap(cap(hits))))
    } else {
        Progress::Running(hits, Map::empty())
    }
}

/// The state of a unique-mode run that has applied `i` rules, with assignments `m`.
pub open spec fn rule_progress(cfg: Config, i: int, m: Map<Seq<char>, Seq<char>>) -> Progress {
    if i == cfg.rules@.len() {
        Progress::Done(Ok(m))
    } else {
        Progress::Running(0, m)
    }
}

/// The checked pair `(i, j)` sits in row `i` right after the pairs before `j`.
proof fn lemma_row_index(cfg: Config, i: int, j: int, n: int)
    requires
        0 <= i < j < n,
        pair_scope(cfg, i, j) is Some,
    ensures
        pair_row(cfg, i, j).len() < pair_row(cfg, i, n).len(),
        pair_row(cfg, i, n)[pair_row(cfg, i, j).len() as int] == (i, j),
    decreases n - j,
{
    if n == j + 1 {
        assert(pair_row(cfg, i, n) == pair_row(cfg, i, j) + seq![(i, j)]);
    } else {
        lemma_row_index(cfg, i, j, n - 1);
    }
}

/// The pairs before `a` are a prefix of the pairs before `b`, for `a <= b`.
proof fn lemma_before_prefix(cfg: Config, a: int, b: int)
    requires
        0 <= a <= b,
    ensures
        pairs_before(cfg, a).len() <= pairs_before(cfg, b).len(),
        forall|k: int|
            0 <= k < pairs_before(cfg, a).len() ==> pairs_before(cfg, b)[k] == pairs_before(cfg, a)[k],
    decreases b - a,
{
    if a < b {
        lemma_before_prefix(cfg, a, b - 1);
    }
}

/// The overlap check of `(i, j)` is the one asked after the pairs before it.
pub proof fn lemma_pair_position(cfg: Config, i: int, j: int)
    requires
        0 <= i < j < cfg.rules@.len(),
        pair_scope(cfg, i, j) is Some,
    ensures
        pairs_before(cfg, i).len() + pair_row(cfg, i, j).len() < checked_pairs(cfg).len(),
        checked_pairs(cfg)[pairs_before(cfg, i).len() + pair_row(cfg, i, j).len() as int] == (i, j),
{
    let n = cfg.rules@.len() as int;
    lemma_row_index(cfg, i, j, n);
    lemma_before_prefix(cfg, i + 1, n);
    assert(pairs_before(cfg, i + 1) == pairs_before(cfg, i) + pair_row(cfg, i, n));
}

/// The spelling each file is kept in after a unique-mode run was given the answers `t`:
/// the one the rule that took it found it in (the overlap checks keep none).
pub open spec fn unique_spellings(cfg: Config, t: Seq<Answer>) -> Map<Seq<char>, Seq<char>>
    decreases t.len(),
{
    if t.len() == 0 {
        Map::empty()
    } else {
        let before = unique_spellings(cfg, t.drop_last());
        let k = t.len() - 1;
        let checks = checked_pairs(cfg).len() as int;
        match t.last() {
            Ok(found) => if k < checks {
                before
            } else {
                add_spellings(before, rule_matches(cfg, k - checks, found))
            },
            Err(_) => before,
        }
    }
}

/// Decides the scope of the overlap check of two rules with the given prefixes.
pub fn scope_of_pair(maildir: &str, lhs: &Option<String>, rhs: &Option<String>) -> (r: Option<Option<String>>)
    ensures
        match pair_prefix(opt_view(*lhs), opt_view(*rhs)) {
            None => r is None,
            Some(None) => r == Some(None::<String>),
            Some(Some(p)) => r matches Some(Some(s)) && s@ == path_join(maildir@, p),
        },
{
    let prefix: Option<&String> = match (lhs, rhs) {
        (None, None) => None,
        (Some(lp), Some(rp)) => {
            if crate::text::has_prefix(lp.as_str(), rp.as_str()) {
                Some(lp)
            } else if crate::text::has_prefix(rp.as_str(), lp.as_str()) {
                Some(rp)
            } else {
                return None;
            }
        },
        (Some(p), None) => Some(p),
        (None, Some(p)) => Some(p),
    };
    match prefix {
        Some(p) => Some(Some(join(maildir, p.as_str()))),
        None => Some(None),
    }
}

/// Applies the rules, which must be pairwise distinct: first every two rules whose
/// prefixes allow it are checked for common messages, and any fails the run; then
/// each rule assigns its messages, and a message assigned twice fails the run. A file
/// is kept under the spelling it was found in.
pub fn apply_unique<R: MailRepo>(cfg: &Config, repo: &R) -> (r: Result<Actions, EngineError>)
    ensures
        exists|t: Seq<Answer>|
            #[trigger] unique_explains(repo, *cfg, result_view(r), t) && spelled_as(r, unique_spellings(*cfg, t)),
{
    let ghost run = |u: Seq<Answer>| unique_run(*cfg, u);
    let ghost queries = unique_queries(*cfg);
    let ghost mut t: Seq<Answer> = Seq::empty();
    let ghost mut hits: nat = 0;
    let mut actions = Actions::new();
    let n = cfg.rules.len();
    if n > 0 {
        let mut overlap_count: usize = 0;
        let mut i: usize = 0;
        while i < n - 1
            invariant
                n == cfg.rules@.len(),
                n > 0,
                i <= n - 1,
                t.len() == pairs_before(*cfg, i as int).len(),
                run == (|u: Seq<Answer>| unique_run(*cfg, u)),
                queries == unique_queries(*cfg),
                under_way(repo, queries, run, t),
                unique_run(*cfg, t) == overlap_progress(*cfg, t.len() as int, hits),
                overlap_count == cap(hits),
                t.len() == 0 ==> hits == 0,
                actions@ == Map::<Seq<char>, Seq<char>>::empty(),
                actions.spellings() == Map::<Seq<char>, Seq<char>>::empty(),
                unique_spellings(*cfg, t) == Map::<Seq<char>, Seq<char>>::empty(),
            decreases n - 1 - i,
        {
            let mut j: usize = i + 1;
            while j < n
                invariant
                    n == cfg.rules@.len(),
                    i < n - 1,
                    i + 1 <= j <= n,
                    t.len() == pairs_before(*cfg, i as int).len() + pair_row(*cfg, i as int, j as int).len(),
                    run == (|u: Seq<Answer>| unique_run(*cfg, u)),
                    queries == unique_queries(*cfg),
                    under_way(repo, queries, run, t),
                    unique_run(*cfg, t) == overlap_progress(*cfg, t.len() as int, hits),
                    overlap_count == cap(hits),
                    t.len() == 0 ==> hits == 0,
                    actions@ == Map::<Seq<char>, Seq<char>>::empty(),
                    actions.spellings() == Map::<Seq<char>, Seq<char>>::empty(),
                    unique_spellings(*cfg, t) == Map::<Seq<char>, Seq<char>>::empty(),
                decreases n - j,
            {
                let lhs = &cfg.rules[i];
                let rhs = &cfg.rules[j];
                let scope = scope_of_pair(cfg.maildir.as_str(), &lhs.prefix, &rhs.prefix);
                proof {
                    assert(opt_view(lhs.prefix) == rule_prefix(*cfg, i as int));
                    assert(opt_view(rhs.prefix) == rule_prefix(*cfg, j as int));
                    assert(pair_row(*cfg, i as int, j + 1) == pair_row(*cfg, i as int, j as int) + if pair_scope(*cfg, i as int, j as int) is Some {
                        seq![(i as int, j as int)]
                    } else {
                        Seq::empty()
                    });
                }
                match scope {
                    None => {
                        assert(pair_row(*cfg, i as int, j + 1) =~= pair_row(*cfg, i as int, j as int));
                    },
                    Some(prefix) => {
                        let ghost k = t.len() as int;
                        proof {
                            lemma_pair_position(*cfg, i as int, j as int);
                            assert(queries[k] == overlap_query_text(lhs.query@, rhs.query@, cfg.max_age_days));
                        }
                        let query = overlap_query(lhs.query.as_str(), rhs.query.as_str(), cfg.max_age_days);
                        let found = repo.search_message(query.as_str());
                        let ghost a = answer_view(found);
                        proof {
                            lemma_under_way_step(repo, queries, run, t, a);
                        }
                        match found {
                            Err(e) => {
                                let r = Err(EngineError::Repo(e));
                                proof {
                                    t = t.push(a);
                                    assert(unique_explains(repo, *cfg, result_view(r), t));
                                }
                                return r;
                            },
                            Ok(all) => {
                                let count = match prefix {
                                    Some(p) => filter_messages_with_prefix(all.as_slice(), p.as_str()).len(),
                                    None => all.len(),
                                };
                                proof {
                                    assert(count == pair_hits(*cfg, (i as int, j as int), names(all@)));
                                    hits = (hits + count) as nat;
                                    let before = t;
                                    t = t.push(a);
                                    assert(t.drop_last() =~= before);
                                }
                                overlap_count = overlap_count.saturating_add(count);
                            },
                        }
                    },
                }
                j = j + 1;
            }
            i = i + 1;
        }
        assert(pair_row(*cfg, n - 1, n as int).len() == 0);
        assert(checked_pairs(*cfg) =~= pairs_before(*cfg, n - 1));
        if overlap_count > 0 {
            let r = Err(EngineError::Overlap { count: overlap_count });
            assert(unique_explains(repo, *cfg, result_view(r), t));
            return r;
        }
    }
    let mut i: usize = 0;
    while i < n
        invariant
            n == cfg.rules@.len(),
            i <= n,
            t.len() == checked_pairs(*cfg).len() + i,
            run == (|u: Seq<Answer>| unique_run(*cfg, u)),
            queries == unique_queries(*cfg),
            under_way(repo, queries, run, t),
            unique_run(*cfg, t) == rule_progress(*cfg, i as int, actions@),
            actions.spellings() == unique_spellings(*cfg, t),
        decreases n - i,
    {
        let rule = &cfg.rules[i];
        let ghost k = t.len() as int;
        assert(queries[k] == rule_query_text(rule.folder@, rule.query@, cfg.max_age_days));
        let query = rule_query(rule.folder.as_str(), rule.query.as_str(), cfg.max_age_days);
        let found = repo.search_message(query.as_str());
        let ghost a = answer_view(found);
        proof {
            lemma_under_way_step(repo, queries, run, t, a);
        }
        match found {
            Err(e) => {
                let r = Err(EngineError::Repo(e));
                proof {
                    t = t.push(a);
                    assert(unique_explains(repo, *cfg, result_view(r), t));
                }
                return r;
            },
            Ok(all) => {
                let messages = match &rule.prefix {
                    Some(pre) => {
                        let prefix = join(cfg.maildir.as_str(), pre.as_str());
                        filter_messages_with_prefix(all.as_slice(), prefix.as_str())
                    },
                    None => all,
                };
                proof {
                    assert(names(messages@) == rule_matches(*cfg, i as int, names(all@)));
                }
                match assign_unique(&mut actions, messages, &rule.folder) {
                    Err(previous) => {
                        let r = Err(EngineError::Ambiguous { previous, folder: rule.folder.clone() });
                        proof {
                            t = t.push(a);
                            assert(unique_explains(repo, *cfg, result_view(r), t));
                        }
                        return r;
                    },
                    Ok(()) => {
                        proof {
                            let before = t;
                            t = t.push(a);
                            assert(t.drop_last() =~= before);
                        }
                    },
                }
            },
        }
        i = i + 1;
    }
    let r = Ok(actions);
    assert(unique_explains(repo, *cfg, result_view(r), t) && spelled_as(r, unique_spellings(*cfg, t)));
    r
}

// ---------------------------------------------------------------------------

/// The spelling each file is kept in after a run in the mode in force was given the answers `t`.
pub open spec fn mode_spellings(cfg: Config, t: Seq<Answer>) -> Map<Seq<char>, Seq<char>> {
    match cfg.spec_mode() {
        MatchMode::Unique => unique_spellings(cfg, t),
        _ => override_spellings(t),
    }
}

/// `t` explains `outcome` as the result of applying the rules of `cfg` in the mode in force.
pub open spec fn explains<R: MailRepo>(repo: &R, cfg: Config, outcome: Outcome, t: Seq<Answer>) -> bool {
    match cfg.spec_mode() {
        MatchMode::Unique => unique_explains(repo, cfg, outcome, t),
        MatchMode::First => first_explains(repo, cfg, outcome, t),
        MatchMode::All => all_explains(repo, cfg, outcome, t),
    }
}

/// Applies the rules to the mails in the repository, in the configured match mode
/// (unique when none is configured). The result assigns message files to their new
/// folders, each file under the spelling the mode keeps; nothing is moved here. It is
/// the outcome of the mode's run on the answers the repository gave to the mode's queries.
pub fn apply_rules<R: MailRepo>(cfg: &Config, repo: &R) -> (r: Result<Actions, EngineError>)
    ensures
        exists|t: Seq<Answer>|
            #[trigger] explains(repo, *cfg, result_view(r), t) && spelled_as(r, mode_spellings(*cfg, t)),
{
    match cfg.mode() {
        MatchMode::Unique => {
            let r = apply_unique(cfg, repo);
            let ghost t = choose|t: Seq<Answer>|
                unique_explains(repo, *cfg, result_view(r), t) && spelled_as(r, unique_spellings(*cfg, t));
            assert(explains(repo, *cfg, result_view(r), t) && spelled_as(r, mode_spellings(*cfg, t)));
            r
        },
        MatchMode::First => {
            let r = apply_first(cfg, repo);
            let ghost t = choose|t: Seq<Answer>|
                first_explains(repo, *cfg, result_view(r), t) && spelled_as(r, override_spellings(t));
            assert(explains(repo, *cfg, result_view(r), t) && spelled_as(r, mode_spellings(*cfg, t)));
            r
        },
        MatchMode::All => {
            let r = apply_all(cfg, repo);
            let ghost t = choose|t: Seq<Answer>|
                all_explains(repo, *cfg, result_view(r), t) && spelled_as(r, override_spellings(t));
            assert(explains(repo, *cfg, result_view(r), t) && spelled_as(r, mode_spellings(*cfg, t)));
            r
        },
    }
}

} // verus!
