//! What holds of every run of the engines: the guarantees of each match mode.

use vstd::prelude::*;
use crate::assign::{insert_keys, insert_unique_keys};
use crate::paths::keys_of;
use crate::basic::config::Config as BasicConfig;
use crate::basic::engine::{basic_offset, basic_queries, basic_run, overlap_checked};
use crate::config::{Config, MatchMode};
use crate::engine::{
    all_queries, checked_pairs, explains, first_queries, lemma_pair_position, override_run, pair_hits,
    pair_row, pair_scope, pairs_before, rule_matches, rule_queries, unique_explains, unique_feed,
    unique_queries, unique_run,
};
use crate::model::{Answer, Failure, Outcome, Progress};
use crate::query::{conjunction_prefix, date_clause, exclusion};
use crate::repo::MailRepo;

verus! {

/// The assignments made by applying, in turn, each list of files `founds[j]`
/// (compared by these texts) to folder `folders[j]`, for `j < i`, each replacing earlier ones.
pub open spec fn assigned(founds: Seq<Seq<Seq<char>>>, folders: Seq<Seq<char>>, i: int) -> Map<Seq<char>, Seq<char>>
    decreases i,
{
    if i <= 0 {
        Map::empty()
    } else {
        insert_keys(assigned(founds, folders, i - 1), founds[i - 1], folders[i - 1])
    }
}

/// A message is assigned exactly when some list holds it, and then to the folder
/// of the last list that holds it.
pub proof fn lemma_assigned(founds: Seq<Seq<Seq<char>>>, folders: Seq<Seq<char>>, i: int)
    requires
        0 <= i,
    ensures
        forall|p: Seq<char>|
            #[trigger] assigned(founds, folders, i).contains_key(p) <==> exists|j: int|
                0 <= j < i && #[trigger] founds[j].contains(p),
        forall|j: int, p: Seq<char>|
            0 <= j < i && #[trigger] founds[j].contains(p) && (forall|l: int|
                j < l < i ==> !#[trigger] founds[l].contains(p)) ==> assigned(founds, folders, i)[p]
                == folders[j],
    decreases i,
{
    if i > 0 {
        lemma_assigned(founds, folders, i - 1);
        let before = assigned(founds, folders, i - 1);
        let last = founds[i - 1];
        assert forall|p: Seq<char>|
            #[trigger] assigned(founds, folders, i).contains_key(p) <==> exists|j: int|
                0 <= j < i && #[trigger] founds[j].contains(p) by {
            if last.contains(p) {
                assert(founds[i - 1].contains(p));
            }
            if before.contains_key(p) {
                let j = choose|j: int| 0 <= j < i - 1 && #[trigger] founds[j].contains(p);
                assert(founds[j].contains(p));
            }
        }
        assert forall|j: int, p: Seq<char>|
            0 <= j < i && #[trigger] founds[j].contains(p) && (forall|l: int|
                j < l < i ==> !#[trigger] founds[l].contains(p)) implies assigned(founds, folders, i)[p]
                == folders[j] by {
            if j < i - 1 {
                assert(!founds[i - 1].contains(p));
            }
        }
    }
}

/// Assigning files that must not be assigned twice succeeds exactly when they are
/// new and distinct, and then assigns them as replacing assignment would.
pub proof fn lemma_insert_unique_ok(m: Map<Seq<char>, Seq<char>>, found: Seq<Seq<char>>, folder: Seq<char>)
    ensures
        insert_unique_keys(m, found, folder) is Ok <==> (found.no_duplicates() && forall|k: int|
            0 <= k < found.len() ==> !m.contains_key(#[trigger] found[k])),
        insert_unique_keys(m, found, folder) is Ok ==> insert_unique_keys(m, found, folder)->Ok_0 == insert_keys(m, found, folder),
    decreases found.len(),
{
    if found.len() > 0 {
        let rest = found.drop_last();
        let x = found.last();
        lemma_insert_unique_ok(m, rest, folder);
        let ok = found.no_duplicates() && forall|k: int|
            0 <= k < found.len() ==> !m.contains_key(#[trigger] found[k]);
        let rest_ok = rest.no_duplicates() && forall|k: int|
            0 <= k < rest.len() ==> !m.contains_key(#[trigger] rest[k]);
        if ok {
            assert forall|a: int, b: int| 0 <= a < b < rest.len() implies rest[a] != rest[b] by {
                assert(found[a] != found[b]);
            }
            assert forall|k: int| 0 <= k < rest.len() implies !m.contains_key(#[trigger] rest[k]) by {
                assert(found[k] == rest[k]);
            }
        }
        if rest_ok {
            let m2 = insert_keys(m, rest, folder);
            if m2.contains_key(x) {
                if !m.contains_key(x) {
                    let k = choose|k: int| 0 <= k < rest.len() && rest[k] == x;
                    assert(found[k] == found[found.len() - 1]);
                }
                assert(!ok);
            } else {
                assert(!rest.contains(x));
                assert forall|a: int, b: int| 0 <= a < b < found.len() implies found[a] != found[b] by {
                    if b == found.len() - 1 {
                        assert(rest[a] == found[a]);
                    } else {
                        assert(rest[a] != rest[b]);
                    }
                }
                assert forall|k: int| 0 <= k < found.len() implies !m.contains_key(#[trigger] found[k]) by {
                    if k < found.len() - 1 {
                        assert(rest[k] == found[k]);
                    }
                }
                assert(found.to_set() =~= rest.to_set().insert(x)) by {
                    assert forall|a: Seq<char>| found.contains(a) <==> rest.contains(a) || a == x by {
                        if found.contains(a) {
                            let k = choose|k: int| 0 <= k < found.len() && found[k] == a;
                            if k < found.len() - 1 {
                                assert(rest[k] == a);
                            }
                        }
                        if rest.contains(a) {
                            let k = choose|k: int| 0 <= k < rest.len() && rest[k] == a;
                            assert(found[k] == a);
                        }
                        assert(found[found.len() - 1] == x);
                    }
                }
                assert(m2.insert(x, folder) =~= insert_keys(m, found, folder));
            }
        }
    } else {
        assert(insert_keys(m, found, folder) =~= m);
    }
}

// ---------------------------------------------------------------------------
// The unique mode.

/// The answer to the query of rule `i` in a unique-mode run with answers `t`.
pub open spec fn unique_answer(cfg: Config, t: Seq<Answer>, i: int) -> Answer {
    t[checked_pairs(cfg).len() + i]
}

/// The messages that rule `i` took in a unique-mode run with answers `t`.
pub open spec fn unique_found(cfg: Config, t: Seq<Answer>, i: int) -> Seq<Seq<char>> {
    rule_matches(cfg, i, unique_answer(cfg, t, i)->Ok_0)
}

/// The files that rule `i` took in a unique-mode run with answers `t`, as compared.
pub open spec fn unique_keys(cfg: Config, t: Seq<Answer>, i: int) -> Seq<Seq<char>> {
    keys_of(unique_found(cfg, t, i))
}

/// The messages overlap check `k` of a unique-mode run with answers `t` counted.
pub open spec fn overlap_total(cfg: Config, t: Seq<Answer>, k: int) -> nat
    decreases k,
{
    if k <= 0 {
        0
    } else {
        overlap_total(cfg, t, k - 1) + pair_hits(cfg, checked_pairs(cfg)[k - 1], t[k - 1]->Ok_0)
    }
}

proof fn lemma_overlap_total_zero(cfg: Config, t: Seq<Answer>, k: int)
    requires
        0 <= k,
        overlap_total(cfg, t, k) == 0,
    ensures
        forall|j: int| 0 <= j < k ==> pair_hits(cfg, #[trigger] checked_pairs(cfg)[j], t[j]->Ok_0) == 0,
    decreases k,
{
    if k > 0 {
        lemma_overlap_total_zero(cfg, t, k - 1);
    }
}

proof fn lemma_unique_step(cfg: Config, t: Seq<Answer>, k: int)
    requires
        0 <= k < t.len(),
    ensures
        unique_run(cfg, t.take(k + 1)) == unique_feed(cfg, unique_run(cfg, t.take(k)), k, t[k]),
{
    assert(t.take(k + 1).drop_last() =~= t.take(k));
}

/// A run whose every shorter history is running ends where it is done.
pub open spec fn stops_at_end(run: spec_fn(Seq<Answer>) -> Progress, t: Seq<Answer>) -> bool {
    forall|k: int| 0 <= k < t.len() ==> (#[trigger] run(t.take(k))) is Running
}

proof fn lemma_unique_overlap_phase(cfg: Config, t: Seq<Answer>, m: Map<Seq<char>, Seq<char>>, k: int)
    requires
        cfg.rules@.len() > 0,
        unique_run(cfg, t) == Progress::Done(Ok(m)),
        stops_at_end(|u: Seq<Answer>| unique_run(cfg, u), t),
        0 <= k <= checked_pairs(cfg).len(),
        k <= t.len(),
    ensures
        k < t.len(),
        unique_run(cfg, t.take(k)) == Progress::Running(overlap_total(cfg, t, k), Map::empty()),
        forall|j: int| 0 <= j < k ==> t[j] is Ok,
        k == checked_pairs(cfg).len() ==> overlap_total(cfg, t, k) == 0,
    decreases k,
{
    let run = |u: Seq<Answer>| unique_run(cfg, u);
    if k > 0 {
        lemma_unique_overlap_phase(cfg, t, m, k - 1);
        lemma_unique_step(cfg, t, k - 1);
        if k < t.len() {
            assert(run(t.take(k)) is Running);
        } else {
            assert(t.take(k) =~= t);
        }
    } else {
        assert(t.take(0).len() == 0);
        if t.len() == 0 {
            assert(t.take(0) =~= t);
        }
    }
    if k < t.len() {
        assert(run(t.take(k)) is Running);
    } else {
        assert(t.take(k) =~= t);
    }
}

proof fn lemma_unique_rule_phase(cfg: Config, t: Seq<Answer>, m: Map<Seq<char>, Seq<char>>, i: int)
    requires
        cfg.rules@.len() > 0,
        unique_run(cfg, t) == Progress::Done(Ok(m)),
        stops_at_end(|u: Seq<Answer>| unique_run(cfg, u), t),
        0 <= i <= cfg.rules@.len(),
        checked_pairs(cfg).len() + i <= t.len(),
    ensures
        i < cfg.rules@.len() ==> checked_pairs(cfg).len() + i < t.len(),
        unique_run(cfg, t.take(checked_pairs(cfg).len() + i)) == if i == cfg.rules@.len() {
            Progress::Done(Ok(unique_assigned(cfg, t, i)))
        } else {
            Progress::Running(0, unique_assigned(cfg, t, i))
        },
        forall|j: int| 0 <= j < i ==> (#[trigger] unique_answer(cfg, t, j)) is Ok,
        forall|j: int| 0 <= j < i ==> (#[trigger] unique_keys(cfg, t, j)).no_duplicates(),
        forall|j: int, k: int|
            0 <= j < i && 0 <= k < unique_keys(cfg, t, j).len() ==> !unique_assigned(cfg, t, j).contains_key(
                #[trigger] unique_keys(cfg, t, j)[k],
            ),
    decreases i,
{
    let run = |u: Seq<Answer>| unique_run(cfg, u);
    let p = checked_pairs(cfg).len() as int;
    let n = cfg.rules@.len() as int;
    if i == 0 {
        lemma_unique_overlap_phase(cfg, t, m, p);
        assert(unique_assigned(cfg, t, 0) =~= Map::empty());
    } else {
        lemma_unique_rule_phase(cfg, t, m, i - 1);
        let k = p + i - 1;
        if k == t.len() {
            assert(t.take(k) =~= t);
        }
        lemma_unique_step(cfg, t, k);
        let before = unique_assigned(cfg, t, i - 1);
        if k + 1 < t.len() {
            assert(run(t.take(k + 1)) is Running);
        } else {
            assert(t.take(k + 1) =~= t);
        }
        let found = t[k]->Ok_0;
        assert(t[k] is Ok);
        assert(unique_answer(cfg, t, i - 1) == t[k]);
        lemma_insert_unique_ok(before, keys_of(rule_matches(cfg, i - 1, found)), cfg.rules@[i - 1].folder@);
        assert(unique_keys(cfg, t, i - 1) == keys_of(rule_matches(cfg, i - 1, found)));
    }
    if i < n && p + i == t.len() {
        assert(t.take(p + i) =~= t);
    }
}

proof fn lemma_unique_reaches_checks(cfg: Config, t: Seq<Answer>, m: Map<Seq<char>, Seq<char>>, k: int)
    requires
        cfg.rules@.len() > 0,
        unique_run(cfg, t) == Progress::Done(Ok(m)),
        stops_at_end(|u: Seq<Answer>| unique_run(cfg, u), t),
        0 <= k <= checked_pairs(cfg).len(),
    ensures
        k <= t.len(),
    decreases k,
{
    if k > 0 {
        lemma_unique_reaches_checks(cfg, t, m, k - 1);
        lemma_unique_overlap_phase(cfg, t, m, k - 1);
    }
}

proof fn lemma_unique_reaches_end(cfg: Config, t: Seq<Answer>, m: Map<Seq<char>, Seq<char>>, i: int)
    requires
        cfg.rules@.len() > 0,
        unique_run(cfg, t) == Progress::Done(Ok(m)),
        stops_at_end(|u: Seq<Answer>| unique_run(cfg, u), t),
        0 <= i <= cfg.rules@.len(),
    ensures
        checked_pairs(cfg).len() + i <= t.len(),
    decreases i,
{
    if i == 0 {
        lemma_unique_reaches_checks(cfg, t, m, checked_pairs(cfg).len() as int);
        lemma_unique_overlap_phase(cfg, t, m, checked_pairs(cfg).len() as int);
    } else {
        lemma_unique_reaches_end(cfg, t, m, i - 1);
        lemma_unique_rule_phase(cfg, t, m, i - 1);
    }
}

/// In the unique mode, a run that succeeds has found no message in common for any
/// two rules it checked, has been given each message by at most one rule and at most
/// once, and assigns exactly the messages that the rules took, each to the folder of
/// the one rule that took it. Message files are compared as paths (by `path_normal`):
/// one path found in two spellings counts twice.
pub proof fn law_unique_success(cfg: Config, t: Seq<Answer>, m: Map<Seq<char>, Seq<char>>)
    requires
        unique_run(cfg, t) == Progress::Done(Ok(m)),
        stops_at_end(|u: Seq<Answer>| unique_run(cfg, u), t),
    ensures
        t.len() == checked_pairs(cfg).len() + cfg.rules@.len(),
        forall|k: int| 0 <= k < t.len() ==> (#[trigger] t[k]) is Ok,
        forall|k: int|
            0 <= k < checked_pairs(cfg).len() ==> pair_hits(cfg, #[trigger] checked_pairs(cfg)[k], t[k]->Ok_0)
                == 0,
        forall|i: int| 0 <= i < cfg.rules@.len() ==> (#[trigger] unique_keys(cfg, t, i)).no_duplicates(),
        forall|i: int, j: int, p: Seq<char>|
            0 <= i < j < cfg.rules@.len() && #[trigger] unique_keys(cfg, t, i).contains(p)
                ==> !#[trigger] unique_keys(cfg, t, j).contains(p),
        forall|i: int, p: Seq<char>|
            0 <= i < cfg.rules@.len() && #[trigger] unique_keys(cfg, t, i).contains(p) ==> m.contains_key(p)
                && m[p] == cfg.rules@[i].folder@,
        forall|p: Seq<char>|
            #[trigger] m.contains_key(p) ==> exists|i: int|
                0 <= i < cfg.rules@.len() && #[trigger] unique_keys(cfg, t, i).contains(p),
{
    let run = |u: Seq<Answer>| unique_run(cfg, u);
    let n = cfg.rules@.len() as int;
    let pc = checked_pairs(cfg).len() as int;
    if n == 0 {
        assert(checked_pairs(cfg).len() == 0);
        if t.len() > 0 {
            assert(run(t.take(0)) is Running);
            assert(false);
        }
        assert(t =~= t.take(0));
        assert(m =~= Map::empty());
        return;
    }
    lemma_unique_reaches_checks(cfg, t, m, pc);
    lemma_unique_overlap_phase(cfg, t, m, pc);
    lemma_overlap_total_zero(cfg, t, pc);
    lemma_unique_reaches_end(cfg, t, m, n);
    lemma_unique_rule_phase(cfg, t, m, n);
    if pc + n < t.len() {
        assert(run(t.take(pc + n)) is Running);
    }
    assert(t.take(pc + n) =~= t);
    let founds = Seq::new(cfg.rules@.len(), |j: int| unique_keys(cfg, t, j));
    let folders = Seq::new(cfg.rules@.len(), |j: int| cfg.rules@[j].folder@);
    assert(m == assigned(founds, folders, n));
    assert forall|k: int| 0 <= k < t.len() implies (#[trigger] t[k]) is Ok by {
        if k >= pc {
            assert(unique_answer(cfg, t, k - pc) == t[k]);
        }
    }
    assert forall|i: int, j: int, p: Seq<char>|
        0 <= i < j < n && #[trigger] unique_keys(cfg, t, i).contains(p)
            implies !#[trigger] unique_keys(cfg, t, j).contains(p) by {
        lemma_assigned(founds, folders, j);
        assert(founds[i].contains(p));
        assert(unique_assigned(cfg, t, j).contains_key(p));
        if unique_keys(cfg, t, j).contains(p) {
            let k = choose|k: int| 0 <= k < unique_keys(cfg, t, j).len() && unique_keys(cfg, t, j)[k] == p;
            assert(!unique_assigned(cfg, t, j).contains_key(unique_keys(cfg, t, j)[k]));
        }
    }
    lemma_assigned(founds, folders, n);
    assert forall|i: int, p: Seq<char>|
        0 <= i < n && #[trigger] unique_keys(cfg, t, i).contains(p) implies m.contains_key(p)
            && m[p] == cfg.rules@[i].folder@ by {
        assert(founds[i].contains(p));
        assert forall|l: int| i < l < n implies !#[trigger] founds[l].contains(p) by {
            assert(founds[l] == unique_keys(cfg, t, l));
        }
    }
    assert forall|p: Seq<char>| #[trigger] m.contains_key(p) implies exists|i: int|
        0 <= i < n && #[trigger] unique_keys(cfg, t, i).contains(p) by {
        let j = choose|j: int| 0 <= j < n && #[trigger] founds[j].contains(p);
        assert(unique_keys(cfg, t, j).contains(p));
    }
}

/// The assignments of the first `i` rules of a unique-mode run with answers `t`.
pub open spec fn unique_assigned(cfg: Config, t: Seq<Answer>, i: int) -> Map<Seq<char>, Seq<char>> {
    assigned(
        Seq::new(cfg.rules@.len(), |j: int| unique_keys(cfg, t, j)),
        Seq::new(cfg.rules@.len(), |j: int| cfg.rules@[j].folder@),
        i,
    )
}

// ---------------------------------------------------------------------------
// The first and all modes: later rules override earlier ones.

/// The messages found for rule `i` in an overriding run with answers `t`.
pub open spec fn override_found(t: Seq<Answer>, i: int) -> Seq<Seq<char>> {
    t[i]->Ok_0
}

/// The files found for rule `i` in an overriding run with answers `t`, as compared.
pub open spec fn override_keys(t: Seq<Answer>, i: int) -> Seq<Seq<char>> {
    keys_of(override_found(t, i))
}

/// The assignments of the first `i` rules of an overriding run with answers `t`.
pub open spec fn override_assigned(cfg: Config, t: Seq<Answer>, i: int) -> Map<Seq<char>, Seq<char>> {
    assigned(
        Seq::new(cfg.rules@.len(), |j: int| override_keys(t, j)),
        Seq::new(cfg.rules@.len(), |j: int| cfg.rules@[j].folder@),
        i,
    )
}

proof fn lemma_override_phase(cfg: Config, t: Seq<Answer>, m: Map<Seq<char>, Seq<char>>, i: int)
    requires
        cfg.rules@.len() > 0,
        override_run(cfg, t) == Progress::Done(Ok(m)),
        stops_at_end(|u: Seq<Answer>| override_run(cfg, u), t),
        0 <= i <= cfg.rules@.len(),
        i <= t.len(),
    ensures
        i < cfg.rules@.len() ==> i < t.len(),
        override_run(cfg, t.take(i)) == if i == cfg.rules@.len() {
            Progress::Done(Ok(override_assigned(cfg, t, i)))
        } else {
            Progress::Running(0, override_assigned(cfg, t, i))
        },
        forall|j: int| 0 <= j < i ==> (#[trigger] t[j]) is Ok,
    decreases i,
{
    let run = |u: Seq<Answer>| override_run(cfg, u);
    let n = cfg.rules@.len() as int;
    if i == 0 {
        assert(t.take(0).len() == 0);
        assert(override_assigned(cfg, t, 0) =~= Map::empty());
    } else {
        lemma_override_phase(cfg, t, m, i - 1);
        let k = i - 1;
        assert(t.take(k + 1).drop_last() =~= t.take(k));
        if k + 1 < t.len() {
            assert(run(t.take(k + 1)) is Running);
        } else {
            assert(t.take(k + 1) =~= t);
        }
        assert(t[k] is Ok);
    }
    if i < n && i == t.len() {
        assert(t.take(i) =~= t);
    }
}

proof fn lemma_override_reaches_end(cfg: Config, t: Seq<Answer>, m: Map<Seq<char>, Seq<char>>, i: int)
    requires
        cfg.rules@.len() > 0,
        override_run(cfg, t) == Progress::Done(Ok(m)),
        stops_at_end(|u: Seq<Answer>| override_run(cfg, u), t),
        0 <= i <= cfg.rules@.len(),
    ensures
        i <= t.len(),
    decreases i,
{
    if i > 0 {
        lemma_override_reaches_end(cfg, t, m, i - 1);
        lemma_override_phase(cfg, t, m, i - 1);
    }
}

/// When later rules override earlier ones (the first and all modes), a run that
/// succeeds has had every query answered, and assigns exactly the messages found
/// for some rule, each to the folder of the last rule it was found for. Message files
/// are compared as paths (by `path_normal`): one path found in two spellings is one file.
pub proof fn law_override_success(cfg: Config, t: Seq<Answer>, m: Map<Seq<char>, Seq<char>>)
    requires
        override_run(cfg, t) == Progress::Done(Ok(m)),
        stops_at_end(|u: Seq<Answer>| override_run(cfg, u), t),
    ensures
        t.len() == cfg.rules@.len(),
        forall|k: int| 0 <= k < t.len() ==> (#[trigger] t[k]) is Ok,
        forall|p: Seq<char>|
            #[trigger] m.contains_key(p) <==> exists|i: int|
                0 <= i < cfg.rules@.len() && #[trigger] override_keys(t, i).contains(p),
        forall|i: int, p: Seq<char>|
            0 <= i < cfg.rules@.len() && #[trigger] override_keys(t, i).contains(p) && (forall|l: int|
                i < l < cfg.rules@.len() ==> !#[trigger] override_keys(t, l).contains(p)) ==> m[p]
                == cfg.rules@[i].folder@,
{
    let run = |u: Seq<Answer>| override_run(cfg, u);
    let n = cfg.rules@.len() as int;
    if n == 0 {
        if t.len() > 0 {
            assert(run(t.take(0)) is Running);
            assert(false);
        }
        assert(t =~= t.take(0));
        assert(m =~= Map::empty());
        return;
    }
    lemma_override_reaches_end(cfg, t, m, n);
    lemma_override_phase(cfg, t, m, n);
    if n < t.len() {
        assert(run(t.take(n)) is Running);
    }
    assert(t.take(n) =~= t);
    let founds = Seq::new(cfg.rules@.len(), |j: int| override_keys(t, j));
    let folders = Seq::new(cfg.rules@.len(), |j: int| cfg.rules@[j].folder@);
    lemma_assigned(founds, folders, n);
    assert forall|p: Seq<char>|
        #[trigger] m.contains_key(p) <==> exists|i: int|
            0 <= i < n && #[trigger] override_keys(t, i).contains(p) by {
        if m.contains_key(p) {
            let j = choose|j: int| 0 <= j < n && #[trigger] founds[j].contains(p);
            assert(override_keys(t, j).contains(p));
        }
        if exists|i: int| 0 <= i < n && #[trigger] override_keys(t, i).contains(p) {
            let j = choose|j: int| 0 <= j < n && #[trigger] override_keys(t, j).contains(p);
            assert(founds[j].contains(p));
        }
    }
    assert forall|i: int, p: Seq<char>|
        0 <= i < n && #[trigger] override_keys(t, i).contains(p) && (forall|l: int|
            i < l < n ==> !#[trigger] override_keys(t, l).contains(p)) implies m[p]
            == cfg.rules@[i].folder@ by {
        assert(founds[i].contains(p));
        assert forall|l: int| i < l < n implies !#[trigger] founds[l].contains(p) by {
            assert(founds[l] == override_keys(t, l));
        }
    }
}

/// When later rules override earlier ones (the first and all modes), rules may match
/// the same messages: a run fails only when the repository fails.
pub proof fn law_override_fails_only_on_repository_errors(cfg: Config, t: Seq<Answer>, f: Failure)
    requires
        override_run(cfg, t) == Progress::Done(Err(f)),
    ensures
        f is Repo,
    decreases t.len(),
{
    if t.len() > 0 {
        let before = override_run(cfg, t.drop_last());
        if before is Done {
            law_override_fails_only_on_repository_errors(cfg, t.drop_last(), f);
        }
    }
}

// ---------------------------------------------------------------------------
// The basic form.

/// The messages found for rule `i` in a basic run with answers `t`.
pub open spec fn basic_found(cfg: BasicConfig, t: Seq<Answer>, i: int) -> Seq<Seq<char>> {
    t[basic_offset(cfg) + i]->Ok_0
}

/// The files found for rule `i` in a basic run with answers `t`, as compared.
pub open spec fn basic_keys(cfg: BasicConfig, t: Seq<Answer>, i: int) -> Seq<Seq<char>> {
    keys_of(basic_found(cfg, t, i))
}

/// The assignments of the first `i` rules of a basic run with answers `t`.
pub open spec fn basic_assigned(cfg: BasicConfig, t: Seq<Answer>, i: int) -> Map<Seq<char>, Seq<char>> {
    assigned(
        Seq::new(cfg.rules@.len(), |j: int| basic_keys(cfg, t, j)),
        Seq::new(cfg.rules@.len(), |j: int| cfg.rules@[j].folder@),
        i,
    )
}

proof fn lemma_basic_phase(cfg: BasicConfig, t: Seq<Answer>, m: Map<Seq<char>, Seq<char>>, i: int)
    requires
        cfg.rules@.len() > 0,
        basic_run(cfg, t) == Progress::Done(Ok(m)),
        stops_at_end(|u: Seq<Answer>| basic_run(cfg, u), t),
        0 <= i <= cfg.rules@.len(),
        basic_offset(cfg) + i <= t.len(),
    ensures
        i < cfg.rules@.len() ==> basic_offset(cfg) + i < t.len(),
        overlap_checked(cfg) ==> t[0] is Ok && t[0]->Ok_0.len() == 0,
        basic_run(cfg, t.take(basic_offset(cfg) + i)) == if i == cfg.rules@.len() {
            Progress::Done(Ok(basic_assigned(cfg, t, i)))
        } else {
            Progress::Running(0, basic_assigned(cfg, t, i))
        },
        forall|j: int| 0 <= j < i ==> (#[trigger] t[basic_offset(cfg) + j]) is Ok,
        forall|j: int| 0 <= j < i ==> (#[trigger] basic_keys(cfg, t, j)).no_duplicates(),
        forall|j: int, k: int|
            0 <= j < i && 0 <= k < basic_keys(cfg, t, j).len() ==> !basic_assigned(cfg, t, j).contains_key(
                #[trigger] basic_keys(cfg, t, j)[k],
            ),
    decreases i,
{
    let run = |u: Seq<Answer>| basic_run(cfg, u);
    let n = cfg.rules@.len() as int;
    let o = basic_offset(cfg);
    if i == 0 {
        assert(t.take(0).len() == 0);
        assert(basic_assigned(cfg, t, 0) =~= Map::empty());
        if o == 1 {
            assert(t.take(1).drop_last() =~= t.take(0));
            if 1 < t.len() {
                assert(run(t.take(1)) is Running);
            } else {
                assert(t.take(1) =~= t);
            }
        }
    } else {
        lemma_basic_phase(cfg, t, m, i - 1);
        let k = o + i - 1;
        assert(t.take(k + 1).drop_last() =~= t.take(k));
        if k + 1 < t.len() {
            assert(run(t.take(k + 1)) is Running);
        } else {
            assert(t.take(k + 1) =~= t);
        }
        let found = t[k]->Ok_0;
        assert(t[k] is Ok);
        lemma_insert_unique_ok(basic_assigned(cfg, t, i - 1), keys_of(found), cfg.rules@[i - 1].folder@);
        assert(basic_keys(cfg, t, i - 1) == keys_of(found));
    }
    if i < n && o + i == t.len() {
        assert(t.take(o + i) =~= t);
    }
}

proof fn lemma_basic_reaches_end(cfg: BasicConfig, t: Seq<Answer>, m: Map<Seq<char>, Seq<char>>, i: int)
    requires
        cfg.rules@.len() > 0,
        basic_run(cfg, t) == Progress::Done(Ok(m)),
        stops_at_end(|u: Seq<Answer>| basic_run(cfg, u), t),
        0 <= i <= cfg.rules@.len(),
    ensures
        basic_offset(cfg) + i <= t.len(),
    decreases i,
{
    let run = |u: Seq<Answer>| basic_run(cfg, u);
    if i == 0 {
        if basic_offset(cfg) == 1 && t.len() == 0 {
            assert(t.take(0) =~= t);
            assert(false);
        }
    } else {
        lemma_basic_reaches_end(cfg, t, m, i - 1);
        lemma_basic_phase(cfg, t, m, i - 1);
    }
}

/// In the basic form, a run that succeeds has found no message that all rules match
/// (a check made when there are two rules or more),
/// has been given each message by at most one rule and at most once, and assigns
/// exactly the messages the rules found, each to the folder of the one rule that found it.
/// Message files are compared as paths (by `path_normal`).
pub proof fn law_basic_success(cfg: BasicConfig, t: Seq<Answer>, m: Map<Seq<char>, Seq<char>>)
    requires
        basic_run(cfg, t) == Progress::Done(Ok(m)),
        stops_at_end(|u: Seq<Answer>| basic_run(cfg, u), t),
    ensures
        cfg.rules@.len() == 0 ==> t.len() == 0 && m == Map::<Seq<char>, Seq<char>>::empty(),
        cfg.rules@.len() > 0 ==> t.len() == basic_offset(cfg) + cfg.rules@.len(),
        overlap_checked(cfg) ==> t[0] is Ok && t[0]->Ok_0.len() == 0,
        forall|k: int| 0 <= k < t.len() ==> (#[trigger] t[k]) is Ok,
        forall|i: int| 0 <= i < cfg.rules@.len() ==> (#[trigger] basic_keys(cfg, t, i)).no_duplicates(),
        forall|i: int, j: int, p: Seq<char>|
            0 <= i < j < cfg.rules@.len() && #[trigger] basic_keys(cfg, t, i).contains(p)
                ==> !#[trigger] basic_keys(cfg, t, j).contains(p),
        forall|i: int, p: Seq<char>|
            0 <= i < cfg.rules@.len() && #[trigger] basic_keys(cfg, t, i).contains(p) ==> m.contains_key(p)
                && m[p] == cfg.rules@[i].folder@,
        forall|p: Seq<char>|
            #[trigger] m.contains_key(p) ==> exists|i: int|
                0 <= i < cfg.rules@.len() && #[trigger] basic_keys(cfg, t, i).contains(p),
{
    let run = |u: Seq<Answer>| basic_run(cfg, u);
    let n = cfg.rules@.len() as int;
    if n == 0 {
        if t.len() > 0 {
            assert(run(t.take(0)) is Running);
            assert(false);
        }
        assert(t =~= t.take(0));
        assert(m =~= Map::empty());
        return;
    }
    lemma_basic_reaches_end(cfg, t, m, n);
    lemma_basic_phase(cfg, t, m, n);
    let o = basic_offset(cfg);
    if o + n < t.len() {
        assert(run(t.take(o + n)) is Running);
    }
    assert(t.take(o + n) =~= t);
    let founds = Seq::new(cfg.rules@.len(), |j: int| basic_keys(cfg, t, j));
    let folders = Seq::new(cfg.rules@.len(), |j: int| cfg.rules@[j].folder@);
    assert forall|k: int| 0 <= k < t.len() implies (#[trigger] t[k]) is Ok by {
        if k >= o {
            assert(t[o + (k - o)] is Ok);
        }
    }
    assert forall|i: int, j: int, p: Seq<char>|
        0 <= i < j < n && #[trigger] basic_keys(cfg, t, i).contains(p)
            implies !#[trigger] basic_keys(cfg, t, j).contains(p) by {
        lemma_assigned(founds, folders, j);
        assert(founds[i].contains(p));
        assert(basic_assigned(cfg, t, j).contains_key(p));
        if basic_keys(cfg, t, j).contains(p) {
            let k = choose|k: int| 0 <= k < basic_keys(cfg, t, j).len() && basic_keys(cfg, t, j)[k] == p;
            assert(!basic_assigned(cfg, t, j).contains_key(basic_keys(cfg, t, j)[k]));
        }
    }
    lemma_assigned(founds, folders, n);
    assert forall|i: int, p: Seq<char>|
        0 <= i < n && #[trigger] basic_keys(cfg, t, i).contains(p) implies m.contains_key(p)
            && m[p] == cfg.rules@[i].folder@ by {
        assert(founds[i].contains(p));
        assert forall|l: int| i < l < n implies !#[trigger] founds[l].contains(p) by {
            assert(founds[l] == basic_keys(cfg, t, l));
        }
    }
    assert forall|p: Seq<char>| #[trigger] m.contains_key(p) implies exists|i: int|
        0 <= i < n && #[trigger] basic_keys(cfg, t, i).contains(p) by {
        let j = choose|j: int| 0 <= j < n && #[trigger] founds[j].contains(p);
        assert(basic_keys(cfg, t, j).contains(p));
    }
}

// ---------------------------------------------------------------------------
// Facts of all modes.

/// With no rules, nothing is asked and nothing is assigned, in every mode.
pub proof fn law_no_rules_no_queries<R: MailRepo>(repo: &R, cfg: Config, outcome: Outcome, t: Seq<Answer>)
    requires
        cfg.rules@.len() == 0,
        explains(repo, cfg, outcome, t),
    ensures
        t.len() == 0,
        outcome == Ok::<Map<Seq<char>, Seq<char>>, Failure>(Map::empty()),
{
    if t.len() > 0 {
        assert(t.take(0) =~= Seq::<Answer>::empty());
        match cfg.spec_mode() {
            MatchMode::Unique => assert(unique_run(cfg, t.take(0)) is Running),
            _ => assert(override_run(cfg, t.take(0)) is Running),
        }
    }
    assert(t =~= Seq::<Answer>::empty());
}

/// Without a configured match mode, the rules must be pairwise distinct.
pub proof fn law_unique_is_the_default<R: MailRepo>(repo: &R, cfg: Config, outcome: Outcome, t: Seq<Answer>)
    requires
        cfg.rule_match_mode.is_none(),
    ensures
        explains(repo, cfg, outcome, t) == unique_explains(repo, cfg, outcome, t),
{
}

proof fn lemma_ends_with(x: Seq<char>, d: Seq<char>)
    ensures
        d.is_suffix_of(x + d),
{
    assert((x + d).subrange(x.len() as int, (x + d).len() as int) =~= d);
}

/// Every query asked, in every mode, ends with the age restriction (if one is configured).
pub proof fn law_every_query_is_age_restricted(cfg: Config)
    ensures
        forall|k: int|
            0 <= k < unique_queries(cfg).len() ==> date_clause(cfg.max_age_days).is_suffix_of(
                #[trigger] unique_queries(cfg)[k],
            ),
        forall|k: int|
            0 <= k < first_queries(cfg).len() ==> date_clause(cfg.max_age_days).is_suffix_of(
                #[trigger] first_queries(cfg)[k],
            ),
        forall|k: int|
            0 <= k < all_queries(cfg).len() ==> date_clause(cfg.max_age_days).is_suffix_of(
                #[trigger] all_queries(cfg)[k],
            ),
{
    let d = date_clause(cfg.max_age_days);
    let pc = checked_pairs(cfg).len() as int;
    assert forall|k: int| 0 <= k < unique_queries(cfg).len() implies d.is_suffix_of(
        #[trigger] unique_queries(cfg)[k],
    ) by {
        let rules = cfg.rules@;
        if k < pc {
            let p = checked_pairs(cfg)[k];
            lemma_ends_with("("@ + rules[p.0].query@ + ") AND ("@ + rules[p.1].query@ + ")"@, d);
        } else {
            let i = k - pc;
            lemma_ends_with(
                "NOT folder:\""@ + rules[i].folder@ + "\" AND ("@ + rules[i].query@ + ")"@,
                d,
            );
        }
    }
    assert forall|k: int| 0 <= k < first_queries(cfg).len() implies d.is_suffix_of(
        #[trigger] first_queries(cfg)[k],
    ) by {
        let rules = cfg.rules@;
        let e = exclusion(rule_queries(cfg).take(k));
        lemma_ends_with(
            "(NOT folder:"@ + rules[k].folder@ + ") AND ("@ + rules[k].query@ + ")"@ + (if e.len() == 0 {
                Seq::<char>::empty()
            } else {
                " AND ("@ + e + ")"@
            }),
            d,
        );
    }
    assert forall|k: int| 0 <= k < all_queries(cfg).len() implies d.is_suffix_of(
        #[trigger] all_queries(cfg)[k],
    ) by {
        lemma_ends_with("("@ + cfg.rules@[k].query@ + ")"@, d);
    }
}

/// Every query asked by the basic form ends with the age restriction (if one is configured).
pub proof fn law_basic_every_query_is_age_restricted(cfg: BasicConfig)
    ensures
        forall|k: int|
            0 <= k < basic_queries(cfg).len() ==> date_clause(cfg.max_age_days).is_suffix_of(
                #[trigger] basic_queries(cfg)[k],
            ),
{
    let d = date_clause(cfg.max_age_days);
    assert forall|k: int| 0 <= k < basic_queries(cfg).len() implies d.is_suffix_of(
        #[trigger] basic_queries(cfg)[k],
    ) by {
        let rules = cfg.rules@;
        if overlap_checked(cfg) && k == 0 {
            let qs = crate::basic::engine::rule_queries(cfg);
            lemma_ends_with(conjunction_prefix(qs.drop_last()) + "("@ + qs.last() + ")"@, d);
        } else {
            let i = k - basic_offset(cfg);
            lemma_ends_with(
                "NOT folder:\""@ + rules[i].folder@ + "\" AND ("@ + rules[i].query@ + ")"@,
                d,
            );
        }
    }
}

proof fn lemma_row_members(cfg: Config, i: int, j: int)
    requires
        0 <= i,
    ensures
        forall|k: int|
            0 <= k < pair_row(cfg, i, j).len() ==> {
                let p = #[trigger] pair_row(cfg, i, j)[k];
                p.0 == i && i < p.1 < j && pair_scope(cfg, p.0, p.1) is Some
            },
    decreases j - i,
{
    if j > i + 1 {
        lemma_row_members(cfg, i, j - 1);
        let row = pair_row(cfg, i, j);
        assert forall|k: int| 0 <= k < row.len() implies {
            let p = #[trigger] row[k];
            p.0 == i && i < p.1 < j && pair_scope(cfg, p.0, p.1) is Some
        } by {
            if k < pair_row(cfg, i, j - 1).len() {
                assert(row[k] == pair_row(cfg, i, j - 1)[k]);
            }
        }
    }
}

proof fn lemma_before_members(cfg: Config, i: int)
    requires
        0 <= i,
    ensures
        forall|k: int|
            0 <= k < pairs_before(cfg, i).len() ==> {
                let p = #[trigger] pairs_before(cfg, i)[k];
                0 <= p.0 < p.1 < cfg.rules@.len() && p.0 < i && pair_scope(cfg, p.0, p.1) is Some
            },
    decreases i,
{
    if i > 0 {
        lemma_before_members(cfg, i - 1);
        lemma_row_members(cfg, i - 1, cfg.rules@.len() as int);
        let all = pairs_before(cfg, i);
        let head = pairs_before(cfg, i - 1);
        assert forall|k: int| 0 <= k < all.len() implies {
            let p = #[trigger] all[k];
            0 <= p.0 < p.1 < cfg.rules@.len() && p.0 < i && pair_scope(cfg, p.0, p.1) is Some
        } by {
            if k < head.len() {
                assert(all[k] == head[k]);
            } else {
                assert(all[k] == pair_row(cfg, i - 1, cfg.rules@.len() as int)[k - head.len()]);
            }
        }
    }
}

/// In the unique mode, two rules are checked for common messages exactly when their
/// prefixes allow a common message: neither has a prefix, or one prefix is a prefix of
/// the other. Rules with unrelated prefixes are never checked against each other.
pub proof fn law_checked_pairs(cfg: Config)
    ensures
        forall|k: int|
            0 <= k < checked_pairs(cfg).len() ==> {
                let p = #[trigger] checked_pairs(cfg)[k];
                0 <= p.0 < p.1 < cfg.rules@.len() && pair_scope(cfg, p.0, p.1) is Some
            },
        forall|i: int, j: int|
            0 <= i < j < cfg.rules@.len() && #[trigger] pair_scope(cfg, i, j) is Some ==> checked_pairs(
                cfg,
            ).contains((i, j)),
{
    lemma_before_members(cfg, cfg.rules@.len() as int);
    assert forall|i: int, j: int|
        0 <= i < j < cfg.rules@.len() && #[trigger] pair_scope(cfg, i, j) is Some implies checked_pairs(
            cfg,
        ).contains((i, j)) by {
        lemma_pair_position(cfg, i, j);
    }
}

/// `part` occurs in `s` as a contiguous piece.
pub open spec fn has_part(s: Seq<char>, part: Seq<char>) -> bool {
    exists|a: Seq<char>, b: Seq<char>| #[trigger] (a + part + b) == s
}

/// The exclusion term of a query.
pub open spec fn negation(query: Seq<char>) -> Seq<char> {
    "NOT ("@ + query + ")"@
}

proof fn lemma_exclusion_has_all(queries: Seq<Seq<char>>)
    ensures
        queries.len() > 0 ==> exclusion(queries).len() > 0,
        forall|j: int| 0 <= j < queries.len() ==> has_part(exclusion(queries), #[trigger] negation(queries[j])),
    decreases queries.len(),
{
    if queries.len() > 0 {
        let rest = queries.drop_last();
        let e = exclusion(rest);
        let term = negation(queries.last());
        lemma_exclusion_has_all(rest);
        assert(exclusion(queries) == if e.len() == 0 { term } else { e + " AND "@ + term });
        reveal_strlit("NOT (");
        assert(term.len() > 0);
        assert forall|j: int| 0 <= j < queries.len() implies has_part(
            exclusion(queries),
            #[trigger] negation(queries[j]),
        ) by {
            let whole = exclusion(queries);
            if j == queries.len() - 1 {
                if e.len() == 0 {
                    assert(Seq::<char>::empty() + term + Seq::<char>::empty() =~= whole);
                } else {
                    assert((e + " AND "@) + term + Seq::<char>::empty() =~= whole);
                }
            } else {
                assert(negation(queries[j]) == negation(rest[j]));
                assert(has_part(e, negation(rest[j])));
                let (a, b) = choose|a: Seq<char>, b: Seq<char>| #[trigger] (a + negation(rest[j]) + b) == e;
                assert(a + negation(queries[j]) + (b + " AND "@ + term) =~= whole);
            }
        }
    }
}

/// When the first matching rule wins, the query of each rule excludes the query of
/// every earlier rule, so that a message matched by an earlier rule is not found again.
pub proof fn law_first_mode_excludes_earlier_rules(cfg: Config)
    ensures
        forall|k: int, j: int|
            0 <= j < k < cfg.rules@.len() ==> has_part(
                #[trigger] first_queries(cfg)[k],
                negation(#[trigger] cfg.rules@[j].query@),
            ),
{
    assert forall|k: int, j: int|
        0 <= j < k < cfg.rules@.len() implies has_part(
            #[trigger] first_queries(cfg)[k],
            negation(#[trigger] cfg.rules@[j].query@),
        ) by {
        let qs = rule_queries(cfg).take(k);
        lemma_exclusion_has_all(qs);
        assert(qs[j] == cfg.rules@[j].query@);
        let e = exclusion(qs);
        assert(has_part(e, negation(qs[j])));
        let (a, b) = choose|a: Seq<char>, b: Seq<char>| #[trigger] (a + negation(qs[j]) + b) == e;
        let rule = cfg.rules@[k];
        let head = "(NOT folder:"@ + rule.folder@ + ") AND ("@ + rule.query@ + ")"@;
        let whole = first_queries(cfg)[k];
        assert(whole == head + (" AND ("@ + e + ")"@) + date_clause(cfg.max_age_days));
        assert((head + " AND ("@ + a) + negation(qs[j]) + (b + ")"@ + date_clause(cfg.max_age_days)) =~= whole);
    }
}

} // verus!
