//! What the query texts and the rule phases are for, stated over their inputs and
//! results: numbers are written as standard numerals, exclusions are conjunctions,
//! each rule asks its own query, and prefixes decide which rules are checked and
//! which messages a rule takes.

use vstd::prelude::*;
use crate::basic::config::Config as BasicConfig;
use crate::basic::engine::{basic_offset, basic_queries, overlap_checked};
use crate::config::{Config, Rule};
use crate::engine::{
    all_queries, checked_pairs, first_queries, pair_hits, pair_scope, rule_matches, unique_feed, unique_queries,
    unique_run,
};
use crate::laws::{
    assigned, lemma_assigned, lemma_insert_unique_ok, law_checked_pairs, law_unique_success, stops_at_end, unique_answer,
    unique_keys,
};
use crate::assign::insert_keys;
use crate::model::{Answer, Progress};
use crate::paths::{keys_of, path_join, path_normal, path_starts_with};
use crate::query::{conjunction_text, date_clause, exclusion};
use crate::text::{decimal, digit_char};

verus! {

// ---------------------------------------------------------------------------
// Numbers in queries.

/// Whether `c` is one of the digits `0` to `9`.
pub open spec fn is_digit(c: char) -> bool {
    48 <= (c as int) && (c as int) <= 57
}

/// The number that a text of decimal digits stands for, most significant digit first.
pub open spec fn digits_value(s: Seq<char>) -> int
    decreases s.len(),
{
    if s.len() == 0 {
        0
    } else {
        digits_value(s.drop_last()) * 10 + ((s.last() as int) - 48)
    }
}

/// Every number is written as its standard decimal numeral: a non-empty text of the
/// digits `0` to `9`, without a leading zero (unless the number is zero), that reads
/// back as the number.
pub proof fn law_decimal_is_the_numeral(n: nat)
    ensures
        decimal(n).len() > 0,
        forall|k: int| 0 <= k < decimal(n).len() ==> is_digit(#[trigger] decimal(n)[k]),
        decimal(n)[0] == '0' ==> n == 0,
        digits_value(decimal(n)) == n,
    decreases n,
{
    let d = n % 10;
    assert((digit_char(d) as int) == d + 48);
    if n < 10 {
        assert(decimal(n) == seq![digit_char(n)]);
        assert(decimal(n).drop_last() =~= Seq::<char>::empty());
        assert(digits_value(Seq::<char>::empty()) == 0);
        assert(decimal(n).last() == digit_char(d));
        assert(digits_value(decimal(n)) == digits_value(decimal(n).drop_last()) * 10 + ((decimal(n).last() as int) - 48));
    } else {
        law_decimal_is_the_numeral(n / 10);
        let s = decimal(n);
        let rest = decimal(n / 10);
        assert(s.drop_last() =~= rest);
        assert(s[0] == rest[0]);
        assert forall|k: int| 0 <= k < s.len() implies is_digit(#[trigger] s[k]) by {
            if k < rest.len() {
                assert(s[k] == rest[k]);
            }
        }
        assert(s.last() == digit_char(d));
        assert(digits_value(s) == digits_value(rest) * 10 + ((s.last() as int) - 48));
        assert(n == (n / 10) * 10 + n % 10);
    }
}

/// The age restriction of every query is ` AND date:"<days>_days"..` with the number
/// of days written as its numeral, and nothing when there is no limit.
pub proof fn law_date_clause(max_age_days: Option<u32>)
    ensures
        match max_age_days {
            Some(days) => date_clause(max_age_days) == " AND date:\""@ + decimal(days as nat) + "_days\".."@,
            None => date_clause(max_age_days) == Seq::<char>::empty(),
        },
{
}

// ---------------------------------------------------------------------------
// The exclusion of earlier rules in the first mode.

/// The exclusion of earlier queries is their conjunction: the exclusion of one query is
/// `NOT (q)`, and each further query adds ` AND NOT (q)` to the exclusion of those
/// before it. No other connective ever joins two terms.
pub proof fn law_exclusion_is_a_conjunction(queries: Seq<Seq<char>>, q: Seq<char>)
    ensures
        exclusion(Seq::<Seq<char>>::empty()) == Seq::<char>::empty(),
        exclusion(seq![q]) == "NOT ("@ + q + ")"@,
        queries.len() > 0 ==> exclusion(queries.push(q)) == exclusion(queries) + " AND NOT ("@ + q + ")"@,
{
    assert(seq![q].drop_last() =~= Seq::<Seq<char>>::empty());
    assert(exclusion(Seq::<Seq<char>>::empty()) == Seq::<char>::empty());
    assert(seq![q].last() == q);
    assert(exclusion(seq![q]) == "NOT ("@ + q + ")"@);
    assert(queries.push(q).drop_last() =~= queries);
    if queries.len() > 0 {
        lemma_exclusion_not_empty(queries);
        assert(exclusion(queries) + " AND "@ + ("NOT ("@ + q + ")"@) =~= exclusion(queries) + " AND NOT ("@ + q
            + ")"@) by {
            reveal_strlit(" AND ");
            reveal_strlit("NOT (");
            reveal_strlit(" AND NOT (");
        }
    }
}

proof fn lemma_exclusion_not_empty(queries: Seq<Seq<char>>)
    requires
        queries.len() > 0,
    ensures
        exclusion(queries).len() > 0,
    decreases queries.len(),
{
    reveal_strlit("NOT (");
    if queries.len() > 1 {
        lemma_exclusion_not_empty(queries.drop_last());
    }
}

// ---------------------------------------------------------------------------
// The queries of the basic form.

/// The query for the messages that all of some queries match is their conjunction:
/// for one query `(q)`, and each further query adds ` AND (q)`; the age restriction
/// comes last.
pub proof fn law_conjunction_joins_with_and(queries: Seq<Seq<char>>, q: Seq<char>, max_age_days: Option<u32>)
    ensures
        conjunction_text(seq![q], max_age_days) == "("@ + q + ")"@ + date_clause(max_age_days),
        queries.len() > 0 ==> conjunction_text(queries.push(q), max_age_days) == conjunction_text(queries, None)
            + " AND ("@ + q + ")"@ + date_clause(max_age_days),
{
    assert(seq![q].drop_last() =~= Seq::<Seq<char>>::empty());
    assert(seq![q].last() == q);
    assert(date_clause(None) == Seq::<char>::empty());
    if queries.len() > 0 {
        let all = queries.push(q);
        assert(all.drop_last() =~= queries);
        assert(all.last() == q);
        let head = crate::query::conjunction_prefix(queries.drop_last());
        assert(crate::query::conjunction_prefix(queries) == head + "("@ + queries.last() + ") AND "@);
        reveal_strlit(") AND ");
        reveal_strlit(")");
        reveal_strlit(" AND (");
        reveal_strlit("(");
        assert(head + "("@ + queries.last() + ") AND "@ + "("@ + q + ")"@ + date_clause(max_age_days)
            =~= head + "("@ + queries.last() + ")"@ + Seq::<char>::empty() + " AND ("@ + q + ")"@ + date_clause(
            max_age_days,
        ));
    }
}

/// In the basic form, the rules are asked in order, each its own query outside its own
/// folder: after the check of all rules together (made when there are two rules or
/// more), the query answered for rule `i` is `NOT folder:"<folder i>" AND (<query i>)`
/// with the age restriction, so a message goes to rule `i`'s folder only if rule `i`'s
/// own query found it. The check asks the conjunction of all the rules' queries.
pub proof fn law_basic_rule_asks_its_own_query(cfg: BasicConfig)
    ensures
        basic_queries(cfg).len() == basic_offset(cfg) + cfg.rules@.len(),
        overlap_checked(cfg) ==> basic_queries(cfg)[0] == conjunction_text(
            cfg.rules@.map_values(|r: crate::basic::config::Rule| r.query@),
            cfg.max_age_days,
        ),
        basic_offset(cfg) == if cfg.rules@.len() >= 2 { 1int } else { 0int },
        forall|i: int|
            0 <= i < cfg.rules@.len() ==> #[trigger] basic_queries(cfg)[basic_offset(cfg) + i] == "NOT folder:\""@
                + cfg.rules@[i].folder@ + "\" AND ("@ + cfg.rules@[i].query@ + ")"@ + date_clause(
                cfg.max_age_days,
            ),
{
    assert forall|i: int| 0 <= i < cfg.rules@.len() implies #[trigger] basic_queries(cfg)[basic_offset(cfg) + i]
        == "NOT folder:\""@ + cfg.rules@[i].folder@ + "\" AND ("@ + cfg.rules@[i].query@ + ")"@ + date_clause(
        cfg.max_age_days,
    ) by {
        if overlap_checked(cfg) {
            assert(basic_queries(cfg)[1 + i] == basic_queries(cfg).drop_first()[i]);
        }
    }
}

// ---------------------------------------------------------------------------
// The queries of the match modes.

/// The queries of rules `0..i`, in order.
pub open spec fn queries_before(cfg: Config, i: int) -> Seq<Seq<char>> {
    cfg.rules@.take(i).map_values(|r: Rule| r.query@)
}

/// Each rule asks its own query. When every rule is applied (the all mode), rule `i`
/// asks `(<query i>)`; when the first match wins, it asks
/// `(NOT folder:<folder i>) AND (<query i>)`, followed, after the first rule, by
/// ` AND (<exclusion of the queries of all earlier rules>)`; and in the unique mode,
/// after the overlap checks, `NOT folder:"<folder i>" AND (<query i>)`, where the
/// check of pair `(a, b)` asks `(<query a>) AND (<query b>)`. Every query ends with the
/// age restriction.
pub proof fn law_each_rule_asks_its_own_query(cfg: Config)
    ensures
        all_queries(cfg).len() == cfg.rules@.len(),
        first_queries(cfg).len() == cfg.rules@.len(),
        unique_queries(cfg).len() == checked_pairs(cfg).len() + cfg.rules@.len(),
        forall|i: int|
            0 <= i < cfg.rules@.len() ==> #[trigger] all_queries(cfg)[i] == "("@ + cfg.rules@[i].query@ + ")"@
                + date_clause(cfg.max_age_days),
        forall|i: int|
            0 <= i < cfg.rules@.len() ==> #[trigger] first_queries(cfg)[i] == "(NOT folder:"@ + cfg.rules@[i].folder@
                + ") AND ("@ + cfg.rules@[i].query@ + ")"@ + (if i == 0 {
                Seq::<char>::empty()
            } else {
                " AND ("@ + exclusion(queries_before(cfg, i)) + ")"@
            }) + date_clause(cfg.max_age_days),
        forall|i: int|
            0 <= i < cfg.rules@.len() ==> #[trigger] unique_queries(cfg)[checked_pairs(cfg).len() + i] == "NOT folder:\""@
                + cfg.rules@[i].folder@ + "\" AND ("@ + cfg.rules@[i].query@ + ")"@ + date_clause(cfg.max_age_days),
        forall|k: int|
            0 <= k < checked_pairs(cfg).len() ==> #[trigger] unique_queries(cfg)[k] == "("@
                + cfg.rules@[checked_pairs(cfg)[k].0].query@ + ") AND ("@ + cfg.rules@[checked_pairs(cfg)[k].1].query@
                + ")"@ + date_clause(cfg.max_age_days),
{
    assert forall|i: int| 0 <= i < cfg.rules@.len() implies #[trigger] first_queries(cfg)[i] == "(NOT folder:"@
        + cfg.rules@[i].folder@ + ") AND ("@ + cfg.rules@[i].query@ + ")"@ + (if i == 0 {
        Seq::<char>::empty()
    } else {
        " AND ("@ + exclusion(queries_before(cfg, i)) + ")"@
    }) + date_clause(cfg.max_age_days) by {
        let qs = crate::engine::rule_queries(cfg).take(i);
        assert(qs =~= queries_before(cfg, i));
        if i == 0 {
            assert(qs.len() == 0);
        } else {
            lemma_exclusion_not_empty(qs);
        }
    }
    let pc = checked_pairs(cfg).len() as int;
    assert forall|i: int| 0 <= i < cfg.rules@.len() implies #[trigger] unique_queries(cfg)[pc + i] == "NOT folder:\""@
        + cfg.rules@[i].folder@ + "\" AND ("@ + cfg.rules@[i].query@ + ")"@ + date_clause(cfg.max_age_days) by {
    }
}

// ---------------------------------------------------------------------------
// Prefixes in the unique mode.

/// The prefix of rule `i`, as text.
pub open spec fn prefix_of(cfg: Config, i: int) -> Option<Seq<char>> {
    match cfg.rules@[i].prefix {
        Some(p) => Some(p@),
        None => None,
    }
}

/// Whether two rules with these prefixes may match a common message: when at most
/// one of them has a prefix, or one prefix begins with the other (equal ones too).
pub open spec fn prefixes_meet(a: Option<Seq<char>>, b: Option<Seq<char>>) -> bool {
    match (a, b) {
        (Some(x), Some(y)) => x.is_prefix_of(y) || y.is_prefix_of(x),
        _ => true,
    }
}

/// Whether `q` is the longest of the given prefixes: one of them, and begun by each.
pub open spec fn longest_prefix(a: Option<Seq<char>>, b: Option<Seq<char>>, q: Seq<char>) -> bool {
    &&& (a == Some(q) || b == Some(q))
    &&& (a matches Some(x) ==> x.is_prefix_of(q))
    &&& (b matches Some(y) ==> y.is_prefix_of(q))
}

/// In the unique mode, rules `i < j` are checked against each other exactly when
/// their prefixes let them match a common message (equal prefixes included). The
/// check looks anywhere when neither rule has a prefix, and otherwise only under
/// `<maildir>/<q>` for the longest prefix `q`.
pub proof fn law_pairs_checked_under_the_longest_prefix(cfg: Config)
    ensures
        forall|i: int, j: int|
            0 <= i < j < cfg.rules@.len() ==> (#[trigger] checked_pairs(cfg).contains((i, j)) <==> prefixes_meet(
                prefix_of(cfg, i),
                prefix_of(cfg, j),
            )),
        forall|i: int, j: int|
            0 <= i < j < cfg.rules@.len() && prefix_of(cfg, i) is None && prefix_of(cfg, j) is None
                ==> #[trigger] pair_scope(cfg, i, j) == Some(None::<Seq<char>>),
        forall|i: int, j: int, q: Seq<char>|
            0 <= i < j < cfg.rules@.len() && #[trigger] longest_prefix(prefix_of(cfg, i), prefix_of(cfg, j), q)
                ==> pair_scope(cfg, i, j) == Some(Some(path_join(cfg.maildir@, q))),
{
    law_checked_pairs(cfg);
    assert forall|i: int, j: int|
        0 <= i < j < cfg.rules@.len() implies (#[trigger] checked_pairs(cfg).contains((i, j)) <==> prefixes_meet(
            prefix_of(cfg, i),
            prefix_of(cfg, j),
        )) by {
        if checked_pairs(cfg).contains((i, j)) {
            let k = choose|k: int| 0 <= k < checked_pairs(cfg).len() && checked_pairs(cfg)[k] == (i, j);
            assert(pair_scope(cfg, i, j) is Some);
        }
    }
    assert forall|i: int, j: int, q: Seq<char>|
        0 <= i < j < cfg.rules@.len() && #[trigger] longest_prefix(prefix_of(cfg, i), prefix_of(cfg, j), q)
            implies pair_scope(cfg, i, j) == Some(Some(path_join(cfg.maildir@, q))) by {
        match (prefix_of(cfg, i), prefix_of(cfg, j)) {
            (Some(x), Some(y)) => {
                if y.is_prefix_of(x) && x != q {
                    assert(y == q);
                    assert(x =~= q);
                }
            },
            _ => {},
        }
    }
}

/// Whether file `f` lies where rule `i` takes messages: under `<maildir>/<prefix>`
/// (compared by whole path components) when the rule has a prefix, anywhere otherwise.
pub open spec fn within_rule_prefix(cfg: Config, i: int, f: Seq<char>) -> bool {
    match prefix_of(cfg, i) {
        Some(p) => path_starts_with(f, path_join(cfg.maildir@, p)),
        None => true,
    }
}

/// Rule `i` takes, of the files its query found, exactly those under its prefix (all
/// of them when it has none), in the order found.
pub proof fn law_rule_takes_found_files_under_its_prefix(cfg: Config, i: int, found: Seq<Seq<char>>)
    ensures
        rule_matches(cfg, i, found) == found.filter(|f: Seq<char>| within_rule_prefix(cfg, i, f)),
{
    let pred = |f: Seq<char>| within_rule_prefix(cfg, i, f);
    match prefix_of(cfg, i) {
        Some(p) => {
            let q = |m: Seq<char>| path_starts_with(m, path_join(cfg.maildir@, p));
            assert(q =~= pred);
        },
        None => {
            lemma_filter_all(found, pred);
        },
    }
}

proof fn lemma_filter_all(s: Seq<Seq<char>>, pred: spec_fn(Seq<char>) -> bool)
    requires
        forall|x: Seq<char>| #[trigger] pred(x),
    ensures
        s.filter(pred) == s,
    decreases s.len(),
{
    reveal(Seq::filter);
    if s.len() > 0 {
        lemma_filter_all(s.drop_last(), pred);
        assert(s.drop_last().push(s.last()) =~= s);
    }
}

/// Whether the query of rule `i` found file `f` in a unique-mode run with answers `t`.
pub open spec fn rule_found(cfg: Config, t: Seq<Answer>, i: int, f: Seq<char>) -> bool {
    unique_answer(cfg, t, i) is Ok && unique_answer(cfg, t, i)->Ok_0.contains(f)
}

proof fn lemma_taken_files(cfg: Config, t: Seq<Answer>, i: int)
    requires
        0 <= i < cfg.rules@.len(),
        unique_answer(cfg, t, i) is Ok,
    ensures
        forall|f: Seq<char>|
            rule_found(cfg, t, i, f) && within_rule_prefix(cfg, i, f) ==> #[trigger] unique_keys(cfg, t, i).contains(
                path_normal(f),
            ),
        forall|k: Seq<char>|
            #[trigger] unique_keys(cfg, t, i).contains(k) ==> exists|f: Seq<char>|
                rule_found(cfg, t, i, f) && within_rule_prefix(cfg, i, f) && #[trigger] path_normal(f) == k,
{
    broadcast use vstd::seq_lib::group_filter_ensures;
    let found = unique_answer(cfg, t, i)->Ok_0;
    let taken = rule_matches(cfg, i, found);
    assert forall|f: Seq<char>| taken.contains(f) <==> found.contains(f) && within_rule_prefix(cfg, i, f) by {
        match prefix_of(cfg, i) {
            Some(p) => {
                let pred = |m: Seq<char>| path_starts_with(m, path_join(cfg.maildir@, p));
                if taken.contains(f) {
                    found.lemma_filter_contains_rev(pred, f);
                    let k = choose|k: int| 0 <= k < taken.len() && taken[k] == f;
                    assert(pred(taken[k]));
                }
                if found.contains(f) && within_rule_prefix(cfg, i, f) {
                    let k = choose|k: int| 0 <= k < found.len() && found[k] == f;
                    assert(found.filter(pred).contains(found[k]));
                }
            },
            None => {},
        }
    }
    assert forall|f: Seq<char>|
        rule_found(cfg, t, i, f) && within_rule_prefix(cfg, i, f) implies #[trigger] unique_keys(cfg, t, i).contains(
            path_normal(f),
        ) by {
        assert(taken.contains(f));
        let k = choose|k: int| 0 <= k < taken.len() && taken[k] == f;
        assert(keys_of(taken)[k] == path_normal(f));
    }
    assert forall|k: Seq<char>| #[trigger] unique_keys(cfg, t, i).contains(k) implies exists|f: Seq<char>|
        rule_found(cfg, t, i, f) && within_rule_prefix(cfg, i, f) && #[trigger] path_normal(f) == k by {
        let l = choose|l: int| 0 <= l < keys_of(taken).len() && keys_of(taken)[l] == k;
        let f = taken[l];
        assert(taken.contains(f));
        assert(path_normal(f) == k);
    }
}

/// In the unique mode, a run that succeeds gives each rule exactly the files its own
/// query found under its prefix (if it has one), and only those: every such file is
/// assigned to the rule's folder, and every assigned file was found so by a rule whose
/// folder it gets. Files are compared as paths.
pub proof fn law_unique_rules_take_files_under_their_prefix(cfg: Config, t: Seq<Answer>, m: Map<Seq<char>, Seq<char>>)
    requires
        unique_run(cfg, t) == Progress::Done(Ok(m)),
        stops_at_end(|u: Seq<Answer>| unique_run(cfg, u), t),
    ensures
        forall|i: int, f: Seq<char>|
            0 <= i < cfg.rules@.len() && #[trigger] rule_found(cfg, t, i, f) && within_rule_prefix(cfg, i, f)
                ==> m.contains_key(path_normal(f)) && m[path_normal(f)] == cfg.rules@[i].folder@,
        forall|k: Seq<char>|
            #[trigger] m.contains_key(k) ==> exists|i: int, f: Seq<char>|
                0 <= i < cfg.rules@.len() && #[trigger] rule_found(cfg, t, i, f) && within_rule_prefix(cfg, i, f)
                    && path_normal(f) == k && m[k] == cfg.rules@[i].folder@,
{
    law_unique_success(cfg, t, m);
    let pc = checked_pairs(cfg).len() as int;
    assert forall|i: int| 0 <= i < cfg.rules@.len() implies #[trigger] unique_answer(cfg, t, i) is Ok by {
        assert(t[pc + i] is Ok);
    }
    assert forall|i: int, f: Seq<char>|
        0 <= i < cfg.rules@.len() && #[trigger] rule_found(cfg, t, i, f) && within_rule_prefix(cfg, i, f)
            implies m.contains_key(path_normal(f)) && m[path_normal(f)] == cfg.rules@[i].folder@ by {
        lemma_taken_files(cfg, t, i);
        assert(unique_keys(cfg, t, i).contains(path_normal(f)));
    }
    assert forall|k: Seq<char>| #[trigger] m.contains_key(k) implies exists|i: int, f: Seq<char>|
        0 <= i < cfg.rules@.len() && #[trigger] rule_found(cfg, t, i, f) && within_rule_prefix(cfg, i, f)
            && path_normal(f) == k && m[k] == cfg.rules@[i].folder@ by {
        let i = choose|i: int| 0 <= i < cfg.rules@.len() && #[trigger] unique_keys(cfg, t, i).contains(k);
        lemma_taken_files(cfg, t, i);
        let f = choose|f: Seq<char>|
            rule_found(cfg, t, i, f) && within_rule_prefix(cfg, i, f) && #[trigger] path_normal(f) == k;
        assert(m[k] == cfg.rules@[i].folder@);
    }
}

/// The files rule `i` takes in a unique-mode run with answers `t`, as compared: those
/// its query found under its prefix.
pub open spec fn taken_keys(cfg: Config, t: Seq<Answer>, i: int) -> Seq<Seq<char>> {
    keys_of(unique_answer(cfg, t, i)->Ok_0.filter(|f: Seq<char>| within_rule_prefix(cfg, i, f)))
}

/// Whether overlap check `k` of a unique-mode run with answers `t` was answered and
/// found no message within its scope.
pub open spec fn check_clear(cfg: Config, t: Seq<Answer>, k: int) -> bool {
    &&& t[k] is Ok
    &&& forall|f: Seq<char>|
        #[trigger] t[k]->Ok_0.contains(f) ==> match pair_scope(cfg, checked_pairs(cfg)[k].0, checked_pairs(cfg)[k].1) {
            Some(Some(s)) => !path_starts_with(f, s),
            _ => false,
        }
}

/// The folders of the rules, in order.
pub open spec fn rule_folders(cfg: Config) -> Seq<Seq<char>> {
    Seq::new(cfg.rules@.len(), |j: int| cfg.rules@[j].folder@)
}

/// The files each rule takes, in order of the rules.
pub open spec fn all_taken(cfg: Config, t: Seq<Answer>) -> Seq<Seq<Seq<char>>> {
    Seq::new(cfg.rules@.len(), |j: int| taken_keys(cfg, t, j))
}

proof fn lemma_step(cfg: Config, t: Seq<Answer>, k: int)
    requires
        0 <= k < t.len(),
    ensures
        unique_run(cfg, t.take(k + 1)) == unique_feed(cfg, unique_run(cfg, t.take(k)), k, t[k]),
{
    assert(t.take(k + 1).drop_last() =~= t.take(k));
}

proof fn lemma_clear_checks(cfg: Config, t: Seq<Answer>, k: int)
    requires
        cfg.rules@.len() > 0,
        t.len() == checked_pairs(cfg).len() + cfg.rules@.len(),
        forall|j: int| 0 <= j < checked_pairs(cfg).len() ==> #[trigger] check_clear(cfg, t, j),
        0 <= k <= checked_pairs(cfg).len(),
    ensures
        unique_run(cfg, t.take(k)) == Progress::Running(0, Map::<Seq<char>, Seq<char>>::empty()),
    decreases k,
{
    broadcast use vstd::seq_lib::group_filter_ensures;
    if k == 0 {
        assert(t.take(0).len() == 0);
    } else {
        lemma_clear_checks(cfg, t, k - 1);
        lemma_step(cfg, t, k - 1);
        assert(check_clear(cfg, t, k - 1));
        let found = t[k - 1]->Ok_0;
        let pair = checked_pairs(cfg)[k - 1];
        match pair_scope(cfg, pair.0, pair.1) {
            Some(Some(s)) => {
                let pred = |m: Seq<char>| path_starts_with(m, s);
                assert forall|l: int| 0 <= l < found.len() implies !pred(found[l]) by {
                    assert(found.contains(found[l]));
                }
                assert(found.all(|x: Seq<char>| !pred(x)));
                found.lemma_all_neg_filter_empty(pred);
                assert(pair_hits(cfg, pair, found) == 0);
            },
            _ => {
                if found.len() > 0 {
                    assert(found.contains(found[0]));
                }
                assert(pair_hits(cfg, pair, found) == 0);
            },
        }
    }
}

proof fn lemma_clear_rules(cfg: Config, t: Seq<Answer>, i: int)
    requires
        cfg.rules@.len() > 0,
        t.len() == checked_pairs(cfg).len() + cfg.rules@.len(),
        forall|j: int| 0 <= j < checked_pairs(cfg).len() ==> #[trigger] check_clear(cfg, t, j),
        forall|j: int| 0 <= j < cfg.rules@.len() ==> (#[trigger] unique_answer(cfg, t, j)) is Ok,
        forall|j: int| 0 <= j < cfg.rules@.len() ==> (#[trigger] taken_keys(cfg, t, j)).no_duplicates(),
        forall|a: int, b: int, k: Seq<char>|
            0 <= a < b < cfg.rules@.len() && #[trigger] taken_keys(cfg, t, a).contains(k) ==> !#[trigger] taken_keys(
                cfg,
                t,
                b,
            ).contains(k),
        0 <= i <= cfg.rules@.len(),
    ensures
        unique_run(cfg, t.take(checked_pairs(cfg).len() + i)) == if i == cfg.rules@.len() {
            Progress::Done(Ok(assigned(all_taken(cfg, t), rule_folders(cfg), i)))
        } else {
            Progress::Running(0, assigned(all_taken(cfg, t), rule_folders(cfg), i))
        },
    decreases i,
{
    let pc = checked_pairs(cfg).len() as int;
    let founds = all_taken(cfg, t);
    let folders = rule_folders(cfg);
    if i == 0 {
        lemma_clear_checks(cfg, t, pc);
        assert(assigned(founds, folders, 0) =~= Map::<Seq<char>, Seq<char>>::empty());
    } else {
        lemma_clear_rules(cfg, t, i - 1);
        let k = pc + i - 1;
        lemma_step(cfg, t, k);
        let before = assigned(founds, folders, i - 1);
        assert(unique_answer(cfg, t, i - 1) == t[k]);
        let found = t[k]->Ok_0;
        law_rule_takes_found_files_under_its_prefix(cfg, i - 1, found);
        let keys = taken_keys(cfg, t, i - 1);
        assert(keys_of(rule_matches(cfg, i - 1, found)) == keys);
        lemma_insert_unique_ok(before, keys, folders[i - 1]);
        lemma_assigned(founds, folders, i - 1);
        assert forall|l: int| 0 <= l < keys.len() implies !before.contains_key(#[trigger] keys[l]) by {
            if before.contains_key(keys[l]) {
                let j = choose|j: int| 0 <= j < i - 1 && #[trigger] founds[j].contains(keys[l]);
                assert(founds[j] == taken_keys(cfg, t, j));
                assert(keys.contains(keys[l]));
            }
        }
        assert(founds[i - 1] == keys);
        assert(assigned(founds, folders, i) == insert_keys(before, keys, folders[i - 1]));
    }
}

/// In the unique mode, a run succeeds when nothing stands in its way: every query was
/// answered, no overlap check found a message within its scope, and no file (compared
/// as a path) was taken twice, by one rule or by two, where a rule takes the files its
/// query found under its prefix. Every shorter run is still under way.
pub proof fn law_unique_succeeds_without_conflicts(cfg: Config, t: Seq<Answer>)
    requires
        t.len() == checked_pairs(cfg).len() + cfg.rules@.len(),
        forall|k: int| 0 <= k < checked_pairs(cfg).len() ==> #[trigger] check_clear(cfg, t, k),
        forall|i: int| 0 <= i < cfg.rules@.len() ==> (#[trigger] unique_answer(cfg, t, i)) is Ok,
        forall|i: int| 0 <= i < cfg.rules@.len() ==> (#[trigger] taken_keys(cfg, t, i)).no_duplicates(),
        forall|i: int, j: int, k: Seq<char>|
            0 <= i < j < cfg.rules@.len() && #[trigger] taken_keys(cfg, t, i).contains(k) ==> !#[trigger] taken_keys(
                cfg,
                t,
                j,
            ).contains(k),
    ensures
        unique_run(cfg, t) is Done,
        unique_run(cfg, t)->Done_0 is Ok,
        stops_at_end(|u: Seq<Answer>| unique_run(cfg, u), t),
{
    let n = cfg.rules@.len() as int;
    let pc = checked_pairs(cfg).len() as int;
    if n == 0 {
        assert(checked_pairs(cfg).len() == 0);
        assert(t =~= Seq::<Answer>::empty());
        return;
    }
    lemma_clear_rules(cfg, t, n);
    assert(t.take(pc + n) =~= t);
    assert forall|k: int| 0 <= k < t.len() implies (#[trigger] unique_run(cfg, t.take(k))) is Running by {
        if k <= pc {
            lemma_clear_checks(cfg, t, k);
        } else {
            lemma_clear_rules(cfg, t, k - pc);
        }
    }
}

} // verus!
