//! The notmuch queries that the rules are turned into.

use vstd::prelude::*;
use crate::text::{decimal, u32_to_decimal};

verus! {

/// The clause that restricts a query to messages at most `max_age_days` days old.
pub open spec fn date_clause(max_age_days: Option<u32>) -> Seq<char> {
    match max_age_days {
        Some(days) => " AND date:\""@ + decimal(days as nat) + "_days\".."@,
        None => Seq::<char>::empty(),
    }
}

/// The query for the messages a rule moves: those it matches outside its own folder.
pub open spec fn rule_query_text(folder: Seq<char>, query: Seq<char>, max_age_days: Option<u32>) -> Seq<char> {
    "NOT folder:\""@ + folder + "\" AND ("@ + query + ")"@ + date_clause(max_age_days)
}

/// The query for the messages that two rules both match.
pub open spec fn overlap_query_text(lhs: Seq<char>, rhs: Seq<char>, max_age_days: Option<u32>) -> Seq<char> {
    "("@ + lhs + ") AND ("@ + rhs + ")"@ + date_clause(max_age_days)
}

/// The exclusion of the messages that the given (earlier) queries match:
/// `NOT (q0) AND NOT (q1) AND ...`, empty when there are none.
pub open spec fn exclusion(queries: Seq<Seq<char>>) -> Seq<char>
    decreases queries.len(),
{
    if queries.len() == 0 {
        Seq::<char>::empty()
    } else {
        let earlier = exclusion(queries.drop_last());
        let term = "NOT ("@ + queries.last() + ")"@;
        if earlier.len() == 0 {
            term
        } else {
            earlier + " AND "@ + term
        }
    }
}

/// The query of a rule when the first matching rule wins: outside its folder,
/// matching its query, and matched by none of the earlier rules (`exclude`).
pub open spec fn first_query_text(
    folder: Seq<char>,
    query: Seq<char>,
    exclude: Seq<char>,
    max_age_days: Option<u32>,
) -> Seq<char> {
    "(NOT folder:"@ + folder + ") AND ("@ + query + ")"@ + (if exclude.len() == 0 {
        Seq::<char>::empty()
    } else {
        " AND ("@ + exclude + ")"@
    }) + date_clause(max_age_days)
}

/// The query of a rule when every rule is applied in turn.
pub open spec fn all_query_text(query: Seq<char>, max_age_days: Option<u32>) -> Seq<char> {
    "("@ + query + ")"@ + date_clause(max_age_days)
}

/// `(q0) AND (q1) AND ... AND ` for the given queries.
pub open spec fn conjunction_prefix(queries: Seq<Seq<char>>) -> Seq<char>
    decreases queries.len(),
{
    if queries.len() == 0 {
        Seq::<char>::empty()
    } else {
        conjunction_prefix(queries.drop_last()) + "("@ + queries.last() + ") AND "@
    }
}

/// The query for the messages that all the (at least one) given queries match.
pub open spec fn conjunction_text(queries: Seq<Seq<char>>, max_age_days: Option<u32>) -> Seq<char> {
    conjunction_prefix(queries.drop_last()) + "("@ + queries.last() + ")"@ + date_clause(
        max_age_days,
    )
}

/// Appends the age restriction, if any, to `query`.
pub fn append_date_clause(query: &mut String, max_age_days: Option<u32>)
    ensures
        final(query)@ == old(query)@ + date_clause(max_age_days),
{
    match max_age_days {
        Some(days) => {
            let digits = u32_to_decimal(days);
            query.append(" AND date:\"");
            query.append(digits.as_str());
            query.append("_days\"..");
        },
        None => {
            assert(old(query)@ + Seq::<char>::empty() =~= old(query)@);
        },
    }
}

/// `NOT folder:"<folder>" AND (<query>)`, restricted by age when asked.
pub fn rule_query(folder: &str, query: &str, max_age_days: Option<u32>) -> (q: String)
    ensures
        q@ == rule_query_text(folder@, query@, max_age_days),
{
    let mut q = String::from_str("NOT folder:\"");
    q.append(folder);
    q.append("\" AND (");
    q.append(query);
    q.append(")");
    append_date_clause(&mut q, max_age_days);
    q
}

/// `(<lhs>) AND (<rhs>)`, restricted by age when asked.
pub fn overlap_query(lhs: &str, rhs: &str, max_age_days: Option<u32>) -> (q: String)
    ensures
        q@ == overlap_query_text(lhs@, rhs@, max_age_days),
{
    let mut q = String::from_str("(");
    q.append(lhs);
    q.append(") AND (");
    q.append(rhs);
    q.append(")");
    append_date_clause(&mut q, max_age_days);
    q
}

/// `(NOT folder:<folder>) AND (<query>)[ AND (<exclude>)]`, restricted by age when asked.
pub fn first_query(folder: &str, query: &str, exclude: &str, max_age_days: Option<u32>) -> (q: String)
    ensures
        q@ == first_query_text(folder@, query@, exclude@, max_age_days),
{
    let mut q = String::from_str("(NOT folder:");
    q.append(folder);
    q.append(") AND (");
    q.append(query);
    q.append(")");
    if !exclude.is_empty() {
        q.append(" AND (");
        q.append(exclude);
        q.append(")");
    } else {
        assert(q@ + Seq::<char>::empty() =~= q@);
    }
    append_date_clause(&mut q, max_age_days);
    q
}

/// `(<query>)`, restricted by age when asked.
pub fn all_query(query: &str, max_age_days: Option<u32>) -> (q: String)
    ensures
        q@ == all_query_text(query@, max_age_days),
{
    let mut q = String::from_str("(");
    q.append(query);
    q.append(")");
    append_date_clause(&mut q, max_age_days);
    q
}

/// Extends an exclusion by one more query, as `exclusion` does.
pub fn extend_exclusion(exclude: &mut String, query: &str)
    ensures
        forall|earlier: Seq<Seq<char>>|
            exclusion(earlier) == old(exclude)@ ==> #[trigger] exclusion(earlier.push(query@))
                == final(exclude)@,
{
    let ghost before = exclude@;
    if !exclude.as_str().is_empty() {
        exclude.append(" AND ");
    }
    exclude.append("NOT (");
    exclude.append(query);
    exclude.append(")");
    proof {
        assert forall|earlier: Seq<Seq<char>>|
            exclusion(earlier) == before implies #[trigger] exclusion(earlier.push(query@))
                == exclude@ by {
            assert(earlier.push(query@).drop_last() =~= earlier);
            if before.len() == 0 {
                assert(exclude@ =~= "NOT ("@ + query@ + ")"@);
            } else {
                assert(exclude@ =~= before + " AND "@ + ("NOT ("@ + query@ + ")"@));
            }
        }
    }
}

} // verus!
