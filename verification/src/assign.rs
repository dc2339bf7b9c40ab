//! Assigning the messages that a rule found to the rule's folder.

use vstd::prelude::*;
use crate::actions::{add_spellings, Actions};
use crate::paths::{keys_of, path_normal, path_starts_with, starts_with};
use crate::repo::names;

verus! {

/// The messages of `found` that lie under `prefix`, in order.
pub open spec fn under_prefix(found: Seq<Seq<char>>, prefix: Seq<char>) -> Seq<Seq<char>> {
    found.filter(|m: Seq<char>| path_starts_with(m, prefix))
}

/// Keeps the messages whose paths start with the path `prefix` (whole components).
pub fn filter_messages_with_prefix(messages: &[String], prefix: &str) -> (r: Vec<String>)
    ensures
        names(r@) == under_prefix(names(messages@), prefix@),
{
    let ghost pred = |m: Seq<char>| path_starts_with(m, prefix@);
    let ghost all = names(messages@);
    let mut r: Vec<String> = Vec::new();
    let mut i: usize = 0;
    while i < messages.len()
        invariant
            i <= messages@.len(),
            all == names(messages@),
            pred == (|m: Seq<char>| path_starts_with(m, prefix@)),
            names(r@) == all.take(i as int).filter(pred),
        decreases messages@.len() - i,
    {
        proof {
            reveal(Seq::filter);
            assert(all.take(i + 1).drop_last() =~= all.take(i as int));
            assert(all.take(i + 1).last() == messages@[i as int]@);
        }
        if starts_with(messages[i].as_str(), prefix) {
            let m = messages[i].clone();
            r.push(m);
            proof {
                assert(names(r@) =~= names(r@.drop_last()).push(m@));
            }
        }
        i = i + 1;
    }
    assert(all.take(messages@.len() as int) =~= all);
    r
}

/// Assigns each of the files `keys` (compared by these texts), in order, to `folder`
/// in `m`, failing with the folder a file already had when it is assigned a second time.
pub open spec fn insert_unique_keys(
    m: Map<Seq<char>, Seq<char>>,
    keys: Seq<Seq<char>>,
    folder: Seq<char>,
) -> Result<Map<Seq<char>, Seq<char>>, Seq<char>>
    decreases keys.len(),
{
    if keys.len() == 0 {
        Ok(m)
    } else {
        match insert_unique_keys(m, keys.drop_last(), folder) {
            Err(previous) => Err(previous),
            Ok(m2) => if m2.contains_key(keys.last()) {
                Err(m2[keys.last()])
            } else {
                Ok(m2.insert(keys.last(), folder))
            },
        }
    }
}

/// Assigns each of the files `found`, in order, to `folder` in `m`, comparing them
/// as paths, failing with the folder a file already had when it is assigned a second time.
pub open spec fn insert_unique(
    m: Map<Seq<char>, Seq<char>>,
    found: Seq<Seq<char>>,
    folder: Seq<char>,
) -> Result<Map<Seq<char>, Seq<char>>, Seq<char>> {
    insert_unique_keys(m, keys_of(found), folder)
}

/// Once the assignment of a prefix of `keys` failed, the assignment of all of it fails the same way.
pub proof fn lemma_insert_unique_failure_stays(
    m: Map<Seq<char>, Seq<char>>,
    keys: Seq<Seq<char>>,
    folder: Seq<char>,
    j: int,
)
    requires
        0 <= j <= keys.len(),
        insert_unique_keys(m, keys.take(j), folder) is Err,
    ensures
        insert_unique_keys(m, keys, folder) == insert_unique_keys(m, keys.take(j), folder),
    decreases keys.len() - j,
{
    if j == keys.len() {
        assert(keys.take(j) =~= keys);
    } else {
        assert(keys.take(j + 1).drop_last() =~= keys.take(j));
        lemma_insert_unique_failure_stays(m, keys, folder, j + 1);
    }
}

/// Assigns each message to `folder`; fails with the folder of the first message
/// that already has one (a message found twice, in any spelling, fails the second time).
pub fn assign_unique(actions: &mut Actions, messages: Vec<String>, folder: &String) -> (r: Result<(), String>)
    ensures
        match insert_unique(old(actions)@, names(messages@), folder@) {
            Ok(m) => r is Ok && final(actions)@ == m,
            Err(previous) => r matches Err(p) && p@ == previous,
        },
        r is Ok ==> final(actions).spellings() == add_spellings(old(actions).spellings(), names(messages@)),
{
    let ghost start = actions@;
    let ghost start_spellings = actions.spellings();
    let ghost all = keys_of(names(messages@));
    let ghost spelled = names(messages@);
    let mut i: usize = 0;
    assert(spelled.take(0) =~= Seq::<Seq<char>>::empty());
    while i < messages.len()
        invariant
            i <= messages@.len(),
            all == keys_of(names(messages@)),
            spelled == names(messages@),
            start == old(actions)@,
            start_spellings == old(actions).spellings(),
            insert_unique_keys(start, all.take(i as int), folder@) == Ok::<Map<Seq<char>, Seq<char>>, Seq<char>>(actions@),
            actions.spellings() == add_spellings(start_spellings, spelled.take(i as int)),
        decreases messages@.len() - i,
    {
        let name = messages[i].clone();
        proof {
            assert(spelled.take(i + 1).drop_last() =~= spelled.take(i as int));
            assert(spelled.take(i + 1).last() == name@);
            assert(all.take(i + 1).drop_last() =~= all.take(i as int));
            assert(all.take(i + 1).last() == path_normal(name@));
        }
        let ghost before = actions@;
        match actions.insert(name, folder.clone()) {
            Some(previous) => {
                proof {
                    assert(insert_unique_keys(start, all.take(i + 1), folder@) == Err::<Map<Seq<char>, Seq<char>>, Seq<char>>(before[path_normal(name@)]));
                    lemma_insert_unique_failure_stays(start, all, folder@, i + 1);
                }
                return Err(previous);
            },
            None => {},
        }
        i = i + 1;
    }
    assert(all.take(messages@.len() as int) =~= all);
    assert(spelled.take(messages@.len() as int) =~= spelled);
    Ok(())
}

/// Assigns each of the files `keys` (compared by these texts) to `folder` in `m`,
/// replacing earlier assignments.
pub open spec fn insert_keys(
    m: Map<Seq<char>, Seq<char>>,
    keys: Seq<Seq<char>>,
    folder: Seq<char>,
) -> Map<Seq<char>, Seq<char>> {
    m.union_prefer_right(keys.to_set().mk_map(|k: Seq<char>| folder))
}

/// Assigns each of the files `found` to `folder` in `m`, comparing them as paths,
/// replacing earlier assignments.
pub open spec fn insert_all(
    m: Map<Seq<char>, Seq<char>>,
    found: Seq<Seq<char>>,
    folder: Seq<char>,
) -> Map<Seq<char>, Seq<char>> {
    insert_keys(m, keys_of(found), folder)
}

/// Assigns each message to `folder`, replacing any folder it had.
pub fn assign_all(actions: &mut Actions, messages: Vec<String>, folder: &String)
    ensures
        final(actions)@ == insert_all(old(actions)@, names(messages@), folder@),
        final(actions).spellings() == add_spellings(old(actions).spellings(), names(messages@)),
{
    let ghost start = actions@;
    let ghost start_spellings = actions.spellings();
    let ghost all = keys_of(names(messages@));
    let ghost spelled = names(messages@);
    let mut i: usize = 0;
    assert(insert_keys(start, all.take(0), folder@) =~= start);
    assert(spelled.take(0) =~= Seq::<Seq<char>>::empty());
    while i < messages.len()
        invariant
            i <= messages@.len(),
            all == keys_of(names(messages@)),
            spelled == names(messages@),
            actions@ == insert_keys(start, all.take(i as int), folder@),
            actions.spellings() == add_spellings(start_spellings, spelled.take(i as int)),
        decreases messages@.len() - i,
    {
        let name = messages[i].clone();
        let ghost before = actions@;
        actions.insert(name, folder.clone());
        proof {
            assert(spelled.take(i + 1).drop_last() =~= spelled.take(i as int));
            assert(spelled.take(i + 1).last() == name@);
            let done = all.take(i as int);
            let next = all.take(i + 1);
            let key = path_normal(name@);
            assert(next =~= done.push(key));
            assert forall|k: Seq<char>| next.to_set().contains(k) <==> done.to_set().insert(key).contains(k) by {
                if next.contains(k) {
                    let j = choose|j: int| 0 <= j < next.len() && next[j] == k;
                    if j < done.len() {
                        assert(done[j] == k);
                    }
                }
                if done.contains(k) {
                    let j = choose|j: int| 0 <= j < done.len() && done[j] == k;
                    assert(next[j] == k);
                }
                assert(next[i as int] == key);
            }
            assert(next.to_set() =~= done.to_set().insert(key));
            assert(actions@ =~= insert_keys(start, next, folder@));
        }
        i = i + 1;
    }
    assert(all.take(messages@.len() as int) =~= all);
    assert(spelled.take(messages@.len() as int) =~= spelled);
}

} // verus!
