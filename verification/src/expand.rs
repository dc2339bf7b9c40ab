//! Shell-like expansion of configured paths: `~` to the home directory and `$NAME`
//! to the value of an environment variable, as `shellexpand` performs it.

use vstd::prelude::*;

verus! {

/// What `shellexpand::full_with_context` gives for `s` (the expanded text, or the text
/// of its error) with `home` as the home directory and the environment variables
/// `vars`, looked up by `lookup_variable`. It is a function of these alone where `s`
/// is `platform_neutral`; elsewhere a backslash may follow the `~`, which Windows
/// treats as a separator and other platforms do not.
pub uninterp spec fn shell_expansion(
    s: Seq<char>,
    home: Option<Seq<char>>,
    vars: Seq<(Seq<char>, Seq<char>)>,
) -> Result<Seq<char>, Seq<char>>;

/// Text whose leading `~` expansion replaces by the home directory: the `~` alone or
/// followed by `/`.
pub open spec fn home_led(s: Seq<char>) -> bool {
    &&& s.len() > 0
    &&& s[0] == '~'
    &&& (s.len() == 1 || s[1] == '/')
}

/// Text led by `~` and a backslash, whose `~` is expanded on Windows only.
pub open spec fn backslash_led(s: Seq<char>) -> bool {
    s.len() > 1 && s[0] == '~' && s[1] == '\\'
}

/// Text whose expansion is the same on every platform: it does not begin with `~`
/// followed by a backslash or by a `$` (which could give a backslash).
pub open spec fn platform_neutral(s: Seq<char>) -> bool {
    !(s.len() > 1 && s[0] == '~' && (s[1] == '\\' || s[1] == '$'))
}

/// The expansion of text `s` without `$`: the home directory, when there is one, in
/// place of a leading `~` that stands alone or before `/`; otherwise `s` as it is.
pub open spec fn tilde_expansion(s: Seq<char>, home: Option<Seq<char>>) -> Seq<char> {
    match home {
        Some(h) => if home_led(s) {
            h + s.skip(1)
        } else {
            s
        },
        None => s,
    }
}

/// The text of a result of expansion, or of its error.
pub open spec fn text_result(r: Result<String, String>) -> Result<Seq<char>, Seq<char>> {
    match r {
        Ok(x) => Ok(x@),
        Err(e) => Err(e@),
    }
}

/// What holds of `r` as the result of expanding `s` with the home directory `home` and
/// the variables `vars`, whatever the platform: it is `shell_expansion(s, home, vars)`
/// where `s` is `platform_neutral`; text without `$` is never refused, and, unless a
/// backslash follows its `~`, expands as `tilde_expansion` says.
pub open spec fn expansion_of(
    s: Seq<char>,
    home: Option<Seq<char>>,
    vars: Seq<(Seq<char>, Seq<char>)>,
    r: Result<Seq<char>, Seq<char>>,
) -> bool {
    &&& platform_neutral(s) ==> shell_expansion(s, home, vars) == r
    &&& !s.contains('$') ==> r is Ok
    &&& !s.contains('$') && !backslash_led(s) ==> r == Ok::<Seq<char>, Seq<char>>(tilde_expansion(s, home))
}

/// The value of the variable `name` in `vars`: that of its first entry, if any.
pub open spec fn variable_value(vars: Seq<(Seq<char>, Seq<char>)>, name: Seq<char>) -> Option<Seq<char>>
    decreases vars.len(),
{
    if vars.len() == 0 {
        None
    } else if vars[0].0 == name {
        Some(vars[0].1)
    } else {
        variable_value(vars.drop_first(), name)
    }
}

/// The text of the error for a variable that is not set.
pub open spec fn unset_variable_message() -> Seq<char> {
    "environment variable not found"@
}

/// Looks the variable `name` up in `vars`, in the form expansion asks for: its value,
/// or, when it is not set, the error "environment variable not found".
pub fn lookup_variable(vars: &Vec<(String, String)>, name: &str) -> (r: Result<Option<String>, String>)
    ensures
        match variable_value(vars.deep_view(), name@) {
            Some(v) => r matches Ok(Some(x)) && x@ == v,
            None => r matches Err(e) && e@ == unset_variable_message(),
        },
{
    let key = String::from_str(name);
    let ghost all = vars.deep_view();
    let mut i: usize = 0;
    assert(all.skip(0) =~= all);
    while i < vars.len()
        invariant
            i <= vars@.len(),
            all == vars.deep_view(),
            key@ == name@,
            variable_value(all, name@) == variable_value(all.skip(i as int), name@),
        decreases vars@.len() - i,
    {
        proof {
            assert(all.skip(i as int).drop_first() =~= all.skip(i + 1));
            assert(all.skip(i as int)[0] == all[i as int]);
            assert(all[i as int] == (vars@[i as int].0@, vars@[i as int].1@));
        }
        if vars[i].0 == key {
            return Ok(Some(vars[i].1.clone()));
        }
        i = i + 1;
    }
    assert(all.skip(i as int).len() == 0);
    Err(String::from_str("environment variable not found"))
}

/// `shellexpand::full_with_context` on `s`, with `home` as the home directory and the
/// variables `vars` looked up by `lookup_variable`; an error is given by its text.
/// For `platform_neutral` text the contract names the result `shell_expansion(s, home,
/// vars)`. Besides, it claims only what the crate's source plainly shows: text without
/// `$` is never refused, and comes back as `tilde_expansion` gives it (what a leading
/// `~` before a backslash gives differs between platforms and is left unsaid).
#[verifier::external_body]
pub(crate) fn expand_full(s: &str, home: &Option<String>, vars: &Vec<(String, String)>) -> (r: Result<String, String>)
    ensures
        platform_neutral(s@) ==> match r {
            Ok(x) => shell_expansion(s@, home.deep_view(), vars.deep_view()) == Ok::<Seq<char>, Seq<char>>(x@),
            Err(e) => shell_expansion(s@, home.deep_view(), vars.deep_view()) == Err::<Seq<char>, Seq<char>>(e@),
        },
        !s@.contains('$') ==> r is Ok,
        match r {
            Ok(x) => !s@.contains('$') && !backslash_led(s@) ==> x@ == tilde_expansion(s@, home.deep_view()),
            Err(_) => true,
        },
{
    match shellexpand::full_with_context(s, || home.as_ref(), |v| lookup_variable(vars, v)) {
        Ok(c) => Ok(c.into_owned()),
        Err(e) => Err(e.to_string()),
    }
}

} // verus!
