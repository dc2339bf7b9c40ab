//! Where a message file is moved: the destination path, and the fresh file names
//! given when renaming.

use vstd::prelude::*;
use vstd::string::*;
use crate::paths::{file_name, join, path_file_name, path_join};
use crate::text::{find_last, last_index_of};

verus! {

/// A lower-case hexadecimal digit.
pub open spec fn is_lower_hex(c: char) -> bool {
    ('0' <= c && c <= '9') || ('a' <= c && c <= 'f')
}

/// `s` is a random (version 4) UUID in lower-case hyphenated form,
/// `xxxxxxxx-xxxx-4xxx-yxxx-xxxxxxxxxxxx` with `y` one of `8`, `9`, `a`, `b`.
pub open spec fn is_v4_uuid_text(s: Seq<char>) -> bool {
    &&& s.len() == 36
    &&& forall|i: int|
        0 <= i < 36 ==> if i == 8 || i == 13 || i == 18 || i == 23 {
            #[trigger] s[i] == '-'
        } else {
            is_lower_hex(s[i])
        }
    &&& s[14] == '4'
    &&& s[19] == '8' || s[19] == '9' || s[19] == 'a' || s[19] == 'b'
}

/// `uuid::Uuid::new_v4().to_string()`: a fresh random UUID in hyphenated form.
/// The contract claims only the text's form, which the uuid crate fixes: the random
/// bits are masked to version 4 and the RFC variant, and formatted as 36 lower-case
/// hyphenated hexadecimal characters. Which UUID comes out is left open.
#[verifier::external_body]
fn fresh_id() -> (s: String)
    ensures
        is_v4_uuid_text(s@),
{
    uuid::Uuid::new_v4().to_string()
}

/// The flags part of a Maildir file name, with its separator: from the last `:` on,
/// or nothing when the name has no `:`.
pub open spec fn flags_suffix(name: Seq<char>) -> Seq<char> {
    let k = last_index_of(name, ':');
    if k < 0 {
        Seq::<char>::empty()
    } else {
        ":"@ + name.subrange(k + 1, name.len() as int)
    }
}

/// A new file name made of `id` and the flags part of `basename`.
pub fn name_with_flags(id: String, basename: &str) -> (s: String)
    ensures
        s@ == id@ + flags_suffix(basename@),
{
    let mut result = id;
    let len = basename.unicode_len();
    match find_last(basename, ':') {
        Some(k) => {
            proof {
                crate::text::lemma_last_index_of(basename@, ':');
            }
            let flags = basename.substring_char(k + 1, len);
            result.append(":");
            result.append(flags);
        },
        None => {
            assert(result@ + Seq::<char>::empty() =~= result@);
        },
    }
    result
}

/// Constructs a new file name, composed of a made-up ID and the flags part of the
/// given file name.
pub fn get_new_name(basename: &str) -> (s: String)
    ensures
        s@.len() >= 36,
        is_v4_uuid_text(s@.subrange(0, 36)),
        s@ == s@.subrange(0, 36) + flags_suffix(basename@),
{
    let id = fresh_id();
    let ghost id_text = id@;
    let s = name_with_flags(id, basename);
    assert(s@.subrange(0, 36) =~= id_text);
    s
}

/// Why a move cannot be planned.
pub enum ActionError {
    /// The source path has no file name.
    NoFileName { path: String },
}

impl ActionError {
    /// The text of the error, as it is reported to the user.
    pub open spec fn spec_message(self) -> Seq<char> {
        match self {
            ActionError::NoFileName { path } => "Failed to get filename from "@ + path@,
        }
    }

    /// The text of the error, as it is reported to the user.
    pub fn message(&self) -> (s: String)
        ensures
            s@ == self.spec_message(),
    {
        match self {
            ActionError::NoFileName { path } => {
                let mut s = String::from_str("Failed to get filename from ");
                s.append(path.as_str());
                s
            },
        }
    }
}

/// The `cur` directory of `folder` inside the mail directory.
pub open spec fn cur_dir(maildir: Seq<char>, folder: Seq<char>) -> Seq<char> {
    path_join(path_join(maildir, folder), "cur"@)
}

/// Where the file `src` assigned to `folder` is moved: into the folder's `cur`
/// directory inside `maildir`, under its own name, or under a fresh name that keeps
/// its flags when `rename` is set.
pub fn destination(maildir: &str, rename: bool, src: &str, folder: &str) -> (r: Result<String, ActionError>)
    ensures
        match path_file_name(src@) {
            None => r matches Err(ActionError::NoFileName { path }) && path@ == src@,
            Some(basename) => r matches Ok(dest) && if rename {
                exists|name: Seq<char>|
                    #![trigger path_join(cur_dir(maildir@, folder@), name)]
                    name.len() >= 36 && is_v4_uuid_text(name.subrange(0, 36)) && name
                        == name.subrange(0, 36) + flags_suffix(basename) && dest@ == path_join(
                        cur_dir(maildir@, folder@),
                        name,
                    )
            } else {
                dest@ == path_join(cur_dir(maildir@, folder@), basename)
            },
        },
{
    let basename = match file_name(src) {
        Some(b) => b,
        None => {
            return Err(ActionError::NoFileName { path: src.to_owned() });
        },
    };
    let folder_dir = join(maildir, folder);
    let dir = join(folder_dir.as_str(), "cur");
    let name = if rename {
        get_new_name(basename.as_str())
    } else {
        basename
    };
    let dest = join(dir.as_str(), name.as_str());
    proof {
        if rename {
            assert(path_join(cur_dir(maildir@, folder@), name@) == dest@);
        }
    }
    Ok(dest)
}

} // verus!
