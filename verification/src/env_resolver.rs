//! The environment spawned dev servers get on top of the inherited one: the
//! PATH of the user's login shell (apps launched from the menu bar only get
//! a minimal PATH), then the project's own variables.
//!
//! Running the login shell happens outside the library; reading its answer
//! and assembling the overrides happen here.

use crate::project_store::env_rows;
use crate::text::{to_owned_string, trim_ws, trim_text, utf8_strict};
use vstd::prelude::*;

verus! {

/// The overrides for resolved PATH `base_path` and project variables
/// `extra`: PATH first (when known), then the variables in order.
pub open spec fn overrides_of(base_path: Option<Seq<char>>, extra: Seq<(Seq<char>, Seq<char>)>) -> Seq<(Seq<char>, Seq<char>)> {
    match base_path {
        Some(p) => seq![("PATH"@, p)] + extra,
        None => extra,
    }
}

/// The overrides hold every project variable: PATH first when it is known,
/// then each of the `extra` rows, unchanged and in order, and nothing else.
pub proof fn law_overrides_keep_every_variable(base_path: Option<Seq<char>>, extra: Seq<(Seq<char>, Seq<char>)>)
    ensures
        ({
            let r = overrides_of(base_path, extra);
            let off: int = if base_path is Some { 1 } else { 0 };
            &&& r.len() == extra.len() + off
            &&& forall|k: int| 0 <= k < extra.len() ==> r[k + off] == #[trigger] extra[k]
            &&& base_path matches Some(p) ==> r[0] == ("PATH"@, p)
        }),
{
}

pub fn merge_overrides(base_path: Option<&str>, extra: &Vec<(String, String)>) -> (r: Vec<(String, String)>)
    ensures
        r@.len() == extra@.len() + (if base_path is Some { 1int } else { 0int }),
        forall|k: int| 0 <= k < extra@.len() ==> {
            let off: int = if base_path is Some { 1 } else { 0 };
            &&& r@[k + off].0@ == (#[trigger] extra@[k]).0@
            &&& r@[k + off].1@ == extra@[k].1@
        },
        base_path matches Some(p) ==> r@[0].0@ == "PATH"@ && r@[0].1@ == p@,
        env_rows(r@) == overrides_of(
            match base_path {
                Some(p) => Some(p@),
                None => None,
            },
            env_rows(extra@),
        ),
{
    let mut result: Vec<(String, String)> = Vec::new();
    match base_path {
        Some(p) => {
            result.push((to_owned_string("PATH"), to_owned_string(p)));
        },
        None => {},
    }
    let ghost head = env_rows(result@);
    let mut i: usize = 0;
    while i < extra.len()
        invariant
            i <= extra@.len(),
            head == match base_path {
                Some(p) => seq![("PATH"@, p@)],
                None => Seq::<(Seq<char>, Seq<char>)>::empty(),
            },
            env_rows(result@) == head + env_rows(extra@.take(i as int)),
        decreases extra@.len() - i,
    {
        let ghost before = result@;
        let row = &extra[i];
        result.push((row.0.clone(), row.1.clone()));
        assert(env_rows(result@) =~= env_rows(before).push((row.0@, row.1@)));
        assert(env_rows(extra@.take(i + 1)) =~= env_rows(extra@.take(i as int)).push((row.0@, row.1@)));
        i += 1;
    }
    assert(extra@.take(extra@.len() as int) =~= extra@);
    proof {
        let bp = match base_path {
            Some(p) => Some(p@),
            None => None,
        };
        law_overrides_keep_every_variable(bp, env_rows(extra@));
        assert(env_rows(result@).len() == result@.len());
        assert forall|k: int| 0 <= k < extra@.len() implies {
            let off: int = if base_path is Some { 1 } else { 0 };
            &&& result@[k + off].0@ == (#[trigger] extra@[k]).0@
            &&& result@[k + off].1@ == extra@[k].1@
        } by {
            let off: int = if base_path is Some { 1 } else { 0 };
            assert(env_rows(extra@)[k] == (extra@[k].0@, extra@[k].1@));
            assert(env_rows(result@)[k + off] == (result@[k + off].0@, result@[k + off].1@));
        }
        if base_path is Some {
            assert(env_rows(result@)[0] == (result@[0].0@, result@[0].1@));
        }
    }
    result
}

/// The overrides for a spawn, given the PATH resolved at startup (if it
/// could be) and the project's variables.
pub fn overrides(resolved_path: Option<&String>, extra: &Vec<(String, String)>) -> (r: Vec<(String, String)>)
    ensures
        env_rows(r@) == overrides_of(
            match resolved_path {
                Some(p) => Some(p@),
                None => None,
            },
            env_rows(extra@),
        ),
{
    match resolved_path {
        Some(p) => merge_overrides(Some(p.as_str()), extra),
        None => merge_overrides(None, extra),
    }
}

/// The PATH a login shell printed: nothing if the shell failed or printed
/// no valid UTF-8 or only whitespace, else the trimmed output.
pub open spec fn shell_path_of(success: bool, stdout: Seq<u8>) -> Option<Seq<char>> {
    if !success || !vstd::utf8::valid_utf8(stdout) {
        None
    } else {
        let p = trim_ws(vstd::utf8::decode_utf8(stdout));
        if p.len() == 0 { None } else { Some(p) }
    }
}

pub fn path_from_shell_output(success: bool, stdout: &[u8]) -> (r: Option<String>)
    ensures
        r is Some <==> shell_path_of(success, stdout@) is Some,
        r matches Some(p) ==> shell_path_of(success, stdout@) == Some(p@),
{
    if !success {
        return None;
    }
    let text = match utf8_strict(stdout) {
        Some(t) => t,
        None => {
            return None;
        },
    };
    let path = trim_text(text.as_str());
    if path.as_str().is_empty() {
        None
    } else {
        Some(path)
    }
}

} // verus!
