//! Whether a TCP port is free and, if not, who owns it — worked out from
//! what `lsof` and `ps` print, so that a start that would fail on a busy
//! port can offer to free it first.

use crate::error::AppError;
use crate::project_store::opt_text;
use crate::text::{
    lines_of, parse_i32, parse_i32_text, signed_decimal_text, decimal_text, split_lines, trim_text,
    trim_ws, utf8_lossy, utf8_lossy_text, i64_text, u64_text, to_owned_string, chars_of,
    string_from_chars,
};
use vstd::prelude::*;

verus! {

const MODULE: &'static str = "port_checker";

/// The name shown for an owner whose name `ps` could not give.
pub const UNKNOWN_PROCESS: &'static str = "proceso desconocido";

/// The process listening on a port.
#[derive(Debug)]
pub struct PortOwner {
    pub pid: i32,
    pub name: String,
}

/// Whether a port is free, and its owner when it is not.
#[derive(Debug)]
pub struct PortCheckResult {
    pub free: bool,
    pub owner: Option<PortOwner>,
}

/// The pids among `lines`: each line, trimmed, that parses as an `i32`,
/// in order; the other lines are skipped.
pub open spec fn parsed_pids(lines: Seq<Seq<char>>) -> Seq<i32>
    decreases lines.len(),
{
    if lines.len() == 0 {
        seq![]
    } else {
        let rest = parsed_pids(lines.drop_last());
        match parse_i32_text(trim_ws(lines.last())) {
            Some(p) => rest.push(p),
            None => rest,
        }
    }
}

/// The pids that `lsof -t` printed on `stdout`, read as lossy UTF-8.
pub open spec fn lsof_pids(stdout: Seq<u8>) -> Seq<i32> {
    parsed_pids(lines_of(utf8_lossy_text(stdout)))
}

/// The pids listening on a port, from the standard output of
/// `lsof -nP -iTCP:<port> -sTCP:LISTEN -t`. Its exit status is not looked
/// at: `lsof` exits with 1 when nothing matches, which means a free port.
pub fn pids_from_lsof_output(stdout: &[u8]) -> (r: Vec<i32>)
    ensures
        r@ == lsof_pids(stdout@),
{
    let text = utf8_lossy(stdout);
    let lines = split_lines(text.as_str());
    let ghost ls = lines@.map_values(|l: String| l@);
    let mut pids: Vec<i32> = Vec::new();
    let mut i: usize = 0;
    while i < lines.len()
        invariant
            i <= lines@.len(),
            ls == lines@.map_values(|l: String| l@),
            pids@ == parsed_pids(ls.take(i as int)),
        decreases lines@.len() - i,
    {
        proof {
            assert(ls.take(i + 1).drop_last() =~= ls.take(i as int));
            assert(ls.take(i + 1).last() == lines@[i as int]@);
        }
        let trimmed = trim_text(lines[i].as_str());
        match parse_i32(trimmed.as_str()) {
            Some(p) => pids.push(p),
            None => {},
        }
        i += 1;
    }
    assert(ls.take(lines@.len() as int) =~= ls);
    pids
}

/// The error for an `lsof` that could not be run, with the reason.
pub fn lsof_failed(reason: &str) -> (e: AppError)
    ensures
        e.module@ == "port_checker"@,
        e.code@ == "PORT_CHECK_FAILED"@,
        e.message@ == "Could not run lsof: "@ + reason@,
{
    AppError::new(MODULE, "PORT_CHECK_FAILED", String::from_str("Could not run lsof: ").concat(reason))
}

/// Where the last path component of `s` starts: just past its last `/`, or
/// at 0 when it has none.
pub open spec fn last_component_start(s: Seq<char>) -> nat
    decreases s.len(),
{
    if s.len() == 0 {
        0
    } else if s.last() == '/' {
        s.len()
    } else {
        last_component_start(s.drop_last())
    }
}

proof fn lemma_last_component_start(s: Seq<char>, k: int)
    requires
        0 <= k <= s.len(),
        forall|j: int| k <= j < s.len() ==> s[j] != '/',
        k == 0 || s[k - 1] == '/',
    ensures
        last_component_start(s) == k,
    decreases s.len(),
{
    if k < s.len() {
        assert(s.last() != '/');
        lemma_last_component_start(s.drop_last(), k);
    }
}

/// The process name `ps -p <pid> -o comm=` reported: nothing when it failed
/// or printed only whitespace, else its trimmed output after the last `/`.
pub open spec fn ps_name(success: bool, stdout: Seq<u8>) -> Option<Seq<char>> {
    let raw = trim_ws(utf8_lossy_text(stdout));
    if !success || raw.len() == 0 {
        None
    } else {
        Some(raw.subrange(last_component_start(raw) as int, raw.len() as int))
    }
}

/// The process name from the exit status and standard output of
/// `ps -p <pid> -o comm=`.
pub fn process_name_from_ps(success: bool, stdout: &[u8]) -> (r: Option<String>)
    ensures
        opt_text(r) == ps_name(success, stdout@),
{
    if !success {
        return None;
    }
    let raw = trim_text(utf8_lossy(stdout).as_str());
    let cs = chars_of(raw.as_str());
    let n = cs.len();
    if n == 0 {
        return None;
    }
    let mut k: usize = n;
    while k > 0 && cs[k - 1] != '/'
        invariant
            n == cs@.len(),
            k <= n,
            forall|j: int| k <= j < n ==> cs@[j] != '/',
        decreases k,
    {
        k -= 1;
    }
    proof {
        lemma_last_component_start(cs@, k as int);
    }
    Some(string_from_chars(&cs, k, n))
}

/// What a port check reports for the pids listening on the port and the
/// name `ps` gave for the first of them.
pub open spec fn check_outcome(pids: Seq<i32>, name: Option<Seq<char>>) -> (bool, Option<(i32, Seq<char>)>) {
    if pids.len() == 0 {
        (true, None)
    } else {
        (false, Some((pids[0], match name {
            Some(n) => n,
            None => UNKNOWN_PROCESS@,
        })))
    }
}

/// The result of a port check: free when nothing listens on the port, else
/// owned by the first listening pid, under the name `ps` gave for it or,
/// without one, "proceso desconocido".
pub fn port_check_result(pids: &Vec<i32>, name: Option<String>) -> (r: PortCheckResult)
    ensures
        r.free == check_outcome(pids@, opt_text(name)).0,
        match check_outcome(pids@, opt_text(name)).1 {
            Some((pid, n)) => r.owner matches Some(o) && o.pid == pid && o.name@ == n,
            None => r.owner is None,
        },
{
    if pids.len() == 0 {
        return PortCheckResult { free: true, owner: None };
    }
    let name = match name {
        Some(n) => n,
        None => to_owned_string(UNKNOWN_PROCESS),
    };
    PortCheckResult { free: false, owner: Some(PortOwner { pid: pids[0], name }) }
}

/// The error for a process on `port` that survived SIGKILL for a reason
/// other than having exited already.
pub fn kill_failed(pid: i32, port: u16, reason: &str) -> (e: AppError)
    ensures
        e.module@ == "port_checker"@,
        e.code@ == "PORT_KILL_OWNER_FAILED"@,
        e.message@ == "Could not kill process "@ + signed_decimal_text(pid as int) + " on port "@
            + decimal_text(port as nat) + ": "@ + reason@,
{
    let message = String::from_str("Could not kill process ")
        .concat(i64_text(pid as i64).as_str())
        .concat(" on port ")
        .concat(u64_text(port as u64).as_str())
        .concat(": ")
        .concat(reason);
    AppError::new(MODULE, "PORT_KILL_OWNER_FAILED", message)
}

} // verus!
