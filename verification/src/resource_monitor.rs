//! A project's process-tree usage, from what `ps -Ao pgid,pcpu,rss` prints:
//! which rows belong to the project's process group, and the memory they
//! hold. The %CPU column is a float, which the library does not handle; it
//! hands back that column's text for each row of the group, in order, to
//! be summed outside.

use crate::error::AppError;
use crate::text::{
    lines_of, parse_i32, parse_i32_text, parse_u64, parse_u64_text, split_lines, split_words, utf8_lossy,
    utf8_lossy_text, words_of,
};
use vstd::prelude::*;

verus! {

/// The rows of the process group, read from `ps`.
#[derive(Debug)]
pub struct GroupUsage {
    /// The %CPU field of each row of the group, in order; `None` for a row
    /// that has none.
    pub cpu_fields: Vec<Option<String>>,
    /// The resident memory of the group, in bytes (at most `u64::MAX`).
    pub memory_bytes: u64,
}

/// The data rows of `ps` output: its lines after the header.
pub open spec fn ps_rows(stdout: Seq<u8>) -> Seq<Seq<char>> {
    let lines = lines_of(utf8_lossy_text(stdout));
    if lines.len() == 0 { lines } else { lines.skip(1) }
}

/// Whether a row, split in words, belongs to process group `pgid`.
pub open spec fn in_group(words: Seq<Seq<char>>, pgid: i32) -> bool {
    words.len() >= 1 && parse_i32_text(words[0]) == Some(pgid)
}

/// The %CPU fields of the rows of group `pgid`, in order.
pub open spec fn group_cpu_fields(rows: Seq<Seq<char>>, pgid: i32) -> Seq<Option<Seq<char>>>
    decreases rows.len(),
{
    if rows.len() == 0 {
        seq![]
    } else {
        let rest = group_cpu_fields(rows.drop_last(), pgid);
        let ws = words_of(rows.last());
        if in_group(ws, pgid) {
            rest.push(if ws.len() >= 2 { Some(ws[1]) } else { None })
        } else {
            rest
        }
    }
}

/// The resident memory of a row in kilobytes: its third field, or 0 when
/// it has none or it is not a number.
pub open spec fn row_rss_kb(words: Seq<Seq<char>>) -> nat {
    if words.len() >= 3 {
        match parse_u64_text(words[2]) {
            Some(v) => v as nat,
            None => 0,
        }
    } else {
        0
    }
}

/// The resident memory of the rows of group `pgid`, in kilobytes.
pub open spec fn group_rss_kb(rows: Seq<Seq<char>>, pgid: i32) -> nat
    decreases rows.len(),
{
    if rows.len() == 0 {
        0
    } else {
        let ws = words_of(rows.last());
        group_rss_kb(rows.drop_last(), pgid) + if in_group(ws, pgid) { row_rss_kb(ws) } else { 0 }
    }
}

/// `n`, or `u64::MAX` when it is larger.
pub open spec fn capped(n: nat) -> u64 {
    if n <= u64::MAX { n as u64 } else { u64::MAX }
}

/// The usage of process group `pgid`, from the standard output of
/// `ps -Ao pgid,pcpu,rss`.
pub fn group_usage(stdout: &[u8], pgid: i32) -> (r: GroupUsage)
    ensures
        r.cpu_fields@.map_values(|f: Option<String>| match f {
            Some(s) => Some(s@),
            None => None,
        }) == group_cpu_fields(ps_rows(stdout@), pgid),
        r.memory_bytes == capped(group_rss_kb(ps_rows(stdout@), pgid) * 1024),
{
    let text = utf8_lossy(stdout);
    let lines = split_lines(text.as_str());
    let ghost ls = lines@.map_values(|l: String| l@);
    let ghost rows = ps_rows(stdout@);
    proof {
        if ls.len() > 0 {
            assert(rows =~= ls.skip(1));
        }
    }
    let mut cpu_fields: Vec<Option<String>> = Vec::new();
    let mut memory_kb: u64 = 0;
    let mut i: usize = 1;
    while i < lines.len()
        invariant
            ls == lines@.map_values(|l: String| l@),
            ls.len() > 0 ==> rows == ls.skip(1),
            1 <= i,
            i <= lines@.len() || lines@.len() == 0,
            lines@.len() > 0 ==> cpu_fields@.map_values(|f: Option<String>| match f {
                Some(s) => Some(s@),
                None => None,
            }) == group_cpu_fields(rows.take(i - 1), pgid),
            lines@.len() > 0 ==> memory_kb == capped(group_rss_kb(rows.take(i - 1), pgid)),
            lines@.len() == 0 ==> cpu_fields@.len() == 0 && memory_kb == 0,
        decreases lines@.len() - i,
    {
        let ghost before = cpu_fields@;
        proof {
            assert(rows.take(i as int).drop_last() =~= rows.take(i - 1));
            assert(rows.take(i as int).last() == lines@[i as int]@);
        }
        let words = split_words(lines[i].as_str());
        let ghost ws = words@.map_values(|w: String| w@);
        let member = words.len() >= 1 && match parse_i32(words[0].as_str()) {
            Some(p) => p == pgid,
            None => false,
        };
        if member {
            let cpu = if words.len() >= 2 { Some(words[1].clone()) } else { None };
            cpu_fields.push(cpu);
            let rss: u64 = if words.len() >= 3 {
                match parse_u64(words[2].as_str()) {
                    Some(v) => v,
                    None => 0,
                }
            } else {
                0
            };
            memory_kb = memory_kb.saturating_add(rss);
            proof {
                assert(rss == row_rss_kb(ws));
                assert(cpu_fields@.map_values(|f: Option<String>| match f {
                    Some(s) => Some(s@),
                    None => None,
                }) =~= before.map_values(|f: Option<String>| match f {
                    Some(s) => Some(s@),
                    None => None,
                }).push(if ws.len() >= 2 { Some(ws[1]) } else { None }));
            }
        }
        i += 1;
    }
    proof {
        if lines@.len() > 0 {
            assert(rows.take(lines@.len() - 1) =~= rows);
        } else {
            assert(rows =~= Seq::<Seq<char>>::empty());
        }
    }
    let memory_bytes: u64 = if memory_kb > 0xffff_ffff_ffff_ffff / 1024 { 0xffff_ffff_ffff_ffff } else { memory_kb * 1024 };
    GroupUsage { cpu_fields, memory_bytes }
}

/// The error for a `ps` that could not be run.
pub fn ps_failed(reason: &str) -> (e: AppError)
    ensures
        e.module@ == "resource_monitor"@,
        e.code@ == "RESOURCE_STATS_FAILED"@,
        e.message@ == "Could not run ps: "@ + reason@,
{
    AppError::new("resource_monitor", "RESOURCE_STATS_FAILED", String::from_str("Could not run ps: ").concat(reason))
}

} // verus!
