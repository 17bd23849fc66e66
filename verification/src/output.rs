//! Scanning a process's output: the first local URL it prints (so "open in
//! browser" goes where the dev server actually listens), and how many lines
//! look like errors or warnings (the badge in the project list).

use crate::text::{chars_of, lemma_lines_of_join, lines_of, split_lines, string_from_chars, utf8_lossy, utf8_lossy_text};
use vstd::prelude::*;

verus! {

#[verifier::external_type_specification]
#[verifier::external_body]
pub struct ExRegex(regex::Regex);

/// A regular expression and the source text it was compiled from.
pub struct Pattern {
    compiled: Option<regex::Regex>,
    source: String,
}

impl View for Pattern {
    type V = Seq<char>;

    closed spec fn view(&self) -> Seq<char> {
        self.source@
    }
}

/// The text of the leftmost-first match of regular expression `pattern` in
/// `text`, as the regex crate reports it; `None` when nothing matches or the
/// pattern does not compile.
pub uninterp spec fn regex_match_text(pattern: Seq<char>, text: Seq<char>) -> Option<Seq<char>>;

/// Compiles `source` with `regex::Regex::new`, keeping the source beside
/// the result (a pattern that does not compile is kept as one that never
/// matches). The contract only claims that the source is kept.
#[verifier::external_body]
pub(crate) fn compile_pattern(source: &str) -> (p: Pattern)
    ensures
        p@ == source@,
{
    Pattern { compiled: regex::Regex::new(source).ok(), source: source.to_string() }
}

/// The leftmost-first match of `p` in `text`.
///
/// Calls `regex::Regex::find` and returns the matched text
/// (`Match::as_str`); the contract names that result.
#[verifier::external_body]
pub(crate) fn find_match(p: &Pattern, text: &str) -> (r: Option<String>)
    ensures
        r is Some <==> regex_match_text(p@, text@) is Some,
        r matches Some(m) ==> regex_match_text(p@, text@) == Some(m@),
{
    match &p.compiled {
        Some(re) => re.find(text).map(|m| m.as_str().to_string()),
        None => None,
    }
}

/// A local dev-server URL: scheme, `localhost` or `127.0.0.1`, then
/// everything up to the next whitespace or escape character.
pub const URL_PATTERN: &'static str = r"https?://(?:localhost|127\.0\.0\.1)(?::\d+)?[^\s\x1b]*";

/// A line mentioning an error or a warning: the whole word `error`, `warn`
/// or `warning`, in any case.
pub const ERROR_LINE_PATTERN: &'static str = r"(?i)\b(error|warn(?:ing)?)\b";

/// Characters a detected URL never ends with.
pub open spec fn is_url_tail_char(c: char) -> bool {
    c == '/' || c == ')' || c == '"'
}

/// `s` without its trailing `/`, `)` and `"` characters.
pub open spec fn trim_url_end(s: Seq<char>) -> Seq<char>
    decreases s.len(),
{
    if s.len() > 0 && is_url_tail_char(s.last()) { trim_url_end(s.drop_last()) } else { s }
}

/// The URL reported for a chunk of text: the first match of
/// `URL_PATTERN`, without trailing `/`, `)` or `"`.
pub open spec fn local_url_of(text: Seq<char>) -> Option<Seq<char>> {
    match regex_match_text(URL_PATTERN@, text) {
        Some(m) => Some(trim_url_end(m)),
        None => None,
    }
}

proof fn lemma_trim_url_end_prefix(s: Seq<char>, k: int)
    requires
        0 <= k <= s.len(),
        forall|j: int| k <= j < s.len() ==> is_url_tail_char(s[j]),
        k == 0 || !is_url_tail_char(s[k - 1]),
    ensures
        trim_url_end(s) == s.subrange(0, k),
    decreases s.len(),
{
    if s.len() > k {
        assert(is_url_tail_char(s.last()));
        lemma_trim_url_end_prefix(s.drop_last(), k);
        assert(s.drop_last().subrange(0, k) =~= s.subrange(0, k));
    } else {
        assert(s.subrange(0, k) =~= s);
    }
}

/// Trimming a URL's tail removes only trailing `/`, `)` and `"`: what is
/// left is a prefix of the text, everything removed is one of those three
/// characters, and what is left does not end with one of them. In
/// particular a text ending in any other character, a letter say, is left
/// as it is.
pub proof fn law_url_trim_removes_only_tail_punctuation(s: Seq<char>)
    ensures
        ({
            let t = trim_url_end(s);
            &&& t.len() <= s.len()
            &&& t == s.subrange(0, t.len() as int)
            &&& forall|j: int| t.len() <= j < s.len() ==> (#[trigger] s[j] == '/' || s[j] == ')' || s[j] == '"')
            &&& t.len() > 0 ==> !(t.last() == '/' || t.last() == ')' || t.last() == '"')
            &&& (s.len() > 0 && !(s.last() == '/' || s.last() == ')' || s.last() == '"')) ==> t == s
        }),
    decreases s.len(),
{
    if s.len() > 0 && is_url_tail_char(s.last()) {
        law_url_trim_removes_only_tail_punctuation(s.drop_last());
        let t = trim_url_end(s.drop_last());
        assert(t == s.drop_last().subrange(0, t.len() as int));
        assert(s.drop_last().subrange(0, t.len() as int) =~= s.subrange(0, t.len() as int));
        assert forall|j: int| t.len() <= j < s.len() implies (#[trigger] s[j] == '/' || s[j] == ')' || s[j] == '"') by {
            if j < s.len() - 1 {
                assert(s[j] == s.drop_last()[j]);
            }
        }
    } else {
        assert(s.subrange(0, s.len() as int) =~= s);
    }
}

/// `s` with trailing `/`, `)` and `"` removed.
pub fn trim_url_tail(s: &str) -> (r: String)
    ensures
        r@ == trim_url_end(s@),
        r@ == s@.subrange(0, r@.len() as int),
        forall|j: int| r@.len() <= j < s@.len() ==> (#[trigger] s@[j] == '/' || s@[j] == ')' || s@[j] == '"'),
        r@.len() > 0 ==> !(r@.last() == '/' || r@.last() == ')' || r@.last() == '"'),
{
    proof { law_url_trim_removes_only_tail_punctuation(s@); }
    let cs = chars_of(s);
    let mut end = cs.len();
    while end > 0 && (cs[end - 1] == '/' || cs[end - 1] == ')' || cs[end - 1] == '"')
        invariant
            end <= cs@.len(),
            forall|j: int| end <= j < cs@.len() ==> is_url_tail_char(cs@[j]),
        decreases end,
    {
        end -= 1;
    }
    proof {
        lemma_trim_url_end_prefix(cs@, end as int);
    }
    string_from_chars(&cs, 0, end)
}

/// The first local URL in `text`, without trailing `/`, `)` or `"`.
pub fn find_local_url(text: &str) -> (r: Option<String>)
    ensures
        r is Some <==> local_url_of(text@) is Some,
        r matches Some(u) ==> local_url_of(text@) == Some(u@),
{
    let pattern = compile_pattern(URL_PATTERN);
    match find_match(&pattern, text) {
        Some(m) => Some(trim_url_tail(m.as_str())),
        None => None,
    }
}

/// The first local URL in a chunk of raw process output.
pub fn detect_url(chunk: &[u8]) -> (r: Option<String>)
    ensures
        r is Some <==> local_url_of(utf8_lossy_text(chunk@)) is Some,
        r matches Some(u) ==> local_url_of(utf8_lossy_text(chunk@)) == Some(u@),
{
    let text = utf8_lossy(chunk);
    find_local_url(text.as_str())
}

/// How many of `lines` match `pattern`.
pub open spec fn matching_lines(pattern: Seq<char>, lines: Seq<Seq<char>>) -> nat
    decreases lines.len(),
{
    if lines.len() == 0 {
        0
    } else {
        matching_lines(pattern, lines.drop_last()) + if regex_match_text(pattern, lines.last()) is Some {
            1nat
        } else {
            0nat
        }
    }
}

proof fn lemma_matching_lines_bound(pattern: Seq<char>, lines: Seq<Seq<char>>)
    ensures
        matching_lines(pattern, lines) <= lines.len(),
    decreases lines.len(),
{
    if lines.len() > 0 {
        lemma_matching_lines_bound(pattern, lines.drop_last());
    }
}

/// How many lines of `text` look like an error or a warning.
pub open spec fn error_line_count(text: Seq<char>) -> nat {
    matching_lines(ERROR_LINE_PATTERN@, lines_of(text))
}

/// Counts the lines of `text` that look like an error or a warning
/// (case-insensitive whole word `error`, `warn` or `warning`).
pub fn count_error_matches(text: &str) -> (n: u32)
    ensures
        n == error_line_count(text@) as u32,
{
    let pattern = compile_pattern(ERROR_LINE_PATTERN);
    let lines = split_lines(text);
    let ghost views = lines@.map_values(|l: String| l@);
    let mut count: usize = 0;
    let mut i: usize = 0;
    while i < lines.len()
        invariant
            pattern@ == ERROR_LINE_PATTERN@,
            views == lines@.map_values(|l: String| l@),
            views == lines_of(text@),
            i <= lines@.len(),
            count == matching_lines(ERROR_LINE_PATTERN@, views.take(i as int)),
        decreases lines@.len() - i,
    {
        proof {
            lemma_matching_lines_bound(ERROR_LINE_PATTERN@, views.take(i as int));
            assert(views.take(i + 1).drop_last() =~= views.take(i as int));
        }
        if find_match(&pattern, lines[i].as_str()).is_some() {
            count += 1;
        }
        i += 1;
    }
    proof {
        assert(views.take(lines@.len() as int) =~= views);
    }
    count as u32
}

} // verus!

verus! {

proof fn lemma_matching_lines_add(pattern: Seq<char>, xs: Seq<Seq<char>>, ys: Seq<Seq<char>>)
    ensures
        matching_lines(pattern, xs + ys) == matching_lines(pattern, xs) + matching_lines(pattern, ys),
    decreases ys.len(),
{
    if ys.len() == 0 {
        assert(xs + ys =~= xs);
    } else {
        assert((xs + ys).drop_last() =~= xs + ys.drop_last());
        lemma_matching_lines_add(pattern, xs, ys.drop_last());
    }
}

/// The error counter counts lines: it never counts more than a text has,
/// and two texts joined by a line feed count what each counts on its own,
/// when the first does not end a line (`\n` or `\r`) already and is not
/// empty.
pub proof fn law_error_count_adds_over_lines(a: Seq<char>, b: Seq<char>)
    ensures
        error_line_count(a) <= lines_of(a).len(),
        a.len() > 0 && a.last() != '\n' && a.last() != '\r' ==> error_line_count(a + seq!['\n'] + b)
            == error_line_count(a) + error_line_count(b),
{
    lemma_matching_lines_bound(ERROR_LINE_PATTERN@, lines_of(a));
    if a.len() > 0 && a.last() != '\n' && a.last() != '\r' {
        lemma_lines_of_join(a, b);
        lemma_matching_lines_add(ERROR_LINE_PATTERN@, lines_of(a), lines_of(b));
    }
}

} // verus!

verus! {

/// The URL reported for a chunk of text is the first regex match with only
/// its trailing `/`, `)` and `"` removed: every other character of the
/// match, letters included, is kept.
pub proof fn law_reported_url_is_the_trimmed_match(text: Seq<char>)
    ensures
        local_url_of(text) is Some <==> regex_match_text(URL_PATTERN@, text) is Some,
        regex_match_text(URL_PATTERN@, text) matches Some(m) ==> ({
            let u = local_url_of(text)->0;
            &&& u == m.subrange(0, u.len() as int)
            &&& forall|j: int| u.len() <= j < m.len() ==> (#[trigger] m[j] == '/' || m[j] == ')' || m[j] == '"')
            &&& u.len() > 0 ==> !(u.last() == '/' || u.last() == ')' || u.last() == '"')
        }),
{
    if let Some(m) = regex_match_text(URL_PATTERN@, text) {
        law_url_trim_removes_only_tail_punctuation(m);
    }
}

} // verus!
