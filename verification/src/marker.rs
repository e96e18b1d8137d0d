//! The marker grammar: which lines announce a dump, and what they say.

use vstd::prelude::*;
use vstd::string::*;

verus! {

/// Whether a dump was taken before or after its pass ran.
///
/// The variants are declared in ascending order: `Before < After < Unknown`.
#[derive(Debug, Clone, Copy, PartialEq, Eq, Hash, Structural)]
pub enum LogKind {
    Before,
    After,
    Unknown,
}

/// What one marker line announces.
#[derive(Debug, Clone, PartialEq, Eq, Hash)]
pub struct LogInfo {
    pub pass_name: String,
    pub pass_cmdline_opt_and_extras: String,
    pub kind: LogKind,
}

/// The mathematical content of a [`LogInfo`].
pub ghost struct LogInfoView {
    pub pass_name: Seq<char>,
    pub extras: Seq<char>,
    pub kind: LogKind,
}

impl View for LogInfo {
    type V = LogInfoView;

    open spec fn view(&self) -> LogInfoView {
        LogInfoView {
            pass_name: self.pass_name@,
            extras: self.pass_cmdline_opt_and_extras@,
            kind: self.kind,
        }
    }
}

/// The text every marker line starts with.
pub open spec fn title_start() -> Seq<char> {
    "// -----// IR Dump "@
}

/// The text every marker line ends with, line feed included.
pub open spec fn title_end() -> Seq<char> {
    " //----- //\n"@
}

/// The kind a kind token stands for: exact matches only.
pub open spec fn kind_of_token(token: Seq<char>) -> LogKind {
    if token == "Before"@ {
        LogKind::Before
    } else if token == "After"@ {
        LogKind::After
    } else {
        LogKind::Unknown
    }
}

/// The kind whose file-name tag is `tag`, if there is one.
pub open spec fn kind_of_tag(tag: Seq<char>) -> Option<LogKind> {
    if tag == "0b"@ {
        Some(LogKind::Before)
    } else if tag == "1a"@ {
        Some(LogKind::After)
    } else if tag == "2u"@ {
        Some(LogKind::Unknown)
    } else {
        None
    }
}

impl LogKind {
    /// Position in the order `Before < After < Unknown`.
    pub open spec fn rank(self) -> nat {
        match self {
            LogKind::Before => 0,
            LogKind::After => 1,
            LogKind::Unknown => 2,
        }
    }

    /// The two-character tag used in artifact names.
    pub open spec fn short_spec(self) -> Seq<char> {
        match self {
            LogKind::Before => "0b"@,
            LogKind::After => "1a"@,
            LogKind::Unknown => "2u"@,
        }
    }

    /// Position in the order `Before < After < Unknown`, as a number.
    pub fn order(&self) -> (r: u8)
        ensures
            r == self.rank(),
    {
        match self {
            LogKind::Before => 0,
            LogKind::After => 1,
            LogKind::Unknown => 2,
        }
    }

    /// The tag of this kind in an artifact name. The tags sort as the kinds do.
    pub fn short(&self) -> (tag: &'static str)
        ensures
            tag@ == self.short_spec(),
    {
        match self {
            LogKind::Before => "0b",
            LogKind::After => "1a",
            LogKind::Unknown => "2u",
        }
    }

    /// Reads a kind token. Anything but `Before` and `After` is `Unknown`.
    pub fn from(s: &str) -> (kind: LogKind)
        ensures
            kind == kind_of_token(s@),
    {
        if str_eq(s, "Before") {
            LogKind::Before
        } else if str_eq(s, "After") {
            LogKind::After
        } else {
            LogKind::Unknown
        }
    }

    /// Reads a tag back into its kind.
    pub fn from_short(s: &str) -> (kind: Option<LogKind>)
        ensures
            kind == kind_of_tag(s@),
    {
        if str_eq(s, "0b") {
            Some(LogKind::Before)
        } else if str_eq(s, "1a") {
            Some(LogKind::After)
        } else if str_eq(s, "2u") {
            Some(LogKind::Unknown)
        } else {
            None
        }
    }
}

/// The tags order as the kinds do: a lower kind has a tag that is
/// lexicographically smaller, decided by the first character.
pub proof fn lemma_short_orders_as_rank(a: LogKind, b: LogKind)
    requires
        a.rank() < b.rank(),
    ensures
        a.short_spec().len() == 2,
        b.short_spec().len() == 2,
        a.short_spec()[0] < b.short_spec()[0],
{
    reveal_strlit("0b");
    reveal_strlit("1a");
    reveal_strlit("2u");
}

/// A tag reads back as the kind it was written for.
pub proof fn lemma_tag_reads_back(kind: LogKind)
    ensures
        kind_of_tag(kind.short_spec()) == Some(kind),
{
    reveal_strlit("0b");
    reveal_strlit("1a");
    reveal_strlit("2u");
    assert("0b"@[0] != "1a"@[0]);
    assert("0b"@[0] != "2u"@[0]);
    assert("1a"@[0] != "2u"@[0]);
}

/// Whether `pat` occurs in `s` at character offset `at`.
pub open spec fn occurs_at(s: Seq<char>, at: int, pat: Seq<char>) -> bool {
    0 <= at && at + pat.len() <= s.len() && s.subrange(at, at + pat.len()) == pat
}

/// Tests whether `pat` occurs in `s` at character offset `at`.
pub fn matches_at(s: &str, at: usize, pat: &str) -> (found: bool)
    ensures
        found == occurs_at(s@, at as int, pat@),
{
    let n: usize = s.unicode_len();
    let m: usize = pat.unicode_len();
    if at > n || m > n - at {
        return false;
    }
    let mut i: usize = 0;
    while i < m
        invariant
            n == s@.len(),
            m == pat@.len(),
            at + m <= n,
            i <= m,
            forall|j: int| 0 <= j < i ==> s@[at + j] == pat@[j],
        decreases m - i,
    {
        if s.get_char(at + i) != pat.get_char(i) {
            assert(s@.subrange(at as int, at + m)[i as int] == s@[at + i]);
            return false;
        }
        i = i + 1;
    }
    assert(s@.subrange(at as int, at + m) =~= pat@);
    true
}

/// Tests two strings for equality, character by character.
pub fn str_eq(a: &str, b: &str) -> (same: bool)
    ensures
        same == (a@ == b@),
{
    let n: usize = a.unicode_len();
    if n != b.unicode_len() {
        return false;
    }
    let found = matches_at(a, 0, b);
    assert(a@.subrange(0, n as int) =~= a@);
    found
}

/// White space as Unicode defines it (the property `White_Space`).
pub open spec fn is_space(c: char) -> bool {
    let u = c as u32;
    (0x09 <= u <= 0x0D) || u == 0x20 || u == 0x85 || u == 0xA0 || u == 0x1680 || (0x2000 <= u
        <= 0x200A) || u == 0x2028 || u == 0x2029 || u == 0x202F || u == 0x205F || u == 0x3000
}

/// Tests a character for white space.
pub fn is_space_char(c: char) -> (space: bool)
    ensures
        space == is_space(c),
{
    let u: u32 = c as u32;
    (0x09 <= u && u <= 0x0D) || u == 0x20 || u == 0x85 || u == 0xA0 || u == 0x1680 || (0x2000 <= u
        && u <= 0x200A) || u == 0x2028 || u == 0x2029 || u == 0x202F || u == 0x205F || u == 0x3000
}

/// First index at or after `from` that holds no white space, or the length.
pub open spec fn skip_spaces(s: Seq<char>, from: int) -> int
    decreases s.len() - from,
{
    if 0 <= from < s.len() && is_space(s[from]) {
        skip_spaces(s, from + 1)
    } else {
        from
    }
}

/// Least end `e >= lo` such that `s[e..to]` is all white space.
pub open spec fn drop_spaces(s: Seq<char>, lo: int, to: int) -> int
    decreases to - lo,
{
    if lo < to <= s.len() && 0 <= lo && is_space(s[to - 1]) {
        drop_spaces(s, lo, to - 1)
    } else {
        to
    }
}

/// `s` without leading and trailing white space.
pub open spec fn trimmed(s: Seq<char>) -> Seq<char> {
    let lo = skip_spaces(s, 0);
    s.subrange(lo, drop_spaces(s, lo, s.len() as int))
}

/// First index at or after `from` that holds the character `c`, or the length.
pub open spec fn find_char(s: Seq<char>, c: char, from: int) -> int
    decreases s.len() - from,
{
    if 0 <= from < s.len() && s[from] != c {
        find_char(s, c, from + 1)
    } else {
        from
    }
}

/// First index at or after `from` that holds a space character, or the length.
pub open spec fn find_space(s: Seq<char>, from: int) -> int {
    find_char(s, ' ', from)
}

/// What a line announces, if it is a marker line.
///
/// The line must start with [`title_start`] and, behind that, end with
/// [`title_end`]. What stands between, trimmed, is cut at its first space
/// into the kind token and a rest, and the rest at its first space into the
/// pass name and the extras. Where either space is missing the line is no
/// marker.
pub open spec fn marker_of(line: Seq<char>) -> Option<LogInfoView> {
    let p = title_start().len() as int;
    let e = line.len() - title_end().len();
    if occurs_at(line, 0, title_start()) && p <= e && occurs_at(line, e, title_end()) {
        let t = trimmed(line.subrange(p, e));
        let k = find_space(t, 0);
        if k < t.len() {
            let rest = t.subrange(k + 1, t.len() as int);
            let n = find_space(rest, 0);
            if n < rest.len() {
                Some(
                    LogInfoView {
                        pass_name: rest.subrange(0, n),
                        extras: rest.subrange(n + 1, rest.len() as int),
                        kind: kind_of_token(t.subrange(0, k)),
                    },
                )
            } else {
                None
            }
        } else {
            None
        }
    } else {
        None
    }
}

/// Whether the line starts and ends as a marker line does, whatever stands
/// between.
pub open spec fn looks_like_marker(line: Seq<char>) -> bool {
    let e = line.len() - title_end().len();
    occurs_at(line, 0, title_start()) && title_start().len() <= e && occurs_at(
        line,
        e,
        title_end(),
    )
}

/// Index of the first `c` in `s` at or after `from`, or the length of `s`.
pub fn first_char(s: &str, c: char, from: usize) -> (k: usize)
    requires
        from <= s@.len(),
    ensures
        k == find_char(s@, c, from as int),
        from <= k <= s@.len(),
        k < s@.len() ==> s@[k as int] == c,
        forall|j: int| from <= j < k ==> s@[j] != c,
{
    let n: usize = s.unicode_len();
    let mut i: usize = from;
    while i < n && s.get_char(i) != c
        invariant
            n == s@.len(),
            from <= i <= n,
            find_char(s@, c, from as int) == find_char(s@, c, i as int),
            forall|j: int| from <= j < i ==> s@[j] != c,
        decreases n - i,
    {
        i = i + 1;
    }
    i
}

/// Cuts leading and trailing white space off `s`.
pub fn trim(s: &str) -> (t: &str)
    ensures
        t@ == trimmed(s@),
{
    let n: usize = s.unicode_len();
    let mut lo: usize = 0;
    while lo < n && is_space_char(s.get_char(lo))
        invariant
            n == s@.len(),
            lo <= n,
            skip_spaces(s@, 0) == skip_spaces(s@, lo as int),
        decreases n - lo,
    {
        lo = lo + 1;
    }
    let mut hi: usize = n;
    while lo < hi && is_space_char(s.get_char(hi - 1))
        invariant
            n == s@.len(),
            lo <= hi <= n,
            drop_spaces(s@, lo as int, n as int) == drop_spaces(s@, lo as int, hi as int),
        decreases hi - lo,
    {
        hi = hi - 1;
    }
    s.substring_char(lo, hi)
}

/// Tests whether a line starts and ends as a marker line does. Such a line
/// that is no marker is worth a warning.
pub fn is_marker_shaped(line: &str) -> (shaped: bool)
    ensures
        shaped == looks_like_marker(line@),
{
    let start = "// -----// IR Dump ";
    let end = " //----- //\n";
    let n: usize = line.unicode_len();
    let p: usize = start.unicode_len();
    let s: usize = end.unicode_len();
    matches_at(line, 0, start) && n - p >= s && matches_at(line, n - s, end)
}

/// Reads one line of the log. `Some` exactly for the marker lines, with what
/// the marker announces; every other line is content.
pub fn parse_marker_line(line: &str) -> (info: Option<LogInfo>)
    ensures
        info is Some == marker_of(line@) is Some,
        info matches Some(i) ==> i@ == marker_of(line@)->0,
{
    let start = "// -----// IR Dump ";
    let end = " //----- //\n";
    let n: usize = line.unicode_len();
    let p: usize = start.unicode_len();
    let s: usize = end.unicode_len();
    if !matches_at(line, 0, start) {
        return None;
    }
    if n - p < s {
        return None;
    }
    let e: usize = n - s;
    if !matches_at(line, e, end) {
        return None;
    }
    let t = trim(line.substring_char(p, e));
    let tn: usize = t.unicode_len();
    let k: usize = first_char(t, ' ', 0);
    if k >= tn {
        return None;
    }
    let rest = t.substring_char(k + 1, tn);
    let rn: usize = rest.unicode_len();
    let m: usize = first_char(rest, ' ', 0);
    if m >= rn {
        return None;
    }
    Some(
        LogInfo {
            pass_name: String::from_str(rest.substring_char(0, m)),
            pass_cmdline_opt_and_extras: String::from_str(rest.substring_char(m + 1, rn)),
            kind: LogKind::from(t.substring_char(0, k)),
        },
    )
}

} // verus!
