//! Commit-history extraction: parsing a walk of the commit graph, with
//! per-file numeric stats, into flat commit records.
//!
//! The input is the text a Git history walk prints under this library's
//! record layout, one commit per block:
//!
//! ```text
//! C <sha> <parent shas, space separated, possibly none>
//! N <author name>
//! E <author email>
//! T <author unix seconds> <tz as +HHMM or -HHMM>
//! n <committer name>
//! e <committer email>
//! t <committer unix seconds> <tz>
//! M <message subject>
//! <numstat lines: additions TAB deletions TAB path, `-` for binary>
//! ```
//!
//! Blocks follow each other, separated by any number of empty lines.  A
//! commit's additions and deletions are the sums over its own numstat block,
//! binary entries counting zero, and a commit is a merge exactly when it has
//! at least two parents.

use vstd::prelude::*;

use crate::text::{all_digits, dec_val, find_char, first_at, has_prefix, parse_u32, parse_u64,
    split_lines, split_nl, starts_with, str_eq};

verus! {

/// One commit of the walked history.
#[derive(Debug, Clone, PartialEq)]
pub struct CommitRecord {
    /// The commit hash.
    pub sha: String,
    /// The repository's name, from its working directory.
    pub repo_name: String,
    /// The commit message subject.
    pub message: String,
    pub author_name: String,
    pub author_email: String,
    /// Author time in Unix seconds.
    pub author_timestamp: i64,
    /// Author time zone offset in minutes; negative is west of UTC.
    pub author_offset: i32,
    pub committer_name: String,
    pub committer_email: String,
    /// Committer time in Unix seconds.
    pub committer_timestamp: i64,
    /// Committer time zone offset in minutes; negative is west of UTC.
    pub committer_offset: i32,
    /// Lines added against the first parent, or the empty tree for a root.
    pub additions: u64,
    /// Lines deleted against the same base.
    pub deletions: u64,
    /// Whether the commit has at least two parents.
    pub is_merge: bool,
}

/// The mathematical value of a commit record.
pub ghost struct CommitView {
    pub sha: Seq<char>,
    pub repo_name: Seq<char>,
    pub message: Seq<char>,
    pub author_name: Seq<char>,
    pub author_email: Seq<char>,
    pub author_timestamp: i64,
    pub author_offset: i32,
    pub committer_name: Seq<char>,
    pub committer_email: Seq<char>,
    pub committer_timestamp: i64,
    pub committer_offset: i32,
    pub additions: u64,
    pub deletions: u64,
    pub is_merge: bool,
}

impl View for CommitRecord {
    type V = CommitView;

    open spec fn view(&self) -> CommitView {
        CommitView {
            sha: self.sha@,
            repo_name: self.repo_name@,
            message: self.message@,
            author_name: self.author_name@,
            author_email: self.author_email@,
            author_timestamp: self.author_timestamp,
            author_offset: self.author_offset,
            committer_name: self.committer_name@,
            committer_email: self.committer_email@,
            committer_timestamp: self.committer_timestamp,
            committer_offset: self.committer_offset,
            additions: self.additions,
            deletions: self.deletions,
            is_merge: self.is_merge,
        }
    }
}

/// One file's numbers in a commit's diff; `None` counts stand for a binary
/// file, which contributes nothing.
#[derive(Debug, Clone, PartialEq)]
pub struct NumstatEntry {
    pub additions: Option<u32>,
    pub deletions: Option<u32>,
    pub path: String,
}

/// The mathematical value of a numstat entry.
pub ghost struct NumstatView {
    pub additions: Option<u32>,
    pub deletions: Option<u32>,
    pub path: Seq<char>,
}

impl View for NumstatEntry {
    type V = NumstatView;

    open spec fn view(&self) -> NumstatView {
        NumstatView {
            additions: self.additions,
            deletions: self.deletions,
            path: self.path@,
        }
    }
}

/// The added lines of a diff: the sum over its entries, binary entries as
/// zero.
pub open spec fn sum_adds(es: Seq<NumstatView>) -> int
    decreases es.len(),
{
    if es.len() == 0 {
        0
    } else {
        sum_adds(es.drop_last()) + match es.last().additions {
            Some(a) => a as int,
            None => 0,
        }
    }
}

/// The deleted lines of a diff: the sum over its entries, binary entries as
/// zero.
pub open spec fn sum_dels(es: Seq<NumstatView>) -> int
    decreases es.len(),
{
    if es.len() == 0 {
        0
    } else {
        sum_dels(es.drop_last()) + match es.last().deletions {
            Some(d) => d as int,
            None => 0,
        }
    }
}

/// The total changed lines of a diff: the sum over its entries of additions
/// plus deletions, binary entries as zero.
pub open spec fn sum_total(es: Seq<NumstatView>) -> int
    decreases es.len(),
{
    if es.len() == 0 {
        0
    } else {
        sum_total(es.drop_last()) + match es.last().additions {
            Some(a) => a as int,
            None => 0,
        } + match es.last().deletions {
            Some(d) => d as int,
            None => 0,
        }
    }
}

/// A commit's additions plus deletions equal the total insertions and
/// deletions of its textual diff: the two per-kind sums of a numstat block
/// always add up to the block's total.
pub proof fn lemma_adds_dels_total(es: Seq<NumstatView>)
    ensures
        sum_adds(es) + sum_dels(es) == sum_total(es),
    decreases es.len(),
{
    if es.len() > 0 {
        lemma_adds_dels_total(es.drop_last());
    }
}

/// The sums are non-negative and bounded by the entry count times the
/// largest per-file count.
pub proof fn lemma_sums_bounded(es: Seq<NumstatView>)
    ensures
        0 <= sum_adds(es) <= es.len() * (u32::MAX as int),
        0 <= sum_dels(es) <= es.len() * (u32::MAX as int),
    decreases es.len(),
{
    if es.len() > 0 {
        lemma_sums_bounded(es.drop_last());
        assert((es.len() - 1) * (u32::MAX as int) + (u32::MAX as int) == es.len() * (
        u32::MAX as int)) by (nonlinear_arith);
    }
}

/// Sums a commit's numstat block.
pub fn accumulate_stats(entries: &Vec<NumstatEntry>) -> (r: (u64, u64))
    requires
        entries@.len() <= u32::MAX,
    ensures
        r.0 == sum_adds(entries@.map_values(|e: NumstatEntry| e@)),
        r.1 == sum_dels(entries@.map_values(|e: NumstatEntry| e@)),
{
    let ghost views = entries@.map_values(|e: NumstatEntry| e@);
    let n = entries.len();
    let mut adds: u64 = 0;
    let mut dels: u64 = 0;
    let mut i: usize = 0;
    proof {
        assert(views.take(0) =~= Seq::<NumstatView>::empty());
    }
    while i < n
        invariant
            0 <= i <= n,
            n == entries@.len(),
            n <= u32::MAX,
            views == entries@.map_values(|e: NumstatEntry| e@),
            adds == sum_adds(views.take(i as int)),
            dels == sum_dels(views.take(i as int)),
        decreases n - i,
    {
        proof {
            assert(views[i as int] == entries@[i as int]@);
            assert(views.take(i + 1).drop_last() =~= views.take(i as int));
            assert(views.take(i + 1).last() == views[i as int]);
            lemma_sums_bounded(views.take(i as int));
            assert(i * (u32::MAX as int) + (u32::MAX as int) <= (u32::MAX as int) * (u32::MAX as int)
                + (u32::MAX as int)) by (nonlinear_arith)
                requires
                    0 <= i <= u32::MAX as int,
            {}
        }
        match entries[i].additions {
            Some(a) => {
                adds = adds + a as u64;
            },
            None => {
            },
        }
        match entries[i].deletions {
            Some(d) => {
                dels = dels + d as u64;
            },
            None => {
            },
        }
        i = i + 1;
    }
    proof {
        assert(views.take(n as int) =~= views);
    }
    (adds, dels)
}

/// Builds one commit record.  Its additions and deletions are exactly the
/// sums of its own numstat block, binary entries counting zero; it is a
/// merge exactly when it has at least two parents; every other field is the
/// argument, unchanged.
pub fn build_record(
    sha: String,
    repo_name: String,
    message: String,
    author_name: String,
    author_email: String,
    author_timestamp: i64,
    author_offset: i32,
    committer_name: String,
    committer_email: String,
    committer_timestamp: i64,
    committer_offset: i32,
    parent_count: u32,
    entries: &Vec<NumstatEntry>,
) -> (c: CommitRecord)
    requires
        entries@.len() <= u32::MAX,
    ensures
        c@.sha == sha@,
        c@.repo_name == repo_name@,
        c@.message == message@,
        c@.author_name == author_name@,
        c@.author_email == author_email@,
        c@.author_timestamp == author_timestamp,
        c@.author_offset == author_offset,
        c@.committer_name == committer_name@,
        c@.committer_email == committer_email@,
        c@.committer_timestamp == committer_timestamp,
        c@.committer_offset == committer_offset,
        c@.additions == sum_adds(entries@.map_values(|e: NumstatEntry| e@)),
        c@.deletions == sum_dels(entries@.map_values(|e: NumstatEntry| e@)),
        c@.is_merge == (parent_count >= 2),
{
    let (additions, deletions) = accumulate_stats(entries);
    CommitRecord {
        sha,
        repo_name,
        message,
        author_name,
        author_email,
        author_timestamp,
        author_offset,
        committer_name,
        committer_email,
        committer_timestamp,
        committer_offset,
        additions,
        deletions,
        is_merge: parent_count >= 2,
    }
}

/// The minutes east of UTC that a `+HHMM` / `-HHMM` zone field denotes.
pub open spec fn tz_minutes(s: Seq<char>) -> int {
    let magnitude = dec_val(s.subrange(1, 3)) * 60 + dec_val(s.subrange(3, 5));
    if s[0] == '-' {
        -magnitude
    } else {
        magnitude
    }
}

/// A well-formed zone field: a sign and four digits.
pub open spec fn tz_wf(s: Seq<char>) -> bool {
    s.len() == 5 && (s[0] == '+' || s[0] == '-') && all_digits(s.subrange(1, 5))
}

/// Parses a `+HHMM` / `-HHMM` time zone field into minutes east of UTC.
pub fn parse_tz(s: &str) -> (r: Option<i32>)
    ensures
        r is Some <==> tz_wf(s@),
        r is Some ==> r->Some_0 == tz_minutes(s@),
{
    let n = s.unicode_len();
    if n != 5 {
        return None;
    }
    let sign = s.get_char(0);
    if sign != '+' && sign != '-' {
        return None;
    }
    let hh_str = s.substring_char(1, 3);
    let mm_str = s.substring_char(3, 5);
    let hh = match parse_u32(hh_str) {
        Some(v) => v,
        None => {
            proof {
                if tz_wf(s@) {
                    lemma_digit_halves(s@);
                    lemma_two_digits(s@.subrange(1, 3));
                }
            }
            return None;
        },
    };
    let mm = match parse_u32(mm_str) {
        Some(v) => v,
        None => {
            proof {
                if tz_wf(s@) {
                    lemma_digit_halves(s@);
                    lemma_two_digits(s@.subrange(3, 5));
                }
            }
            return None;
        },
    };
    proof {
        lemma_two_digits(s@.subrange(1, 3));
        lemma_two_digits(s@.subrange(3, 5));
        assert forall|k: int| 0 <= k < s@.subrange(1, 5).len() implies is_digit(
            #[trigger] s@.subrange(1, 5)[k],
        ) by {
            if k < 2 {
                assert(s@.subrange(1, 5)[k] == s@.subrange(1, 3)[k]);
                assert(is_digit(s@.subrange(1, 3)[k]));
            } else {
                assert(s@.subrange(1, 5)[k] == s@.subrange(3, 5)[k - 2]);
                assert(is_digit(s@.subrange(3, 5)[k - 2]));
            }
        }
    }
    let magnitude = hh * 60 + mm;
    if sign == '-' {
        Some(0i32 - magnitude as i32)
    } else {
        Some(magnitude as i32)
    }
}

/// A well-formed zone field's two digit pairs are digit strings of their
/// own.
proof fn lemma_digit_halves(s: Seq<char>)
    requires
        tz_wf(s),
    ensures
        all_digits(s.subrange(1, 3)),
        all_digits(s.subrange(3, 5)),
{
    assert forall|k: int| 0 <= k < s.subrange(1, 3).len() implies is_digit(
        #[trigger] s.subrange(1, 3)[k],
    ) by {
        assert(s.subrange(1, 3)[k] == s.subrange(1, 5)[k]);
        assert(is_digit(s.subrange(1, 5)[k]));
    }
    assert forall|k: int| 0 <= k < s.subrange(3, 5).len() implies is_digit(
        #[trigger] s.subrange(3, 5)[k],
    ) by {
        assert(s.subrange(3, 5)[k] == s.subrange(1, 5)[k + 2]);
        assert(is_digit(s.subrange(1, 5)[k + 2]));
    }
}

/// A two-character digit string is worth at most 99.
proof fn lemma_two_digits(s: Seq<char>)
    requires
        s.len() == 2,
        all_digits(s),
    ensures
        0 <= dec_val(s) <= 99,
{
    assert(s.drop_last().drop_last() =~= Seq::<char>::empty());
    assert(dec_val(Seq::<char>::empty()) == 0);
    assert(s.last() == s[1]);
    assert(s.drop_last().last() == s[0]);
    assert(is_digit(s[0]));
    assert(is_digit(s[1]));
    assert(dec_val(s.drop_last()) == (s[0] as u32 - 48));
}

/// A digit character.
pub open spec fn is_digit(c: char) -> bool {
    crate::text::is_digit(c)
}

/// A numstat count field: the binary marker, or a decimal number that fits.
pub open spec fn count_field_wf(t: Seq<char>) -> bool {
    t == "-"@ || (t.len() > 0 && all_digits(t) && dec_val(t) <= u32::MAX)
}

/// The count a numstat field denotes; the binary marker denotes none.
pub open spec fn count_field_of(t: Seq<char>) -> Option<u32> {
    if t == "-"@ {
        None
    } else {
        Some(dec_val(t) as u32)
    }
}

/// A well-formed numstat line: two count fields up to the first two tabs,
/// then a non-empty path.
pub open spec fn numstat_line_wf(l: Seq<char>) -> bool {
    let t1 = first_at(l, '\t', 0);
    let t2 = first_at(l, '\t', t1 + 1);
    &&& t1 < l.len()
    &&& t2 < l.len()
    &&& t2 + 1 < l.len()
    &&& count_field_wf(l.subrange(0, t1))
    &&& count_field_wf(l.subrange(t1 + 1, t2))
}

/// The entry a numstat line denotes: the counts at the first two tabs and
/// the path after the second.
pub open spec fn numstat_of(l: Seq<char>) -> NumstatView {
    let t1 = first_at(l, '\t', 0);
    let t2 = first_at(l, '\t', t1 + 1);
    NumstatView {
        additions: count_field_of(l.subrange(0, t1)),
        deletions: count_field_of(l.subrange(t1 + 1, t2)),
        path: l.subrange(t2 + 1, l.len() as int),
    }
}

/// Parses one numstat line: additions, a tab, deletions, a tab, the path.
/// A `-` count marks a binary file.  It succeeds exactly on a well-formed
/// line and reads the entry `numstat_of` says.
pub fn parse_numstat_line(line: &str) -> (r: Option<NumstatEntry>)
    ensures
        r is Some <==> numstat_line_wf(line@),
        r is Some ==> r->Some_0@ == numstat_of(line@) && r->Some_0@.path.len() > 0,
{
    let len = line.unicode_len();
    let t1 = match find_char(line, '\t', 0) {
        Some(p) => p,
        None => {
            return None;
        },
    };
    let t2 = match find_char(line, '\t', t1 + 1) {
        Some(p) => p,
        None => {
            return None;
        },
    };
    if t2 + 1 >= len {
        return None;
    }
    let adds_str = line.substring_char(0, t1);
    let dels_str = line.substring_char(t1 + 1, t2);
    let path = line.substring_char(t2 + 1, len).to_owned();
    let additions = if str_eq(adds_str, "-") {
        None
    } else {
        match parse_u32(adds_str) {
            Some(v) => Some(v),
            None => {
                return None;
            },
        }
    };
    let deletions = if str_eq(dels_str, "-") {
        None
    } else {
        match parse_u32(dels_str) {
            Some(v) => Some(v),
            None => {
                return None;
            },
        }
    };
    let e = NumstatEntry { additions, deletions, path };
    Some(e)
}

/// A block-opening line of the record layout: `C `, then the hashes.
pub open spec fn is_header_line(l: Seq<char>) -> bool {
    l.len() >= 2 && l[0] == 'C' && l[1] == ' '
}

/// How many commit blocks a history text holds: one per header line.
pub open spec fn count_headers(ls: Seq<Seq<char>>) -> int
    decreases ls.len(),
{
    if ls.len() == 0 {
        0
    } else {
        count_headers(ls.drop_last()) + if is_header_line(ls.last()) {
            1int
        } else {
            0int
        }
    }
}

/// Extending the prefix by one line raises the block count by one exactly
/// when that line is a header line.
pub proof fn lemma_count_headers_step(ls: Seq<Seq<char>>, i: int)
    requires
        0 <= i < ls.len(),
    ensures
        count_headers(ls.take(i + 1)) == count_headers(ls.take(i)) + if is_header_line(ls[i]) {
            1int
        } else {
            0int
        },
{
    assert(ls.take(i + 1).drop_last() =~= ls.take(i));
    assert(ls.take(i + 1).last() == ls[i]);
}

/// A line that opens with a two-character field prefix other than `C ` is no
/// header line.
proof fn lemma_field_not_header(l: Seq<char>, p: Seq<char>)
    requires
        has_prefix(l, p),
        p.len() == 2,
        p[0] != 'C',
    ensures
        !is_header_line(l),
{
    assert(l.subrange(0, 2)[0] == l[0]);
}

/// Whether the line opens a commit block.
fn is_header(line: &str) -> (r: bool)
    ensures
        r == is_header_line(line@),
{
    line.unicode_len() >= 2 && line.get_char(0) == 'C' && line.get_char(1) == ' '
}

/// Reads the field prefix off one line and returns the rest.
fn take_field(lines: &Vec<String>, idx: usize, prefix: &str) -> (r: Option<String>)
    ensures
        r is Some <==> idx < lines@.len() && has_prefix(lines@[idx as int]@, prefix@),
        r is Some ==> r->Some_0@ == lines@[idx as int]@.subrange(
            prefix@.len() as int,
            lines@[idx as int]@.len() as int,
        ),
{
    if idx >= lines.len() {
        return None;
    }
    let line = lines[idx].as_str();
    if starts_with(line, prefix) {
        let len = line.unicode_len();
        let plen = prefix.unicode_len();
        Some(line.substring_char(plen, len).to_owned())
    } else {
        None
    }
}

/// A well-formed `<unix seconds> <tz>` field: decimal seconds that fit a
/// signed 64-bit count up to the first space, then a zone field.
pub open spec fn time_wf(l: Seq<char>) -> bool {
    let sp = first_at(l, ' ', 0);
    &&& 0 < sp < l.len()
    &&& all_digits(l.subrange(0, sp))
    &&& dec_val(l.subrange(0, sp)) <= i64::MAX
    &&& tz_wf(l.subrange(sp + 1, l.len() as int))
}

/// The seconds a time field carries.
pub open spec fn time_secs(l: Seq<char>) -> int {
    dec_val(l.subrange(0, first_at(l, ' ', 0)))
}

/// The minutes east of UTC a time field carries.
pub open spec fn time_off(l: Seq<char>) -> int {
    tz_minutes(l.subrange(first_at(l, ' ', 0) + 1, l.len() as int))
}

/// Parses a `<unix seconds> <tz>` field into seconds and minutes east; it
/// succeeds exactly on a well-formed field.
fn parse_time_field(s: &str) -> (r: Option<(i64, i32)>)
    ensures
        r is Some <==> time_wf(s@),
        r is Some ==> r->Some_0.0 == time_secs(s@) && r->Some_0.0 >= 0 && r->Some_0.1 == time_off(
            s@,
        ),
{
    let len = s.unicode_len();
    let sp = match find_char(s, ' ', 0) {
        Some(p) => p,
        None => {
            return None;
        },
    };
    let secs = match parse_u64(s.substring_char(0, sp)) {
        Some(v) => v,
        None => {
            return None;
        },
    };
    if secs > i64::MAX as u64 {
        return None;
    }
    let tz = match parse_tz(s.substring_char(sp + 1, len)) {
        Some(v) => v,
        None => {
            return None;
        },
    };
    Some((secs as i64, tz))
}

/// A line of one metadata field: the text after a two-character prefix.
pub open spec fn field_wf(ls: Seq<Seq<char>>, k: int, p: Seq<char>) -> bool {
    k < ls.len() && has_prefix(ls[k], p)
}

/// The value a metadata field line carries.
pub open spec fn field_val(ls: Seq<Seq<char>>, k: int, p: Seq<char>) -> Seq<char> {
    ls[k].subrange(p.len() as int, ls[k].len() as int)
}

/// How many lines a numstat block spans: up to the first empty line, header
/// line or the end.
pub open spec fn block_len(ls: Seq<Seq<char>>) -> int
    decreases ls.len(),
{
    if ls.len() == 0 || ls[0].len() == 0 || is_header_line(ls[0]) {
        0
    } else {
        1 + block_len(ls.drop_first())
    }
}

/// A block never runs past the lines it spans.
pub proof fn lemma_block_len_range(ls: Seq<Seq<char>>)
    ensures
        0 <= block_len(ls) <= ls.len(),
    decreases ls.len(),
{
    if ls.len() != 0 && ls[0].len() != 0 && !is_header_line(ls[0]) {
        lemma_block_len_range(ls.drop_first());
    }
}

/// The entries of a numstat block, or nothing when a line of it is
/// malformed.
pub open spec fn block_entries(ls: Seq<Seq<char>>) -> Option<Seq<NumstatView>>
    decreases ls.len(),
{
    if ls.len() == 0 || ls[0].len() == 0 || is_header_line(ls[0]) {
        Some(Seq::empty())
    } else if !numstat_line_wf(ls[0]) {
        None
    } else {
        match block_entries(ls.drop_first()) {
            Some(es) => Some(seq![numstat_of(ls[0])] + es),
            None => None,
        }
    }
}

/// The records a history line sequence denotes: empty lines pass, and each
/// block — a commit line, the seven metadata fields in order, and its
/// numstat lines — becomes one record whose counts are the sums of its own
/// block and whose merge flag says whether the commit line lists at least
/// two parents.  Anything else is malformed.
pub open spec fn spec_history(ls: Seq<Seq<char>>, repo: Seq<char>) -> Option<Seq<CommitView>>
    decreases ls.len(),
    via spec_history_dec
{
    if ls.len() == 0 {
        Some(Seq::empty())
    } else if ls[0].len() == 0 {
        spec_history(ls.drop_first(), repo)
    } else if !is_header_line(ls[0]) {
        None
    } else if !commit_line_wf(ls[0]) {
        None
    } else if !(field_wf(ls, 1, "N "@) && field_wf(ls, 2, "E "@) && field_wf(ls, 3, "T "@)
        && field_wf(ls, 4, "n "@) && field_wf(ls, 5, "e "@) && field_wf(ls, 6, "t "@) && field_wf(
        ls,
        7,
        "M "@,
    )) {
        None
    } else if !(time_wf(field_val(ls, 3, "T "@)) && time_wf(field_val(ls, 6, "t "@))) {
        None
    } else {
        match block_entries(ls.skip(8)) {
            None => None,
            Some(es) => {
                if es.len() > u32::MAX {
                    None
                } else {
                    let c = CommitView {
                        sha: ls[0].subrange(2, sha_end_of(ls[0])),
                        repo_name: repo,
                        message: field_val(ls, 7, "M "@),
                        author_name: field_val(ls, 1, "N "@),
                        author_email: field_val(ls, 2, "E "@),
                        author_timestamp: time_secs(field_val(ls, 3, "T "@)) as i64,
                        author_offset: time_off(field_val(ls, 3, "T "@)) as i32,
                        committer_name: field_val(ls, 4, "n "@),
                        committer_email: field_val(ls, 5, "e "@),
                        committer_timestamp: time_secs(field_val(ls, 6, "t "@)) as i64,
                        committer_offset: time_off(field_val(ls, 6, "t "@)) as i32,
                        additions: sum_adds(es) as u64,
                        deletions: sum_dels(es) as u64,
                        is_merge: count_tokens(ls[0], sha_end_of(ls[0])) >= 2,
                    };
                    match spec_history(ls.skip(8 + block_len(ls.skip(8))), repo) {
                        None => None,
                        Some(rest) => Some(seq![c] + rest),
                    }
                }
            },
        }
    }
}

#[via_fn]
proof fn spec_history_dec(ls: Seq<Seq<char>>, repo: Seq<char>) {
    if ls.len() >= 8 {
        lemma_block_len_range(ls.skip(8));
    }
}

/// The records a whole history text denotes for one repository name, or
/// nothing when it is malformed.
pub open spec fn history_records(s: Seq<char>, repo: Seq<char>) -> Option<Seq<CommitView>> {
    spec_history(split_nl(s), repo)
}

/// Records put in front of a parse's remainder; a malformed remainder stays
/// malformed.
pub open spec fn prepend_commits(p: Seq<CommitView>, o: Option<Seq<CommitView>>) -> Option<
    Seq<CommitView>,
> {
    match o {
        Some(t) => Some(p + t),
        None => None,
    }
}

/// Entries put in front of a block's remainder; a malformed remainder stays
/// malformed.
pub open spec fn prepend_entries(p: Seq<NumstatView>, o: Option<Seq<NumstatView>>) -> Option<
    Seq<NumstatView>,
> {
    match o {
        Some(t) => Some(p + t),
        None => None,
    }
}

/// Parses the history text of one repository walk into commit records.  It
/// succeeds exactly when the text is well formed, and then returns precisely
/// the records `history_records` denotes: one per block in the order of the
/// walk, each carrying the given repository name, its block's fields and
/// times, the sums of its own numstat block, and a merge flag saying whether
/// its commit line lists at least two parents.
#[verifier::rlimit(80)]
pub fn parse_commits(s: &str, repo_name: &str) -> (r: Result<Vec<CommitRecord>, String>)
    ensures
        r is Ok <==> history_records(s@, repo_name@) is Some,
        r is Ok ==> r->Ok_0@.map_values(|c: CommitRecord| c@) == history_records(
            s@,
            repo_name@,
        )->Some_0,
        r is Ok ==> r->Ok_0@.len() == count_headers(split_nl(s@)),
        r is Ok ==> forall|i: int|
            0 <= i < r->Ok_0@.len() ==> (#[trigger] r->Ok_0@[i])@.repo_name == repo_name@
                && r->Ok_0@[i]@.sha.len() > 0 && r->Ok_0@[i]@.author_timestamp >= 0
                && r->Ok_0@[i]@.committer_timestamp >= 0,
        s@.len() == 0 ==> r is Ok,
{
    if s.unicode_len() == 0 {
        let empty_out: Vec<CommitRecord> = Vec::new();
        proof {
            assert(split_nl(s@) =~~= seq![Seq::<char>::empty()]);
            assert(seq![Seq::<char>::empty()].drop_last() =~= Seq::<Seq<char>>::empty());
            assert(count_headers(Seq::<Seq<char>>::empty()) == 0);
            assert(count_headers(seq![Seq::<char>::empty()]) == 0);
            assert(seq![Seq::<char>::empty()].drop_first() =~= Seq::<Seq<char>>::empty());
            assert(spec_history(Seq::<Seq<char>>::empty(), repo_name@) == Some(
                Seq::<CommitView>::empty(),
            ));
            assert(history_records(s@, repo_name@) == Some(Seq::<CommitView>::empty()));
            assert(empty_out@.map_values(|c: CommitRecord| c@) =~= Seq::<CommitView>::empty());
        }
        return Ok(empty_out);
    }
    let lines = split_lines(s);
    let ghost lviews = lines@.map_values(|x: String| x@);
    let n = lines.len();
    let mut out: Vec<CommitRecord> = Vec::new();
    let mut j: usize = 0;
    proof {
        assert(lviews.take(0) =~= Seq::<Seq<char>>::empty());
        assert(lviews.skip(0) =~= lviews);
        assert(out@.map_values(|c: CommitRecord| c@) =~= Seq::<CommitView>::empty());
        if spec_history(lviews, repo_name@) is Some {
            assert(Seq::<CommitView>::empty() + spec_history(lviews, repo_name@)->Some_0
                =~= spec_history(lviews, repo_name@)->Some_0);
        }
    }
    while j < n
        invariant
            s@.len() != 0,
            0 <= j <= n,
            n == lines@.len(),
            lviews == lines@.map_values(|x: String| x@),
            lviews == split_nl(s@),
            out@.len() == count_headers(lviews.take(j as int)),
            forall|k: int|
                0 <= k < out@.len() ==> (#[trigger] out@[k])@.repo_name == repo_name@
                    && out@[k]@.sha.len() > 0 && out@[k]@.author_timestamp >= 0
                    && out@[k]@.committer_timestamp >= 0,
            prepend_commits(
                out@.map_values(|c: CommitRecord| c@),
                spec_history(lviews.skip(j as int), repo_name@),
            ) == history_records(s@, repo_name@),
        decreases n - j,
    {
        proof {
            assert(lviews[j as int] == lines@[j as int]@);
            lemma_count_headers_step(lviews, j as int);
            assert(lviews.skip(j as int)[0] == lviews[j as int]);
            assert(lviews.skip(j as int).drop_first() =~= lviews.skip(j as int + 1));
        }
        let line = lines[j].as_str();
        if line.unicode_len() == 0 {
            j = j + 1;
        } else if !is_header(line) {
            proof {
                assert(spec_history(lviews.skip(j as int), repo_name@) is None);
            }
            return Err(String::from_str("history parse error: unexpected line"));
        } else {
            let ghost ls = lviews.skip(j as int);
            let (sha, merge_parents) = match parse_commit_header(line) {
                Some(v) => v,
                None => {
                    proof {
                        assert(spec_history(ls, repo_name@) is None);
                    }
                    return Err(String::from_str("history parse error: malformed commit line"));
                },
            };
            let mut j2: usize = j + 1;
            let author_name = match take_field(&lines, j2, "N ") {
                Some(v) => v,
                None => {
                    proof {
                        assert(ls.len() == n - j);
                        if j2 < n {
                            assert(ls[1] == lviews[j as int + 1]);
                        }
                        assert(!field_wf(ls, 1, "N "@));
                        assert(spec_history(ls, repo_name@) is None);
                    }
                    return Err(String::from_str("history parse error: author name missing"));
                },
            };
            proof {
                reveal_strlit("N ");
                assert(ls[1] == lviews[j as int + 1]);
                lemma_field_not_header(lviews[j2 as int], "N "@);
                lemma_count_headers_step(lviews, j2 as int);
            }
            j2 = j2 + 1;
            let author_email = match take_field(&lines, j2, "E ") {
                Some(v) => v,
                None => {
                    proof {
                        assert(ls.len() == n - j);
                        if j2 < n {
                            assert(ls[2] == lviews[j as int + 2]);
                        }
                        assert(!field_wf(ls, 2, "E "@));
                        assert(spec_history(ls, repo_name@) is None);
                    }
                    return Err(String::from_str("history parse error: author mail missing"));
                },
            };
            proof {
                reveal_strlit("E ");
                assert(ls[2] == lviews[j as int + 2]);
                lemma_field_not_header(lviews[j2 as int], "E "@);
                lemma_count_headers_step(lviews, j2 as int);
            }
            j2 = j2 + 1;
            let author_time = match take_field(&lines, j2, "T ") {
                Some(v) => v,
                None => {
                    proof {
                        assert(ls.len() == n - j);
                        if j2 < n {
                            assert(ls[3] == lviews[j as int + 3]);
                        }
                        assert(!field_wf(ls, 3, "T "@));
                        assert(spec_history(ls, repo_name@) is None);
                    }
                    return Err(String::from_str("history parse error: author time missing"));
                },
            };
            proof {
                reveal_strlit("T ");
                assert(ls[3] == lviews[j as int + 3]);
                lemma_field_not_header(lviews[j2 as int], "T "@);
                lemma_count_headers_step(lviews, j2 as int);
            }
            j2 = j2 + 1;
            let committer_name = match take_field(&lines, j2, "n ") {
                Some(v) => v,
                None => {
                    proof {
                        assert(ls.len() == n - j);
                        if j2 < n {
                            assert(ls[4] == lviews[j as int + 4]);
                        }
                        assert(!field_wf(ls, 4, "n "@));
                        assert(spec_history(ls, repo_name@) is None);
                    }
                    return Err(String::from_str("history parse error: committer name missing"));
                },
            };
            proof {
                reveal_strlit("n ");
                assert(ls[4] == lviews[j as int + 4]);
                lemma_field_not_header(lviews[j2 as int], "n "@);
                lemma_count_headers_step(lviews, j2 as int);
            }
            j2 = j2 + 1;
            let committer_email = match take_field(&lines, j2, "e ") {
                Some(v) => v,
                None => {
                    proof {
                        assert(ls.len() == n - j);
                        if j2 < n {
                            assert(ls[5] == lviews[j as int + 5]);
                        }
                        assert(!field_wf(ls, 5, "e "@));
                        assert(spec_history(ls, repo_name@) is None);
                    }
                    return Err(String::from_str("history parse error: committer mail missing"));
                },
            };
            proof {
                reveal_strlit("e ");
                assert(ls[5] == lviews[j as int + 5]);
                lemma_field_not_header(lviews[j2 as int], "e "@);
                lemma_count_headers_step(lviews, j2 as int);
            }
            j2 = j2 + 1;
            let committer_time = match take_field(&lines, j2, "t ") {
                Some(v) => v,
                None => {
                    proof {
                        assert(ls.len() == n - j);
                        if j2 < n {
                            assert(ls[6] == lviews[j as int + 6]);
                        }
                        assert(!field_wf(ls, 6, "t "@));
                        assert(spec_history(ls, repo_name@) is None);
                    }
                    return Err(String::from_str("history parse error: committer time missing"));
                },
            };
            proof {
                reveal_strlit("t ");
                assert(ls[6] == lviews[j as int + 6]);
                lemma_field_not_header(lviews[j2 as int], "t "@);
                lemma_count_headers_step(lviews, j2 as int);
            }
            j2 = j2 + 1;
            let message = match take_field(&lines, j2, "M ") {
                Some(v) => v,
                None => {
                    proof {
                        assert(ls.len() == n - j);
                        if j2 < n {
                            assert(ls[7] == lviews[j as int + 7]);
                        }
                        assert(!field_wf(ls, 7, "M "@));
                        assert(spec_history(ls, repo_name@) is None);
                    }
                    return Err(String::from_str("history parse error: message missing"));
                },
            };
            proof {
                reveal_strlit("M ");
                assert(ls[7] == lviews[j as int + 7]);
                lemma_field_not_header(lviews[j2 as int], "M "@);
                lemma_count_headers_step(lviews, j2 as int);
            }
            j2 = j2 + 1;
            let (author_timestamp, author_offset) = match parse_time_field(author_time.as_str()) {
                Some(v) => v,
                None => {
                    proof {
                        assert(author_time@ == field_val(ls, 3, "T "@));
                        assert(spec_history(ls, repo_name@) is None);
                    }
                    return Err(String::from_str("history parse error: malformed author time"));
                },
            };
            let (committer_timestamp, committer_offset) = match parse_time_field(
                committer_time.as_str(),
            ) {
                Some(v) => v,
                None => {
                    proof {
                        assert(author_time@ == field_val(ls, 3, "T "@));
                        assert(committer_time@ == field_val(ls, 6, "t "@));
                        assert(spec_history(ls, repo_name@) is None);
                    }
                    return Err(String::from_str("history parse error: malformed committer time"));
                },
            };
            proof {
                assert(author_time@ == field_val(ls, 3, "T "@));
                assert(committer_time@ == field_val(ls, 6, "t "@));
                assert(ls.skip(8) =~= lviews.skip(j as int + 8));
            }
            let mut entries: Vec<NumstatEntry> = Vec::new();
            proof {
                assert(entries@.map_values(|e: NumstatEntry| e@) =~= Seq::<NumstatView>::empty());
                if block_entries(lviews.skip(j as int + 8)) is Some {
                    assert(Seq::<NumstatView>::empty() + block_entries(
                        lviews.skip(j as int + 8),
                    )->Some_0 =~= block_entries(lviews.skip(j as int + 8))->Some_0);
                }
                if block_entries(lviews.skip(j as int + 8)) is None {
                    assert(spec_history(ls, repo_name@) is None);
                }
            }
            while j2 < n && lines[j2].as_str().unicode_len() > 0 && !is_header(lines[j2].as_str())
                invariant
                    s@.len() != 0,
                    j < j2 <= n,
                    j as int + 8 <= j2 as int,
                    n == lines@.len(),
                    lviews == lines@.map_values(|x: String| x@),
                    ls == lviews.skip(j as int),
                    block_entries(lviews.skip(j as int + 8)) is None ==> spec_history(
                        ls,
                        repo_name@,
                    ) is None,
                    spec_history(ls, repo_name@) is None ==> history_records(s@, repo_name@)
                        is None,
                    count_headers(lviews.take(j2 as int)) == count_headers(lviews.take(j as int))
                        + 1,
                    entries@.len() <= j2,
                    prepend_entries(
                        entries@.map_values(|e: NumstatEntry| e@),
                        block_entries(lviews.skip(j2 as int)),
                    ) == block_entries(lviews.skip(j as int + 8)),
                    block_len(lviews.skip(j as int + 8)) == j2 as int - j as int - 8 + block_len(
                        lviews.skip(j2 as int),
                    ),
                decreases n - j2,
            {
                proof {
                    assert(lviews[j2 as int] == lines@[j2 as int]@);
                    lemma_count_headers_step(lviews, j2 as int);
                    assert(lviews.skip(j2 as int)[0] == lviews[j2 as int]);
                    assert(lviews.skip(j2 as int).drop_first() =~= lviews.skip(j2 as int + 1));
                }
                let ghost prior_entries = entries@.map_values(|e: NumstatEntry| e@);
                match parse_numstat_line(lines[j2].as_str()) {
                    Some(e) => {
                        proof {
                            let tail = block_entries(lviews.skip(j2 as int + 1));
                            if tail is Some {
                                assert(block_entries(lviews.skip(j2 as int)) == Some(
                                    seq![e@] + tail->Some_0,
                                ));
                                assert(prior_entries + (seq![e@] + tail->Some_0) =~= prior_entries.push(
                                    e@,
                                ) + tail->Some_0);
                            } else {
                                assert(block_entries(lviews.skip(j2 as int)) is None);
                            }
                        }
                        entries.push(e);
                        proof {
                            assert(entries@.map_values(|e2: NumstatEntry| e2@)
                                =~= prior_entries.push(e@));
                        }
                    },
                    None => {
                        proof {
                            assert(block_entries(lviews.skip(j2 as int)) is None);
                            assert(block_entries(lviews.skip(j as int + 8)) is None);
                            assert(spec_history(ls, repo_name@) is None);
                        }
                        return Err(String::from_str("history parse error: malformed numstat line"),
                        );
                    },
                }
                j2 = j2 + 1;
            }
            proof {
                if j2 == n {
                    assert(lviews.skip(j2 as int) =~= Seq::<Seq<char>>::empty());
                }
                assert(lviews.skip(j2 as int).len() == n - j2);
                if j2 < n {
                    assert(lviews.skip(j2 as int)[0] == lviews[j2 as int]);
                    assert(lviews[j2 as int] == lines@[j2 as int]@);
                }
                assert(block_len(lviews.skip(j2 as int)) == 0);
                assert(block_entries(lviews.skip(j2 as int)) == Some(Seq::<NumstatView>::empty()));
                assert(entries@.map_values(|e: NumstatEntry| e@) + Seq::<NumstatView>::empty()
                    =~= entries@.map_values(|e: NumstatEntry| e@));
                assert(block_entries(lviews.skip(j as int + 8)) == Some(
                    entries@.map_values(|e: NumstatEntry| e@),
                ));
                assert(block_len(lviews.skip(j as int + 8)) == j2 as int - j as int - 8);
                assert(ls.skip(8 + block_len(ls.skip(8))) =~= lviews.skip(j2 as int));
            }
            if entries.len() > u32::MAX as usize {
                proof {
                    assert(spec_history(ls, repo_name@) is None);
                }
                return Err(String::from_str("history parse error: diff too large"));
            }
            let record = build_record(
                sha,
                String::from_str(repo_name),
                message,
                author_name,
                author_email,
                author_timestamp,
                author_offset,
                committer_name,
                committer_email,
                committer_timestamp,
                committer_offset,
                merge_parents,
                &entries,
            );
            let ghost prior = out@.map_values(|c: CommitRecord| c@);
            proof {
                assert(record@.sha == ls[0].subrange(2, sha_end_of(ls[0])));
                assert(record@.is_merge == (count_tokens(ls[0], sha_end_of(ls[0])) >= 2));
                assert(record@.author_timestamp == time_secs(field_val(ls, 3, "T "@)) as i64);
                assert(record@.committer_timestamp == time_secs(field_val(ls, 6, "t "@)) as i64);
                assert(record@.author_offset == time_off(field_val(ls, 3, "T "@)) as i32);
                assert(record@.committer_offset == time_off(field_val(ls, 6, "t "@)) as i32);
                assert(record@.additions == sum_adds(entries@.map_values(|e: NumstatEntry| e@))
                    as u64);
                assert(record@.deletions == sum_dels(entries@.map_values(|e: NumstatEntry| e@))
                    as u64);
                let tail = spec_history(lviews.skip(j2 as int), repo_name@);
                if tail is Some {
                    assert(spec_history(ls, repo_name@) == Some(seq![record@] + tail->Some_0));
                    assert(prior + (seq![record@] + tail->Some_0) =~= prior.push(record@)
                        + tail->Some_0);
                } else {
                    assert(spec_history(ls, repo_name@) is None);
                }
            }
            out.push(record);
            proof {
                assert(out@.map_values(|c: CommitRecord| c@) =~= prior.push(record@));
            }
            j = j2;
        }
    }
    proof {
        assert(lviews.take(n as int) =~= lviews);
        assert(lviews.skip(n as int) =~= Seq::<Seq<char>>::empty());
        assert(spec_history(lviews.skip(n as int), repo_name@) == Some(Seq::<CommitView>::empty()));
        let views = out@.map_values(|c: CommitRecord| c@);
        assert(views + Seq::<CommitView>::empty() =~= views);
        assert(history_records(s@, repo_name@) == Some(views));
    }
    Ok(out)
}

/// Where the commit hash ends: the first space after the `C ` prefix.
pub open spec fn sha_end_of(l: Seq<char>) -> int {
    first_at(l, ' ', 2)
}

/// A well-formed commit line: after `C `, a non-empty hash.
pub open spec fn commit_line_wf(l: Seq<char>) -> bool {
    l.len() >= 3 && first_at(l, ' ', 2) > 2
}

/// How many space-separated tokens stand at or after `q`.
pub open spec fn count_tokens(l: Seq<char>, q: int) -> int
    decreases l.len() - q,
    via count_tokens_dec
{
    if q < 0 || q >= l.len() {
        0
    } else if l[q] == ' ' {
        count_tokens(l, q + 1)
    } else {
        1 + count_tokens(l, first_at(l, ' ', q))
    }
}

#[via_fn]
proof fn count_tokens_dec(l: Seq<char>, q: int) {
    if 0 <= q < l.len() && l[q] != ' ' {
        crate::text::lemma_first_at_range(l, ' ', q + 1);
    }
}

/// There is never a negative number of tokens.
pub proof fn lemma_count_tokens_nonneg(l: Seq<char>, q: int)
    ensures
        count_tokens(l, q) >= 0,
    decreases l.len() - q,
{
    if 0 <= q < l.len() {
        if l[q] == ' ' {
            lemma_count_tokens_nonneg(l, q + 1);
        } else {
            crate::text::lemma_first_at_range(l, ' ', q + 1);
            lemma_count_tokens_nonneg(l, first_at(l, ' ', q));
        }
    }
}

/// Parses a `C <sha> <parents...>` line: the commit hash and its parent
/// count, the count capped at two, which is all the merge flag needs.  It
/// succeeds exactly on a well-formed commit line.
fn parse_commit_header(line: &str) -> (r: Option<(String, u32)>)
    requires
        is_header_line(line@),
    ensures
        r is Some <==> commit_line_wf(line@),
        r is Some ==> {
            let (sha, parents) = r->Some_0;
            &&& sha@ == line@.subrange(2, sha_end_of(line@))
            &&& sha@.len() > 0
            &&& parents as int == (if count_tokens(line@, sha_end_of(line@)) >= 2 {
                2int
            } else {
                count_tokens(line@, sha_end_of(line@))
            })
        },
{
    let len = line.unicode_len();
    if len < 3 {
        return None;
    }
    let sha_end = match find_char(line, ' ', 2) {
        Some(p) => p,
        None => len,
    };
    if sha_end == 2 {
        return None;
    }
    let sha = line.substring_char(2, sha_end).to_owned();
    let mut parents: u32 = 0;
    let mut q: usize = sha_end;
    proof {
        lemma_count_tokens_nonneg(line@, q as int);
    }
    while q < len
        invariant
            sha_end <= q <= len,
            2 < sha_end,
            len == line@.len(),
            sha_end as int == sha_end_of(line@),
            parents <= 2,
            count_tokens(line@, q as int) >= 0,
            (if count_tokens(line@, sha_end as int) >= 2 {
                2int
            } else {
                count_tokens(line@, sha_end as int)
            }) == (if parents as int + count_tokens(line@, q as int) >= 2 {
                2int
            } else {
                parents as int + count_tokens(line@, q as int)
            }),
        decreases len - q,
    {
        if line.get_char(q) == ' ' {
            proof {
                assert(count_tokens(line@, q as int) == count_tokens(line@, q as int + 1));
                lemma_count_tokens_nonneg(line@, q as int + 1);
            }
            q = q + 1;
        } else {
            if parents < 2 {
                parents = parents + 1;
            }
            proof {
                assert(first_at(line@, ' ', q as int) == first_at(line@, ' ', q as int + 1));
                assert(count_tokens(line@, q as int) == 1 + count_tokens(
                    line@,
                    first_at(line@, ' ', q as int),
                ));
            }
            q = skip_nonspace(line, q + 1);
            proof {
                lemma_count_tokens_nonneg(line@, q as int);
            }
        }
    }
    proof {
        assert(count_tokens(line@, q as int) == 0);
    }
    Some((sha, parents))
}

/// Advances past the characters of one token, to the first space at or
/// after `from`.
fn skip_nonspace(line: &str, from: usize) -> (r: usize)
    requires
        from <= line@.len(),
    ensures
        from <= r <= line@.len(),
        r as int == first_at(line@, ' ', from as int),
{
    let len = line.unicode_len();
    let mut q = from;
    while q < len && line.get_char(q) != ' '
        invariant
            from <= q <= len,
            len == line@.len(),
            forall|k: int| from <= k < q ==> line@[k] != ' ',
        decreases len - q,
    {
        q = q + 1;
    }
    proof {
        crate::text::lemma_first_at_is(line@, ' ', from as int, q as int);
    }
    q
}

/// Where a path's final component begins: right after its last slash.
pub open spec fn base_start(s: Seq<char>) -> int
    decreases s.len(),
{
    if s.len() == 0 {
        0
    } else if s.last() == '/' {
        s.len() as int
    } else {
        base_start(s.drop_last())
    }
}

/// The component start lies within the sequence.
pub proof fn lemma_base_start_in_range(s: Seq<char>)
    ensures
        0 <= base_start(s) <= s.len(),
    decreases s.len(),
{
    if s.len() > 0 {
        lemma_base_start_in_range(s.drop_last());
    }
}

/// A name with a trailing `.git` loses it; any other stays whole.
pub open spec fn strip_git(b: Seq<char>) -> Seq<char> {
    if b.len() >= 4 && b.subrange(b.len() - 4, b.len() as int) == ".git"@ {
        b.subrange(0, b.len() - 4)
    } else {
        b
    }
}

/// The name of the repository at a working directory: the path's final
/// component, a trailing `.git` stripped.
pub fn repo_name_from_path(path: &str) -> (r: String)
    ensures
        r@ == strip_git(path@.subrange(base_start(path@), path@.len() as int)),
{
    let n = path.unicode_len();
    let mut start: usize = 0;
    let mut i: usize = 0;
    proof {
        assert(path@.take(0) =~= Seq::<char>::empty());
    }
    while i < n
        invariant
            0 <= start <= i <= n,
            n == path@.len(),
            start == base_start(path@.take(i as int)),
        decreases n - i,
    {
        proof {
            assert(path@.take(i + 1).drop_last() =~= path@.take(i as int));
            assert(path@.take(i + 1).last() == path@[i as int]);
        }
        if path.get_char(i) == '/' {
            start = i + 1;
        }
        i = i + 1;
    }
    proof {
        assert(path@.take(n as int) =~= path@);
    }
    let base = path.substring_char(start, n);
    let base_len = base.unicode_len();
    if base_len >= 4 {
        let tail = base.substring_char(base_len - 4, base_len);
        if str_eq(tail, ".git") {
            let r = base.substring_char(0, base_len - 4).to_owned();
            proof {
                assert(r@ == strip_git(base@));
            }
            return r;
        }
    }
    base.to_owned()
}

} // verus!
