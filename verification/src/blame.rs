//! Per-line authorship attribution: parsing Git's line-porcelain blame
//! output into plain records, and fanning it out over many files with
//! per-file error isolation.
//!
//! The porcelain text holds, per attributed line, a header
//! `<commit> <original-line> <final-line> [...]`, a run of metadata lines
//! (`author`, `author-mail`, and others), and the line's content prefixed by
//! a tab.  The parser checks that the final line numbers are exactly
//! `1..=N`, so a successful result always lists a file's lines completely
//! and in order.

use vstd::prelude::*;

use crate::text::{all_digits, dec_val, find_char, first_at, has_prefix, parse_u32, split_lines,
    split_nl, starts_with};

verus! {

/// One attributed line of one file.
#[derive(Debug, Clone, PartialEq)]
pub struct BlameLine {
    /// The commit that introduced or last modified the line.
    pub commit_id: String,
    /// The author of that commit.
    pub author_name: String,
    /// The author's mail address, without the angle brackets.
    pub author_email: String,
    /// The line's number in the introducing revision, 1-based.
    pub orig_line_no: u32,
    /// The line's number in the current revision, 1-based.
    pub final_line_no: u32,
    /// The line's content, without its trailing newline.
    pub line_content: String,
}

/// The mathematical value of an attributed line.
pub ghost struct BlameLineView {
    pub commit_id: Seq<char>,
    pub author_name: Seq<char>,
    pub author_email: Seq<char>,
    pub orig_line_no: u32,
    pub final_line_no: u32,
    pub line_content: Seq<char>,
}

impl View for BlameLine {
    type V = BlameLineView;

    open spec fn view(&self) -> BlameLineView {
        BlameLineView {
            commit_id: self.commit_id@,
            author_name: self.author_name@,
            author_email: self.author_email@,
            orig_line_no: self.orig_line_no,
            final_line_no: self.final_line_no,
            line_content: self.line_content@,
        }
    }
}

/// A content line of the porcelain format: the attributed text, behind a tab.
pub open spec fn is_tab_line(l: Seq<char>) -> bool {
    l.len() >= 1 && l[0] == '\t'
}

/// How many content lines a porcelain text holds: one per attributed line.
pub open spec fn count_tab(ls: Seq<Seq<char>>) -> int
    decreases ls.len(),
{
    if ls.len() == 0 {
        0
    } else {
        count_tab(ls.drop_last()) + if is_tab_line(ls.last()) {
            1int
        } else {
            0int
        }
    }
}

/// Extending the prefix by one line raises the content count by one exactly
/// when that line is a content line.
pub proof fn lemma_count_tab_step(ls: Seq<Seq<char>>, i: int)
    requires
        0 <= i < ls.len(),
    ensures
        count_tab(ls.take(i + 1)) == count_tab(ls.take(i)) + if is_tab_line(ls[i]) {
            1int
        } else {
            0int
        },
{
    assert(ls.take(i + 1).drop_last() =~= ls.take(i));
    assert(ls.take(i + 1).last() == ls[i]);
}

/// There are no more content lines than lines.
pub proof fn lemma_count_tab_le(ls: Seq<Seq<char>>)
    ensures
        0 <= count_tab(ls) <= ls.len(),
    decreases ls.len(),
{
    if ls.len() > 0 {
        lemma_count_tab_le(ls.drop_last());
    }
}

/// A well-formed porcelain header line: a non-empty commit name up to the
/// first space, then two non-empty, positive decimal line numbers up to the
/// next spaces.
pub open spec fn header_wf(l: Seq<char>) -> bool {
    let s1 = first_at(l, ' ', 0);
    let s2 = first_at(l, ' ', s1 + 1);
    let e3 = first_at(l, ' ', s2 + 1);
    &&& 0 < s1 < l.len()
    &&& s2 < l.len()
    &&& s1 + 1 < s2
    &&& all_digits(l.subrange(s1 + 1, s2))
    &&& 1 <= dec_val(l.subrange(s1 + 1, s2)) <= u32::MAX
    &&& s2 + 1 < e3
    &&& all_digits(l.subrange(s2 + 1, e3))
    &&& 1 <= dec_val(l.subrange(s2 + 1, e3)) <= u32::MAX
}

/// The commit name a header line carries.
pub open spec fn header_commit(l: Seq<char>) -> Seq<char> {
    l.subrange(0, first_at(l, ' ', 0))
}

/// The original line number a header line carries.
pub open spec fn header_orig(l: Seq<char>) -> int {
    let s1 = first_at(l, ' ', 0);
    let s2 = first_at(l, ' ', s1 + 1);
    dec_val(l.subrange(s1 + 1, s2))
}

/// The final line number a header line carries.
pub open spec fn header_fin(l: Seq<char>) -> int {
    let s1 = first_at(l, ' ', 0);
    let s2 = first_at(l, ' ', s1 + 1);
    let e3 = first_at(l, ' ', s2 + 1);
    dec_val(l.subrange(s2 + 1, e3))
}

/// A mail address with one pair of enclosing angle brackets loses them.
pub open spec fn strip_angles_spec(b: Seq<char>) -> Seq<char> {
    if b.len() >= 2 && b[0] == '<' && b[b.len() - 1] == '>' {
        b.subrange(1, b.len() - 1)
    } else {
        b
    }
}

/// What an `author` metadata line makes of the gathered author name.
pub open spec fn meta_name(l: Seq<char>, name: Seq<char>) -> Seq<char> {
    if has_prefix(l, "author "@) {
        l.subrange("author "@.len() as int, l.len() as int)
    } else {
        name
    }
}

/// What an `author-mail` metadata line makes of the gathered address.
pub open spec fn meta_mail(l: Seq<char>, mail: Seq<char>) -> Seq<char> {
    if !has_prefix(l, "author "@) && has_prefix(l, "author-mail "@) {
        strip_angles_spec(l.subrange("author-mail "@.len() as int, l.len() as int))
    } else {
        mail
    }
}

/// The records of one group's remainder: metadata lines fold into the name
/// and address until the content line closes the record, and the rest of the
/// text follows; a group without a content line is malformed.
pub open spec fn group_records(
    ls: Seq<Seq<char>>,
    commit: Seq<char>,
    orig: u32,
    fin: u32,
    name: Seq<char>,
    mail: Seq<char>,
    next: int,
) -> Option<Seq<BlameLineView>>
    decreases ls.len(),
{
    if ls.len() == 0 {
        None
    } else if is_tab_line(ls[0]) {
        let record = BlameLineView {
            commit_id: commit,
            author_name: name,
            author_email: mail,
            orig_line_no: orig,
            final_line_no: fin,
            line_content: ls[0].subrange(1, ls[0].len() as int),
        };
        match spec_blame(ls.drop_first(), next + 1) {
            Some(rest) => Some(seq![record] + rest),
            None => None,
        }
    } else {
        group_records(
            ls.drop_first(),
            commit,
            orig,
            fin,
            meta_name(ls[0], name),
            meta_mail(ls[0], mail),
            next,
        )
    }
}

/// The records a porcelain line sequence denotes, `next` being the final
/// line number the coming record must carry: empty lines pass, a group opens
/// with a well-formed header whose final number is `next`, and anything else
/// is malformed.
pub open spec fn spec_blame(ls: Seq<Seq<char>>, next: int) -> Option<Seq<BlameLineView>>
    decreases ls.len(),
{
    if ls.len() == 0 {
        Some(Seq::empty())
    } else if ls[0].len() == 0 {
        spec_blame(ls.drop_first(), next)
    } else if is_tab_line(ls[0]) {
        None
    } else if !(header_wf(ls[0]) && header_fin(ls[0]) == next) {
        None
    } else {
        group_records(
            ls.drop_first(),
            header_commit(ls[0]),
            header_orig(ls[0]) as u32,
            header_fin(ls[0]) as u32,
            Seq::empty(),
            Seq::empty(),
            next,
        )
    }
}

/// The records a whole porcelain text denotes, or nothing when it is
/// malformed.
pub open spec fn blame_records(s: Seq<char>) -> Option<Seq<BlameLineView>> {
    spec_blame(split_nl(s), 1)
}

/// Records put in front of a parse's remainder; a malformed remainder stays
/// malformed.
pub open spec fn prepend_records(p: Seq<BlameLineView>, o: Option<Seq<BlameLineView>>) -> Option<
    Seq<BlameLineView>,
> {
    match o {
        Some(t) => Some(p + t),
        None => None,
    }
}

/// The blame result for one file lists the file completely and in order:
/// final line numbers are exactly 1..=N.
pub open spec fn blame_contiguous(v: Seq<BlameLineView>) -> bool {
    forall|i: int| 0 <= i < v.len() ==> (#[trigger] v[i]).final_line_no == i + 1
}

/// Decides `blame_contiguous` for a list of records.
pub fn check_contiguous(v: &Vec<BlameLine>) -> (r: bool)
    ensures
        r == blame_contiguous(v@.map_values(|b: BlameLine| b@)),
{
    let n = v.len();
    if n > u32::MAX as usize {
        proof {
            let views = v@.map_values(|b: BlameLine| b@);
            if blame_contiguous(views) {
                assert(views[u32::MAX as int].final_line_no == u32::MAX as int + 1);
            }
        }
        return false;
    }
    let mut i: usize = 0;
    while i < n
        invariant
            0 <= i <= n,
            n == v@.len(),
            n <= u32::MAX,
            forall|k: int| 0 <= k < i ==> (#[trigger] v@[k])@.final_line_no == k + 1,
        decreases n - i,
    {
        proof {
            assert(v@.map_values(|b: BlameLine| b@)[i as int] == v@[i as int]@);
        }
        if v[i].final_line_no != (i as u32) + 1 {
            proof {
                let views = v@.map_values(|b: BlameLine| b@);
                assert(views[i as int].final_line_no != i + 1);
            }
            return false;
        }
        i = i + 1;
    }
    proof {
        let views = v@.map_values(|b: BlameLine| b@);
        assert forall|k: int| 0 <= k < views.len() implies (#[trigger] views[k]).final_line_no == k
            + 1 by {
            assert(views[k] == v@[k]@);
        }
    }
    true
}

/// Parses the line-porcelain blame output of one file.  It succeeds exactly
/// when the text is well formed, and then returns precisely the records
/// `blame_records` denotes: one entry per content line, in order, each
/// carrying its block's commit, author fields and content, with final line
/// numbers exactly 1..=N and original line numbers at least 1.
pub fn parse_blame_porcelain(s: &str) -> (r: Result<Vec<BlameLine>, String>)
    ensures
        r is Ok <==> blame_records(s@) is Some,
        r is Ok ==> r->Ok_0@.map_values(|b: BlameLine| b@) == blame_records(s@)->Some_0,
        r is Ok ==> r->Ok_0@.len() == count_tab(split_nl(s@)),
        r is Ok ==> blame_contiguous(r->Ok_0@.map_values(|b: BlameLine| b@)),
        r is Ok ==> forall|i: int|
            0 <= i < r->Ok_0@.len() ==> (#[trigger] r->Ok_0@[i])@.orig_line_no >= 1
                && r->Ok_0@[i]@.commit_id.len() > 0,
        s@.len() == 0 ==> r is Ok,
{
    if s.unicode_len() == 0 {
        let empty_out: Vec<BlameLine> = Vec::new();
        proof {
            assert(split_nl(s@) =~~= seq![Seq::<char>::empty()]);
            assert(seq![Seq::<char>::empty()].drop_last() =~= Seq::<Seq<char>>::empty());
            assert(count_tab(Seq::<Seq<char>>::empty()) == 0);
            assert(count_tab(seq![Seq::<char>::empty()]) == 0);
            assert(seq![Seq::<char>::empty()].drop_first() =~= Seq::<Seq<char>>::empty());
            assert(spec_blame(Seq::<Seq<char>>::empty(), 1) == Some(Seq::<BlameLineView>::empty()));
            assert(blame_records(s@) == Some(Seq::<BlameLineView>::empty()));
            assert(empty_out@.map_values(|b: BlameLine| b@) =~= Seq::<BlameLineView>::empty());
        }
        return Ok(empty_out);
    }
    let lines = split_lines(s);
    let ghost lviews = lines@.map_values(|x: String| x@);
    proof {
        assert(lviews == split_nl(s@));
    }
    let n = lines.len();
    let mut out: Vec<BlameLine> = Vec::new();
    let mut j: usize = 0;
    proof {
        assert(lviews.take(0) =~= Seq::<Seq<char>>::empty());
        assert(lviews.skip(0) =~= lviews);
        assert(out@.map_values(|b: BlameLine| b@) =~= Seq::<BlameLineView>::empty());
        if spec_blame(lviews, 1) is Some {
            assert(Seq::<BlameLineView>::empty() + spec_blame(lviews, 1)->Some_0 =~= spec_blame(
                lviews,
                1,
            )->Some_0);
        }
    }
    while j < n
        invariant
            s@.len() != 0,
            0 <= j <= n,
            n == lines@.len(),
            lviews == lines@.map_values(|x: String| x@),
            lviews == split_nl(s@),
            out@.len() == count_tab(lviews.take(j as int)),
            forall|k: int| 0 <= k < out@.len() ==> (#[trigger] out@[k])@.final_line_no == k + 1,
            forall|k: int|
                0 <= k < out@.len() ==> (#[trigger] out@[k])@.orig_line_no >= 1
                    && out@[k]@.commit_id.len() > 0,
            prepend_records(
                out@.map_values(|b: BlameLine| b@),
                spec_blame(lviews.skip(j as int), out@.len() as int + 1),
            ) == blame_records(s@),
        decreases n - j,
    {
        proof {
            assert(lviews[j as int] == lines@[j as int]@);
            lemma_count_tab_step(lviews, j as int);
            lemma_count_tab_le(lviews.take(j as int));
            assert(lviews.skip(j as int)[0] == lviews[j as int]);
            assert(lviews.skip(j as int).drop_first() =~= lviews.skip(j + 1));
        }
        let line = lines[j].as_str();
        if is_tab(line) {
            proof {
                assert(spec_blame(lviews.skip(j as int), out@.len() as int + 1) is None);
            }
            return Err(String::from_str("blame parse error: content line without a header"));
        }
        if line.unicode_len() == 0 {
            j = j + 1;
        } else {
            let header = parse_blame_header(line);
            match header {
                None => {
                    proof {
                        assert(spec_blame(lviews.skip(j as int), out@.len() as int + 1) is None);
                    }
                    return Err(String::from_str("blame parse error: malformed header line"));
                },
                Some((commit_id, orig_line_no, final_line_no)) => {
                    if final_line_no as usize != out.len() + 1 {
                        proof {
                            assert(spec_blame(lviews.skip(j as int), out@.len() as int + 1) is None);
                        }
                        return Err(
                            String::from_str("blame parse error: final line numbers out of order"),
                        );
                    }
                    proof {
                        assert(header_orig(line@) as u32 == orig_line_no);
                        assert(header_fin(line@) as u32 == final_line_no);
                        assert(spec_blame(lviews.skip(j as int), out@.len() as int + 1) == group_records(
                            lviews.skip(j + 1),
                            commit_id@,
                            orig_line_no,
                            final_line_no,
                            Seq::empty(),
                            Seq::empty(),
                            out@.len() as int + 1,
                        ));
                    }
                    let mut author_name = String::new();
                    let mut author_email = String::new();
                    let mut j2: usize = j + 1;
                    proof {
                        assert(author_name@ =~= Seq::<char>::empty());
                        assert(author_email@ =~= Seq::<char>::empty());
                    }
                    while j2 < n && !is_tab(lines[j2].as_str())
                        invariant
                            s@.len() != 0,
                            j < j2 <= n,
                            n == lines@.len(),
                            lviews == lines@.map_values(|x: String| x@),
                            count_tab(lviews.take(j2 as int)) == count_tab(lviews.take(j as int)),
                            forall|k: int| j2 <= k < n ==> lviews[k] == lines@[k]@,
                            group_records(
                                lviews.skip(j2 as int),
                                commit_id@,
                                orig_line_no,
                                final_line_no,
                                author_name@,
                                author_email@,
                                out@.len() as int + 1,
                            ) == spec_blame(lviews.skip(j as int), out@.len() as int + 1),
                        decreases n - j2,
                    {
                        proof {
                            assert(lviews[j2 as int] == lines@[j2 as int]@);
                            lemma_count_tab_step(lviews, j2 as int);
                            assert(lviews.skip(j2 as int)[0] == lviews[j2 as int]);
                            assert(lviews.skip(j2 as int).drop_first() =~= lviews.skip(j2 + 1));
                        }
                        let meta = lines[j2].as_str();
                        let meta_len = meta.unicode_len();
                        if starts_with(meta, "author ") {
                            proof {
                                reveal_strlit("author ");
                            }
                            author_name = meta.substring_char(7, meta_len).to_owned();
                        } else if starts_with(meta, "author-mail ") {
                            proof {
                                reveal_strlit("author-mail ");
                            }
                            let raw = meta.substring_char(12, meta_len);
                            author_email = strip_angles(raw);
                        }
                        j2 = j2 + 1;
                    }
                    if j2 == n {
                        proof {
                            assert(lviews.skip(j2 as int) =~= Seq::<Seq<char>>::empty());
                            assert(spec_blame(lviews.skip(j as int), out@.len() as int + 1) is None);
                        }
                        return Err(
                            String::from_str("blame parse error: record without a content line"),
                        );
                    }
                    proof {
                        assert(lviews[j2 as int] == lines@[j2 as int]@);
                        lemma_count_tab_step(lviews, j2 as int);
                        lemma_count_tab_le(lviews.take(j2 as int));
                        lemma_count_tab_le(lviews);
                        assert(lviews.skip(j2 as int)[0] == lviews[j2 as int]);
                        assert(lviews.skip(j2 as int).drop_first() =~= lviews.skip(j2 + 1));
                    }
                    let content_line = lines[j2].as_str();
                    let content_len = content_line.unicode_len();
                    let line_content = content_line.substring_char(1, content_len).to_owned();
                    let record = BlameLine {
                        commit_id,
                        author_name,
                        author_email,
                        orig_line_no,
                        final_line_no,
                        line_content,
                    };
                    let ghost prior = out@.map_values(|b: BlameLine| b@);
                    proof {
                        let tail = spec_blame(lviews.skip(j2 + 1), prior.len() as int + 2);
                        if tail is Some {
                            assert(spec_blame(lviews.skip(j as int), prior.len() as int + 1) == Some(
                                seq![record@] + tail->Some_0,
                            ));
                            assert(prior + (seq![record@] + tail->Some_0) =~= prior.push(record@)
                                + tail->Some_0);
                        } else {
                            assert(spec_blame(lviews.skip(j as int), prior.len() as int + 1) is None);
                        }
                    }
                    out.push(record);
                    proof {
                        assert(out@.map_values(|b: BlameLine| b@) =~= prior.push(record@));
                    }
                    j = j2 + 1;
                },
            }
        }
    }
    proof {
        assert(lviews.take(n as int) =~= lviews);
        let views = out@.map_values(|b: BlameLine| b@);
        assert forall|k: int| 0 <= k < views.len() implies (#[trigger] views[k]).final_line_no == k
            + 1 by {
            assert(views[k] == out@[k]@);
        }
        assert(lviews.skip(n as int) =~= Seq::<Seq<char>>::empty());
        assert(spec_blame(lviews.skip(n as int), out@.len() as int + 1) == Some(
            Seq::<BlameLineView>::empty(),
        ));
        assert(views + Seq::<BlameLineView>::empty() =~= views);
        assert(blame_records(s@) == Some(views));
    }
    Ok(out)
}

/// Whether the line is a content line: its first character is a tab.
fn is_tab(line: &str) -> (r: bool)
    ensures
        r == is_tab_line(line@),
{
    if line.unicode_len() == 0 {
        false
    } else {
        line.get_char(0) == '\t'
    }
}

/// Parses a porcelain header line `<commit> <orig> <final> [...]`: it
/// succeeds exactly on a well-formed header, and reads the fields the
/// header specs say.
fn parse_blame_header(line: &str) -> (r: Option<(String, u32, u32)>)
    ensures
        r is Some <==> header_wf(line@),
        r is Some ==> {
            let (commit, orig, fin) = r->Some_0;
            &&& commit@ == header_commit(line@)
            &&& commit@.len() > 0
            &&& orig == header_orig(line@)
            &&& orig >= 1
            &&& fin == header_fin(line@)
            &&& fin >= 1
        },
{
    let len = line.unicode_len();
    let sp1 = match find_char(line, ' ', 0) {
        Some(p) => p,
        None => {
            return None;
        },
    };
    if sp1 == 0 {
        return None;
    }
    let sp2 = match find_char(line, ' ', sp1 + 1) {
        Some(p) => p,
        None => {
            return None;
        },
    };
    let end3 = match find_char(line, ' ', sp2 + 1) {
        Some(p) => p,
        None => len,
    };
    let commit = line.substring_char(0, sp1).to_owned();
    let orig = match parse_u32(line.substring_char(sp1 + 1, sp2)) {
        Some(v) => v,
        None => {
            return None;
        },
    };
    let fin = match parse_u32(line.substring_char(sp2 + 1, end3)) {
        Some(v) => v,
        None => {
            return None;
        },
    };
    if orig == 0 || fin == 0 {
        return None;
    }
    Some((commit, orig, fin))
}

/// Removes one pair of enclosing angle brackets, as Git writes around mail
/// addresses.
fn strip_angles(s: &str) -> (r: String)
    ensures
        r@ == strip_angles_spec(s@),
{
    let n = s.unicode_len();
    if n >= 2 && s.get_char(0) == '<' && s.get_char(n - 1) == '>' {
        s.substring_char(1, n - 1).to_owned()
    } else {
        proof {
            assert(s@.subrange(0, n as int) =~= s@);
        }
        s.substring_char(0, n).to_owned()
    }
}

/// Blames many files at once: pairs each file path with the parse of its raw
/// blame text, or with its per-file error.  One file's failure never touches
/// its siblings: every input file appears in the result, in order, and each
/// successful entry satisfies the per-file guarantees of
/// `parse_blame_porcelain`.
pub fn bulk_blame_collect(file_paths: &Vec<String>, raws: &Vec<Result<String, String>>) -> (r: Vec<
    (String, Result<Vec<BlameLine>, String>),
>)
    requires
        raws@.len() == file_paths@.len(),
    ensures
        r@.len() == file_paths@.len(),
        forall|i: int| 0 <= i < r@.len() ==> (#[trigger] r@[i].0)@ == file_paths@[i]@,
        forall|i: int|
            0 <= i < r@.len() && raws@[i] is Err ==> (#[trigger] r@[i].1) is Err
                && r@[i].1->Err_0@ == raws@[i]->Err_0@,
        forall|i: int|
            0 <= i < r@.len() && (#[trigger] r@[i].1) is Ok ==> raws@[i] is Ok
                && r@[i].1->Ok_0@.len() == count_tab(split_nl(raws@[i]->Ok_0@))
                && blame_contiguous(r@[i].1->Ok_0@.map_values(|b: BlameLine| b@)),
        forall|i: int|
            0 <= i < r@.len() && raws@[i] is Ok ==> ((#[trigger] r@[i].1) is Ok
                <==> blame_records(raws@[i]->Ok_0@) is Some),
        forall|i: int|
            0 <= i < r@.len() && raws@[i] is Ok && (#[trigger] r@[i].1) is Ok ==> r@[i].1->Ok_0@.map_values(
                |b: BlameLine| b@,
            ) == blame_records(raws@[i]->Ok_0@)->Some_0,
{
    let n = file_paths.len();
    let mut r: Vec<(String, Result<Vec<BlameLine>, String>)> = Vec::new();
    let mut i: usize = 0;
    while i < n
        invariant
            0 <= i <= n,
            n == file_paths@.len(),
            raws@.len() == n,
            r@.len() == i,
            forall|k: int| 0 <= k < i ==> (#[trigger] r@[k].0)@ == file_paths@[k]@,
            forall|k: int|
                0 <= k < i && raws@[k] is Err ==> (#[trigger] r@[k].1) is Err && r@[k].1->Err_0@
                    == raws@[k]->Err_0@,
            forall|k: int|
                0 <= k < i && (#[trigger] r@[k].1) is Ok ==> raws@[k] is Ok && r@[k].1->Ok_0@.len()
                    == count_tab(split_nl(raws@[k]->Ok_0@)) && blame_contiguous(
                    r@[k].1->Ok_0@.map_values(|b: BlameLine| b@),
                ),
            forall|k: int|
                0 <= k < i && raws@[k] is Ok ==> ((#[trigger] r@[k].1) is Ok <==> blame_records(
                    raws@[k]->Ok_0@,
                ) is Some),
            forall|k: int|
                0 <= k < i && raws@[k] is Ok && (#[trigger] r@[k].1) is Ok ==> r@[k].1->Ok_0@.map_values(
                    |b: BlameLine| b@,
                ) == blame_records(raws@[k]->Ok_0@)->Some_0,
        decreases n - i,
    {
        let path = file_paths[i].clone();
        let entry = match &raws[i] {
            Ok(text) => (path, parse_blame_porcelain(text.as_str())),
            Err(e) => (path, Err(e.clone())),
        };
        r.push(entry);
        i = i + 1;
    }
    r
}

} // verus!
