//! Small verified helpers over strings: decimal parsing and substring search.

use vstd::prelude::*;

verus! {

/// A character is a decimal digit.
pub open spec fn is_digit(c: char) -> bool {
    48 <= c as u32 <= 57
}

/// Every character of the sequence is a decimal digit.
pub open spec fn all_digits(s: Seq<char>) -> bool {
    forall|i: int| 0 <= i < s.len() ==> is_digit(#[trigger] s[i])
}

/// The value of a sequence of decimal digits, most significant first.
pub open spec fn dec_val(s: Seq<char>) -> int
    decreases s.len(),
{
    if s.len() == 0 {
        0
    } else {
        dec_val(s.drop_last()) * 10 + (s.last() as u32 - 48)
    }
}

/// The value of a digit sequence is non-negative, and each digit sequence is
/// worth at least as much as any of its prefixes.
pub proof fn lemma_dec_val_prefix(s: Seq<char>, i: int)
    requires
        all_digits(s),
        0 <= i <= s.len(),
    ensures
        0 <= dec_val(s.take(i)) <= dec_val(s),
    decreases s.len(),
{
    if s.len() == 0 {
        assert(s.take(i) =~= s);
    } else if i == s.len() {
        assert(s.take(i) =~= s);
        lemma_dec_val_prefix(s.drop_last(), s.len() - 1);
        assert(s.drop_last().take(s.len() - 1) =~= s.drop_last());
    } else {
        assert(s.take(i) =~= s.drop_last().take(i));
        assert(all_digits(s.drop_last()));
        lemma_dec_val_prefix(s.drop_last(), i);
    }
}

/// Parses a non-empty, all-digit string as a `u64`; rejects anything else and
/// any value past `u64::MAX`.
pub fn parse_u64(s: &str) -> (r: Option<u64>)
    ensures
        r is Some <==> s@.len() > 0 && all_digits(s@) && dec_val(s@) <= u64::MAX,
        r is Some ==> r->Some_0 == dec_val(s@),
{
    let n = s.unicode_len();
    if n == 0 {
        return None;
    }
    let mut acc: u64 = 0;
    let mut i: usize = 0;
    while i < n
        invariant
            0 <= i <= n,
            n == s@.len(),
            all_digits(s@.take(i as int)),
            acc == dec_val(s@.take(i as int)),
        decreases n - i,
    {
        let c = s.get_char(i);
        let u = c as u32;
        if !(48 <= u && u <= 57) {
            proof {
                assert(!is_digit(s@[i as int]));
            }
            return None;
        }
        let d = (u - 48) as u64;
        if acc > (u64::MAX - d) / 10 {
            proof {
                assert(s@.take(i + 1).drop_last() =~= s@.take(i as int));
                assert(s@.take(i + 1).last() == s@[i as int]);
                assert(dec_val(s@.take(i + 1)) == acc * 10 + d);
                assert(acc * 10 + d > u64::MAX) by (nonlinear_arith)
                    requires
                        acc > (u64::MAX - d) / 10,
                        0 <= d <= 9,
                {}
                if all_digits(s@) {
                    lemma_dec_val_prefix(s@, i + 1);
                }
            }
            return None;
        }
        proof {
            assert(acc * 10 + d <= u64::MAX) by (nonlinear_arith)
                requires
                    acc <= (u64::MAX - d) / 10,
                    0 <= d <= 9,
            {}
            assert(s@.take(i + 1).drop_last() =~= s@.take(i as int));
            assert(s@.take(i + 1).last() == s@[i as int]);
        }
        acc = acc * 10 + d;
        i = i + 1;
    }
    proof {
        assert(s@.take(n as int) =~= s@);
    }
    Some(acc)
}

/// Parses a non-empty, all-digit string as a `u32`.
pub fn parse_u32(s: &str) -> (r: Option<u32>)
    ensures
        r is Some <==> s@.len() > 0 && all_digits(s@) && dec_val(s@) <= u32::MAX,
        r is Some ==> r->Some_0 == dec_val(s@),
{
    match parse_u64(s) {
        Some(v) => {
            if v <= u32::MAX as u64 {
                Some(v as u32)
            } else {
                None
            }
        },
        None => {
            proof {
                if s@.len() > 0 && all_digits(s@) && dec_val(s@) <= u32::MAX {
                    assert(dec_val(s@) <= u64::MAX);
                }
            }
            None
        },
    }
}

/// Ten to the given power.
pub open spec fn pow10(n: nat) -> int
    decreases n,
{
    if n == 0 {
        1
    } else {
        10 * pow10((n - 1) as nat)
    }
}

/// Prepending a digit raises the value by that digit times ten to the old
/// length.
pub proof fn lemma_dec_val_prepend(c: char, t: Seq<char>)
    ensures
        dec_val(seq![c] + t) == (c as u32 - 48) * pow10(t.len() as nat) + dec_val(t),
    decreases t.len(),
{
    let s = seq![c] + t;
    if t.len() == 0 {
        assert(s =~= seq![c]);
        assert(s.drop_last() =~= Seq::<char>::empty());
        assert(dec_val(Seq::<char>::empty()) == 0);
    } else {
        assert(s.drop_last() =~= seq![c] + t.drop_last());
        assert(s.last() == t.last());
        lemma_dec_val_prepend(c, t.drop_last());
        assert(((c as u32 - 48) * pow10((t.len() - 1) as nat) + dec_val(t.drop_last())) * 10 + (
        t.last() as u32 - 48) == (c as u32 - 48) * pow10(t.len() as nat) + dec_val(t))
            by (nonlinear_arith)
            requires
                pow10(t.len() as nat) == 10 * pow10((t.len() - 1) as nat),
                dec_val(t) == dec_val(t.drop_last()) * 10 + (t.last() as u32 - 48),
        {}
    }
}

/// One digit as a string slice.
fn digit_str(d: u64) -> (r: &'static str)
    requires
        d < 10,
    ensures
        r@.len() == 1,
        r@[0] as u32 == 48 + d,
        is_digit(r@[0]),
{
    match d {
        0 => {
            proof {
                reveal_strlit("0");
            }
            "0"
        },
        1 => {
            proof {
                reveal_strlit("1");
            }
            "1"
        },
        2 => {
            proof {
                reveal_strlit("2");
            }
            "2"
        },
        3 => {
            proof {
                reveal_strlit("3");
            }
            "3"
        },
        4 => {
            proof {
                reveal_strlit("4");
            }
            "4"
        },
        5 => {
            proof {
                reveal_strlit("5");
            }
            "5"
        },
        6 => {
            proof {
                reveal_strlit("6");
            }
            "6"
        },
        7 => {
            proof {
                reveal_strlit("7");
            }
            "7"
        },
        8 => {
            proof {
                reveal_strlit("8");
            }
            "8"
        },
        _ => {
            proof {
                reveal_strlit("9");
            }
            "9"
        },
    }
}

/// Writes a `u64` in decimal: the digits are exactly the ones whose value
/// the number is, without a leading zero.
pub fn u64_to_dec(v: u64) -> (r: String)
    ensures
        all_digits(r@),
        r@.len() >= 1,
        dec_val(r@) == v,
        r@.len() > 1 ==> r@[0] != '0',
{
    if v == 0 {
        let r = String::from_str(digit_str(0));
        proof {
            assert(r@.drop_last() =~= Seq::<char>::empty());
            assert(dec_val(Seq::<char>::empty()) == 0);
        }
        return r;
    }
    let mut acc = String::new();
    let mut rem: u64 = v;
    proof {
        assert(acc@ =~= Seq::<char>::empty());
    }
    while rem > 0
        invariant
            all_digits(acc@),
            v == rem * pow10(acc@.len() as nat) + dec_val(acc@),
            rem == 0 ==> acc@.len() >= 1 && acc@[0] != '0',
            acc@.len() >= 1 ==> acc@[0] != '0' || rem > 0,
        decreases rem,
    {
        let d = rem % 10;
        let next = rem / 10;
        let ds = digit_str(d);
        let piece = String::from_str(ds);
        let joined = piece.concat(acc.as_str());
        proof {
            assert(joined@ =~= seq![ds@[0]] + acc@);
            lemma_dec_val_prepend(ds@[0], acc@);
            assert(rem == next * 10 + d);
            assert(v == next * pow10(joined@.len() as nat) + dec_val(joined@))
                by (nonlinear_arith)
                requires
                    v == rem * pow10(acc@.len() as nat) + dec_val(acc@),
                    rem == next * 10 + d,
                    dec_val(joined@) == d * pow10(acc@.len() as nat) + dec_val(acc@),
                    pow10(joined@.len() as nat) == 10 * pow10(acc@.len() as nat),
                    joined@.len() == acc@.len() + 1,
            {}
            assert(is_digit(joined@[0]));
            assert forall|k: int| 0 <= k < joined@.len() implies is_digit(
                #[trigger] joined@[k],
            ) by {
                if k > 0 {
                    assert(joined@[k] == acc@[k - 1]);
                }
            }
            if next == 0 {
                assert(d == rem);
                assert(joined@[0] as u32 == 48 + d);
            }
        }
        acc = joined;
        rem = next;
    }
    proof {
        assert(pow10(0nat) == 1);
    }
    acc
}

/// The needle occurs in the haystack starting at position `i`.
pub open spec fn match_at(hay: Seq<char>, needle: Seq<char>, i: int) -> bool {
    0 <= i && i + needle.len() <= hay.len() && hay.subrange(i, i + needle.len()) == needle
}

/// Compares the needle against the haystack at one position.
fn check_match_at(hay: &str, hay_len: usize, needle: &str, needle_len: usize, i: usize) -> (r:
    bool)
    requires
        hay_len == hay@.len(),
        needle_len == needle@.len(),
        i + needle_len <= hay_len,
    ensures
        r == match_at(hay@, needle@, i as int),
{
    let mut j: usize = 0;
    while j < needle_len
        invariant
            0 <= j <= needle_len,
            hay_len == hay@.len(),
            needle_len == needle@.len(),
            i + needle_len <= hay_len,
            forall|k: int| 0 <= k < j ==> hay@[i + k] == needle@[k],
        decreases needle_len - j,
    {
        if hay.get_char(i + j) != needle.get_char(j) {
            proof {
                assert(hay@.subrange(i as int, i + needle@.len())[j as int] == hay@[i + j]);
            }
            return false;
        }
        j = j + 1;
    }
    proof {
        assert(hay@.subrange(i as int, i + needle@.len()) =~= needle@);
    }
    true
}

/// Whether the haystack holds the needle anywhere.
pub fn contains_sub(hay: &str, needle: &str) -> (r: bool)
    ensures
        r == exists|i: int| match_at(hay@, needle@, i),
{
    let hay_len = hay.unicode_len();
    let needle_len = needle.unicode_len();
    if needle_len > hay_len {
        return false;
    }
    let bound = hay_len - needle_len;
    let mut i: usize = 0;
    while i <= bound
        invariant
            0 <= i <= bound + 1,
            bound == hay_len - needle_len,
            hay_len == hay@.len(),
            needle_len == needle@.len(),
            needle_len <= hay_len,
            forall|k: int| 0 <= k < i ==> !match_at(hay@, needle@, k),
        decreases bound + 1 - i,
    {
        if check_match_at(hay, hay_len, needle, needle_len, i) {
            return true;
        }
        if i == bound {
            return false;
        }
        i = i + 1;
    }
    false
}

/// The pieces of a sequence split at every newline: one more piece than
/// there are newlines, in order, each piece newline-free.
pub open spec fn split_nl(s: Seq<char>) -> Seq<Seq<char>>
    decreases s.len(),
{
    if s.len() == 0 {
        seq![Seq::empty()]
    } else {
        let rest = split_nl(s.drop_last());
        if s.last() == '\n' {
            rest.push(Seq::empty())
        } else {
            rest.update(rest.len() - 1, rest.last().push(s.last()))
        }
    }
}

/// Splitting yields at least one piece.
pub proof fn lemma_split_nl_len(s: Seq<char>)
    ensures
        split_nl(s).len() >= 1,
    decreases s.len(),
{
    if s.len() > 0 {
        lemma_split_nl_len(s.drop_last());
    }
}

/// Splits a string at every newline, as `split_nl` of its characters.
pub fn split_lines(s: &str) -> (r: Vec<String>)
    ensures
        r@.map_values(|x: String| x@) == split_nl(s@),
{
    let n = s.unicode_len();
    let mut done: Vec<String> = Vec::new();
    let mut piece_start: usize = 0;
    let mut i: usize = 0;
    proof {
        assert(split_nl(s@.take(0)) =~~= done@.map_values(|x: String| x@).push(
            s@.subrange(0, 0),
        ));
    }
    while i < n
        invariant
            0 <= piece_start <= i <= n,
            n == s@.len(),
            split_nl(s@.take(i as int)) == done@.map_values(|x: String| x@).push(
                s@.subrange(piece_start as int, i as int),
            ),
        decreases n - i,
    {
        let c = s.get_char(i);
        proof {
            assert(s@.take(i + 1).drop_last() =~= s@.take(i as int));
            assert(s@.take(i + 1).last() == s@[i as int]);
            lemma_split_nl_len(s@.take(i as int));
        }
        if c == '\n' {
            let piece = s.substring_char(piece_start, i);
            let owned = piece.to_owned();
            done.push(owned);
            proof {
                assert(split_nl(s@.take(i + 1)) =~~= done@.map_values(|x: String| x@).push(
                    s@.subrange(i + 1, i + 1),
                ));
            }
            piece_start = i + 1;
        } else {
            proof {
                assert(s@.subrange(piece_start as int, i as int).push(s@[i as int]) =~= s@.subrange(
                    piece_start as int,
                    i + 1,
                ));
                assert(split_nl(s@.take(i + 1)) =~~= done@.map_values(|x: String| x@).push(
                    s@.subrange(piece_start as int, i + 1),
                ));
            }
        }
        i = i + 1;
    }
    let piece = s.substring_char(piece_start, n);
    done.push(piece.to_owned());
    proof {
        assert(s@.take(n as int) =~= s@);
        assert(done@.map_values(|x: String| x@) =~~= split_nl(s@));
    }
    done
}

/// The index of the first occurrence of `c` at or after `from`, or the
/// length when there is none.
pub open spec fn first_at(l: Seq<char>, c: char, from: int) -> int
    decreases l.len() - from,
{
    if from < 0 || from >= l.len() {
        l.len() as int
    } else if l[from] == c {
        from
    } else {
        first_at(l, c, from + 1)
    }
}

/// `first_at` lies between `from` and the length, lands on `c` when it is
/// short of the length, and nothing before it matches.
pub proof fn lemma_first_at_range(l: Seq<char>, c: char, from: int)
    requires
        0 <= from <= l.len(),
    ensures
        from <= first_at(l, c, from) <= l.len(),
        first_at(l, c, from) < l.len() ==> l[first_at(l, c, from)] == c,
        forall|k: int| from <= k < first_at(l, c, from) ==> l[k] != c,
    decreases l.len() - from,
{
    if from < l.len() && l[from] != c {
        lemma_first_at_range(l, c, from + 1);
    }
}

/// Any index with a match and nothing earlier is `first_at`; so is the
/// length when nothing matches at all.
pub proof fn lemma_first_at_is(l: Seq<char>, c: char, from: int, i: int)
    requires
        0 <= from <= i <= l.len(),
        forall|k: int| from <= k < i ==> l[k] != c,
        i < l.len() ==> l[i] == c,
    ensures
        first_at(l, c, from) == i,
    decreases i - from,
{
    if from < i {
        lemma_first_at_is(l, c, from + 1, i);
    }
}

/// Finds the first occurrence of a character at or after `from`.
pub fn find_char(line: &str, c: char, from: usize) -> (r: Option<usize>)
    requires
        from <= line@.len(),
    ensures
        r is Some ==> from <= r->Some_0 < line@.len() && line@[r->Some_0 as int] == c && (forall|
        k: int|
            from <= k < r->Some_0 ==> line@[k] != c),
        r is None ==> forall|k: int| from <= k < line@.len() ==> line@[k] != c,
        r is Some ==> r->Some_0 == first_at(line@, c, from as int),
        r is None ==> first_at(line@, c, from as int) == line@.len(),
{
    let n = line.unicode_len();
    let mut i: usize = from;
    while i < n
        invariant
            from <= i <= n,
            n == line@.len(),
            forall|k: int| from <= k < i ==> line@[k] != c,
        decreases n - i,
    {
        if line.get_char(i) == c {
            proof {
                lemma_first_at_is(line@, c, from as int, i as int);
            }
            return Some(i);
        }
        i = i + 1;
    }
    proof {
        lemma_first_at_is(line@, c, from as int, line@.len() as int);
    }
    None
}

/// Withholds a message that quotes a secret: the message passes through
/// exactly when the non-empty secret does not occur in it, and is replaced
/// by a fixed notice otherwise — or by nothing at all in the degenerate case
/// of a secret that occurs in the notice itself.  Either way, the result
/// never contains the non-empty secret.
pub fn conceal_secret(message: &str, secret: &str) -> (r: String)
    ensures
        secret@.len() > 0 ==> !(exists|i: int| match_at(r@, secret@, i)),
        !(secret@.len() > 0 && (exists|i: int| match_at(message@, secret@, i))) ==> r@
            == message@,
        secret@.len() > 0 && (exists|i: int| match_at(message@, secret@, i)) && !(exists|i: int|
            match_at("error message withheld: it quoted a credential"@, secret@, i)) ==> r@
            == "error message withheld: it quoted a credential"@,
        secret@.len() > 0 && (exists|i: int| match_at(message@, secret@, i)) && (exists|i: int|
            match_at("error message withheld: it quoted a credential"@, secret@, i)) ==> r@.len()
            == 0,
{
    if secret.unicode_len() > 0 && contains_sub(message, secret) {
        let notice = String::from_str("error message withheld: it quoted a credential");
        if contains_sub(notice.as_str(), secret) {
            let r = String::new();
            proof {
                assert forall|i: int| !match_at(r@, secret@, i) by {
                    if match_at(r@, secret@, i) {
                        assert(i + secret@.len() <= 0);
                    }
                }
            }
            r
        } else {
            notice
        }
    } else {
        message.to_owned()
    }
}

/// String equality, as equality of the character sequences.
pub fn str_eq(a: &str, b: &str) -> (r: bool)
    ensures
        r == (a@ == b@),
{
    let la = a.unicode_len();
    let lb = b.unicode_len();
    if la != lb {
        return false;
    }
    let r = check_match_at(a, la, b, lb, 0);
    proof {
        assert(a@.subrange(0, a@.len() as int) =~= a@);
    }
    r
}

/// The string starts with the given prefix.
pub open spec fn has_prefix(s: Seq<char>, p: Seq<char>) -> bool {
    p.len() <= s.len() && s.subrange(0, p.len() as int) == p
}

/// Whether the string starts with the prefix.
pub fn starts_with(s: &str, p: &str) -> (r: bool)
    ensures
        r == has_prefix(s@, p@),
{
    let s_len = s.unicode_len();
    let p_len = p.unicode_len();
    if p_len > s_len {
        return false;
    }
    check_match_at(s, s_len, p, p_len, 0)
}

} // verus!
