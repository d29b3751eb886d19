//! Parsing the delimited log stream of the version-control tool into
//! commit-graph nodes.
//!
//! Each line of the stream carries six fields — hash, parent hashes, author
//! name, author address, author time, summary — separated by a delimiter
//! byte.  A line is split at the first five delimiters only, so the summary
//! may itself contain the delimiter; a missing field reads as empty, an
//! unparsable time as zero, and no malformed line aborts the extraction.

use vstd::prelude::*;
use vstd::string::StrSliceExecFns;
use vstd::string::StringExecFns;
use crate::scan::find_char;
use crate::scan::head_field;
use crate::scan::lemma_split_at_first;
use crate::scan::lemma_split_len;
use crate::scan::split_field;
use crate::scan::tail_after;
use crate::types::CommitDAG;

verus! {

/// Whitespace for the purpose of separating parent hashes: the blank, tab,
/// newline and carriage-return characters (the stream separates hashes with
/// single blanks).
pub open spec fn is_space(c: char) -> bool {
    c == ' ' || c == '\t' || c == '\n' || c == '\r'
}

/// Longest prefix of `s` holding no whitespace.
pub open spec fn head_token(s: Seq<char>) -> Seq<char>
    decreases s.len(),
{
    if s.len() == 0 {
        s
    } else if is_space(s[0]) {
        Seq::empty()
    } else {
        seq![s[0]] + head_token(s.drop_first())
    }
}

/// `s` from its first whitespace character on; empty when there is none.
pub open spec fn from_first_space(s: Seq<char>) -> Seq<char>
    decreases s.len(),
{
    if s.len() == 0 {
        s
    } else if is_space(s[0]) {
        s
    } else {
        from_first_space(s.drop_first())
    }
}

proof fn lemma_from_first_space_len(s: Seq<char>)
    ensures
        from_first_space(s).len() <= s.len(),
        s.len() > 0 && !is_space(s[0]) ==> from_first_space(s).len() < s.len(),
    decreases s.len(),
{
    if s.len() > 0 && !is_space(s[0]) {
        lemma_from_first_space_len(s.drop_first());
    }
}

/// The whitespace-separated tokens of `s`, in order of appearance.
pub open spec fn tokens_of(s: Seq<char>) -> Seq<Seq<char>>
    decreases s.len(),
    via tokens_of_decreases
{
    if s.len() == 0 {
        Seq::empty()
    } else if is_space(s[0]) {
        tokens_of(s.drop_first())
    } else {
        seq![head_token(s)] + tokens_of(from_first_space(s))
    }
}

#[via_fn]
proof fn tokens_of_decreases(s: Seq<char>) {
    if s.len() > 0 && !is_space(s[0]) {
        lemma_from_first_space_len(s);
    }
}

/// Where the first whitespace in `s` is known to sit at position `j` (or to
/// be absent when `j == s.len()`), the first token is the prefix up to `j`
/// and the remainder starts at `j`.
proof fn lemma_token_at_first(s: Seq<char>, j: int)
    requires
        0 <= j <= s.len(),
        forall|k: int| 0 <= k < j ==> !is_space(s[k]),
        j < s.len() ==> is_space(s[j]),
    ensures
        head_token(s) == s.subrange(0, j),
        from_first_space(s) == s.subrange(j, s.len() as int),
    decreases s.len(),
{
    if s.len() == 0 {
        assert(head_token(s) =~= s.subrange(0, 0));
        assert(from_first_space(s) =~= s.subrange(0, 0));
    } else if is_space(s[0]) {
        assert(j == 0);
        assert(head_token(s) =~= s.subrange(0, 0));
        assert(from_first_space(s) =~= s.subrange(0, s.len() as int));
    } else {
        let t = s.drop_first();
        assert(forall|k: int| 0 <= k < j - 1 ==> !is_space(t[k]));
        lemma_token_at_first(t, j - 1);
        assert(head_token(s) =~= s.subrange(0, j)) by {
            assert(head_token(t) == t.subrange(0, j - 1));
            assert(seq![s[0]] + t.subrange(0, j - 1) =~= s.subrange(0, j));
        }
        assert(from_first_space(s) =~= s.subrange(j, s.len() as int)) by {
            assert(from_first_space(t) == t.subrange(j - 1, t.len() as int));
            assert(t.subrange(j - 1, t.len() as int) =~= s.subrange(j, s.len() as int));
        }
    }
}

/// Whether `c` is a decimal digit.
pub open spec fn is_dec_digit(c: char) -> bool {
    48 <= c as int && c as int <= 57
}

/// Whether every character of `s` is a decimal digit.
pub open spec fn all_digits(s: Seq<char>) -> bool {
    forall|i: int| 0 <= i < s.len() ==> is_dec_digit(s[i])
}

/// The number the digit string `s` denotes in decimal.
pub open spec fn digits_val(s: Seq<char>) -> int
    decreases s.len(),
{
    if s.len() == 0 {
        0
    } else {
        digits_val(s.drop_last()) * 10 + (s.last() as int - 48)
    }
}

/// A digit string is worth no less than any of its prefixes: the digits that
/// follow only scale the prefix up and add on.
proof fn lemma_digits_prefix_le(s: Seq<char>, i: int)
    requires
        all_digits(s),
        0 <= i <= s.len(),
    ensures
        0 <= digits_val(s.subrange(0, i)),
        digits_val(s.subrange(0, i)) <= digits_val(s),
    decreases s.len() - i,
{
    if i == s.len() {
        assert(s.subrange(0, i) =~= s);
        lemma_digits_nonneg(s);
    } else {
        lemma_digits_prefix_le(s, i + 1);
        let p = s.subrange(0, i + 1);
        assert(p.drop_last() =~= s.subrange(0, i));
        assert(is_dec_digit(s[i]));
        assert(digits_val(p) == digits_val(s.subrange(0, i)) * 10 + (s[i] as int - 48));
        lemma_digits_nonneg(s.subrange(0, i));
    }
}

proof fn lemma_digits_nonneg(s: Seq<char>)
    requires
        all_digits(s),
    ensures
        0 <= digits_val(s),
    decreases s.len(),
{
    if s.len() > 0 {
        assert(all_digits(s.drop_last())) by {
            assert(forall|i: int|
                0 <= i < s.len() - 1 ==> s.drop_last()[i] == s[i] && is_dec_digit(s[i]));
        }
        lemma_digits_nonneg(s.drop_last());
        assert(is_dec_digit(s.last()));
    }
}

/// The timestamp a field denotes: its decimal value when the field is a
/// non-empty digit string whose value fits the word, and zero otherwise —
/// an unparsable time degrades to zero rather than failing the extraction.
pub open spec fn timestamp_of(s: Seq<char>) -> int {
    if s.len() > 0 && all_digits(s) && digits_val(s) <= u64::MAX {
        digits_val(s)
    } else {
        0
    }
}

/// Whether `c` is a whitespace character, as [`is_space`] counts it.
fn is_space_char(c: char) -> (b: bool)
    ensures
        b == is_space(c),
{
    c == ' ' || c == '\t' || c == '\n' || c == '\r'
}

/// The whitespace-separated tokens of `s`, as owned strings in order.
pub fn split_tokens(s: &str) -> (r: Vec<String>)
    ensures
        r@.map_values(|t: String| t@) == tokens_of(s@),
{
    let n = s.unicode_len();
    let mut r: Vec<String> = Vec::new();
    let mut i: usize = 0;
    proof {
        assert(s@.subrange(0, n as int) =~= s@);
        assert(r@.map_values(|t: String| t@) =~= Seq::<Seq<char>>::empty());
        assert(Seq::<Seq<char>>::empty() + tokens_of(s@) =~= tokens_of(s@));
    }
    while i < n
        invariant
            i <= n,
            n == s@.len(),
            r@.map_values(|t: String| t@) + tokens_of(s@.subrange(i as int, n as int))
                == tokens_of(s@),
        decreases n - i,
    {
        let c = s.get_char(i);
        if is_space_char(c) {
            proof {
                let t = s@.subrange(i as int, n as int);
                assert(t.len() > 0 && t[0] == s@[i as int]);
                assert(t.drop_first() =~= s@.subrange(i + 1, n as int));
                assert(tokens_of(t) == tokens_of(s@.subrange(i + 1, n as int)));
            }
            i = i + 1;
        } else {
            let mut j = i + 1;
            while j < n && !is_space_char(s.get_char(j))
                invariant
                    i < j <= n,
                    n == s@.len(),
                    forall|k: int| i <= k < j ==> !is_space(s@[k]),
                decreases n - j,
            {
                j = j + 1;
            }
            let tok = String::from_str(s.substring_char(i, j));
            let ghost pre = r@;
            r.push(tok);
            proof {
                let f = |t2: String| t2@;
                let piece = s@.subrange(i as int, j as int);
                let t = s@.subrange(i as int, n as int);
                assert(forall|k: int| 0 <= k < j - i ==> t[k] == s@[i + k] && !is_space(t[k]));
                assert(j < n ==> is_space(t[j - i]));
                lemma_token_at_first(t, j - i);
                assert(t.subrange(0, j - i) =~= piece);
                assert(t.subrange(j - i, t.len() as int) =~= s@.subrange(j as int, n as int));
                assert(t.len() > 0 && !is_space(t[0]));
                assert(tokens_of(t)
                    == seq![piece] + tokens_of(s@.subrange(j as int, n as int)));
                assert(r@.map_values(f) =~= pre.map_values(f).push(piece));
                assert(pre.map_values(f).push(piece) + tokens_of(s@.subrange(j as int, n as int))
                    =~= pre.map_values(f)
                    + (seq![piece] + tokens_of(s@.subrange(j as int, n as int))));
            }
            i = j;
        }
    }
    proof {
        assert(s@.subrange(i as int, n as int) =~= Seq::<char>::empty());
        assert(tokens_of(Seq::<char>::empty()) == Seq::<Seq<char>>::empty());
        assert(r@.map_values(|t: String| t@) + Seq::<Seq<char>>::empty()
            =~= r@.map_values(|t: String| t@));
    }
    r
}

/// The decimal value of `s`: `Some` exactly when `s` is a non-empty string
/// of decimal digits whose value fits the word, and `None` otherwise.
pub fn parse_u64(s: &str) -> (r: Option<u64>)
    ensures
        match r {
            Option::Some(v) => s@.len() > 0 && all_digits(s@) && v as int == digits_val(s@),
            Option::None => s@.len() == 0 || !all_digits(s@) || digits_val(s@) > u64::MAX,
        },
{
    let n = s.unicode_len();
    if n == 0 {
        return Option::None;
    }
    let mut acc: u64 = 0;
    let mut i: usize = 0;
    proof {
        assert(s@.subrange(0, 0) =~= Seq::<char>::empty());
    }
    while i < n
        invariant
            i <= n,
            n == s@.len(),
            all_digits(s@.subrange(0, i as int)),
            acc as int == digits_val(s@.subrange(0, i as int)),
        decreases n - i,
    {
        let c = s.get_char(i);
        let u = c as u32;
        if u < 48 || u > 57 {
            assert(!is_dec_digit(s@[i as int]));
            return Option::None;
        }
        let d: u64 = ((u - 48) as u64);
        proof {
            let p = s@.subrange(0, i + 1);
            assert(p.drop_last() =~= s@.subrange(0, i as int));
            assert(p.last() == s@[i as int]);
            assert(digits_val(p) == acc as int * 10 + d as int);
        }
        if acc > (u64::MAX - d) / 10 {
            proof {
                let q = (u64::MAX - d) / 10;
                assert(acc as int * 10 >= (q + 1) * 10);
                assert(q * 10 + 9 >= u64::MAX - d) by {
                    assert(q == (u64::MAX - d) as int / 10);
                    assert((u64::MAX - d) as int == q * 10 + (u64::MAX - d) as int % 10);
                };
                assert(acc as int * 10 + d > u64::MAX);
                if all_digits(s@) {
                    lemma_digits_prefix_le(s@, i + 1);
                    assert(digits_val(s@) >= digits_val(s@.subrange(0, i + 1)));
                }
            }
            return Option::None;
        }
        proof {
            let q = (u64::MAX - d) / 10;
            assert(acc as int * 10 <= q * 10);
            assert(q * 10 <= u64::MAX - d) by {
                assert((u64::MAX - d) as int == q * 10 + (u64::MAX - d) as int % 10);
            };
        }
        acc = acc * 10 + d;
        i = i + 1;
    }
    proof {
        assert(s@.subrange(0, n as int) =~= s@);
    }
    Option::Some(acc)
}

/// What remains of a line after `k` splits at the field delimiter: the text
/// after the `k`-th occurrence of `|`, or empty once the delimiters run out.
pub open spec fn rest_fields(s: Seq<char>, k: nat) -> Seq<char>
    decreases k,
{
    if k == 0 {
        s
    } else {
        tail_after(rest_fields(s, (k - 1) as nat), '|')
    }
}

/// Field `k` of a line: the text between its `k`-th and `k+1`-th delimiter.
pub open spec fn field(s: Seq<char>, k: nat) -> Seq<char> {
    head_field(rest_fields(s, k), '|')
}

/// How the node `n` reads off the log line `l`: the first five delimiters
/// bound the hash, parent, author, address and time fields; everything after
/// the fifth delimiter is the summary, delimiters included; parents are the
/// whitespace tokens of the parent field; the time degrades to zero when
/// unparsable; and a missing field reads as empty.
pub open spec fn line_parsed(l: Seq<char>, n: CommitDAG) -> bool {
    &&& n.id@ == field(l, 0)
    &&& n.parents@.map_values(|p: String| p@) == tokens_of(field(l, 1))
    &&& n.author@ == field(l, 2)
    &&& n.email@ == field(l, 3)
    &&& n.timestamp as int == timestamp_of(field(l, 4))
    &&& n.message@ == rest_fields(l, 5)
}

/// Parses one log line into a commit node, as [`line_parsed`] states:
/// no line is rejected — malformed fields degrade to empty or zero values.
pub fn parse_dag_line(line: &str) -> (r: CommitDAG)
    ensures
        line_parsed(line@, r),
{
    let (f0, r0) = split_field(line, '|');
    let (f1, r1) = split_field(r0, '|');
    let (f2, r2) = split_field(r1, '|');
    let (f3, r3) = split_field(r2, '|');
    let (f4, r4) = split_field(r3, '|');
    proof {
        assert(rest_fields(line@, 0) == line@);
        assert(rest_fields(line@, 1) == tail_after(rest_fields(line@, 0), '|'));
        assert(rest_fields(line@, 2) == tail_after(rest_fields(line@, 1), '|'));
        assert(rest_fields(line@, 3) == tail_after(rest_fields(line@, 2), '|'));
        assert(rest_fields(line@, 4) == tail_after(rest_fields(line@, 3), '|'));
        assert(rest_fields(line@, 5) == tail_after(rest_fields(line@, 4), '|'));
    }
    let parents = split_tokens(f1);
    let timestamp: u64 = match parse_u64(f4) {
        Option::Some(v) => v,
        Option::None => 0,
    };
    CommitDAG {
        id: String::from_str(f0),
        parents,
        author: String::from_str(f2),
        email: String::from_str(f3),
        timestamp,
        message: String::from_str(r4),
    }
}

/// The lines of `s`: the text split at every newline character.  A trailing
/// newline yields no extra line.
pub open spec fn split_lines(s: Seq<char>) -> Seq<Seq<char>>
    decreases s.len(),
    via split_lines_decreases
{
    if s.len() == 0 {
        Seq::empty()
    } else {
        seq![head_field(s, '\n')] + split_lines(tail_after(s, '\n'))
    }
}

#[via_fn]
proof fn split_lines_decreases(s: Seq<char>) {
    if s.len() > 0 {
        lemma_split_len(s, '\n');
    }
}

/// The non-empty members of a sequence of lines, in order.
pub open spec fn kept_of(ls: Seq<Seq<char>>) -> Seq<Seq<char>> {
    ls.filter(|l: Seq<char>| l.len() > 0)
}

/// The lines of `s` that yield a commit node: the non-empty ones, in order.
pub open spec fn kept_lines(s: Seq<char>) -> Seq<Seq<char>> {
    kept_of(split_lines(s))
}

/// Parses a whole log stream: one commit node per non-empty line, in the
/// stream's emission order, each as [`line_parsed`] states.  No line aborts
/// the extraction.
pub fn parse_commit_dag(text: &str) -> (r: Vec<CommitDAG>)
    ensures
        r@.len() == kept_lines(text@).len(),
        forall|i: int|
            0 <= i < r@.len() ==> line_parsed(kept_lines(text@)[i], #[trigger] r@[i]),
{
    let n = text.unicode_len();
    let mut r: Vec<CommitDAG> = Vec::new();
    let mut pos: usize = 0;
    let ghost mut done: Seq<Seq<char>> = Seq::empty();
    proof {
        assert(text@.subrange(0, n as int) =~= text@);
        assert(Seq::<Seq<char>>::empty() + split_lines(text@) =~= split_lines(text@));
        assert(kept_of(done) =~= Seq::<Seq<char>>::empty());
    }
    while pos < n
        invariant
            pos <= n,
            n == text@.len(),
            split_lines(text@) == done + split_lines(text@.subrange(pos as int, n as int)),
            r@.len() == kept_of(done).len(),
            forall|i: int|
                0 <= i < r@.len() ==> line_parsed(kept_of(done)[i], #[trigger] r@[i]),
        decreases n - pos,
    {
        let k = match find_char(text, '\n', pos) {
            Option::Some(k) => k,
            Option::None => n,
        };
        let line = text.substring_char(pos, k);
        proof {
            let t = text@.subrange(pos as int, n as int);
            assert(forall|c: int| 0 <= c < k - pos ==> t[c] == text@[pos + c] && t[c] != '\n');
            assert(k < n ==> t[k - pos] == '\n');
            lemma_split_at_first(t, '\n', k - pos);
            assert(t.subrange(0, k - pos) =~= line@);
            if k < n {
                assert(t.subrange(k - pos, t.len() as int).drop_first()
                    =~= text@.subrange(k + 1, n as int));
                assert(tail_after(t, '\n') =~= text@.subrange(k + 1, n as int));
            } else {
                assert(line@ =~= t);
                assert(tail_after(t, '\n') =~= text@.subrange(n as int, n as int));
            }
            assert(head_field(t, '\n') == line@);
            assert(split_lines(t)
                == seq![line@] + split_lines(tail_after(t, '\n')));
            assert(done + (seq![line@] + split_lines(tail_after(t, '\n')))
                =~= done.push(line@) + split_lines(tail_after(t, '\n')));
            assert(done.push(line@).drop_last() =~= done);
            reveal_with_fuel(Seq::<Seq<char>>::filter, 2);
            assert(kept_of(done.push(line@)) == (if line@.len() > 0 {
                kept_of(done).push(line@)
            } else {
                kept_of(done)
            }));
        }
        if line.unicode_len() > 0 {
            let node = parse_dag_line(line);
            r.push(node);
        }
        proof {
            done = done.push(line@);
        }
        if k < n {
            pos = k + 1;
        } else {
            pos = n;
        }
    }
    proof {
        assert(text@.subrange(pos as int, n as int) =~= Seq::<char>::empty());
        assert(split_lines(Seq::<char>::empty()) == Seq::<Seq<char>>::empty());
        assert(done + Seq::<Seq<char>>::empty() =~= done);
    }
    r
}

/// A parsed line whose parent field is empty yields an empty parent list —
/// an empty sequence, never a one-element sequence holding an empty string.
pub proof fn lemma_empty_parent_field(l: Seq<char>, n: CommitDAG)
    requires
        line_parsed(l, n),
        field(l, 1).len() == 0,
    ensures
        n.parents@.len() == 0,
{
    assert(tokens_of(field(l, 1)) == Seq::<Seq<char>>::empty());
    assert(n.parents@.map_values(|p: String| p@).len() == n.parents@.len());
}

/// Every parsed parent is the corresponding whitespace token of the line's
/// parent field: the record's parent order is the source order.
pub proof fn lemma_parents_in_source_order(l: Seq<char>, n: CommitDAG, j: int)
    requires
        line_parsed(l, n),
        0 <= j < n.parents@.len(),
    ensures
        n.parents@.len() == tokens_of(field(l, 1)).len(),
        n.parents@[j]@ == tokens_of(field(l, 1))[j],
{
    assert(n.parents@.map_values(|p: String| p@)[j] == n.parents@[j]@);
}

/// A line whose timestamp field is not a plain decimal number parses with a
/// zero timestamp; the line itself is never rejected.
pub proof fn lemma_unparsable_time_is_zero(l: Seq<char>, n: CommitDAG)
    requires
        line_parsed(l, n),
        !(field(l, 4).len() > 0 && all_digits(field(l, 4)) && digits_val(field(l, 4))
            <= u64::MAX),
    ensures
        n.timestamp == 0,
{
}

} // verus!
