//! Splitting character sequences at the first occurrence of a delimiter.
//!
//! `head_field` and `tail_after` are the specification-level model: the part
//! of a sequence before its first delimiter and the part after it.  The
//! executable `split_field` realizes the pair on string slices.

use vstd::prelude::*;
use vstd::string::StrSliceExecFns;

verus! {

/// The prefix of `s` strictly before the first occurrence of `d`;
/// all of `s` when `d` does not occur.
pub open spec fn head_field(s: Seq<char>, d: char) -> Seq<char>
    decreases s.len(),
{
    if s.len() == 0 {
        s
    } else if s[0] == d {
        Seq::empty()
    } else {
        seq![s[0]] + head_field(s.drop_first(), d)
    }
}

/// The suffix of `s` strictly after the first occurrence of `d`;
/// empty when `d` does not occur.
pub open spec fn tail_after(s: Seq<char>, d: char) -> Seq<char>
    decreases s.len(),
{
    if s.len() == 0 {
        s
    } else if s[0] == d {
        s.drop_first()
    } else {
        tail_after(s.drop_first(), d)
    }
}

/// The two split halves never outgrow the sequence, and on a non-empty
/// sequence the suffix is strictly shorter: splitting makes progress.
pub proof fn lemma_split_len(s: Seq<char>, d: char)
    ensures
        head_field(s, d).len() <= s.len(),
        tail_after(s, d).len() <= s.len(),
        s.len() > 0 ==> tail_after(s, d).len() < s.len(),
    decreases s.len(),
{
    if s.len() > 0 && s[0] != d {
        lemma_split_len(s.drop_first(), d);
    }
}

/// Where the first occurrence of `d` in `s` is known to sit at position `i`
/// (or to be absent when `i == s.len()`), the split halves are the subranges
/// around `i`.
pub proof fn lemma_split_at_first(s: Seq<char>, d: char, i: int)
    requires
        0 <= i <= s.len(),
        forall|j: int| 0 <= j < i ==> s[j] != d,
        i < s.len() ==> s[i] == d,
    ensures
        i < s.len() ==> head_field(s, d) == s.subrange(0, i),
        i < s.len() ==> tail_after(s, d) == s.subrange(i + 1, s.len() as int),
        i == s.len() ==> head_field(s, d) == s,
        i == s.len() ==> tail_after(s, d) == Seq::<char>::empty(),
    decreases s.len(),
{
    if s.len() == 0 {
        assert(head_field(s, d) =~= s);
        assert(tail_after(s, d) =~= Seq::<char>::empty());
    } else if s[0] == d {
        assert(i == 0);
        assert(head_field(s, d) =~= s.subrange(0, 0));
        assert(tail_after(s, d) =~= s.subrange(1, s.len() as int));
    } else {
        let t = s.drop_first();
        assert(forall|j: int| 0 <= j < i - 1 ==> t[j] != d);
        lemma_split_at_first(t, d, i - 1);
        if i < s.len() {
            assert(head_field(s, d) =~= s.subrange(0, i)) by {
                assert(head_field(t, d) == t.subrange(0, i - 1));
                assert(seq![s[0]] + t.subrange(0, i - 1) =~= s.subrange(0, i));
            }
            assert(tail_after(s, d) =~= s.subrange(i + 1, s.len() as int)) by {
                assert(tail_after(t, d) == t.subrange(i, t.len() as int));
                assert(t.subrange(i, t.len() as int) =~= s.subrange(i + 1, s.len() as int));
            }
        } else {
            assert(head_field(s, d) =~= s) by {
                assert(head_field(t, d) == t);
                assert(seq![s[0]] + t =~= s);
            }
        }
    }
}

/// Index of the first occurrence of `d` in `s` at or past `from`.
pub fn find_char(s: &str, d: char, from: usize) -> (r: Option<usize>)
    requires
        from <= s@.len(),
    ensures
        match r {
            Some(i) => from <= i < s@.len() && s@[i as int] == d && forall|j: int|
                from <= j < i ==> s@[j] != d,
            None => forall|j: int| from <= j < s@.len() ==> s@[j] != d,
        },
{
    let n = s.unicode_len();
    let mut i = from;
    while i < n
        invariant
            from <= i <= n,
            n == s@.len(),
            forall|j: int| from <= j < i ==> s@[j] != d,
        decreases n - i,
    {
        if s.get_char(i) == d {
            return Some(i);
        }
        i = i + 1;
    }
    None
}

/// Split `s` at its first occurrence of `d` into the part before and the part
/// after; when `d` does not occur, the whole of `s` and an empty remainder.
pub fn split_field<'a>(s: &'a str, d: char) -> (r: (&'a str, &'a str))
    ensures
        r.0@ == head_field(s@, d),
        r.1@ == tail_after(s@, d),
{
    let n = s.unicode_len();
    match find_char(s, d, 0) {
        Some(i) => {
            proof {
                lemma_split_at_first(s@, d, i as int);
            }
            (s.substring_char(0, i), s.substring_char(i + 1, n))
        },
        None => {
            proof {
                lemma_split_at_first(s@, d, s@.len() as int);
                reveal_strlit("");
            }
            (s, "")
        },
    }
}

} // verus!
