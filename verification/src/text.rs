//! Splitting text into lines and joining lines back into text.
//!
//! Splitting follows the conventions of `str::lines`: lines are separated
//! by `'\n'`, a `'\r'` immediately before a separator is dropped, and a
//! final trailing separator does not open an empty last line.  Joining
//! places a single `'\n'` between lines and neither preserves nor restores
//! a final trailing newline.

use vstd::prelude::*;
use vstd::string::*;

use crate::model::texts_view;

verus! {

/// Index of the first `'\n'` of `s`, or `s.len()` if there is none.
pub open spec fn first_nl(s: Seq<char>) -> nat
    decreases s.len(),
{
    if s.len() == 0 {
        0
    } else if s[0] == '\n' {
        0
    } else {
        1 + first_nl(s.drop_first())
    }
}

/// `first_nl` is determined by where the newlines of `s` stand.
pub proof fn lemma_first_nl_at(s: Seq<char>, i: int)
    requires
        0 <= i <= s.len(),
        forall|k: int| 0 <= k < i ==> s[k] != '\n',
        i < s.len() ==> s[i] == '\n',
    ensures
        first_nl(s) == i,
    decreases i,
{
    if i == 0 {
    } else {
        assert(s[0] != '\n');
        lemma_first_nl_at(s.drop_first(), i - 1);
    }
}

/// Drops a final `'\r'`, if any.
pub open spec fn strip_cr(s: Seq<char>) -> Seq<char> {
    if s.len() > 0 && s[s.len() - 1] == '\r' {
        s.drop_last()
    } else {
        s
    }
}

/// The lines of `s`, split as `str::lines` splits them.
pub open spec fn spec_lines(s: Seq<char>) -> Seq<Seq<char>>
    decreases s.len(),
{
    if s.len() == 0 {
        Seq::empty()
    } else {
        let i = first_nl(s);
        if i >= s.len() {
            seq![s]
        } else {
            seq![strip_cr(s.subrange(0, i as int))] + spec_lines(
                s.subrange(i as int + 1, s.len() as int),
            )
        }
    }
}

/// Text joined from `ls` with a single `'\n'` between lines.
pub open spec fn join_lines(ls: Seq<Seq<char>>) -> Seq<char>
    decreases ls.len(),
{
    if ls.len() == 0 {
        Seq::empty()
    } else if ls.len() == 1 {
        ls[0]
    } else {
        ls[0] + seq!['\n'] + join_lines(ls.drop_first())
    }
}

/// Appending a line to a joined text appends a separator and the line.
pub proof fn lemma_join_push(ls: Seq<Seq<char>>, x: Seq<char>)
    ensures
        join_lines(ls.push(x)) == if ls.len() == 0 {
            x
        } else {
            join_lines(ls) + seq!['\n'] + x
        },
    decreases ls.len(),
{
    if ls.len() == 0 {
        assert(ls.push(x) =~= seq![x]);
        assert(join_lines(seq![x]) == x);
    } else if ls.len() == 1 {
        assert(ls.push(x).len() == 2);
        assert(ls.push(x)[0] == ls[0]);
        assert(ls.push(x).drop_first() =~= seq![x]);
        assert(join_lines(seq![x]) == x);
        assert(join_lines(ls.push(x)) == ls[0] + seq!['\n'] + x);
        assert(join_lines(ls) == ls[0]);
    } else {
        lemma_join_push(ls.drop_first(), x);
        assert(ls.push(x).drop_first() =~= ls.drop_first().push(x));
        assert(ls.push(x)[0] == ls[0]);
        assert(join_lines(ls.push(x)) == ls[0] + seq!['\n'] + (join_lines(ls.drop_first())
            + seq!['\n'] + x));
        assert(join_lines(ls) == ls[0] + seq!['\n'] + join_lines(ls.drop_first()));
        assert(ls[0] + seq!['\n'] + (join_lines(ls.drop_first()) + seq!['\n'] + x) =~= (ls[0]
            + seq!['\n'] + join_lines(ls.drop_first())) + seq!['\n'] + x);
    }
}

/// Splits `s` into its lines.
pub fn split_lines(s: &str) -> (r: Vec<String>)
    ensures
        texts_view(r@) == spec_lines(s@),
{
    let n = s.unicode_len();
    let mut r: Vec<String> = Vec::new();
    let mut start: usize = 0;
    proof {
        assert(texts_view(r@) =~= Seq::<Seq<char>>::empty());
        assert(s@.subrange(0, n as int) =~= s@);
        assert(texts_view(r@) + spec_lines(s@) =~= spec_lines(s@));
    }
    while start < n
        invariant
            start <= n,
            n == s@.len(),
            spec_lines(s@) =~= texts_view(r@) + spec_lines(s@.subrange(start as int, n as int)),
        decreases n - start,
    {
        let ghost suffix = s@.subrange(start as int, n as int);
        let mut j = start;
        while j < n && s.get_char(j) != '\n'
            invariant
                start <= j <= n,
                n == s@.len(),
                forall|k: int| start <= k < j ==> s@[k] != '\n',
            decreases n - j,
        {
            j += 1;
        }
        proof {
            assert forall|k: int| 0 <= k < j - start implies suffix[k] != '\n' by {
                assert(suffix[k] == s@[start + k]);
            }
            if j < n {
                assert(suffix[j - start] == s@[j as int]);
            }
            lemma_first_nl_at(suffix, j - start);
        }
        if j >= n {
            let line = s.substring_char(start, n).to_owned();
            proof {
                assert(first_nl(suffix) == n - start);
                assert(spec_lines(suffix) == seq![suffix]);
                assert(line@ == suffix);
                assert(texts_view(r@.push(line)) =~= texts_view(r@).push(suffix));
                assert(texts_view(r@) + seq![suffix] =~= texts_view(r@).push(suffix));
                assert(texts_view(r@.push(line)) =~= spec_lines(s@));
            }
            r.push(line);
            return r;
        } else {
            let end = if j > start && s.get_char(j - 1) == '\r' {
                j - 1
            } else {
                j
            };
            let line = s.substring_char(start, end).to_owned();
            proof {
                let chunk = suffix.subrange(0, (j - start) as int);
                assert(chunk =~= s@.subrange(start as int, j as int));
                if j > start && s@[j - 1] == '\r' {
                    assert(chunk.len() > 0 && chunk[chunk.len() - 1] == '\r');
                    assert(chunk.drop_last() =~= s@.subrange(start as int, j - 1));
                    assert(line@ == strip_cr(chunk));
                } else {
                    if chunk.len() > 0 {
                        assert(chunk[chunk.len() - 1] == s@[j - 1]);
                    }
                    assert(line@ == strip_cr(chunk));
                }
                let rest = suffix.subrange(j - start + 1, suffix.len() as int);
                assert(rest =~= s@.subrange(j + 1, n as int));
                assert(spec_lines(suffix) == seq![strip_cr(chunk)] + spec_lines(rest));
                assert(texts_view(r@.push(line)) =~= texts_view(r@).push(line@));
                assert(texts_view(r@).push(line@) + spec_lines(rest) =~= texts_view(r@) + (seq![
                    strip_cr(chunk),
                ] + spec_lines(rest)));
            }
            r.push(line);
            start = j + 1;
        }
    }
    proof {
        assert(s@.subrange(start as int, n as int) =~= Seq::<char>::empty());
        assert(texts_view(r@) + spec_lines(Seq::<char>::empty()) =~= texts_view(r@));
    }
    r
}

/// Joins lines with single `'\n'` separators.
pub fn join_text_lines(ls: &Vec<String>) -> (r: String)
    ensures
        r@ == join_lines(texts_view(ls@)),
{
    let mut r = String::new();
    let mut i: usize = 0;
    proof {
        reveal_strlit("\n");
        assert(texts_view(ls@).take(0) =~= Seq::<Seq<char>>::empty());
    }
    while i < ls.len()
        invariant
            i <= ls.len(),
            r@ == join_lines(texts_view(ls@).take(i as int)),
        decreases ls.len() - i,
    {
        if i > 0 {
            r.append("\n");
        }
        r.append(ls[i].as_str());
        proof {
            reveal_strlit("\n");
            let tv = texts_view(ls@);
            assert(tv.take(i as int + 1) =~= tv.take(i as int).push(tv[i as int]));
            lemma_join_push(tv.take(i as int), tv[i as int]);
            assert(tv[i as int] == ls@[i as int]@);
            if i > 0 {
                assert(tv.take(i as int).len() == i as int);
                assert("\n"@ =~= seq!['\n']);
                assert(r@ == (join_lines(tv.take(i as int)) + seq!['\n']) + tv[i as int]);
                assert((join_lines(tv.take(i as int)) + seq!['\n']) + tv[i as int] =~= join_lines(
                    tv.take(i as int),
                ) + seq!['\n'] + tv[i as int]);
            } else {
                assert(tv.take(0).len() == 0);
                assert(Seq::<char>::empty() + tv[0] =~= tv[0]);
                assert(r@ == tv[0]);
            }
            assert(r@ == join_lines(tv.take(i as int + 1)));
        }
        i += 1;
    }
    proof {
        assert(texts_view(ls@).take(ls@.len() as int) =~= texts_view(ls@));
    }
    r
}

/// Character-for-character string equality.
pub fn str_eq(a: &str, b: &str) -> (r: bool)
    ensures
        r == (a@ == b@),
{
    let na = a.unicode_len();
    let nb = b.unicode_len();
    if na != nb {
        return false;
    }
    let mut i: usize = 0;
    while i < na
        invariant
            i <= na,
            na == a@.len(),
            na == b@.len(),
            forall|k: int| 0 <= k < i ==> a@[k] == b@[k],
        decreases na - i,
    {
        if a.get_char(i) != b.get_char(i) {
            return false;
        }
        i += 1;
    }
    proof {
        assert(a@ =~= b@);
    }
    true
}

} // verus!
