//! Resolution of patch-header paths against the project root.
//!
//! Header paths carry a synthetic leading component (and, when absolute,
//! a root marker) that diff tools embed, so the first real path component
//! is dropped — the conventional `-p1` strip — and the rest is joined
//! onto the project root.

use vstd::prelude::*;
use vstd::string::*;

use crate::model::texts_view;

verus! {

/// Index of the first `'/'` of `s`, or `s.len()` if there is none.
pub open spec fn first_sep(s: Seq<char>) -> nat
    decreases s.len(),
{
    if s.len() == 0 {
        0
    } else if s[0] == '/' {
        0
    } else {
        1 + first_sep(s.drop_first())
    }
}

/// `first_sep` is determined by where the separators of `s` stand.
proof fn lemma_first_sep_at(s: Seq<char>, i: int)
    requires
        0 <= i <= s.len(),
        forall|k: int| 0 <= k < i ==> s[k] != '/',
        i < s.len() ==> s[i] == '/',
    ensures
        first_sep(s) == i,
    decreases i,
{
    if i == 0 {
    } else {
        assert(s[0] != '/');
        lemma_first_sep_at(s.drop_first(), i - 1);
    }
}

/// The non-empty components of `s`, split on `'/'`.
pub open spec fn path_segments(s: Seq<char>) -> Seq<Seq<char>>
    decreases s.len(),
{
    if s.len() == 0 {
        Seq::empty()
    } else {
        let i = first_sep(s);
        if i >= s.len() {
            seq![s]
        } else if i == 0 {
            path_segments(s.subrange(1, s.len() as int))
        } else {
            seq![s.subrange(0, i as int)] + path_segments(s.subrange(i as int + 1, s.len() as int))
        }
    }
}

/// Components joined with single `'/'` separators.
pub open spec fn join_slash(segs: Seq<Seq<char>>) -> Seq<char>
    decreases segs.len(),
{
    if segs.len() == 0 {
        Seq::empty()
    } else if segs.len() == 1 {
        segs[0]
    } else {
        segs[0] + seq!['/'] + join_slash(segs.drop_first())
    }
}

proof fn lemma_join_slash_push(segs: Seq<Seq<char>>, x: Seq<char>)
    ensures
        join_slash(segs.push(x)) == if segs.len() == 0 {
            x
        } else {
            join_slash(segs) + seq!['/'] + x
        },
    decreases segs.len(),
{
    if segs.len() == 0 {
        assert(segs.push(x) =~= seq![x]);
        assert(join_slash(seq![x]) == x);
    } else if segs.len() == 1 {
        assert(segs.push(x).len() == 2);
        assert(segs.push(x)[0] == segs[0]);
        assert(segs.push(x).drop_first() =~= seq![x]);
        assert(join_slash(seq![x]) == x);
        assert(join_slash(segs.push(x)) == segs[0] + seq!['/'] + x);
        assert(join_slash(segs) == segs[0]);
    } else {
        lemma_join_slash_push(segs.drop_first(), x);
        assert(segs.push(x).drop_first() =~= segs.drop_first().push(x));
        assert(segs.push(x)[0] == segs[0]);
        assert(join_slash(segs.push(x)) == segs[0] + seq!['/'] + (join_slash(segs.drop_first())
            + seq!['/'] + x));
        assert(join_slash(segs) == segs[0] + seq!['/'] + join_slash(segs.drop_first()));
        assert(segs[0] + seq!['/'] + (join_slash(segs.drop_first()) + seq!['/'] + x) =~= (segs[0]
            + seq!['/'] + join_slash(segs.drop_first())) + seq!['/'] + x);
    }
}

/// The root followed, where needed, by a single separator.
pub open spec fn root_base(root: Seq<char>) -> Seq<char> {
    if root.len() == 0 {
        root
    } else if root[root.len() - 1] == '/' {
        root
    } else {
        root + seq!['/']
    }
}

/// The path a header path stands for under the project root: the header
/// path's first real component is dropped and the remaining components
/// are joined onto the root.  A header path with at most one component
/// leaves the root unchanged.
pub open spec fn resolved_path(root: Seq<char>, header: Seq<char>) -> Seq<char> {
    let segs = path_segments(header);
    if segs.len() <= 1 {
        root
    } else {
        root_base(root) + join_slash(segs.drop_first())
    }
}

/// The non-empty components of `s`, split on `'/'`.
pub fn split_path_segments(s: &str) -> (r: Vec<String>)
    ensures
        texts_view(r@) == path_segments(s@),
{
    let n = s.unicode_len();
    let mut r: Vec<String> = Vec::new();
    proof {
        assert(texts_view(r@) =~= Seq::<Seq<char>>::empty());
        assert(s@.subrange(0, n as int) =~= s@);
        assert(texts_view(r@) + path_segments(s@) =~= path_segments(s@));
    }
    let mut start: usize = 0;
    while start < n
        invariant
            start <= n,
            n == s@.len(),
            path_segments(s@) =~= texts_view(r@) + path_segments(
                s@.subrange(start as int, n as int),
            ),
        decreases n - start,
    {
        let ghost suffix = s@.subrange(start as int, n as int);
        let mut j = start;
        while j < n && s.get_char(j) != '/'
            invariant
                start <= j <= n,
                n == s@.len(),
                forall|k: int| start <= k < j ==> s@[k] != '/',
            decreases n - j,
        {
            j += 1;
        }
        proof {
            assert forall|k: int| 0 <= k < j - start implies suffix[k] != '/' by {
                assert(suffix[k] == s@[start + k]);
            }
            if j < n {
                assert(suffix[j - start] == s@[j as int]);
            }
            lemma_first_sep_at(suffix, j - start);
        }
        if j >= n {
            let seg = s.substring_char(start, n).to_owned();
            proof {
                assert(path_segments(suffix) == seq![suffix]);
                assert(seg@ == suffix);
                assert(texts_view(r@.push(seg)) =~= texts_view(r@).push(suffix));
                assert(texts_view(r@) + seq![suffix] =~= texts_view(r@).push(suffix));
                assert(texts_view(r@.push(seg)) =~= path_segments(s@));
            }
            r.push(seg);
            return r;
        } else if j == start {
            proof {
                let rest = suffix.subrange(1, suffix.len() as int);
                assert(rest =~= s@.subrange(start + 1, n as int));
                assert(path_segments(suffix) == path_segments(rest));
            }
            start = j + 1;
        } else {
            let seg = s.substring_char(start, j).to_owned();
            proof {
                let chunk = suffix.subrange(0, (j - start) as int);
                assert(chunk =~= s@.subrange(start as int, j as int));
                assert(seg@ == chunk);
                let rest = suffix.subrange(j - start + 1, suffix.len() as int);
                assert(rest =~= s@.subrange(j + 1, n as int));
                assert(path_segments(suffix) == seq![chunk] + path_segments(rest));
                assert(texts_view(r@.push(seg)) =~= texts_view(r@).push(seg@));
                assert(texts_view(r@).push(seg@) + path_segments(rest) =~= texts_view(r@) + (seq![
                    chunk,
                ] + path_segments(rest)));
            }
            r.push(seg);
            start = j + 1;
        }
    }
    proof {
        assert(s@.subrange(start as int, n as int) =~= Seq::<char>::empty());
        assert(texts_view(r@) + path_segments(Seq::<char>::empty()) =~= texts_view(r@));
    }
    r
}

/// Resolves a patch-header path against the project root with the fixed
/// `-p1` strip: the header path's synthetic first component (and root
/// marker, when absolute) is dropped and the rest is joined onto
/// `prjdir`.
#[verifier::loop_isolation(false)]
pub fn make_patch_path_absolute(prjdir: &str, patch: &str) -> (r: String)
    ensures
        r@ == resolved_path(prjdir@, patch@),
{
    let segs = split_path_segments(patch);
    let ghost sv = texts_view(segs@);
    if segs.len() <= 1 {
        return prjdir.to_owned();
    }
    let ghost rest = sv.drop_first();
    let mut r = prjdir.to_owned();
    let n = prjdir.unicode_len();
    if n > 0 && prjdir.get_char(n - 1) != '/' {
        r.append("/");
        proof {
            reveal_strlit("/");
            assert("/"@ =~= seq!['/']);
        }
    }
    proof {
        assert(r@ == root_base(prjdir@));
        assert(rest.take(0) =~= Seq::<Seq<char>>::empty());
        assert(r@ + join_slash(rest.take(0)) =~= r@);
    }
    let ghost base = r@;
    let mut k: usize = 1;
    while k < segs.len()
        invariant
            1 <= k <= segs.len(),
            r@ == base + join_slash(rest.take(k - 1)),
        decreases segs.len() - k,
    {
        if k > 1 {
            r.append("/");
        }
        r.append(segs[k].as_str());
        proof {
            reveal_strlit("/");
            assert("/"@ =~= seq!['/']);
            assert(rest[k - 1] == sv[k as int]);
            assert(sv[k as int] == segs@[k as int]@);
            assert(rest.take(k as int) =~= rest.take(k - 1).push(rest[k - 1]));
            lemma_join_slash_push(rest.take(k - 1), rest[k - 1]);
            if k > 1 {
                assert(rest.take(k - 1).len() == k - 1);
                assert(r@ == (base + join_slash(rest.take(k - 1)) + seq!['/']) + rest[k - 1]);
                assert((base + join_slash(rest.take(k - 1)) + seq!['/']) + rest[k - 1] =~= base + (
                join_slash(rest.take(k - 1)) + seq!['/'] + rest[k - 1]));
            } else {
                assert(rest.take(0).len() == 0);
                assert(base + join_slash(rest.take(0)) =~= base);
                assert(r@ == base + rest[0]);
            }
            assert(r@ == base + join_slash(rest.take(k as int)));
        }
        k += 1;
    }
    proof {
        assert(rest.take(rest.len() as int) =~= rest);
    }
    r
}

} // verus!
