//! Proved laws of the hunk application engine.

use vstd::prelude::*;

use crate::apply::{
    apply_hunks_from, apply_lines_from, copied_state, copy_target, hunk_step, init_state,
    line_step, spec_apply, ApplyState, MismatchV,
};
use crate::model::{DiffLineV, HunkV};

verus! {

/// A run of context lines that match the old file copies those lines to
/// the output and advances the cursor past them.
proof fn lemma_context_run(
    hidx: nat,
    lines: Seq<DiffLineV>,
    i: int,
    m: int,
    st: ApplyState,
    old: Seq<Seq<char>>,
)
    requires
        0 <= i,
        0 <= m,
        i + m <= lines.len(),
        st.cur + m <= old.len(),
        forall|k: int|
            i <= k < i + m ==> lines[k] == DiffLineV::Context(old[st.cur + (k - i)]),
    ensures
        apply_lines_from(hidx, lines, i, st, old) == apply_lines_from(
            hidx,
            lines,
            i + m,
            ApplyState {
                out: st.out + old.subrange(st.cur as int, st.cur + m),
                cur: (st.cur + m) as nat,
            },
            old,
        ),
    decreases m,
{
    if m == 0 {
        assert(st.out + old.subrange(st.cur as int, st.cur as int) =~= st.out);
        assert(ApplyState { out: st.out + old.subrange(st.cur as int, st.cur as int), cur: st.cur }
            == st);
    } else {
        assert(lines[i] == DiffLineV::Context(old[st.cur as int]));
        let st2 = ApplyState { out: st.out.push(old[st.cur as int]), cur: (st.cur + 1) as nat };
        assert(line_step(hidx, st, lines[i], old) == Result::<ApplyState, MismatchV>::Ok(st2));
        assert forall|k: int| i + 1 <= k < i + 1 + (m - 1) implies lines[k] == DiffLineV::Context(
            old[st2.cur + (k - (i + 1))],
        ) by {
            assert(lines[k] == DiffLineV::Context(old[st.cur + (k - i)]));
        }
        lemma_context_run(hidx, lines, i + 1, m - 1, st2, old);
        assert(st2.out + old.subrange(st2.cur as int, st2.cur + (m - 1)) =~= st.out + old.subrange(
            st.cur as int,
            st.cur + m,
        ));
    }
}

/// A run of removed lines that match the old file advances the cursor and
/// leaves the output as it was.
proof fn lemma_remove_run(
    hidx: nat,
    lines: Seq<DiffLineV>,
    i: int,
    m: int,
    st: ApplyState,
    old: Seq<Seq<char>>,
)
    requires
        0 <= i,
        0 <= m,
        i + m <= lines.len(),
        st.cur + m <= old.len(),
        forall|k: int|
            i <= k < i + m ==> lines[k] == DiffLineV::Remove(old[st.cur + (k - i)]),
    ensures
        apply_lines_from(hidx, lines, i, st, old) == apply_lines_from(
            hidx,
            lines,
            i + m,
            ApplyState { out: st.out, cur: (st.cur + m) as nat },
            old,
        ),
    decreases m,
{
    if m == 0 {
        assert(ApplyState { out: st.out, cur: st.cur } == st);
    } else {
        assert(lines[i] == DiffLineV::Remove(old[st.cur as int]));
        let st2 = ApplyState { out: st.out, cur: (st.cur + 1) as nat };
        assert(line_step(hidx, st, lines[i], old) == Result::<ApplyState, MismatchV>::Ok(st2));
        assert forall|k: int| i + 1 <= k < i + 1 + (m - 1) implies lines[k] == DiffLineV::Remove(
            old[st2.cur + (k - (i + 1))],
        ) by {
            assert(lines[k] == DiffLineV::Remove(old[st.cur + (k - i)]));
        }
        lemma_remove_run(hidx, lines, i + 1, m - 1, st2, old);
    }
}

/// A run of added lines appends those lines to the output and leaves the
/// cursor as it was.
proof fn lemma_add_run(
    hidx: nat,
    lines: Seq<DiffLineV>,
    i: int,
    xs: Seq<Seq<char>>,
    st: ApplyState,
    old: Seq<Seq<char>>,
)
    requires
        0 <= i,
        i + xs.len() <= lines.len(),
        forall|k: int| i <= k < i + xs.len() ==> lines[k] == DiffLineV::Add(xs[k - i]),
    ensures
        apply_lines_from(hidx, lines, i, st, old) == apply_lines_from(
            hidx,
            lines,
            i + xs.len(),
            ApplyState { out: st.out + xs, cur: st.cur },
            old,
        ),
    decreases xs.len(),
{
    if xs.len() == 0 {
        assert(st.out + xs =~= st.out);
        assert(ApplyState { out: st.out + xs, cur: st.cur } == st);
    } else {
        assert(lines[i] == DiffLineV::Add(xs[0]));
        let st2 = ApplyState { out: st.out.push(xs[0]), cur: st.cur };
        assert(line_step(hidx, st, lines[i], old) == Result::<ApplyState, MismatchV>::Ok(st2));
        assert forall|k: int| i + 1 <= k < i + 1 + xs.drop_first().len() implies lines[k]
            == DiffLineV::Add(xs.drop_first()[k - (i + 1)]) by {
            assert(xs.drop_first()[k - (i + 1)] == xs[k - i]);
            assert(lines[k] == DiffLineV::Add(xs[k - i]));
        }
        lemma_add_run(hidx, lines, i + 1, xs.drop_first(), st2, old);
        assert(st2.out + xs.drop_first() =~= st.out + xs);
    }
}

/// Idempotence of no-op hunks: a hunk holding only context lines that
/// match the old file exactly, applied on its own, reproduces the old
/// file's lines unchanged.
pub proof fn lemma_noop_hunk_identity(h: HunkV, old: Seq<Seq<char>>)
    requires
        1 <= h.old_start,
        h.old_start - 1 + h.lines.len() <= old.len(),
        forall|k: int|
            0 <= k < h.lines.len() ==> h.lines[k] == DiffLineV::Context(
                old[h.old_start - 1 + k],
            ),
    ensures
        spec_apply(seq![h], old) == Result::<Seq<Seq<char>>, MismatchV>::Ok(old),
{
    let t = copy_target(h.old_start, old.len());
    assert(t == h.old_start - 1);
    let st1 = copied_state(init_state(), t, old);
    assert(st1.cur == t);
    assert(st1.out =~= old.subrange(0, t as int));
    assert forall|k: int| 0 <= k < 0 + h.lines.len() implies h.lines[k] == DiffLineV::Context(
        old[st1.cur + (k - 0)],
    ) by {
        assert(h.lines[k] == DiffLineV::Context(old[h.old_start - 1 + k]));
    }
    lemma_context_run(0, h.lines, 0, h.lines.len() as int, st1, old);
    let st_end = ApplyState {
        out: st1.out + old.subrange(st1.cur as int, (st1.cur + h.lines.len()) as int),
        cur: (st1.cur + h.lines.len()) as nat,
    };
    assert(apply_lines_from(0, h.lines, h.lines.len() as int, st_end, old) == Result::<
        ApplyState,
        MismatchV,
    >::Ok(st_end));
    assert(hunk_step(0, init_state(), h, old) == Result::<ApplyState, MismatchV>::Ok(st_end));
    assert(seq![h][0] == h);
    assert(apply_hunks_from(seq![h], 1, st_end, old) == Result::<ApplyState, MismatchV>::Ok(
        st_end,
    ));
    assert(apply_hunks_from(seq![h], 0, init_state(), old) == Result::<ApplyState, MismatchV>::Ok(
        st_end,
    ));
    assert(st_end.out + old.subrange(st_end.cur as int, old.len() as int) =~= old);
}

/// Round trip of a generated patch: the single hunk that a diff writes
/// for an edit replacing the segment `removed` of the old file by `added`
/// (its removed lines, then its added lines, starting where the segments
/// diverge) turns `prefix + removed + suffix` into exactly
/// `prefix + added + suffix`.
pub proof fn lemma_generated_patch_round_trip(
    h: HunkV,
    prefix: Seq<Seq<char>>,
    removed: Seq<Seq<char>>,
    added: Seq<Seq<char>>,
    suffix: Seq<Seq<char>>,
)
    requires
        h.old_start == prefix.len() + 1,
        h.lines == removed.map_values(|s: Seq<char>| DiffLineV::Remove(s)) + added.map_values(
            |s: Seq<char>| DiffLineV::Add(s),
        ),
    ensures
        spec_apply(seq![h], prefix + removed + suffix) == Result::<Seq<Seq<char>>, MismatchV>::Ok(
            prefix + added + suffix,
        ),
{
    let old = prefix + removed + suffix;
    let nrem = removed.len() as int;
    let nadd = added.len() as int;
    assert(old.len() == prefix.len() + removed.len() + suffix.len());
    let t = copy_target(h.old_start, old.len());
    assert(t == prefix.len());
    let st1 = copied_state(init_state(), t, old);
    assert(st1.cur == t);
    assert(old.subrange(0, t as int) =~= prefix);
    assert(st1.out =~= prefix);
    assert(h.lines.len() == nrem + nadd);
    assert forall|k: int| 0 <= k < 0 + nrem implies h.lines[k] == DiffLineV::Remove(
        old[st1.cur + (k - 0)],
    ) by {
        assert(h.lines[k] == removed.map_values(|s: Seq<char>| DiffLineV::Remove(s))[k]);
        assert(old[prefix.len() + k] == removed[k]);
    }
    lemma_remove_run(0, h.lines, 0, nrem, st1, old);
    let st2 = ApplyState { out: st1.out, cur: (st1.cur + nrem) as nat };
    assert forall|k: int| nrem <= k < nrem + nadd implies h.lines[k] == DiffLineV::Add(
        added[k - nrem],
    ) by {
        assert(h.lines[k] == added.map_values(|s: Seq<char>| DiffLineV::Add(s))[k - nrem]);
    }
    lemma_add_run(0, h.lines, nrem, added, st2, old);
    let st3 = ApplyState { out: st2.out + added, cur: st2.cur };
    assert(apply_lines_from(0, h.lines, nrem + nadd, st3, old) == Result::<
        ApplyState,
        MismatchV,
    >::Ok(st3));
    assert(hunk_step(0, init_state(), h, old) == Result::<ApplyState, MismatchV>::Ok(st3));
    assert(seq![h][0] == h);
    assert(apply_hunks_from(seq![h], 1, st3, old) == Result::<ApplyState, MismatchV>::Ok(st3));
    assert(apply_hunks_from(seq![h], 0, init_state(), old) == Result::<ApplyState, MismatchV>::Ok(
        st3,
    ));
    assert(old.subrange(st3.cur as int, old.len() as int) =~= suffix);
    assert(st3.out + suffix =~= prefix + added + suffix);
}

proof fn lemma_prefix_transitive(a: Seq<Seq<char>>, b: Seq<Seq<char>>, c: Seq<Seq<char>>)
    requires
        a.is_prefix_of(b),
        b.is_prefix_of(c),
    ensures
        a.is_prefix_of(c),
{
    assert forall|i: int| 0 <= i < a.len() implies a[i] == c.subrange(0, a.len() as int)[i] by {
        assert(a[i] == b.subrange(0, a.len() as int)[i]);
        assert(b[i] == c.subrange(0, b.len() as int)[i]);
    }
    assert(a =~= c.subrange(0, a.len() as int));
}

/// A successful line run never moves the cursor backwards and only ever
/// appends to the output.
proof fn lemma_lines_monotone(
    hidx: nat,
    lines: Seq<DiffLineV>,
    i: int,
    st: ApplyState,
    st2: ApplyState,
    old: Seq<Seq<char>>,
)
    requires
        apply_lines_from(hidx, lines, i, st, old) == Result::<ApplyState, MismatchV>::Ok(st2),
    ensures
        st.cur <= st2.cur,
        st.out.is_prefix_of(st2.out),
    decreases lines.len() - i,
{
    if i < 0 || i >= lines.len() {
        assert(st2 == st);
        assert(st.out.is_prefix_of(st.out));
    } else {
        match line_step(hidx, st, lines[i], old) {
            Result::Ok(stm) => {
                lemma_lines_monotone(hidx, lines, i + 1, stm, st2, old);
                assert(st.out =~= stm.out.subrange(0, st.out.len() as int));
                assert(st.out.is_prefix_of(stm.out));
                lemma_prefix_transitive(st.out, stm.out, st2.out);
            },
            Result::Err(_) => {},
        }
    }
}

/// Ordering of hunk application: each hunk is resolved in full before the
/// next one is looked at, so across any successful tail of the
/// application the cursor never moves backwards and the output already
/// produced is never revised, only extended.
pub proof fn lemma_apply_monotone(
    hunks: Seq<HunkV>,
    j: int,
    st: ApplyState,
    st2: ApplyState,
    old: Seq<Seq<char>>,
)
    requires
        apply_hunks_from(hunks, j, st, old) == Result::<ApplyState, MismatchV>::Ok(st2),
    ensures
        st.cur <= st2.cur,
        st.out.is_prefix_of(st2.out),
    decreases hunks.len() - j,
{
    if j < 0 || j >= hunks.len() {
        assert(st2 == st);
        assert(st.out.is_prefix_of(st.out));
    } else {
        let stc = copied_state(st, copy_target(hunks[j].old_start, old.len()), old);
        assert(st.cur <= stc.cur);
        assert(st.out =~= stc.out.subrange(0, st.out.len() as int));
        assert(st.out.is_prefix_of(stc.out));
        match hunk_step(j as nat, st, hunks[j], old) {
            Result::Ok(stm) => {
                lemma_lines_monotone(j as nat, hunks[j].lines, 0, stc, stm, old);
                lemma_apply_monotone(hunks, j + 1, stm, st2, old);
                lemma_prefix_transitive(st.out, stc.out, stm.out);
                lemma_prefix_transitive(st.out, stm.out, st2.out);
            },
            Result::Err(_) => {},
        }
    }
}

/// Mismatch detection: a hunk whose first context or removed line does
/// not match the old file at the hunk's start — or runs past the old
/// file's end — fails the whole application, with the error naming the
/// 0-based old-file line, the expected text, and the actual text found
/// there (none when the file ended).
pub proof fn lemma_mismatch_fails(h: HunkV, old: Seq<Seq<char>>, s: Seq<char>, removal: bool)
    requires
        1 <= h.old_start,
        h.old_start - 1 <= old.len(),
        h.lines.len() > 0,
        h.lines[0] == if removal {
            DiffLineV::Remove(s)
        } else {
            DiffLineV::Context(s)
        },
        h.old_start - 1 < old.len() ==> old[h.old_start - 1] != s,
    ensures
        spec_apply(seq![h], old) == Result::<Seq<Seq<char>>, MismatchV>::Err(
            MismatchV {
                removal,
                hunk: 0,
                line: (h.old_start - 1) as nat,
                expected: s,
                actual: if h.old_start - 1 < old.len() {
                    Some(old[h.old_start - 1])
                } else {
                    None
                },
            },
        ),
{
    let t = copy_target(h.old_start, old.len());
    assert(t == h.old_start - 1);
    let st1 = copied_state(init_state(), t, old);
    assert(st1.cur == t);
    let m = MismatchV {
        removal,
        hunk: 0,
        line: (h.old_start - 1) as nat,
        expected: s,
        actual: if h.old_start - 1 < old.len() {
            Some(old[h.old_start - 1])
        } else {
            None
        },
    };
    assert(line_step(0, st1, h.lines[0], old) == Result::<ApplyState, MismatchV>::Err(m));
    assert(apply_lines_from(0, h.lines, 0, st1, old) == Result::<ApplyState, MismatchV>::Err(m));
    assert(hunk_step(0, init_state(), h, old) == Result::<ApplyState, MismatchV>::Err(m));
    assert(seq![h][0] == h);
    assert(apply_hunks_from(seq![h], 0, init_state(), old) == Result::<ApplyState, MismatchV>::Err(
        m,
    ));
}

} // verus!
