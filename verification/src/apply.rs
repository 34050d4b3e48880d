//! The hunk application engine.
//!
//! Hunks are applied strictly in sequence against a cursor into the old
//! file's lines.  Unchanged lines before each hunk are carried over
//! verbatim, every context and removed line is compared against the old
//! file character for character, and the first mismatch aborts the whole
//! application with a typed error.  Old-file lines after the final hunk's
//! range are carried over to the output unchanged.

use vstd::prelude::*;

use crate::errors::PatchError;
use crate::model::{hunks_view, texts_view, DiffLine, DiffLineV, FilePatch, Hunk, HunkV};
use crate::text::{join_lines, join_text_lines, spec_lines, split_lines, str_eq};

verus! {

/// The state of an application in progress: the output built so far and
/// the 0-based cursor into the old file's lines.
pub struct ApplyState {
    pub out: Seq<Seq<char>>,
    pub cur: nat,
}

/// A failed comparison of a context (`removal == false`) or removed
/// (`removal == true`) line against the old file.
pub struct MismatchV {
    pub removal: bool,
    pub hunk: nat,
    pub line: nat,
    pub expected: Seq<char>,
    pub actual: Option<Seq<char>>,
}

pub open spec fn init_state() -> ApplyState {
    ApplyState { out: Seq::empty(), cur: 0 }
}

pub open spec fn mismatch_at(
    removal: bool,
    hidx: nat,
    cur: nat,
    expected: Seq<char>,
    old: Seq<Seq<char>>,
) -> MismatchV {
    MismatchV {
        removal,
        hunk: hidx,
        line: cur,
        expected,
        actual: if cur < old.len() {
            Some(old[cur as int])
        } else {
            None
        },
    }
}

/// The effect of one hunk line on the application state.
pub open spec fn line_step(hidx: nat, st: ApplyState, l: DiffLineV, old: Seq<Seq<char>>) -> Result<
    ApplyState,
    MismatchV,
> {
    match l {
        DiffLineV::Context(s) => if st.cur < old.len() && old[st.cur as int] == s {
            Result::Ok(ApplyState { out: st.out.push(s), cur: st.cur + 1 })
        } else {
            Result::Err(mismatch_at(false, hidx, st.cur, s, old))
        },
        DiffLineV::Add(s) => Result::Ok(ApplyState { out: st.out.push(s), cur: st.cur }),
        DiffLineV::Remove(s) => if st.cur < old.len() && old[st.cur as int] == s {
            Result::Ok(ApplyState { out: st.out, cur: st.cur + 1 })
        } else {
            Result::Err(mismatch_at(true, hidx, st.cur, s, old))
        },
    }
}

/// The effect of the lines of hunk `hidx` from index `i` on.
pub open spec fn apply_lines_from(
    hidx: nat,
    lines: Seq<DiffLineV>,
    i: int,
    st: ApplyState,
    old: Seq<Seq<char>>,
) -> Result<ApplyState, MismatchV>
    decreases lines.len() - i,
{
    if i < 0 || i >= lines.len() {
        Result::Ok(st)
    } else {
        match line_step(hidx, st, lines[i], old) {
            Result::Ok(st2) => apply_lines_from(hidx, lines, i + 1, st2, old),
            Result::Err(e) => Result::Err(e),
        }
    }
}

/// The 0-based old-file line before which a hunk's own lines begin: one
/// less than the 1-based header start, clamped to the old file's length.
/// A start of 0, as written by hunks that create a file, stands for the
/// beginning of the file.
pub open spec fn copy_target(old_start: nat, old_len: nat) -> nat {
    let t: nat = if old_start > 0 {
        (old_start - 1) as nat
    } else {
        0
    };
    if t <= old_len {
        t
    } else {
        old_len
    }
}

/// The state after carrying the old lines from the cursor up to `t` over
/// to the output.
pub open spec fn copied_state(st: ApplyState, t: nat, old: Seq<Seq<char>>) -> ApplyState {
    if st.cur < t {
        ApplyState { out: st.out + old.subrange(st.cur as int, t as int), cur: t }
    } else {
        st
    }
}

/// The effect of one whole hunk: the leading copy, then its lines.
pub open spec fn hunk_step(hidx: nat, st: ApplyState, h: HunkV, old: Seq<Seq<char>>) -> Result<
    ApplyState,
    MismatchV,
> {
    apply_lines_from(hidx, h.lines, 0, copied_state(st, copy_target(h.old_start, old.len()), old), old)
}

/// The effect of the hunks from index `j` on.
pub open spec fn apply_hunks_from(
    hunks: Seq<HunkV>,
    j: int,
    st: ApplyState,
    old: Seq<Seq<char>>,
) -> Result<ApplyState, MismatchV>
    decreases hunks.len() - j,
{
    if j < 0 || j >= hunks.len() {
        Result::Ok(st)
    } else {
        match hunk_step(j as nat, st, hunks[j], old) {
            Result::Ok(st2) => apply_hunks_from(hunks, j + 1, st2, old),
            Result::Err(e) => Result::Err(e),
        }
    }
}

/// The lines produced by applying `hunks` to the old file's lines: all
/// hunks in sequence, then the old lines after the last hunk's range.
pub open spec fn spec_apply(hunks: Seq<HunkV>, old: Seq<Seq<char>>) -> Result<
    Seq<Seq<char>>,
    MismatchV,
> {
    match apply_hunks_from(hunks, 0, init_state(), old) {
        Result::Ok(st) => Result::Ok(
            if st.cur <= old.len() {
                st.out + old.subrange(st.cur as int, old.len() as int)
            } else {
                st.out
            },
        ),
        Result::Err(e) => Result::Err(e),
    }
}

pub open spec fn opt_text_view(o: Option<String>) -> Option<Seq<char>> {
    match o {
        Option::Some(s) => Option::Some(s@),
        Option::None => Option::None,
    }
}

/// The executable error that reports the mismatch `m`.
pub open spec fn mismatch_error(e: PatchError, m: MismatchV) -> bool {
    match e {
        PatchError::ContextMismatch { hunk, line, expected, actual } => !m.removal && hunk as nat
            == m.hunk && line as nat == m.line && expected@ == m.expected && opt_text_view(actual)
            == m.actual,
        PatchError::RemovalMismatch { hunk, line, expected, actual } => m.removal && hunk as nat
            == m.hunk && line as nat == m.line && expected@ == m.expected && opt_text_view(actual)
            == m.actual,
        _ => false,
    }
}

/// Applies `hunks` to the old file's lines.
#[verifier::loop_isolation(false)]
pub fn apply_hunks_to_lines(hunks: &Vec<Hunk>, old_lines: &Vec<String>) -> (r: Result<
    Vec<String>,
    PatchError,
>)
    ensures
        match spec_apply(hunks_view(hunks@), texts_view(old_lines@)) {
            Result::Ok(out) => r matches Ok(v) && texts_view(v@) == out,
            Result::Err(m) => r matches Err(e) && mismatch_error(e, m),
        },
{
    let ghost old_v = texts_view(old_lines@);
    let ghost hv = hunks_view(hunks@);
    let mut out: Vec<String> = Vec::new();
    let mut cur: usize = 0;
    let mut j: usize = 0;
    proof {
        assert(texts_view(out@) =~= Seq::<Seq<char>>::empty());
        assert(old_v.len() == old_lines@.len());
    }
    loop
        invariant
            j <= hunks.len(),
            cur <= old_lines.len(),
            apply_hunks_from(hv, 0, init_state(), old_v) == apply_hunks_from(
                hv,
                j as int,
                ApplyState { out: texts_view(out@), cur: cur as nat },
                old_v,
            ),
        decreases hunks.len() - j,
    {
        if j >= hunks.len() {
            break ;
        }
        let ghost st_h = ApplyState { out: texts_view(out@), cur: cur as nat };
        let h = &hunks[j];
        proof {
            assert(h@ == hv[j as int]);
        }
        let hs = h.old_range.start;
        let t0: usize = if hs > 0 {
            (hs - 1) as usize
        } else {
            0
        };
        let target = if t0 <= old_lines.len() {
            t0
        } else {
            old_lines.len()
        };
        proof {
            assert(target as nat == copy_target(h@.old_start, old_v.len()));
            assert(st_h.out + old_v.subrange(cur as int, cur as int) =~= st_h.out);
        }
        let ghost c0 = cur as nat;
        while cur < target
            invariant
                c0 <= cur,
                cur <= target || cur == c0,
                texts_view(out@) =~= st_h.out + old_v.subrange(c0 as int, cur as int),
            decreases target - cur,
        {
            let line = old_lines[cur].clone();
            proof {
                assert(line@ == old_lines@[cur as int]@);
                assert(line@ == old_v[cur as int]);
                assert(texts_view(out@.push(line)) =~= texts_view(out@).push(line@));
                assert(st_h.out + old_v.subrange(c0 as int, cur + 1) =~= (st_h.out
                    + old_v.subrange(c0 as int, cur as int)).push(old_v[cur as int]));
            }
            out.push(line);
            cur += 1;
        }
        let ghost st1 = ApplyState { out: texts_view(out@), cur: cur as nat };
        proof {
            let stc = copied_state(st_h, copy_target(h@.old_start, old_v.len()), old_v);
            if c0 < target as nat {
                assert(cur == target);
                assert(st1.out == stc.out);
                assert(st1.cur == stc.cur);
            } else {
                assert(cur as nat == c0);
                assert(texts_view(out@) =~= st_h.out + old_v.subrange(c0 as int, c0 as int));
                assert(st_h.out + old_v.subrange(c0 as int, c0 as int) =~= st_h.out);
                assert(st1.out == stc.out);
                assert(st1.cur == stc.cur);
            }
            assert(st1 == stc);
        }
        let n = h.lines.len();
        let mut i: usize = 0;
        while i < n
            invariant
                i <= n,
                cur <= old_lines.len(),
                apply_lines_from(j as nat, h@.lines, 0, st1, old_v) == apply_lines_from(
                    j as nat,
                    h@.lines,
                    i as int,
                    ApplyState { out: texts_view(out@), cur: cur as nat },
                    old_v,
                ),
            decreases n - i,
        {
            let ghost st_now = ApplyState { out: texts_view(out@), cur: cur as nat };
            proof {
                assert(h@.lines[i as int] == h.lines@[i as int]@);
                if cur < old_lines.len() {
                    assert(old_v[cur as int] == old_lines@[cur as int]@);
                }
            }
            match &h.lines[i] {
                DiffLine::Context(s) => {
                    if cur < old_lines.len() && str_eq(old_lines[cur].as_str(), s.as_str()) {
                        let text = s.clone();
                        proof {
                            let st2 = ApplyState { out: st_now.out.push(text@), cur: (cur + 1) as nat };
                            assert(line_step(j as nat, st_now, h@.lines[i as int], old_v)
                                == Result::<ApplyState, MismatchV>::Ok(st2));
                            assert(apply_lines_from(j as nat, h@.lines, i as int, st_now, old_v)
                                == apply_lines_from(j as nat, h@.lines, i as int + 1, st2, old_v));
                            assert(texts_view(out@.push(text)) =~= texts_view(out@).push(text@));
                        }
                        out.push(text);
                        cur += 1;
                    } else {
                        let expected = s.clone();
                        let actual = if cur < old_lines.len() {
                            Some(old_lines[cur].clone())
                        } else {
                            None
                        };
                        proof {
                            let m = mismatch_at(false, j as nat, cur as nat, expected@, old_v);
                            assert(line_step(j as nat, st_now, h@.lines[i as int], old_v)
                                == Result::<ApplyState, MismatchV>::Err(m));
                            lemma_error_chain(hv, old_v, st_h, st1, st_now, j as nat, i as int, m);
                        }
                        return Err(
                            PatchError::ContextMismatch { hunk: j, line: cur, expected, actual },
                        );
                    }
                },
                DiffLine::Add(s) => {
                    let text = s.clone();
                    proof {
                        let st2 = ApplyState { out: st_now.out.push(text@), cur: cur as nat };
                        assert(line_step(j as nat, st_now, h@.lines[i as int], old_v)
                            == Result::<ApplyState, MismatchV>::Ok(st2));
                        assert(apply_lines_from(j as nat, h@.lines, i as int, st_now, old_v)
                            == apply_lines_from(j as nat, h@.lines, i as int + 1, st2, old_v));
                        assert(texts_view(out@.push(text)) =~= texts_view(out@).push(text@));
                    }
                    out.push(text);
                },
                DiffLine::Remove(s) => {
                    if cur < old_lines.len() && str_eq(old_lines[cur].as_str(), s.as_str()) {
                        proof {
                            let st2 = ApplyState { out: st_now.out, cur: (cur + 1) as nat };
                            assert(line_step(j as nat, st_now, h@.lines[i as int], old_v)
                                == Result::<ApplyState, MismatchV>::Ok(st2));
                            assert(apply_lines_from(j as nat, h@.lines, i as int, st_now, old_v)
                                == apply_lines_from(j as nat, h@.lines, i as int + 1, st2, old_v));
                        }
                        cur += 1;
                    } else {
                        let expected = s.clone();
                        let actual = if cur < old_lines.len() {
                            Some(old_lines[cur].clone())
                        } else {
                            None
                        };
                        proof {
                            let m = mismatch_at(true, j as nat, cur as nat, expected@, old_v);
                            assert(line_step(j as nat, st_now, h@.lines[i as int], old_v)
                                == Result::<ApplyState, MismatchV>::Err(m));
                            lemma_error_chain(hv, old_v, st_h, st1, st_now, j as nat, i as int, m);
                        }
                        return Err(
                            PatchError::RemovalMismatch { hunk: j, line: cur, expected, actual },
                        );
                    }
                },
            }
            i += 1;
        }
        proof {
            let st_end = ApplyState { out: texts_view(out@), cur: cur as nat };
            assert(apply_lines_from(j as nat, h@.lines, n as int, st_end, old_v)
                == Result::<ApplyState, MismatchV>::Ok(st_end));
            assert(hunk_step(j as nat, st_h, hv[j as int], old_v)
                == Result::<ApplyState, MismatchV>::Ok(st_end));
            assert(apply_hunks_from(hv, j as int, st_h, old_v) == apply_hunks_from(
                hv,
                j as int + 1,
                st_end,
                old_v,
            ));
        }
        j += 1;
    }
    let ghost st_fin = ApplyState { out: texts_view(out@), cur: cur as nat };
    let ghost c1 = cur as nat;
    proof {
        assert(apply_hunks_from(hv, hunks@.len() as int, st_fin, old_v)
            == Result::<ApplyState, MismatchV>::Ok(st_fin));
        assert(st_fin.out + old_v.subrange(c1 as int, c1 as int) =~= st_fin.out);
    }
    while cur < old_lines.len()
        invariant
            c1 <= cur <= old_lines.len(),
            texts_view(out@) =~= st_fin.out + old_v.subrange(c1 as int, cur as int),
        decreases old_lines.len() - cur,
    {
        let line = old_lines[cur].clone();
        proof {
            assert(line@ == old_lines@[cur as int]@);
            assert(line@ == old_v[cur as int]);
            assert(texts_view(out@.push(line)) =~= texts_view(out@).push(line@));
            assert(st_fin.out + old_v.subrange(c1 as int, cur + 1) =~= (st_fin.out
                + old_v.subrange(c1 as int, cur as int)).push(old_v[cur as int]));
        }
        out.push(line);
        cur += 1;
    }
    proof {
        assert(st_fin.out + old_v.subrange(c1 as int, old_v.len() as int) =~= texts_view(out@));
        assert(spec_apply(hv, old_v) == Result::<Seq<Seq<char>>, MismatchV>::Ok(
            st_fin.out + old_v.subrange(c1 as int, old_v.len() as int),
        ));
    }
    Ok(out)
}

/// An error of a line step surfaces as the error of the whole
/// application.
proof fn lemma_error_chain(
    hv: Seq<HunkV>,
    old_v: Seq<Seq<char>>,
    st_h: ApplyState,
    st1: ApplyState,
    st_now: ApplyState,
    j: nat,
    i: int,
    m: MismatchV,
)
    requires
        0 <= j < hv.len(),
        0 <= i < hv[j as int].lines.len(),
        st1 == copied_state(st_h, copy_target(hv[j as int].old_start, old_v.len()), old_v),
        line_step(j, st_now, hv[j as int].lines[i], old_v) == Result::<ApplyState, MismatchV>::Err(
            m,
        ),
        apply_lines_from(j, hv[j as int].lines, 0, st1, old_v) == apply_lines_from(
            j,
            hv[j as int].lines,
            i,
            st_now,
            old_v,
        ),
        apply_hunks_from(hv, 0, init_state(), old_v) == apply_hunks_from(hv, j as int, st_h, old_v),
    ensures
        spec_apply(hv, old_v) == Result::<Seq<Seq<char>>, MismatchV>::Err(m),
{
    assert(apply_lines_from(j, hv[j as int].lines, i, st_now, old_v) == Result::<
        ApplyState,
        MismatchV,
    >::Err(m));
    assert(hunk_step(j, st_h, hv[j as int], old_v) == Result::<ApplyState, MismatchV>::Err(m));
    assert(apply_hunks_from(hv, j as int, st_h, old_v) == Result::<ApplyState, MismatchV>::Err(m));
}

/// Applies the hunks of `patch` to the old file's text, returning the new
/// text.
///
/// The old text is split into lines as `str::lines` splits them, the hunks
/// are applied in sequence, and the result is joined with single `'\n'`
/// separators; a final trailing newline of the old text is neither
/// preserved nor restored.
pub fn apply_patch_to_string(patch: &FilePatch, old: &str) -> (r: Result<String, PatchError>)
    ensures
        match spec_apply(patch@.hunks, spec_lines(old@)) {
            Result::Ok(out) => r matches Ok(s) && s@ == join_lines(out),
            Result::Err(m) => r matches Err(e) && mismatch_error(e, m),
        },
{
    let old_lines = split_lines(old);
    match apply_hunks_to_lines(&patch.hunks, &old_lines) {
        Ok(v) => Ok(join_text_lines(&v)),
        Err(e) => Err(e),
    }
}

} // verus!
