//! Parsing multi-file unified-diff text into a patch set.
//!
//! The accepted syntax is the conventional one: for each file a `--- `
//! header naming the old path and a `+++ ` header naming the new path
//! (each path ending at the first tab, where diff tools append
//! timestamps), followed by one or more hunks.  A hunk is a header
//! `@@ -start,length +start,length @@` (a length may be omitted and
//! defaults to 1; text after the closing `@@` is ignored) followed by
//! exactly as many body lines as the two lengths demand: a line starting
//! with `' '` (or empty) is context, `'+'` is added, `'-'` is removed,
//! and lines starting with `'\'` — the no-newline markers — are skipped.
//! Parsing stops with an error, carrying the 0-based offending line, at
//! the first line that fits none of these.

use vstd::prelude::*;
use vstd::string::*;

use crate::errors::PatchError;
use crate::model::{
    diff_lines_view, file_patches_view, hunks_view, texts_view, DiffLine, DiffLineV, FilePatch,
    FilePatchV, Hunk, HunkV, LineRange,
};
use crate::text::{spec_lines, split_lines};

verus! {

pub open spec fn is_digit(c: char) -> bool {
    48 <= c as u32 && c as u32 <= 57
}

pub open spec fn digit_val(c: char) -> nat {
    (c as u32 - 48) as nat
}

/// The number of digits of `s` from `i` on.
pub open spec fn digit_run(s: Seq<char>, i: int) -> nat
    decreases s.len() - i,
{
    if i < 0 || i >= s.len() || !is_digit(s[i]) {
        0
    } else {
        1 + digit_run(s, i + 1)
    }
}

proof fn lemma_digit_run_at(s: Seq<char>, i: int, m: int)
    requires
        0 <= i,
        0 <= m,
        i + m <= s.len(),
        forall|k: int| i <= k < i + m ==> is_digit(s[k]),
        i + m < s.len() ==> !is_digit(s[i + m]),
    ensures
        digit_run(s, i) == m,
    decreases m,
{
    if m > 0 {
        assert(is_digit(s[i]));
        lemma_digit_run_at(s, i + 1, m - 1);
    }
}

/// The value of the `m` digits of `s` from `i` on.
pub open spec fn digits_value(s: Seq<char>, i: int, m: int) -> nat
    decreases m,
{
    if m <= 0 {
        0
    } else {
        digits_value(s, i, m - 1) * 10 + digit_val(s[i + m - 1])
    }
}

pub open spec fn pow10(m: nat) -> nat
    decreases m,
{
    if m == 0 {
        1
    } else {
        10 * pow10((m - 1) as nat)
    }
}

proof fn lemma_pow10_9()
    ensures
        pow10(9) == 1000000000,
{
    assert(pow10(0) == 1);
    assert(pow10(1) == 10);
    assert(pow10(2) == 100);
    assert(pow10(3) == 1000);
    assert(pow10(4) == 10000);
    assert(pow10(5) == 100000);
    assert(pow10(6) == 1000000);
    assert(pow10(7) == 10000000);
    assert(pow10(8) == 100000000);
    assert(pow10(9) == 1000000000);
}

/// A number of at most nine digits read at `i`: its value and the index
/// after it.
pub open spec fn parse_number(s: Seq<char>, i: int) -> Option<(nat, int)> {
    let m = digit_run(s, i);
    if m == 0 || m > 9 {
        Option::None
    } else {
        Option::Some((digits_value(s, i, m as int), i + m))
    }
}

/// A range as written in a hunk header at `i`: `start` or `start,length`,
/// with the index after it.  An omitted length stands for 1.
pub open spec fn parse_range(s: Seq<char>, i: int) -> Option<(nat, nat, int)> {
    match parse_number(s, i) {
        Option::None => Option::None,
        Option::Some((start, p)) => if p < s.len() && s[p] == ',' {
            match parse_number(s, p + 1) {
                Option::None => Option::None,
                Option::Some((length, q)) => Option::Some((start, length, q)),
            }
        } else {
            Option::Some((start, 1, p))
        },
    }
}

/// The ranges of a hunk header line `@@ -a,b +c,d @@`, or `None` where the
/// line is no hunk header.
pub open spec fn parse_hunk_header(l: Seq<char>) -> Option<(nat, nat, nat, nat)> {
    if !(l.len() >= 4 && l[0] == '@' && l[1] == '@' && l[2] == ' ' && l[3] == '-') {
        Option::None
    } else {
        match parse_range(l, 4) {
            Option::None => Option::None,
            Option::Some((os, ol, p)) => if !(p + 2 <= l.len() && l[p] == ' ' && l[p + 1] == '+') {
                Option::None
            } else {
                match parse_range(l, p + 2) {
                    Option::None => Option::None,
                    Option::Some((ns, nl, q)) => if q + 3 <= l.len() && l[q] == ' ' && l[q + 1]
                        == '@' && l[q + 2] == '@' {
                        Option::Some((os, ol, ns, nl))
                    } else {
                        Option::None
                    },
                }
            },
        }
    }
}

pub open spec fn is_old_header(l: Seq<char>) -> bool {
    l.len() >= 4 && l[0] == '-' && l[1] == '-' && l[2] == '-' && l[3] == ' '
}

pub open spec fn is_new_header(l: Seq<char>) -> bool {
    l.len() >= 4 && l[0] == '+' && l[1] == '+' && l[2] == '+' && l[3] == ' '
}

/// Index of the first tab of `s`, or `s.len()` if there is none.
pub open spec fn first_tab(s: Seq<char>) -> nat
    decreases s.len(),
{
    if s.len() == 0 {
        0
    } else if s[0] == '\t' {
        0
    } else {
        1 + first_tab(s.drop_first())
    }
}

proof fn lemma_first_tab_at(s: Seq<char>, i: int)
    requires
        0 <= i <= s.len(),
        forall|k: int| 0 <= k < i ==> s[k] != '\t',
        i < s.len() ==> s[i] == '\t',
    ensures
        first_tab(s) == i,
    decreases i,
{
    if i != 0 {
        assert(s[0] != '\t');
        lemma_first_tab_at(s.drop_first(), i - 1);
    }
}

/// The path of a `--- ` or `+++ ` header line: the text after the marker
/// up to the first tab.
pub open spec fn header_path(l: Seq<char>) -> Seq<char> {
    let body = l.subrange(4, l.len() as int);
    body.subrange(0, first_tab(body) as int)
}

/// A hunk in the middle of being read: its header ranges, the lines read
/// so far, and how many old-side and new-side lines are still owed.
pub struct BodyV {
    pub os: nat,
    pub ol: nat,
    pub ns: nat,
    pub nl: nat,
    pub lines: Seq<DiffLineV>,
    pub old_left: nat,
    pub new_left: nat,
}

/// What the parser expects next.
pub enum ParseMode {
    /// The `--- ` header of the first file.
    Top,
    /// The `+++ ` header of the current file.
    NeedNew,
    /// A hunk header, or the `--- ` header of the next file.
    InFile,
    /// Body lines of the current hunk.
    InBody(BodyV),
}

/// The full parser state.
pub struct ParseSt {
    pub done: Seq<FilePatchV>,
    pub cur_old: Seq<char>,
    pub cur_new: Seq<char>,
    pub cur_hunks: Seq<HunkV>,
    pub mode: ParseMode,
}

pub open spec fn init_parse() -> ParseSt {
    ParseSt {
        done: Seq::empty(),
        cur_old: Seq::empty(),
        cur_new: Seq::empty(),
        cur_hunks: Seq::empty(),
        mode: ParseMode::Top,
    }
}

pub open spec fn close_file(st: ParseSt) -> FilePatchV {
    FilePatchV { old_path: st.cur_old, new_path: st.cur_new, hunks: st.cur_hunks }
}

pub open spec fn finish_hunk(b: BodyV) -> HunkV {
    HunkV {
        old_start: b.os,
        old_length: b.ol,
        new_start: b.ns,
        new_length: b.nl,
        lines: b.lines,
    }
}

/// One body line added to the hunk being read; closes the hunk when both
/// owed counts reach zero.
pub open spec fn step_body(
    st: ParseSt,
    b: BodyV,
    dl: DiffLineV,
    dec_old: bool,
    dec_new: bool,
    k: nat,
) -> Result<ParseSt, nat> {
    if (dec_old && b.old_left == 0) || (dec_new && b.new_left == 0) {
        Result::Err(k)
    } else {
        let b2 = BodyV {
            os: b.os,
            ol: b.ol,
            ns: b.ns,
            nl: b.nl,
            lines: b.lines.push(dl),
            old_left: if dec_old {
                (b.old_left - 1) as nat
            } else {
                b.old_left
            },
            new_left: if dec_new {
                (b.new_left - 1) as nat
            } else {
                b.new_left
            },
        };
        if b2.old_left == 0 && b2.new_left == 0 {
            Result::Ok(
                ParseSt {
                    done: st.done,
                    cur_old: st.cur_old,
                    cur_new: st.cur_new,
                    cur_hunks: st.cur_hunks.push(finish_hunk(b2)),
                    mode: ParseMode::InFile,
                },
            )
        } else {
            Result::Ok(
                ParseSt {
                    done: st.done,
                    cur_old: st.cur_old,
                    cur_new: st.cur_new,
                    cur_hunks: st.cur_hunks,
                    mode: ParseMode::InBody(b2),
                },
            )
        }
    }
}

/// The parser's transition on line `l`, the `k`-th line of the text.
pub open spec fn parse_step(st: ParseSt, l: Seq<char>, k: nat) -> Result<ParseSt, nat> {
    match st.mode {
        ParseMode::Top => if is_old_header(l) {
            Result::Ok(
                ParseSt {
                    done: st.done,
                    cur_old: header_path(l),
                    cur_new: Seq::empty(),
                    cur_hunks: Seq::empty(),
                    mode: ParseMode::NeedNew,
                },
            )
        } else {
            Result::Err(k)
        },
        ParseMode::NeedNew => if is_new_header(l) {
            Result::Ok(
                ParseSt {
                    done: st.done,
                    cur_old: st.cur_old,
                    cur_new: header_path(l),
                    cur_hunks: Seq::empty(),
                    mode: ParseMode::InFile,
                },
            )
        } else {
            Result::Err(k)
        },
        ParseMode::InFile => if is_old_header(l) {
            if st.cur_hunks.len() == 0 {
                Result::Err(k)
            } else {
                Result::Ok(
                    ParseSt {
                        done: st.done.push(close_file(st)),
                        cur_old: header_path(l),
                        cur_new: Seq::empty(),
                        cur_hunks: Seq::empty(),
                        mode: ParseMode::NeedNew,
                    },
                )
            }
        } else if l.len() > 0 && l[0] == '\\' {
            Result::Ok(st)
        } else {
            match parse_hunk_header(l) {
                Option::None => Result::Err(k),
                Option::Some((os, ol, ns, nl)) => if ol == 0 && nl == 0 {
                    Result::Ok(
                        ParseSt {
                            done: st.done,
                            cur_old: st.cur_old,
                            cur_new: st.cur_new,
                            cur_hunks: st.cur_hunks.push(
                                HunkV {
                                    old_start: os,
                                    old_length: ol,
                                    new_start: ns,
                                    new_length: nl,
                                    lines: Seq::empty(),
                                },
                            ),
                            mode: ParseMode::InFile,
                        },
                    )
                } else {
                    Result::Ok(
                        ParseSt {
                            done: st.done,
                            cur_old: st.cur_old,
                            cur_new: st.cur_new,
                            cur_hunks: st.cur_hunks,
                            mode: ParseMode::InBody(
                                BodyV {
                                    os,
                                    ol,
                                    ns,
                                    nl,
                                    lines: Seq::empty(),
                                    old_left: ol,
                                    new_left: nl,
                                },
                            ),
                        },
                    )
                },
            }
        },
        ParseMode::InBody(b) => if l.len() == 0 {
            step_body(st, b, DiffLineV::Context(Seq::empty()), true, true, k)
        } else if l[0] == '\\' {
            Result::Ok(st)
        } else if l[0] == ' ' {
            step_body(st, b, DiffLineV::Context(l.drop_first()), true, true, k)
        } else if l[0] == '+' {
            step_body(st, b, DiffLineV::Add(l.drop_first()), false, true, k)
        } else if l[0] == '-' {
            step_body(st, b, DiffLineV::Remove(l.drop_first()), true, false, k)
        } else {
            Result::Err(k)
        },
    }
}

/// What the parser yields when the text ends in state `st`.
pub open spec fn finish_parse(st: ParseSt, endk: nat) -> Result<Seq<FilePatchV>, nat> {
    match st.mode {
        ParseMode::Top => if st.done.len() > 0 {
            Result::Ok(st.done)
        } else {
            Result::Err(endk)
        },
        ParseMode::NeedNew => Result::Err(endk),
        ParseMode::InFile => if st.cur_hunks.len() > 0 {
            Result::Ok(st.done.push(close_file(st)))
        } else {
            Result::Err(endk)
        },
        ParseMode::InBody(_) => Result::Err(endk),
    }
}

/// The parse of the lines of `ls` from line `k` on, started in state
/// `st`.
pub open spec fn parse_from(ls: Seq<Seq<char>>, k: int, st: ParseSt) -> Result<
    Seq<FilePatchV>,
    nat,
>
    decreases ls.len() - k,
{
    if k < 0 || k >= ls.len() {
        finish_parse(st, ls.len() as nat)
    } else {
        match parse_step(st, ls[k], k as nat) {
            Result::Ok(st2) => parse_from(ls, k + 1, st2),
            Result::Err(e) => Result::Err(e),
        }
    }
}

/// The patch set that `text` parses to, or the 0-based line where parsing
/// stops.
pub open spec fn parse_patch_set_s(text: Seq<char>) -> Result<Seq<FilePatchV>, nat> {
    parse_from(spec_lines(text), 0, init_parse())
}


fn is_digit_char(c: char) -> (r: bool)
    ensures
        r == is_digit(c),
{
    let d = c as u32;
    48 <= d && d <= 57
}

/// Reads a number of at most nine digits at `i`.
#[verifier::loop_isolation(false)]
fn parse_number_at(l: &str, i: usize) -> (r: Option<(u32, usize)>)
    requires
        i <= l@.len(),
    ensures
        match parse_number(l@, i as int) {
            Option::Some((v, nx)) => r matches Some(p) && p.0 as nat == v && p.1 as int == nx
                && nx <= l@.len(),
            Option::None => r is None,
        },
{
    let n = l.unicode_len();
    let mut j = i;
    while j < n && is_digit_char(l.get_char(j))
        invariant
            i <= j <= n,
            forall|k: int| i <= k < j ==> is_digit(l@[k]),
        decreases n - j,
    {
        j += 1;
    }
    proof {
        lemma_digit_run_at(l@, i as int, j - i);
    }
    let m = j - i;
    if m == 0 || m > 9 {
        return None;
    }
    let mut val: u32 = 0;
    let mut t = i;
    proof {
        lemma_pow10_9();
    }
    while t < j
        invariant
            i <= t <= j,
            val as nat == digits_value(l@, i as int, t - i),
            val < pow10((t - i) as nat),
        decreases j - t,
    {
        let c = l.get_char(t);
        proof {
            assert(is_digit(l@[t as int]));
        }
        let d = (c as u32) - 48;
        proof {
            assert(d as nat == digit_val(l@[t as int]));
            assert(digits_value(l@, i as int, t - i + 1) == digits_value(l@, i as int, t - i) * 10
                + digit_val(l@[i + (t - i + 1) - 1]));
            lemma_pow10_le((t - i + 1) as nat, 9);
            assert(pow10((t - i + 1) as nat) == 10 * pow10((t - i) as nat));
        }
        val = val * 10 + d;
        t += 1;
    }
    Some((val, j))
}

proof fn lemma_pow10_le(a: nat, b: nat)
    requires
        a <= b,
    ensures
        pow10(a) <= pow10(b),
    decreases b,
{
    if a < b {
        lemma_pow10_le(a, (b - 1) as nat);
        assert(pow10(b) == 10 * pow10((b - 1) as nat));
    }
}

/// Reads a `start` or `start,length` range at `i`.
fn parse_range_at(l: &str, i: usize) -> (r: Option<(u32, u32, usize)>)
    requires
        i <= l@.len(),
    ensures
        match parse_range(l@, i as int) {
            Option::Some((start, length, nx)) => r matches Some(t) && t.0 as nat == start
                && t.1 as nat == length && t.2 as int == nx && nx <= l@.len(),
            Option::None => r is None,
        },
{
    let n = l.unicode_len();
    let (start, p) = match parse_number_at(l, i) {
        Some(t) => t,
        None => {
            return None;
        },
    };
    if p < n && l.get_char(p) == ',' {
        let (length, q) = match parse_number_at(l, p + 1) {
            Some(t) => t,
            None => {
                return None;
            },
        };
        Some((start, length, q))
    } else {
        Some((start, 1, p))
    }
}

/// Reads the two ranges of a hunk header line.
fn parse_hunk_header_line(l: &str) -> (r: Option<(LineRange, LineRange)>)
    ensures
        match parse_hunk_header(l@) {
            Option::Some((os, ol, ns, nl)) => r matches Some(p) && p.0.start as nat == os
                && p.0.length as nat == ol && p.1.start as nat == ns && p.1.length as nat == nl,
            Option::None => r is None,
        },
{
    let n = l.unicode_len();
    if !(n >= 4 && l.get_char(0) == '@' && l.get_char(1) == '@' && l.get_char(2) == ' '
        && l.get_char(3) == '-') {
        return None;
    }
    let (os, ol, p) = match parse_range_at(l, 4) {
        Some(t) => t,
        None => {
            return None;
        },
    };
    if !(p < n && l.get_char(p) == ' ' && p + 1 < n && l.get_char(p + 1) == '+') {
        return None;
    }
    let (ns, nl, q) = match parse_range_at(l, p + 2) {
        Some(t) => t,
        None => {
            return None;
        },
    };
    if !(q < n && l.get_char(q) == ' ' && q + 1 < n && l.get_char(q + 1) == '@' && q + 2 < n
        && l.get_char(q + 2) == '@') {
        return None;
    }
    Some((LineRange { start: os, length: ol }, LineRange { start: ns, length: nl }))
}

fn check_old_header(l: &str) -> (r: bool)
    ensures
        r == is_old_header(l@),
{
    let n = l.unicode_len();
    n >= 4 && l.get_char(0) == '-' && l.get_char(1) == '-' && l.get_char(2) == '-' && l.get_char(3)
        == ' '
}

fn check_new_header(l: &str) -> (r: bool)
    ensures
        r == is_new_header(l@),
{
    let n = l.unicode_len();
    n >= 4 && l.get_char(0) == '+' && l.get_char(1) == '+' && l.get_char(2) == '+' && l.get_char(3)
        == ' '
}

/// Extracts the path of a `---` or `+++` header line.
#[verifier::loop_isolation(false)]
fn header_path_of(l: &str) -> (r: String)
    requires
        l@.len() >= 4,
    ensures
        r@ == header_path(l@),
{
    let n = l.unicode_len();
    let mut j: usize = 4;
    while j < n && l.get_char(j) != '\t'
        invariant
            4 <= j <= n,
            forall|k: int| 4 <= k < j ==> l@[k] != '\t',
        decreases n - j,
    {
        j += 1;
    }
    let r = l.substring_char(4, j).to_owned();
    proof {
        let body = l@.subrange(4, n as int);
        assert forall|k: int| 0 <= k < j - 4 implies body[k] != '\t' by {
            assert(body[k] == l@[4 + k]);
        }
        if j < n {
            assert(body[j - 4] == l@[j as int]);
        }
        lemma_first_tab_at(body, j - 4);
        assert(r@ =~= body.subrange(0, (j - 4) as int));
    }
    r
}

/// What the executable parser expects next.
#[derive(Clone, Copy, PartialEq, Eq, Structural)]
enum ExecMode {
    Top,
    NeedNew,
    InFile,
    InBody,
}

spec fn body_of(
    os: u32,
    ol: u32,
    ns: u32,
    nl: u32,
    lines: Seq<DiffLineV>,
    old_left: u32,
    new_left: u32,
) -> BodyV {
    BodyV {
        os: os as nat,
        ol: ol as nat,
        ns: ns as nat,
        nl: nl as nat,
        lines,
        old_left: old_left as nat,
        new_left: new_left as nat,
    }
}

spec fn exec_st(
    done: Seq<FilePatchV>,
    co: Seq<char>,
    cn: Seq<char>,
    ch: Seq<HunkV>,
    mode: ExecMode,
    b: BodyV,
) -> ParseSt {
    ParseSt {
        done,
        cur_old: co,
        cur_new: cn,
        cur_hunks: ch,
        mode: match mode {
            ExecMode::Top => ParseMode::Top,
            ExecMode::NeedNew => ParseMode::NeedNew,
            ExecMode::InFile => ParseMode::InFile,
            ExecMode::InBody => ParseMode::InBody(b),
        },
    }
}

/// Parses multi-file unified-diff text into its patch set.
#[verifier::loop_isolation(false)]
pub fn parse_patch_set(text: &str) -> (r: Result<Vec<FilePatch>, PatchError>)
    ensures
        match parse_patch_set_s(text@) {
            Result::Ok(fps) => r matches Ok(v) && file_patches_view(v@) == fps,
            Result::Err(kk) => r matches Err(e) && e matches PatchError::ParseError { line }
                && line as nat == kk,
        },
{
    let lines = split_lines(text);
    let ghost lsv = spec_lines(text@);
    let mut done: Vec<FilePatch> = Vec::new();
    let mut cur_old: String = String::new();
    let mut cur_new: String = String::new();
    let mut cur_hunks: Vec<Hunk> = Vec::new();
    let mut b_os: u32 = 0;
    let mut b_ol: u32 = 0;
    let mut b_ns: u32 = 0;
    let mut b_nl: u32 = 0;
    let mut b_lines: Vec<DiffLine> = Vec::new();
    let mut b_old_left: u32 = 0;
    let mut b_new_left: u32 = 0;
    let mut mode = ExecMode::Top;
    proof {
        assert(file_patches_view(done@) =~= Seq::<FilePatchV>::empty());
        assert(hunks_view(cur_hunks@) =~= Seq::<HunkV>::empty());
        assert(exec_st(
            file_patches_view(done@),
            cur_old@,
            cur_new@,
            hunks_view(cur_hunks@),
            mode,
            body_of(b_os, b_ol, b_ns, b_nl, diff_lines_view(b_lines@), b_old_left, b_new_left),
        ) == init_parse());
    }
    let mut k: usize = 0;
    while k < lines.len()
        invariant
            k <= lines.len(),
            lsv == texts_view(lines@),
            parse_from(lsv, 0, init_parse()) == parse_from(
                lsv,
                k as int,
                exec_st(
                    file_patches_view(done@),
                    cur_old@,
                    cur_new@,
                    hunks_view(cur_hunks@),
                    mode,
                    body_of(
                        b_os,
                        b_ol,
                        b_ns,
                        b_nl,
                        diff_lines_view(b_lines@),
                        b_old_left,
                        b_new_left,
                    ),
                ),
            ),
        decreases lines.len() - k,
    {
        let ghost st_now = exec_st(
            file_patches_view(done@),
            cur_old@,
            cur_new@,
            hunks_view(cur_hunks@),
            mode,
            body_of(b_os, b_ol, b_ns, b_nl, diff_lines_view(b_lines@), b_old_left, b_new_left),
        );
        let l = &lines[k];
        proof {
            assert(lsv[k as int] == l@);
        }
        match mode {
            ExecMode::Top => {
                if check_old_header(l.as_str()) {
                    cur_old = header_path_of(l.as_str());
                    cur_new = String::new();
                    cur_hunks = Vec::new();
                    mode = ExecMode::NeedNew;
                    proof {
                        assert(hunks_view(cur_hunks@) =~= Seq::<HunkV>::empty());
                        lemma_step_ok(lsv, k as int, st_now, exec_st(
                            file_patches_view(done@),
                            cur_old@,
                            cur_new@,
                            hunks_view(cur_hunks@),
                            mode,
                            body_of(b_os, b_ol, b_ns, b_nl, diff_lines_view(b_lines@), b_old_left, b_new_left),
                        ));
                    }
                } else {
                    proof {
                        lemma_step_err(lsv, k as int, st_now);
                    }
                    return Err(PatchError::ParseError { line: k });
                }
            },
            ExecMode::NeedNew => {
                if check_new_header(l.as_str()) {
                    cur_new = header_path_of(l.as_str());
                    cur_hunks = Vec::new();
                    mode = ExecMode::InFile;
                    proof {
                        assert(hunks_view(cur_hunks@) =~= Seq::<HunkV>::empty());
                        lemma_step_ok(lsv, k as int, st_now, exec_st(
                            file_patches_view(done@),
                            cur_old@,
                            cur_new@,
                            hunks_view(cur_hunks@),
                            mode,
                            body_of(b_os, b_ol, b_ns, b_nl, diff_lines_view(b_lines@), b_old_left, b_new_left),
                        ));
                    }
                } else {
                    proof {
                        lemma_step_err(lsv, k as int, st_now);
                    }
                    return Err(PatchError::ParseError { line: k });
                }
            },
            ExecMode::InFile => {
                if check_old_header(l.as_str()) {
                    if cur_hunks.len() == 0 {
                        proof {
                            lemma_step_err(lsv, k as int, st_now);
                        }
                        return Err(PatchError::ParseError { line: k });
                    }
                    let finished = FilePatch { old_path: cur_old, new_path: cur_new, hunks: cur_hunks };
                    proof {
                        assert(finished@ == close_file(st_now));
                        assert(file_patches_view(done@.push(finished)) =~= file_patches_view(
                            done@,
                        ).push(finished@));
                    }
                    done.push(finished);
                    cur_old = header_path_of(l.as_str());
                    cur_new = String::new();
                    cur_hunks = Vec::new();
                    mode = ExecMode::NeedNew;
                    proof {
                        assert(hunks_view(cur_hunks@) =~= Seq::<HunkV>::empty());
                        lemma_step_ok(lsv, k as int, st_now, exec_st(
                            file_patches_view(done@),
                            cur_old@,
                            cur_new@,
                            hunks_view(cur_hunks@),
                            mode,
                            body_of(b_os, b_ol, b_ns, b_nl, diff_lines_view(b_lines@), b_old_left, b_new_left),
                        ));
                    }
                } else if l.unicode_len() > 0 && l.as_str().get_char(0) == '\\' {
                    proof {
                        lemma_step_ok(lsv, k as int, st_now, st_now);
                    }
                } else {
                    match parse_hunk_header_line(l.as_str()) {
                        Some((orng, nrng)) => {
                            if orng.length == 0 && nrng.length == 0 {
                                let hk = Hunk {
                                    old_range: orng,
                                    new_range: nrng,
                                    lines: Vec::new(),
                                };
                                proof {
                                    assert(hk@.lines =~= Seq::<DiffLineV>::empty());
                                    assert(hunks_view(cur_hunks@.push(hk)) =~= hunks_view(
                                        cur_hunks@,
                                    ).push(hk@));
                                }
                                cur_hunks.push(hk);
                                proof {
                                    lemma_step_ok(lsv, k as int, st_now, exec_st(
                                        file_patches_view(done@),
                                        cur_old@,
                                        cur_new@,
                                        hunks_view(cur_hunks@),
                                        mode,
                                        body_of(b_os, b_ol, b_ns, b_nl, diff_lines_view(b_lines@), b_old_left, b_new_left),
                                    ));
                                }
                            } else {
                                b_os = orng.start;
                                b_ol = orng.length;
                                b_ns = nrng.start;
                                b_nl = nrng.length;
                                b_lines = Vec::new();
                                b_old_left = orng.length;
                                b_new_left = nrng.length;
                                mode = ExecMode::InBody;
                                proof {
                                    assert(diff_lines_view(b_lines@) =~= Seq::<
                                        DiffLineV,
                                    >::empty());
                                    lemma_step_ok(lsv, k as int, st_now, exec_st(
                                        file_patches_view(done@),
                                        cur_old@,
                                        cur_new@,
                                        hunks_view(cur_hunks@),
                                        mode,
                                        body_of(b_os, b_ol, b_ns, b_nl, diff_lines_view(b_lines@), b_old_left, b_new_left),
                                    ));
                                }
                            }
                        },
                        None => {
                            proof {
                                lemma_step_err(lsv, k as int, st_now);
                            }
                            return Err(PatchError::ParseError { line: k });
                        },
                    }
                }
            },
            ExecMode::InBody => {
                let n0 = l.unicode_len();
                let marker = n0 > 0 && l.as_str().get_char(0) == '\\';
                if marker {
                    proof {
                        lemma_step_ok(lsv, k as int, st_now, st_now);
                    }
                } else {
                    let kind: u8 = if n0 == 0 {
                        0u8
                    } else {
                        let c0 = l.as_str().get_char(0);
                        if c0 == ' ' {
                            0u8
                        } else if c0 == '+' {
                            1u8
                        } else if c0 == '-' {
                            2u8
                        } else {
                            3u8
                        }
                    };
                    if kind == 3 {
                        proof {
                            lemma_step_err(lsv, k as int, st_now);
                        }
                        return Err(PatchError::ParseError { line: k });
                    }
                    let dec_old = kind == 0 || kind == 2;
                    let dec_new = kind == 0 || kind == 1;
                    if (dec_old && b_old_left == 0) || (dec_new && b_new_left == 0) {
                        proof {
                            lemma_step_err(lsv, k as int, st_now);
                        }
                        return Err(PatchError::ParseError { line: k });
                    }
                    let txt = if n0 == 0 {
                        String::new()
                    } else {
                        l.as_str().substring_char(1, n0).to_owned()
                    };
                    let dl = if kind == 0 {
                        DiffLine::Context(txt)
                    } else if kind == 1 {
                        DiffLine::Add(txt)
                    } else {
                        DiffLine::Remove(txt)
                    };
                    proof {
                        if l@.len() > 0 {
                            assert(l@.subrange(1, l@.len() as int) =~= l@.drop_first());
                        } else {
                            assert(dl@ == DiffLineV::Context(Seq::<char>::empty()));
                        }
                        assert(diff_lines_view(b_lines@.push(dl)) =~= diff_lines_view(
                            b_lines@,
                        ).push(dl@));
                    }
                    b_lines.push(dl);
                    if dec_old {
                        b_old_left = b_old_left - 1;
                    }
                    if dec_new {
                        b_new_left = b_new_left - 1;
                    }
                    if b_old_left == 0 && b_new_left == 0 {
                        let hk = Hunk {
                            old_range: LineRange { start: b_os, length: b_ol },
                            new_range: LineRange { start: b_ns, length: b_nl },
                            lines: b_lines,
                        };
                        proof {
                            assert(hunks_view(cur_hunks@.push(hk)) =~= hunks_view(
                                cur_hunks@,
                            ).push(hk@));
                        }
                        cur_hunks.push(hk);
                        b_lines = Vec::new();
                        mode = ExecMode::InFile;
                        proof {
                            assert(diff_lines_view(b_lines@) =~= Seq::<DiffLineV>::empty());
                            lemma_step_ok(lsv, k as int, st_now, exec_st(
                                file_patches_view(done@),
                                cur_old@,
                                cur_new@,
                                hunks_view(cur_hunks@),
                                mode,
                                body_of(b_os, b_ol, b_ns, b_nl, diff_lines_view(b_lines@), b_old_left, b_new_left),
                            ));
                        }
                    } else {
                        proof {
                            lemma_step_ok(lsv, k as int, st_now, exec_st(
                                file_patches_view(done@),
                                cur_old@,
                                cur_new@,
                                hunks_view(cur_hunks@),
                                mode,
                                body_of(b_os, b_ol, b_ns, b_nl, diff_lines_view(b_lines@), b_old_left, b_new_left),
                            ));
                        }
                    }
                }
            },
        }
        k += 1;
    }
    let ghost st_end = exec_st(
        file_patches_view(done@),
        cur_old@,
        cur_new@,
        hunks_view(cur_hunks@),
        mode,
        body_of(b_os, b_ol, b_ns, b_nl, diff_lines_view(b_lines@), b_old_left, b_new_left),
    );
    proof {
        assert(parse_from(lsv, k as int, st_end) == finish_parse(st_end, lsv.len() as nat));
    }
    match mode {
        ExecMode::Top => {
            if done.len() > 0 {
                Ok(done)
            } else {
                Err(PatchError::ParseError { line: lines.len() })
            }
        },
        ExecMode::NeedNew => Err(PatchError::ParseError { line: lines.len() }),
        ExecMode::InFile => {
            if cur_hunks.len() > 0 {
                let finished = FilePatch { old_path: cur_old, new_path: cur_new, hunks: cur_hunks };
                proof {
                    assert(finished@ == close_file(st_end));
                    assert(file_patches_view(done@.push(finished)) =~= file_patches_view(
                        done@,
                    ).push(finished@));
                }
                done.push(finished);
                Ok(done)
            } else {
                Err(PatchError::ParseError { line: lines.len() })
            }
        },
        ExecMode::InBody => Err(PatchError::ParseError { line: lines.len() }),
    }
}

/// A step that the transition function accepts keeps the running parse
/// equal.
proof fn lemma_step_ok(ls: Seq<Seq<char>>, k: int, st: ParseSt, st2: ParseSt)
    requires
        0 <= k < ls.len(),
        parse_step(st, ls[k], k as nat) == Result::<ParseSt, nat>::Ok(st2),
    ensures
        parse_from(ls, k, st) == parse_from(ls, k + 1, st2),
{
}

/// A step that the transition function refuses fails the whole parse at
/// that line.
proof fn lemma_step_err(ls: Seq<Seq<char>>, k: int, st: ParseSt)
    requires
        0 <= k < ls.len(),
        parse_step(st, ls[k], k as nat) matches Result::Err(e) && e == k as nat,
    ensures
        parse_from(ls, k, st) == Result::<Seq<FilePatchV>, nat>::Err(k as nat),
{
}

} // verus!
