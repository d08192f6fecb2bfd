//! Specification of the report parser: a line-oriented state machine over
//! trimmed lines.  `spec_parse` is the mathematical meaning of
//! `parser::OutdatedResult::try_from`.

use vstd::prelude::*;

use crate::model::{BuilderView, DepKind, DepView, ErrView, LatestView, spec_build};
use crate::text::{spec_find, spec_split_lines, spec_tokens, spec_trim};

verus! {

/// The sixteen-character line that separates a workspace name from its
/// header.
pub open spec fn separator_line() -> Seq<char> {
    "================"@
}

/// The column labels of a well-formed header, in order.
pub open spec fn header_labels() -> Seq<Seq<char>> {
    seq!["Name"@, "Project"@, "Compat"@, "Latest"@, "Kind"@, "Platform"@]
}

/// The placeholder cell that stands for "no value".
pub open spec fn placeholder() -> Seq<char> {
    "---"@
}

/// The dependency kind a cell denotes, if any.
pub open spec fn spec_kind_of(cell: Seq<char>) -> Option<DepKind> {
    if cell == "Normal"@ {
        Some(DepKind::Normal)
    } else if cell == "Development"@ {
        Some(DepKind::Development)
    } else if cell == "Build"@ {
        Some(DepKind::Build)
    } else {
        None
    }
}

/// An optional cell: the placeholder means absent, anything else is kept.
pub open spec fn spec_opt_cell(cell: Seq<char>) -> Option<Seq<char>> {
    if cell == placeholder() {
        None
    } else {
        Some(cell)
    }
}

/// The latest-version cell: the `Removed` sentinel, or a literal version.
pub open spec fn spec_latest_of(cell: Seq<char>) -> LatestView {
    if cell == "Removed"@ {
        LatestView::Removed
    } else {
        LatestView::V(cell)
    }
}

/// The platform field: absent for the placeholder; otherwise the whole row
/// line is kept, since the platform predicate may itself contain whitespace
/// that a cut at the next column boundary would lose.
pub open spec fn spec_platform_of(cell: Seq<char>, line: Seq<char>) -> Option<Seq<char>> {
    if cell == placeholder() {
        None
    } else {
        Some(line)
    }
}

/// `i` clamped into `[0, n]`.
pub open spec fn spec_clamp(i: int, n: int) -> int {
    if i < 0 {
        0
    } else if i <= n {
        i
    } else {
        n
    }
}

/// The trimmed cell of `line` between column offsets `lo` and `hi`.
pub open spec fn spec_cell(line: Seq<char>, lo: int, hi: int) -> Seq<char> {
    let n = line.len() as int;
    let a = spec_clamp(lo, n);
    let b0 = spec_clamp(hi, n);
    let b = if b0 >= a {
        b0
    } else {
        a
    };
    spec_trim(line.subrange(a, b))
}

/// The trimmed cell of `line` from column offset `lo` to the end of the
/// line.
pub open spec fn spec_cell_last(line: Seq<char>, lo: int) -> Seq<char> {
    let n = line.len() as int;
    spec_trim(line.subrange(spec_clamp(lo, n), n))
}

/// Resolves the offsets of the labels from index `k` on within the header
/// line; `Err` carries the index of the first label that does not occur.
pub open spec fn spec_resolve_from(line: Seq<char>, k: int) -> Result<Seq<int>, int>
    decreases 6 - k,
{
    if k < 0 || k >= 6 {
        Ok(Seq::<int>::empty())
    } else {
        match spec_find(line, header_labels()[k]) {
            Some(i) => match spec_resolve_from(line, k + 1) {
                Ok(rest) => Ok(seq![i] + rest),
                Err(e) => Err(e),
            },
            None => Err(k),
        }
    }
}

/// The six column offsets of a header line: for each label in order, the
/// position of its first occurrence.
pub open spec fn spec_resolve_offsets(line: Seq<char>) -> Result<Seq<int>, int> {
    spec_resolve_from(line, 0)
}

/// Column offsets of the executable parser as the mathematical ones.
pub open spec fn cols_int(s: Seq<usize>) -> Seq<int> {
    s.map_values(|c: usize| c as int)
}

/// Extracts one dependency record from a row line, given the six column
/// offsets.
pub open spec fn spec_extract_row(line: Seq<char>, cols: Seq<int>) -> Result<DepView, ErrView>
    recommends
        cols.len() == 6,
{
    let kind_c = spec_cell(line, cols[4], cols[5]);
    match spec_kind_of(kind_c) {
        None => Err(ErrView::UnknownDependencyKind(kind_c)),
        Some(k) => spec_build(
            BuilderView {
                name: Some(spec_cell(line, cols[0], cols[1])),
                project_version: Some(spec_cell(line, cols[1], cols[2])),
                latest_compatible_version: spec_opt_cell(spec_cell(line, cols[2], cols[3])),
                latest_version: Some(spec_latest_of(spec_cell(line, cols[3], cols[4]))),
                kind: Some(k),
                platform: spec_platform_of(spec_cell_last(line, cols[5]), line),
            },
        ),
    }
}

/// Where the state machine stands within a section.
pub ghost enum PhaseV {
    /// Waiting for the next workspace name; blank lines are skipped.
    Start,
    /// A name was just read; the separator line must follow.
    WsBreak,
    /// The separator was consumed; the header line must follow.
    Header,
    /// The header was consumed; the next line (the underline) is consumed
    /// unconditionally.
    HeaderBreak,
    /// Reading data rows until a blank line or the end of the input.
    Rows,
}

/// The whole parsing state: phase, pending workspace, resolved column
/// offsets, accumulated rows of the pending workspace, and the committed
/// result so far.
#[verifier::ext_equal]
pub ghost struct StV {
    pub phase: PhaseV,
    pub name: Option<Seq<char>>,
    pub cols: Seq<int>,
    pub rows: Seq<DepView>,
    pub done: Seq<(Seq<char>, Seq<DepView>)>,
}

/// The state before any line was read.
pub open spec fn spec_init() -> StV {
    StV {
        phase: PhaseV::Start,
        name: None,
        cols: Seq::<int>::empty(),
        rows: Seq::<DepView>::empty(),
        done: Seq::<(Seq<char>, Seq<DepView>)>::empty(),
    }
}

/// The committed result once the pending workspace, if any, is appended.
pub open spec fn spec_commit(st: StV) -> Seq<(Seq<char>, Seq<DepView>)> {
    match st.name {
        Some(n) => st.done.push((n, st.rows)),
        None => st.done,
    }
}

/// One transition of the state machine on a trimmed line.
pub open spec fn spec_step(st: StV, line: Seq<char>) -> Result<StV, ErrView> {
    match st.phase {
        PhaseV::Start => if line.len() == 0 {
            Ok(st)
        } else {
            Ok(
                StV {
                    phase: PhaseV::WsBreak,
                    name: Some(line),
                    cols: Seq::<int>::empty(),
                    rows: Seq::<DepView>::empty(),
                    done: spec_commit(st),
                },
            )
        },
        PhaseV::WsBreak => if line == separator_line() {
            Ok(StV { phase: PhaseV::Header, ..st })
        } else {
            Err(ErrView::MalformedSeparator(line))
        },
        PhaseV::Header => if spec_tokens(line) != header_labels() {
            Err(ErrView::UnexpectedHeaderShape(line))
        } else {
            match spec_resolve_offsets(line) {
                Ok(cols) => Ok(StV { phase: PhaseV::HeaderBreak, cols: cols, ..st }),
                Err(k) => Err(ErrView::MissingColumnLabel(header_labels()[k], line)),
            }
        },
        PhaseV::HeaderBreak => Ok(StV { phase: PhaseV::Rows, ..st }),
        PhaseV::Rows => if line.len() == 0 {
            Ok(StV { phase: PhaseV::Start, ..st })
        } else {
            match spec_extract_row(line, st.cols) {
                Ok(d) => Ok(StV { rows: st.rows.push(d), ..st }),
                Err(e) => Err(e),
            }
        },
    }
}

/// Runs the machine over a sequence of trimmed lines.
pub open spec fn spec_run(st: StV, lines: Seq<Seq<char>>) -> Result<StV, ErrView>
    decreases lines.len(),
{
    if lines.len() == 0 {
        Ok(st)
    } else {
        match spec_step(st, lines[0]) {
            Ok(s2) => spec_run(s2, lines.subrange(1, lines.len() as int)),
            Err(e) => Err(e),
        }
    }
}

/// After the last line: the pending workspace becomes the final entry; an
/// input with no workspace name at all is rejected.
pub open spec fn spec_finish(st: StV) -> Result<Seq<(Seq<char>, Seq<DepView>)>, ErrView> {
    match st.name {
        Some(n) => Ok(st.done.push((n, st.rows))),
        None => Err(ErrView::MissingWorkspaceName),
    }
}

/// The lines of the input, each trimmed of leading and trailing whitespace.
pub open spec fn trimmed_lines(text: Seq<char>) -> Seq<Seq<char>> {
    spec_split_lines(text).map_values(|l: Seq<char>| spec_trim(l))
}

/// The meaning of parsing a whole report.
pub open spec fn spec_parse(text: Seq<char>) -> Result<Seq<(Seq<char>, Seq<DepView>)>, ErrView> {
    match spec_run(spec_init(), trimmed_lines(text)) {
        Ok(st) => spec_finish(st),
        Err(e) => Err(e),
    }
}

/// Extending a run by one line steps the machine once more.
pub proof fn lemma_run_push(st: StV, lines: Seq<Seq<char>>, line: Seq<char>)
    ensures
        spec_run(st, lines.push(line)) == (match spec_run(st, lines) {
            Ok(s2) => spec_step(s2, line),
            Err(e) => Err(e),
        }),
    decreases lines.len(),
{
    if lines.len() == 0 {
        assert(lines.push(line)[0] == line);
        assert(lines.push(line).subrange(1, lines.push(line).len() as int)
            =~= Seq::<Seq<char>>::empty());
        assert(spec_run(st, lines) == Ok::<StV, ErrView>(st));
        match spec_step(st, line) {
            Ok(s2) => {
                assert(spec_run(st, lines.push(line)) == spec_run(
                    s2,
                    Seq::<Seq<char>>::empty(),
                ));
                assert(spec_run(s2, Seq::<Seq<char>>::empty()) == Ok::<StV, ErrView>(s2));
            },
            Err(e) => {
                assert(spec_run(st, lines.push(line)) == Err::<StV, ErrView>(e));
            },
        }
    } else {
        assert(lines.push(line)[0] == lines[0]);
        match spec_step(st, lines[0]) {
            Ok(s2) => {
                assert(lines.push(line).subrange(1, lines.push(line).len() as int)
                    =~= lines.subrange(1, lines.len() as int).push(line));
                lemma_run_push(s2, lines.subrange(1, lines.len() as int), line);
                assert(spec_run(st, lines.push(line)) == spec_run(
                    s2,
                    lines.subrange(1, lines.len() as int).push(line),
                ));
                assert(spec_run(st, lines) == spec_run(
                    s2,
                    lines.subrange(1, lines.len() as int),
                ));
            },
            Err(e) => {
                assert(spec_run(st, lines.push(line)) == Err::<StV, ErrView>(e));
                assert(spec_run(st, lines) == Err::<StV, ErrView>(e));
            },
        }
    }
}

/// Running over concatenated line sequences runs them one after the other.
pub proof fn lemma_run_append(st: StV, a: Seq<Seq<char>>, b: Seq<Seq<char>>)
    ensures
        spec_run(st, a + b) == (match spec_run(st, a) {
            Ok(s2) => spec_run(s2, b),
            Err(e) => Err(e),
        }),
    decreases a.len(),
{
    if a.len() == 0 {
        assert(a + b =~= b);
    } else {
        assert((a + b)[0] == a[0]);
        match spec_step(st, a[0]) {
            Ok(s2) => {
                assert((a + b).subrange(1, (a + b).len() as int) =~= a.subrange(
                    1,
                    a.len() as int,
                ) + b);
                lemma_run_append(s2, a.subrange(1, a.len() as int), b);
            },
            Err(e) => {
                assert(spec_run(st, a + b) == Err::<StV, ErrView>(e));
            },
        }
    }
}

/// A run that has failed on a prefix fails the same way on the whole input.
pub proof fn lemma_run_err_prefix(st: StV, lines: Seq<Seq<char>>, i: int, e: ErrView)
    requires
        0 <= i <= lines.len(),
        spec_run(st, lines.subrange(0, i)) == Err::<StV, ErrView>(e),
    ensures
        spec_run(st, lines) == Err::<StV, ErrView>(e),
{
    assert(lines =~= lines.subrange(0, i) + lines.subrange(i, lines.len() as int));
    lemma_run_append(st, lines.subrange(0, i), lines.subrange(i, lines.len() as int));
}

} // verus!
