//! The executable report parser, proved equal to the state machine of
//! `machine`.

use vstd::prelude::*;

use crate::machine::{
    cols_int, header_labels, lemma_run_err_prefix, lemma_run_push, spec_cell, spec_cell_last,
    spec_commit, spec_extract_row, spec_init, spec_parse, spec_resolve_from,
    spec_resolve_offsets, spec_run, spec_step, trimmed_lines, PhaseV, StV,
};
use crate::model::{
    DepKind, DepView, ErrView, LatestVersion, OutdatedDep, OutdatedDepBuilder, ParseError,
};
use crate::text::{
    find_first, spec_find, spec_tokens, spec_trim, split_lines, split_tokens, str_eq, trim_str,
};

verus! {

/// The trimmed cell of `line` between column offsets `lo` and `hi`.
fn cell_text<'a>(line: &'a str, lo: usize, hi: usize) -> (r: &'a str)
    ensures
        r@ == spec_cell(line@, lo as int, hi as int),
{
    let n = line.unicode_len();
    let a = if lo <= n {
        lo
    } else {
        n
    };
    let b0 = if hi <= n {
        hi
    } else {
        n
    };
    let b = if b0 >= a {
        b0
    } else {
        a
    };
    trim_str(line.substring_char(a, b))
}

/// The trimmed cell of `line` from column offset `lo` to the end.
fn cell_text_last<'a>(line: &'a str, lo: usize) -> (r: &'a str)
    ensures
        r@ == spec_cell_last(line@, lo as int),
{
    let n = line.unicode_len();
    let a = if lo <= n {
        lo
    } else {
        n
    };
    trim_str(line.substring_char(a, n))
}

proof fn lemma_resolve_from_ok(line: Seq<char>, k: int, offs: Seq<int>)
    requires
        0 <= k <= 6,
        offs.len() == 6 - k,
        forall|j: int|
            k <= j < 6 ==> spec_find(line, header_labels()[j]) == Some(offs[j - k]),
    ensures
        spec_resolve_from(line, k) == Ok::<Seq<int>, int>(offs),
    decreases 6 - k,
{
    if k == 6 {
        assert(offs =~= Seq::<int>::empty());
    } else {
        let rest = offs.subrange(1, offs.len() as int);
        lemma_resolve_from_ok(line, k + 1, rest);
        assert(spec_find(line, header_labels()[k]) == Some(offs[0]));
        assert(seq![offs[0]] + rest =~= offs);
    }
}

proof fn lemma_resolve_from_err(line: Seq<char>, j: int, k: int)
    requires
        0 <= j <= k < 6,
        spec_find(line, header_labels()[k]) is None,
        forall|t: int| j <= t < k ==> spec_find(line, header_labels()[t]) is Some,
    ensures
        spec_resolve_from(line, j) == Err::<Seq<int>, int>(k),
    decreases k - j,
{
    if j < k {
        lemma_resolve_from_err(line, j + 1, k);
    }
}

/// Locates each column label's first occurrence within the header line, in
/// label order.
fn resolve_columns(line: &str) -> (r: Result<Vec<usize>, ParseError>)
    ensures
        match r {
            Ok(cols) => cols@.len() == 6 && spec_resolve_offsets(line@) == Ok::<Seq<int>, int>(
                cols_int(cols@),
            ),
            Err(e) => spec_resolve_offsets(line@) matches Err(k) && e@
                == ErrView::MissingColumnLabel(header_labels()[k], line@),
        },
{
    let labels: Vec<&str> = vec!["Name", "Project", "Compat", "Latest", "Kind", "Platform"];
    proof {
        assert(labels@[0]@ == header_labels()[0]);
        assert(labels@[1]@ == header_labels()[1]);
        assert(labels@[2]@ == header_labels()[2]);
        assert(labels@[3]@ == header_labels()[3]);
        assert(labels@[4]@ == header_labels()[4]);
        assert(labels@[5]@ == header_labels()[5]);
    }
    let mut cols: Vec<usize> = Vec::new();
    let mut k: usize = 0;
    while k < 6
        invariant
            0 <= k <= 6,
            cols@.len() == k,
            labels@.len() == 6,
            forall|j: int| 0 <= j < 6 ==> #[trigger] labels@[j]@ == header_labels()[j],
            forall|j: int|
                0 <= j < k ==> spec_find(line@, header_labels()[j]) == Some(
                    #[trigger] cols@[j] as int,
                ),
        decreases 6 - k,
    {
        match find_first(line, labels[k]) {
            Some(i) => {
                cols.push(i);
            },
            None => {
                proof {
                    assert forall|t: int| 0 <= t < k implies spec_find(
                        line@,
                        header_labels()[t],
                    ) is Some by {
                        assert(spec_find(line@, header_labels()[t]) == Some(
                            cols@[t] as int,
                        ));
                    }
                    lemma_resolve_from_err(line@, 0, k as int);
                }
                return Err(
                    ParseError::MissingColumnLabel(labels[k].to_owned(), line.to_owned()),
                );
            },
        }
        k = k + 1;
    }
    proof {
        assert(forall|j: int|
            0 <= j < 6 ==> spec_find(line@, header_labels()[j]) == Some(
                #[trigger] cols_int(cols@)[j - 0],
            ));
        lemma_resolve_from_ok(line@, 0, cols_int(cols@));
    }
    Ok(cols)
}

/// Extracts one dependency record from a row line, given the six column
/// offsets.
fn extract_row(line: &str, cols: &Vec<usize>) -> (r: Result<OutdatedDep, ParseError>)
    requires
        cols@.len() == 6,
    ensures
        match r {
            Ok(d) => spec_extract_row(line@, cols_int(cols@)) == Ok::<DepView, ErrView>(d@),
            Err(e) => spec_extract_row(line@, cols_int(cols@)) == Err::<DepView, ErrView>(e@),
        },
{
    let name_c = cell_text(line, cols[0], cols[1]);
    let proj_c = cell_text(line, cols[1], cols[2]);
    let compat_c = cell_text(line, cols[2], cols[3]);
    let latest_c = cell_text(line, cols[3], cols[4]);
    let kind_c = cell_text(line, cols[4], cols[5]);
    let plat_c = cell_text_last(line, cols[5]);
    let kind = if str_eq(kind_c, "Normal") {
        DepKind::Normal
    } else if str_eq(kind_c, "Development") {
        DepKind::Development
    } else if str_eq(kind_c, "Build") {
        DepKind::Build
    } else {
        return Err(ParseError::UnknownDependencyKind(kind_c.to_owned()));
    };
    let mut b = OutdatedDepBuilder::default();
    b.name = Some(name_c.to_owned());
    b.project_version = Some(proj_c.to_owned());
    b.latest_compatible_version = if str_eq(compat_c, "---") {
        None
    } else {
        Some(compat_c.to_owned())
    };
    b.latest_version = Some(
        if str_eq(latest_c, "Removed") {
            LatestVersion::Removed
        } else {
            LatestVersion::V(latest_c.to_owned())
        },
    );
    b.kind = Some(kind);
    b.platform = if str_eq(plat_c, "---") {
        None
    } else {
        Some(line.to_owned())
    };
    b.build()
}

/// The rows of one workspace, as their views.
pub open spec fn deps_view(s: Seq<OutdatedDep>) -> Seq<DepView> {
    s.map_values(|d: OutdatedDep| d@)
}

/// One workspace entry, as its view.
pub open spec fn ws_pair_view(p: (String, Vec<OutdatedDep>)) -> (Seq<char>, Seq<DepView>) {
    (p.0@, deps_view(p.1@))
}

/// The whole parsed result, as its view.
pub open spec fn projects_view(s: Seq<(String, Vec<OutdatedDep>)>) -> Seq<
    (Seq<char>, Seq<DepView>),
> {
    s.map_values(|p: (String, Vec<OutdatedDep>)| ws_pair_view(p))
}

/// The parsed report: each workspace's name with its dependency records, in
/// source order.
#[derive(Clone, Debug)]
pub struct OutdatedResult {
    projects: Vec<(String, Vec<OutdatedDep>)>,
}

impl View for OutdatedResult {
    type V = Seq<(Seq<char>, Seq<DepView>)>;

    closed spec fn view(&self) -> Seq<(Seq<char>, Seq<DepView>)> {
        projects_view(self.projects@)
    }
}

/// Where the executable parser stands, mirroring `machine::PhaseV`.
#[derive(Clone, Copy)]
enum Phase {
    Start,
    WsBreak,
    Header,
    HeaderBreak,
    Rows,
}

/// The phase of the specification machine an executable phase stands for.
spec fn phase_v(p: Phase) -> PhaseV {
    match p {
        Phase::Start => PhaseV::Start,
        Phase::WsBreak => PhaseV::WsBreak,
        Phase::Header => PhaseV::Header,
        Phase::HeaderBreak => PhaseV::HeaderBreak,
        Phase::Rows => PhaseV::Rows,
    }
}

/// The specification state the executable parser's locals stand for.
spec fn st_of(
    phase: Phase,
    name: Option<String>,
    cols: Seq<usize>,
    rows: Seq<OutdatedDep>,
    done: Seq<(String, Vec<OutdatedDep>)>,
) -> StV {
    StV {
        phase: phase_v(phase),
        name: match name {
            Some(s) => Some(s@),
            None => None,
        },
        cols: cols_int(cols),
        rows: deps_view(rows),
        done: projects_view(done),
    }
}

impl OutdatedResult {
    /// The workspaces of the report, in source order.
    pub fn get_workspaces(&self) -> (r: &Vec<(String, Vec<OutdatedDep>)>)
        ensures
            projects_view(r@) == self@,
    {
        &self.projects
    }

    /// Parses the full report text: the result the state machine commits,
    /// or the error on which it stops.
    pub fn try_from(output: &str) -> (r: Result<Self, ParseError>)
        ensures
            match r {
                Ok(res) => spec_parse(output@) == Ok::<Seq<(Seq<char>, Seq<DepView>)>, ErrView>(
                    res@,
                ),
                Err(e) => spec_parse(output@) == Err::<Seq<(Seq<char>, Seq<DepView>)>, ErrView>(
                    e@,
                ),
            },
    {
        let lines = split_lines(output);
        let n = lines.len();
        let mut phase = Phase::Start;
        let mut name: Option<String> = None;
        let mut cols: Vec<usize> = Vec::new();
        let mut rows: Vec<OutdatedDep> = Vec::new();
        let mut done: Vec<(String, Vec<OutdatedDep>)> = Vec::new();
        let mut i: usize = 0;
        proof {
            assert(trimmed_lines(output@).len() == n);
            assert(trimmed_lines(output@).subrange(0, 0) =~= Seq::<Seq<char>>::empty());
            assert(cols_int(cols@) =~= Seq::<int>::empty());
            assert(deps_view(rows@) =~= Seq::<DepView>::empty());
            assert(projects_view(done@) =~= Seq::<(Seq<char>, Seq<DepView>)>::empty());
            assert(st_of(phase, name, cols@, rows@, done@) =~~= spec_init());
        }
        while i < n
            invariant
                0 <= i <= n,
                n == lines@.len(),
                lines@.map_values(|l: &str| l@) == crate::text::spec_split_lines(output@),
                trimmed_lines(output@).len() == n,
                spec_run(spec_init(), trimmed_lines(output@).subrange(0, i as int)) == Ok::<
                    StV,
                    ErrView,
                >(st_of(phase, name, cols@, rows@, done@)),
                (phase is Rows || phase is HeaderBreak) ==> cols@.len() == 6,
            decreases n - i,
        {
            let ghost tls = trimmed_lines(output@);
            let ghost st0 = st_of(phase, name, cols@, rows@, done@);
            let line = trim_str(lines[i]);
            proof {
                assert(lines@.map_values(|l: &str| l@)[i as int] == lines@[i as int]@);
                assert(tls[i as int] == spec_trim(lines@[i as int]@));
                assert(tls[i as int] == line@);
                assert(tls.subrange(0, i + 1) =~= tls.subrange(0, i as int).push(
                    tls[i as int],
                ));
                lemma_run_push(spec_init(), tls.subrange(0, i as int), tls[i as int]);
            }
            match phase {
                Phase::Start => {
                    if !line.is_empty() {
                        match name {
                            Some(nm) => {
                                let finished = rows;
                                rows = Vec::new();
                                proof {
                                    assert(projects_view(done@.push((nm, finished)))
                                        =~= projects_view(done@).push(
                                        ws_pair_view((nm, finished)),
                                    ));
                                }
                                done.push((nm, finished));
                            },
                            None => {},
                        }
                        name = Some(line.to_owned());
                        cols = Vec::new();
                        rows = Vec::new();
                        phase = Phase::WsBreak;
                        proof {
                            assert(cols_int(cols@) =~= Seq::<int>::empty());
                            assert(deps_view(rows@) =~= Seq::<DepView>::empty());
                            assert(projects_view(done@) == spec_commit(st0));
                            assert(st_of(phase, name, cols@, rows@, done@) =~~= spec_step(
                                st0,
                                line@,
                            )->Ok_0);
                        }
                    }
                },
                Phase::WsBreak => {
                    if str_eq(line, "================") {
                        phase = Phase::Header;
                        proof {
                            assert(st_of(phase, name, cols@, rows@, done@) =~~= spec_step(
                                st0,
                                line@,
                            )->Ok_0);
                        }
                    } else {
                        let e = ParseError::MalformedSeparator(line.to_owned());
                        proof {
                            assert(spec_step(st0, line@) == Err::<StV, ErrView>(e@));
                            assert(spec_run(spec_init(), tls.subrange(0, i + 1)) == Err::<
                                StV,
                                ErrView,
                            >(e@));
                            lemma_run_err_prefix(spec_init(), tls, i + 1, e@);
                        }
                        return Err(e);
                    }
                },
                Phase::Header => {
                    let toks = split_tokens(line);
                    let mut shape_ok = false;
                    if toks.len() == 6 {
                        shape_ok = str_eq(toks[0], "Name") && str_eq(toks[1], "Project")
                            && str_eq(toks[2], "Compat") && str_eq(toks[3], "Latest")
                            && str_eq(toks[4], "Kind") && str_eq(toks[5], "Platform");
                    }
                    proof {
                        let tv = spec_tokens(line@);
                        let f = |t: &str| t@;
                        assert(toks@.map_values(f) == tv);
                        assert(tv.len() == toks@.len());
                        if shape_ok {
                            assert(tv[0] == f(toks@[0]));
                            assert(tv[1] == f(toks@[1]));
                            assert(tv[2] == f(toks@[2]));
                            assert(tv[3] == f(toks@[3]));
                            assert(tv[4] == f(toks@[4]));
                            assert(tv[5] == f(toks@[5]));
                            assert(tv =~= header_labels());
                        } else {
                            if tv == header_labels() {
                                assert(toks@.len() == 6);
                                assert(f(toks@[0]) == header_labels()[0]);
                                assert(f(toks@[1]) == header_labels()[1]);
                                assert(f(toks@[2]) == header_labels()[2]);
                                assert(f(toks@[3]) == header_labels()[3]);
                                assert(f(toks@[4]) == header_labels()[4]);
                                assert(f(toks@[5]) == header_labels()[5]);
                                assert(false);
                            }
                        }
                    }
                    if !shape_ok {
                        let e = ParseError::UnexpectedHeaderShape(line.to_owned());
                        proof {
                            assert(spec_step(st0, line@) == Err::<StV, ErrView>(e@));
                            assert(spec_run(spec_init(), tls.subrange(0, i + 1)) == Err::<
                                StV,
                                ErrView,
                            >(e@));
                            lemma_run_err_prefix(spec_init(), tls, i + 1, e@);
                        }
                        return Err(e);
                    }
                    match resolve_columns(line) {
                        Ok(c) => {
                            cols = c;
                            phase = Phase::HeaderBreak;
                            proof {
                                assert(st_of(phase, name, cols@, rows@, done@) =~~= spec_step(
                                    st0,
                                    line@,
                                )->Ok_0);
                            }
                        },
                        Err(e) => {
                            proof {
                                assert(spec_step(st0, line@) == Err::<StV, ErrView>(e@));
                                assert(spec_run(spec_init(), tls.subrange(0, i + 1)) == Err::<
                                    StV,
                                    ErrView,
                                >(e@));
                                lemma_run_err_prefix(spec_init(), tls, i + 1, e@);
                            }
                            return Err(e);
                        },
                    }
                },
                Phase::HeaderBreak => {
                    phase = Phase::Rows;
                    proof {
                        assert(st_of(phase, name, cols@, rows@, done@) =~~= spec_step(
                            st0,
                            line@,
                        )->Ok_0);
                    }
                },
                Phase::Rows => {
                    if line.is_empty() {
                        phase = Phase::Start;
                        proof {
                            assert(st_of(phase, name, cols@, rows@, done@) =~~= spec_step(
                                st0,
                                line@,
                            )->Ok_0);
                        }
                    } else {
                        match extract_row(line, &cols) {
                            Ok(d) => {
                                proof {
                                    assert(deps_view(rows@.push(d)) =~= deps_view(rows@).push(
                                        d@,
                                    ));
                                }
                                rows.push(d);
                                proof {
                                    assert(st_of(phase, name, cols@, rows@, done@)
                                        =~~= spec_step(st0, line@)->Ok_0);
                                }
                            },
                            Err(e) => {
                                proof {
                                    assert(spec_step(st0, line@) == Err::<StV, ErrView>(e@));
                                    assert(spec_run(spec_init(), tls.subrange(0, i + 1))
                                        == Err::<StV, ErrView>(e@));
                                    lemma_run_err_prefix(spec_init(), tls, i + 1, e@);
                                }
                                return Err(e);
                            },
                        }
                    }
                },
            }
            i = i + 1;
        }
        proof {
            assert(trimmed_lines(output@).subrange(0, n as int) =~= trimmed_lines(output@));
        }
        match name {
            Some(nm) => {
                proof {
                    assert(projects_view(done@.push((nm, rows))) =~= projects_view(done@).push(
                        ws_pair_view((nm, rows)),
                    ));
                }
                done.push((nm, rows));
                let res = OutdatedResult { projects: done };
                proof {
                    assert(spec_parse(output@) == Ok::<Seq<(Seq<char>, Seq<DepView>)>, ErrView>(
                        res@,
                    ));
                }
                Ok(res)
            },
            None => {
                let e = ParseError::MissingWorkspaceName;
                proof {
                    assert(spec_parse(output@) == Err::<Seq<(Seq<char>, Seq<DepView>)>, ErrView>(
                        e@,
                    ));
                }
                Err(e)
            },
        }
    }
}

} // verus!
