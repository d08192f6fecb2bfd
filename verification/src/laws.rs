//! Laws of the parser, stated against the specification machine: what the
//! placeholder and sentinel cells mean, how malformed input is rejected,
//! and that a report of well-formed sections parses to exactly one entry
//! per section, in order, with one record per row.

use vstd::prelude::*;

use crate::machine::{
    header_labels, lemma_run_append, placeholder, separator_line, spec_cell, spec_commit,
    spec_extract_row, spec_finish, spec_init, spec_kind_of, spec_latest_of, spec_opt_cell,
    spec_parse, spec_platform_of, spec_resolve_offsets, spec_run, spec_step, trimmed_lines,
    PhaseV, StV,
};
use crate::machine::spec_resolve_from;
use crate::model::{DepKind, DepView, ErrView, LatestView};
use crate::text::{lemma_find_first, lemma_tokens_occur, occurs_at, spec_find, spec_tokens};

verus! {

/// Resolving the column offsets of one header line twice yields identical
/// offsets: the resolution is a function of the header line alone.
pub proof fn lemma_offset_resolution_deterministic(
    header: Seq<char>,
    r1: Result<Seq<int>, int>,
    r2: Result<Seq<int>, int>,
)
    requires
        r1 == spec_resolve_offsets(header),
        r2 == spec_resolve_offsets(header),
    ensures
        r1 == r2,
{
}

/// An optional cell is absent exactly when it is the placeholder, and is
/// otherwise kept verbatim.
pub proof fn lemma_placeholder_is_absent(cell: Seq<char>)
    ensures
        (spec_opt_cell(cell) is None) <==> cell == placeholder(),
        spec_opt_cell(cell) matches Some(v) ==> v == cell,
{
}

/// The platform field is absent exactly when its cell is the placeholder.
pub proof fn lemma_platform_placeholder(cell: Seq<char>, line: Seq<char>)
    ensures
        (spec_platform_of(cell, line) is None) <==> cell == placeholder(),
{
}

/// The latest-version cell is the `Removed` variant exactly when it is the
/// `Removed` sentinel, and never a literal version string equal to it.
pub proof fn lemma_removed_sentinel(cell: Seq<char>)
    ensures
        (spec_latest_of(cell) is Removed) <==> cell == "Removed"@,
        spec_latest_of(cell) matches LatestView::V(v) ==> v == cell && cell != "Removed"@,
{
}

/// A kind cell is recognized exactly when it is one of the three kind
/// tokens.
pub proof fn lemma_kind_tokens(cell: Seq<char>)
    ensures
        (spec_kind_of(cell) is Some) <==> (cell == "Normal"@ || cell == "Development"@ || cell
            == "Build"@),
        spec_kind_of("Normal"@) == Some(DepKind::Normal),
        spec_kind_of("Development"@) == Some(DepKind::Development),
        spec_kind_of("Build"@) == Some(DepKind::Build),
{
    reveal_strlit("Normal");
    reveal_strlit("Development");
    reveal_strlit("Build");
    assert("Normal"@.len() == 6);
    assert("Development"@.len() == 11);
    assert("Build"@.len() == 5);
}

/// A row whose kind cell is not a recognized kind token makes the machine
/// fail with an unknown-kind error on that very cell.
pub proof fn lemma_unknown_kind_rejected(st: StV, line: Seq<char>)
    requires
        st.phase is Rows,
        line.len() > 0,
        spec_kind_of(spec_cell(line, st.cols[4], st.cols[5])) is None,
    ensures
        spec_step(st, line) == Err::<StV, ErrView>(
            ErrView::UnknownDependencyKind(spec_cell(line, st.cols[4], st.cols[5])),
        ),
{
}

/// A workspace name line not followed by the exact separator line makes the
/// whole run fail with a malformed-separator error, whatever follows.
pub proof fn lemma_missing_separator_rejected(
    st: StV,
    name_line: Seq<char>,
    next: Seq<char>,
    rest: Seq<Seq<char>>,
)
    requires
        st.phase is Start,
        name_line.len() > 0,
        next != separator_line(),
    ensures
        spec_run(st, seq![name_line, next] + rest) == Err::<StV, ErrView>(
            ErrView::MalformedSeparator(next),
        ),
{
    let lines = seq![name_line, next] + rest;
    assert(lines[0] == name_line);
    assert(spec_step(st, name_line) is Ok);
    let st1 = spec_step(st, name_line)->Ok_0;
    assert(st1.phase is WsBreak);
    assert(lines.subrange(1, lines.len() as int) =~= seq![next] + rest);
    assert(spec_run(st, lines) == spec_run(st1, seq![next] + rest));
    assert((seq![next] + rest)[0] == next);
    assert(spec_step(st1, next) == Err::<StV, ErrView>(ErrView::MalformedSeparator(next)));
    assert(spec_run(st1, seq![next] + rest) == Err::<StV, ErrView>(
        ErrView::MalformedSeparator(next),
    ));
}

/// One section of a report: its name line, its header line, the underline
/// below the header, and its data rows, all as trimmed lines.
pub ghost struct SectionV {
    pub name: Seq<char>,
    pub header: Seq<char>,
    pub underline: Seq<char>,
    pub rows: Seq<Seq<char>>,
}

/// The column offsets its header resolves to.
pub open spec fn section_cols(s: SectionV) -> Seq<int> {
    spec_resolve_offsets(s.header)->Ok_0
}

proof fn lemma_resolve_all_found(line: Seq<char>, k: int)
    requires
        0 <= k <= 6,
        forall|t: int| k <= t < 6 ==> spec_find(line, #[trigger] header_labels()[t]) is Some,
    ensures
        spec_resolve_from(line, k) is Ok,
    decreases 6 - k,
{
    if k < 6 {
        lemma_resolve_all_found(line, k + 1);
    }
}

/// A header line whose tokens are exactly the six column labels always
/// resolves its column offsets: each label occurs in the line, being one of
/// its tokens.
pub proof fn lemma_header_resolves(line: Seq<char>)
    requires
        spec_tokens(line) == header_labels(),
    ensures
        spec_resolve_offsets(line) is Ok,
{
    assert forall|k: int| 0 <= k < 6 implies spec_find(
        line,
        #[trigger] header_labels()[k],
    ) is Some by {
        assert(spec_tokens(line)[k] == header_labels()[k]);
        lemma_tokens_occur(line, k);
        lemma_find_first(line, header_labels()[k]);
        let i = choose|i: int| occurs_at(line, spec_tokens(line)[k], i);
        match spec_find(line, header_labels()[k]) {
            Some(_) => {},
            None => {
                assert(!occurs_at(line, header_labels()[k], i));
            },
        }
    }
    lemma_resolve_all_found(line, 0);
}

/// A well-formed section: a non-blank name, a header of exactly the six
/// labels, and non-blank rows that each extract to a record.
pub open spec fn section_wf(s: SectionV) -> bool {
    &&& s.name.len() > 0
    &&& spec_tokens(s.header) == header_labels()
    &&& forall|i: int|
        0 <= i < s.rows.len() ==> (#[trigger] s.rows[i]).len() > 0 && spec_extract_row(
            s.rows[i],
            section_cols(s),
        ) is Ok
}

/// The lines of one section, in report order.
pub open spec fn section_lines(s: SectionV) -> Seq<Seq<char>> {
    seq![s.name, separator_line(), s.header, s.underline] + s.rows
}

/// The records the rows of a section extract to, in row order.
pub open spec fn rows_parsed(rows: Seq<Seq<char>>, cols: Seq<int>) -> Seq<DepView>
    decreases rows.len(),
{
    if rows.len() == 0 {
        Seq::<DepView>::empty()
    } else {
        seq![spec_extract_row(rows[0], cols)->Ok_0] + rows_parsed(
            rows.subrange(1, rows.len() as int),
            cols,
        )
    }
}

/// One row gives one record.
pub proof fn lemma_rows_parsed_len(rows: Seq<Seq<char>>, cols: Seq<int>)
    ensures
        rows_parsed(rows, cols).len() == rows.len(),
        forall|i: int|
            0 <= i < rows.len() ==> rows_parsed(rows, cols)[i] == spec_extract_row(
                #[trigger] rows[i],
                cols,
            )->Ok_0,
    decreases rows.len(),
{
    if rows.len() > 0 {
        let rest = rows.subrange(1, rows.len() as int);
        lemma_rows_parsed_len(rest, cols);
        assert forall|i: int| 0 <= i < rows.len() implies rows_parsed(rows, cols)[i]
            == spec_extract_row(#[trigger] rows[i], cols)->Ok_0 by {
            if i > 0 {
                assert(rows_parsed(rows, cols)[i] == rows_parsed(rest, cols)[i - 1]);
                assert(rest[i - 1] == rows[i]);
            }
        }
    }
}

/// The result entry one section contributes.
pub open spec fn section_entry(s: SectionV) -> (Seq<char>, Seq<DepView>) {
    (s.name, rows_parsed(s.rows, section_cols(s)))
}

/// The result entries of a sequence of sections, in order.
pub open spec fn section_entries(ss: Seq<SectionV>) -> Seq<(Seq<char>, Seq<DepView>)>
    decreases ss.len(),
{
    if ss.len() == 0 {
        Seq::<(Seq<char>, Seq<DepView>)>::empty()
    } else {
        seq![section_entry(ss[0])] + section_entries(ss.subrange(1, ss.len() as int))
    }
}

/// Each section contributes exactly its own entry, at its own position.
pub proof fn lemma_section_entries_index(ss: Seq<SectionV>)
    ensures
        section_entries(ss).len() == ss.len(),
        forall|i: int|
            0 <= i < ss.len() ==> section_entries(ss)[i] == section_entry(#[trigger] ss[i]),
    decreases ss.len(),
{
    if ss.len() > 0 {
        let rest = ss.subrange(1, ss.len() as int);
        lemma_section_entries_index(rest);
        assert forall|i: int| 0 <= i < ss.len() implies section_entries(ss)[i]
            == section_entry(#[trigger] ss[i]) by {
            if i > 0 {
                assert(section_entries(ss)[i] == section_entries(rest)[i - 1]);
                assert(rest[i - 1] == ss[i]);
            }
        }
    }
}

/// The lines of a sequence of sections, one blank line between consecutive
/// sections and none after the last.
pub open spec fn sections_lines(ss: Seq<SectionV>) -> Seq<Seq<char>>
    decreases ss.len(),
{
    if ss.len() == 0 {
        Seq::<Seq<char>>::empty()
    } else if ss.len() == 1 {
        section_lines(ss[0])
    } else {
        section_lines(ss[0]) + seq![Seq::<char>::empty()] + sections_lines(
            ss.subrange(1, ss.len() as int),
        )
    }
}

proof fn lemma_run_rows(st: StV, rows: Seq<Seq<char>>)
    requires
        st.phase is Rows,
        forall|i: int|
            0 <= i < rows.len() ==> (#[trigger] rows[i]).len() > 0 && spec_extract_row(
                rows[i],
                st.cols,
            ) is Ok,
    ensures
        spec_run(st, rows) == Ok::<StV, ErrView>(
            StV { rows: st.rows + rows_parsed(rows, st.cols), ..st },
        ),
    decreases rows.len(),
{
    if rows.len() == 0 {
        assert(st.rows + rows_parsed(rows, st.cols) =~= st.rows);
        assert(StV { rows: st.rows + rows_parsed(rows, st.cols), ..st } =~~= st);
    } else {
        let d = spec_extract_row(rows[0], st.cols)->Ok_0;
        let st1 = StV { rows: st.rows.push(d), ..st };
        assert(spec_step(st, rows[0]) == Ok::<StV, ErrView>(st1));
        let rest = rows.subrange(1, rows.len() as int);
        lemma_run_rows(st1, rest);
        assert(st.rows.push(d) + rows_parsed(rest, st.cols) =~= st.rows + rows_parsed(
            rows,
            st.cols,
        ));
        assert(StV { rows: st1.rows + rows_parsed(rest, st1.cols), ..st1 } =~~= (StV {
            rows: st.rows + rows_parsed(rows, st.cols),
            ..st
        }));
    }
}

proof fn lemma_run_section(st: StV, s: SectionV)
    requires
        st.phase is Start,
        section_wf(s),
    ensures
        spec_run(st, section_lines(s)) == Ok::<StV, ErrView>(
            StV {
                phase: PhaseV::Rows,
                name: Some(s.name),
                cols: section_cols(s),
                rows: rows_parsed(s.rows, section_cols(s)),
                done: spec_commit(st),
            },
        ),
{
    let head = seq![s.name, separator_line(), s.header, s.underline];
    assert(section_lines(s) =~= head + s.rows);
    lemma_header_resolves(s.header);
    lemma_run_append(st, head, s.rows);
    let st1 = StV {
        phase: PhaseV::WsBreak,
        name: Some(s.name),
        cols: Seq::<int>::empty(),
        rows: Seq::<DepView>::empty(),
        done: spec_commit(st),
    };
    assert(head[0] == s.name);
    assert(spec_step(st, s.name) == Ok::<StV, ErrView>(st1));
    let t1 = head.subrange(1, 4);
    assert(spec_run(st, head) == spec_run(st1, t1));
    assert(t1[0] == separator_line());
    let st2 = StV { phase: PhaseV::Header, ..st1 };
    assert(spec_step(st1, separator_line()) == Ok::<StV, ErrView>(st2));
    let t2 = t1.subrange(1, 3);
    assert(t1.subrange(1, t1.len() as int) =~= t2);
    assert(spec_run(st1, t1) == spec_run(st2, t2));
    assert(t2[0] == s.header);
    let st3 = StV { phase: PhaseV::HeaderBreak, cols: section_cols(s), ..st2 };
    assert(spec_step(st2, s.header) == Ok::<StV, ErrView>(st3));
    let t3 = t2.subrange(1, 2);
    assert(t2.subrange(1, t2.len() as int) =~= t3);
    assert(spec_run(st2, t2) == spec_run(st3, t3));
    assert(t3[0] == s.underline);
    let st4 = StV { phase: PhaseV::Rows, ..st3 };
    assert(spec_step(st3, s.underline) == Ok::<StV, ErrView>(st4));
    assert(t3.subrange(1, t3.len() as int) =~= Seq::<Seq<char>>::empty());
    assert(spec_run(st4, t3.subrange(1, t3.len() as int)) == Ok::<StV, ErrView>(st4));
    assert(spec_run(st3, t3) == Ok::<StV, ErrView>(st4));
    lemma_run_rows(st4, s.rows);
    assert(st4.rows + rows_parsed(s.rows, st4.cols) =~= rows_parsed(s.rows, section_cols(s)));
    assert(StV { rows: st4.rows + rows_parsed(s.rows, st4.cols), ..st4 } =~~= (StV {
        phase: PhaseV::Rows,
        name: Some(s.name),
        cols: section_cols(s),
        rows: rows_parsed(s.rows, section_cols(s)),
        done: spec_commit(st),
    }));
}

proof fn lemma_run_sections(st: StV, ss: Seq<SectionV>)
    requires
        st.phase is Start,
        ss.len() > 0,
        forall|i: int| 0 <= i < ss.len() ==> section_wf(#[trigger] ss[i]),
    ensures
        spec_run(st, sections_lines(ss)) == Ok::<StV, ErrView>(
            StV {
                phase: PhaseV::Rows,
                name: Some(ss.last().name),
                cols: section_cols(ss.last()),
                rows: rows_parsed(ss.last().rows, section_cols(ss.last())),
                done: spec_commit(st) + section_entries(ss.drop_last()),
            },
        ),
    decreases ss.len(),
{
    if ss.len() == 1 {
        lemma_run_section(st, ss[0]);
        assert(ss.drop_last() =~= Seq::<SectionV>::empty());
        assert(spec_commit(st) + section_entries(ss.drop_last()) =~= spec_commit(st));
        assert(ss.last() == ss[0]);
        assert(StV {
            phase: PhaseV::Rows,
            name: Some(ss[0].name),
            cols: section_cols(ss[0]),
            rows: rows_parsed(ss[0].rows, section_cols(ss[0])),
            done: spec_commit(st),
        } =~~= (StV {
            phase: PhaseV::Rows,
            name: Some(ss.last().name),
            cols: section_cols(ss.last()),
            rows: rows_parsed(ss.last().rows, section_cols(ss.last())),
            done: spec_commit(st) + section_entries(ss.drop_last()),
        }));
    } else {
        let rest = ss.subrange(1, ss.len() as int);
        let a = section_lines(ss[0]) + seq![Seq::<char>::empty()];
        assert(sections_lines(ss) =~= a + sections_lines(rest));
        lemma_run_append(st, a, sections_lines(rest));
        lemma_run_append(st, section_lines(ss[0]), seq![Seq::<char>::empty()]);
        assert(a =~= section_lines(ss[0]) + seq![Seq::<char>::empty()]);
        lemma_run_section(st, ss[0]);
        let st1 = StV {
            phase: PhaseV::Rows,
            name: Some(ss[0].name),
            cols: section_cols(ss[0]),
            rows: rows_parsed(ss[0].rows, section_cols(ss[0])),
            done: spec_commit(st),
        };
        let blanks = seq![Seq::<char>::empty()];
        assert(blanks[0].len() == 0);
        let st2 = StV { phase: PhaseV::Start, ..st1 };
        assert(spec_step(st1, blanks[0]) == Ok::<StV, ErrView>(st2));
        assert(blanks.subrange(1, 1) =~= Seq::<Seq<char>>::empty());
        assert(spec_run(st2, blanks.subrange(1, blanks.len() as int)) == Ok::<StV, ErrView>(
            st2,
        ));
        assert(spec_run(st1, blanks) == Ok::<StV, ErrView>(st2));
        assert(spec_run(st, a) == Ok::<StV, ErrView>(st2));
        assert(forall|i: int| 0 <= i < rest.len() ==> section_wf(#[trigger] rest[i]));
        lemma_run_sections(st2, rest);
        // the pending first section is committed by the next section's name
        assert(spec_commit(st2) =~= spec_commit(st).push(section_entry(ss[0])));
        assert(ss.drop_last() =~= seq![ss[0]] + rest.drop_last());
        assert(section_entries(seq![ss[0]] + rest.drop_last()) == seq![section_entry(ss[0])]
            + section_entries(
            (seq![ss[0]] + rest.drop_last()).subrange(
                1,
                (seq![ss[0]] + rest.drop_last()).len() as int,
            ),
        ));
        assert((seq![ss[0]] + rest.drop_last()).subrange(
            1,
            (seq![ss[0]] + rest.drop_last()).len() as int,
        ) =~= rest.drop_last());
        assert(spec_commit(st) + section_entries(ss.drop_last()) =~= spec_commit(st2)
            + section_entries(rest.drop_last()));
        assert(ss.last() == rest.last());
        assert(StV {
            phase: PhaseV::Rows,
            name: Some(rest.last().name),
            cols: section_cols(rest.last()),
            rows: rows_parsed(rest.last().rows, section_cols(rest.last())),
            done: spec_commit(st2) + section_entries(rest.drop_last()),
        } =~~= (StV {
            phase: PhaseV::Rows,
            name: Some(ss.last().name),
            cols: section_cols(ss.last()),
            rows: rows_parsed(ss.last().rows, section_cols(ss.last())),
            done: spec_commit(st) + section_entries(ss.drop_last()),
        }));
    }
}

/// A report of N well-formed sections, separated by blank lines, parses to
/// exactly N entries, in source order: entry i carries section i's
/// workspace name and one record per data row of section i.
pub proof fn theorem_sections_parse(ss: Seq<SectionV>)
    requires
        ss.len() > 0,
        forall|i: int| 0 <= i < ss.len() ==> section_wf(#[trigger] ss[i]),
    ensures
        ({
            let r = match spec_run(spec_init(), sections_lines(ss)) {
                Ok(st) => spec_finish(st),
                Err(e) => Err(e),
            };
            &&& r == Ok::<Seq<(Seq<char>, Seq<DepView>)>, ErrView>(section_entries(ss))
            &&& r->Ok_0.len() == ss.len()
            &&& forall|i: int|
                0 <= i < ss.len() ==> (#[trigger] r->Ok_0[i]).0 == ss[i].name && r->Ok_0[i].1
                    == rows_parsed(ss[i].rows, section_cols(ss[i])) && r->Ok_0[i].1.len()
                    == ss[i].rows.len()
        }),
{
    lemma_run_sections(spec_init(), ss);
    let last = ss.last();
    assert(spec_commit(spec_init()) =~= Seq::<(Seq<char>, Seq<DepView>)>::empty());
    assert(spec_commit(spec_init()) + section_entries(ss.drop_last()) =~= section_entries(
        ss.drop_last(),
    ));
    lemma_entries_snoc(ss);
    assert(section_entries(ss.drop_last()).push(section_entry(last)) == section_entries(ss));
    lemma_section_entries_index(ss);
    assert forall|i: int| 0 <= i < ss.len() implies (#[trigger] section_entries(ss)[i]).0
        == ss[i].name && section_entries(ss)[i].1 == rows_parsed(
        ss[i].rows,
        section_cols(ss[i]),
    ) && section_entries(ss)[i].1.len() == ss[i].rows.len() by {
        lemma_rows_parsed_len(ss[i].rows, section_cols(ss[i]));
    }
}

proof fn lemma_entries_snoc(ss: Seq<SectionV>)
    requires
        ss.len() > 0,
    ensures
        section_entries(ss) == section_entries(ss.drop_last()).push(section_entry(ss.last())),
    decreases ss.len(),
{
    if ss.len() == 1 {
        assert(ss.drop_last() =~= Seq::<SectionV>::empty());
        assert(ss.subrange(1, ss.len() as int) =~= Seq::<SectionV>::empty());
        assert(section_entries(Seq::<SectionV>::empty())
            == Seq::<(Seq<char>, Seq<DepView>)>::empty());
        assert(section_entries(ss) == seq![section_entry(ss[0])] + Seq::<
            (Seq<char>, Seq<DepView>),
        >::empty());
        assert(section_entries(ss) =~= seq![section_entry(ss[0])]);
        assert(section_entries(ss.drop_last()).push(section_entry(ss.last()))
            =~= seq![section_entry(ss[0])]);
    } else {
        let rest = ss.subrange(1, ss.len() as int);
        lemma_entries_snoc(rest);
        assert(ss.drop_last() =~= seq![ss[0]] + rest.drop_last());
        assert((seq![ss[0]] + rest.drop_last()).subrange(
            1,
            (seq![ss[0]] + rest.drop_last()).len() as int,
        ) =~= rest.drop_last());
        assert(section_entries(ss.drop_last()) == seq![section_entry(ss[0])] + section_entries(
            rest.drop_last(),
        ));
        assert(ss.last() == rest.last());
        assert(seq![section_entry(ss[0])] + section_entries(rest.drop_last()).push(
            section_entry(rest.last()),
        ) =~= (seq![section_entry(ss[0])] + section_entries(rest.drop_last())).push(
            section_entry(ss.last()),
        ));
    }
}

/// A report whose trimmed lines are the lines of well-formed sections
/// parses to exactly those sections' entries.
pub proof fn theorem_report_of_sections(text: Seq<char>, ss: Seq<SectionV>)
    requires
        ss.len() > 0,
        forall|i: int| 0 <= i < ss.len() ==> section_wf(#[trigger] ss[i]),
        trimmed_lines(text) == sections_lines(ss),
    ensures
        spec_parse(text) == Ok::<Seq<(Seq<char>, Seq<DepView>)>, ErrView>(section_entries(ss)),
{
    theorem_sections_parse(ss);
}

/// Two well-formed sections separated by a blank line parse to two
/// independent entries: each carries only its own section's name and rows.
pub proof fn lemma_two_sections_independent(s1: SectionV, s2: SectionV)
    requires
        section_wf(s1),
        section_wf(s2),
    ensures
        ({
            let r = match spec_run(spec_init(), sections_lines(seq![s1, s2])) {
                Ok(st) => spec_finish(st),
                Err(e) => Err(e),
            };
            r == Ok::<Seq<(Seq<char>, Seq<DepView>)>, ErrView>(
                seq![section_entry(s1), section_entry(s2)],
            )
        }),
{
    let ss = seq![s1, s2];
    assert(forall|i: int| 0 <= i < ss.len() ==> section_wf(#[trigger] ss[i]));
    theorem_sections_parse(ss);
    lemma_section_entries_index(ss);
    assert(section_entries(ss) =~= seq![section_entry(s1), section_entry(s2)]);
}

} // verus!
