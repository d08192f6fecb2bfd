use outdated_report::DepKind;
use outdated_report::LatestVersion;
use outdated_report::OutdatedResult;
use outdated_report::ParseError;

#[test]
fn test_parse() {
    let output = r#"project-checker
================
Name         Project  Compat  Latest         Kind    Platform
----         -------  ------  ------         ----    --------
git2         0.9.2    ---     0.13.20        Normal  ---
libgit2-sys  0.8.2    ---     0.12.21+1.1.0  Normal  ---

scanner
================
Name         Project  Compat  Latest         Kind    Platform
----         -------  ------  ------         ----    --------
git2         0.9.2    ---     0.13.20        Normal  ---
libgit2-sys  0.8.2    ---     0.12.21+1.1.0  Normal  ---

foo
================
Name             Project  Compat  Latest   Kind         Platform
----             -------  ------  ------   ----         --------
clap             2.20.0   2.20.5  2.26.0   Normal       ---
clap->bitflags   0.7.0    ---     0.9.1    Normal       ---
clap->libc       0.2.18   0.2.29  Removed  Normal       ---
clap->term_size  0.2.1    0.2.3   0.3.0    Normal       ---
clap->vec_map    0.6.0    ---     0.8.0    Normal       ---
num_cpus         1.6.0    ---     1.6.2    Development  ---
num_cpus->libc   0.2.18   0.2.29  0.2.29   Normal       ---
pkg-config       0.3.8    0.3.9   0.3.9    Build        ---
term             0.4.5    ---     0.4.6    Normal       ---
term_size->libc  0.2.18   0.2.29  0.2.29   Normal       cfg(not(target_os = "windows"))
        "#;
    OutdatedResult::try_from(output).unwrap();
}

#[test]
fn concrete_two_row_section() {
    let output = "demo\n\
================\n\
Name   Project  Compat  Latest   Kind    Platform\n\
----   -------  ------  ------   ----    --------\n\
foo    1.0.0    ---     2.0.0    Normal  ---\n\
bar    0.1.0    0.2.0   Removed  Build   ---\n";
    let res = OutdatedResult::try_from(output).unwrap();
    let ws = res.get_workspaces();
    assert_eq!(ws.len(), 1);
    assert_eq!(ws[0].0, "demo");
    let deps = &ws[0].1;
    assert_eq!(deps.len(), 2);
    assert_eq!(deps[0].name, "foo");
    assert_eq!(deps[0].project_version, "1.0.0");
    assert_eq!(deps[0].latest_compatible_version, None);
    assert_eq!(deps[0].latest_version, LatestVersion::V("2.0.0".to_owned()));
    assert_eq!(deps[0].kind, DepKind::Normal);
    assert_eq!(deps[0].platform, None);
    assert_eq!(deps[1].name, "bar");
    assert_eq!(deps[1].project_version, "0.1.0");
    assert_eq!(deps[1].latest_compatible_version, Some("0.2.0".to_owned()));
    assert_eq!(deps[1].latest_version, LatestVersion::Removed);
    assert_eq!(deps[1].kind, DepKind::Build);
    assert_eq!(deps[1].platform, None);
}

#[test]
fn parsing_twice_gives_identical_results() {
    let output = "demo\n\
================\n\
Name   Project  Compat  Latest   Kind    Platform\n\
----   -------  ------  ------   ----    --------\n\
foo    1.0.0    ---     2.0.0    Normal  ---\n";
    let a = OutdatedResult::try_from(output).unwrap();
    let b = OutdatedResult::try_from(output).unwrap();
    assert_eq!(a.get_workspaces(), b.get_workspaces());
}

#[test]
fn two_sections_stay_independent() {
    let output = "first\n\
================\n\
Name   Project  Compat  Latest  Kind    Platform\n\
----   -------  ------  ------  ----    --------\n\
aaa    1.0.0    ---     1.1.0   Normal  ---\n\
\n\
second\n\
================\n\
Name   Project  Compat  Latest  Kind   Platform\n\
----   -------  ------  ------  ----   --------\n\
bbb    2.0.0    ---     2.1.0   Build  ---\n\
ccc    3.0.0    ---     3.1.0   Build  ---\n";
    let res = OutdatedResult::try_from(output).unwrap();
    let ws = res.get_workspaces();
    assert_eq!(ws.len(), 2);
    assert_eq!(ws[0].0, "first");
    assert_eq!(ws[0].1.len(), 1);
    assert_eq!(ws[0].1[0].name, "aaa");
    assert_eq!(ws[1].0, "second");
    assert_eq!(ws[1].1.len(), 2);
    assert_eq!(ws[1].1[0].name, "bbb");
    assert_eq!(ws[1].1[1].name, "ccc");
}

#[test]
fn several_blank_lines_between_sections() {
    let output = "first\n\
================\n\
Name   Project  Compat  Latest  Kind    Platform\n\
----   -------  ------  ------  ----    --------\n\
aaa    1.0.0    ---     1.1.0   Normal  ---\n\
\n\
\n\
second\n\
================\n\
Name   Project  Compat  Latest  Kind   Platform\n\
----   -------  ------  ------  ----   --------\n\
bbb    2.0.0    ---     2.1.0   Build  ---\n";
    let res = OutdatedResult::try_from(output).unwrap();
    let ws = res.get_workspaces();
    assert_eq!(ws.len(), 2);
    assert_eq!(ws[0].0, "first");
    assert_eq!(ws[1].0, "second");
}

#[test]
fn duplicate_workspace_names_kept_separate() {
    let output = "same\n\
================\n\
Name   Project  Compat  Latest  Kind    Platform\n\
----   -------  ------  ------  ----    --------\n\
aaa    1.0.0    ---     1.1.0   Normal  ---\n\
\n\
same\n\
================\n\
Name   Project  Compat  Latest  Kind   Platform\n\
----   -------  ------  ------  ----   --------\n\
bbb    2.0.0    ---     2.1.0   Build  ---\n";
    let res = OutdatedResult::try_from(output).unwrap();
    let ws = res.get_workspaces();
    assert_eq!(ws.len(), 2);
    assert_eq!(ws[0].0, "same");
    assert_eq!(ws[1].0, "same");
    assert_eq!(ws[0].1[0].name, "aaa");
    assert_eq!(ws[1].1[0].name, "bbb");
}

#[test]
fn row_count_matches_rows() {
    let output = "demo\n\
================\n\
Name   Project  Compat  Latest  Kind    Platform\n\
----   -------  ------  ------  ----    --------\n\
one    1.0.0    ---     1.1.0   Normal  ---\n\
two    2.0.0    ---     2.1.0   Normal  ---\n\
three  3.0.0    ---     3.1.0   Normal  ---\n";
    let res = OutdatedResult::try_from(output).unwrap();
    let ws = res.get_workspaces();
    assert_eq!(ws.len(), 1);
    assert_eq!(ws[0].1.len(), 3);
    assert_eq!(ws[0].1[0].name, "one");
    assert_eq!(ws[0].1[1].name, "two");
    assert_eq!(ws[0].1[2].name, "three");
}

#[test]
fn platform_cell_keeps_whole_row_line() {
    let row = "dep    1.0.0    ---     2.0.0    Normal  cfg(target_os = \"linux\")";
    let output = format!(
        "demo\n\
================\n\
Name   Project  Compat  Latest   Kind    Platform\n\
----   -------  ------  ------   ----    --------\n\
{}\n",
        row
    );
    let res = OutdatedResult::try_from(&output).unwrap();
    let deps = &res.get_workspaces()[0].1;
    assert_eq!(deps.len(), 1);
    // the whole row line is kept, not only the last column's cell
    assert_eq!(deps[0].platform, Some(row.to_owned()));
}

#[test]
fn unknown_kind_is_rejected() {
    let output = "demo\n\
================\n\
Name   Project  Compat  Latest  Kind     Platform\n\
----   -------  ------  ------  ----     --------\n\
foo    1.0.0    ---     2.0.0   Strange  ---\n";
    let err = OutdatedResult::try_from(output).unwrap_err();
    assert_eq!(err, ParseError::UnknownDependencyKind("Strange".to_owned()));
}

#[test]
fn missing_separator_is_rejected() {
    let output = "demo\n\
----------------\n\
Name   Project  Compat  Latest  Kind    Platform\n";
    let err = OutdatedResult::try_from(output).unwrap_err();
    assert_eq!(err, ParseError::MalformedSeparator("----------------".to_owned()));
}

#[test]
fn wrong_header_is_rejected() {
    let output = "demo\n\
================\n\
Name   Version  Compat  Latest  Kind    Platform\n";
    let err = OutdatedResult::try_from(output).unwrap_err();
    assert_eq!(
        err,
        ParseError::UnexpectedHeaderShape(
            "Name   Version  Compat  Latest  Kind    Platform".to_owned()
        )
    );
}

#[test]
fn blank_project_version_cell_is_rejected() {
    let output = "demo\n\
================\n\
Name   Project  Compat  Latest  Kind    Platform\n\
----   -------  ------  ------  ----    --------\n\
foo             ---     2.0.0   Normal  ---\n";
    let err = OutdatedResult::try_from(output).unwrap_err();
    assert_eq!(err, ParseError::IncompleteRecord("project version".to_owned()));
}

#[test]
fn empty_input_is_rejected() {
    let err = OutdatedResult::try_from("").unwrap_err();
    assert_eq!(err, ParseError::MissingWorkspaceName);
    let err2 = OutdatedResult::try_from("\n\n  \n").unwrap_err();
    assert_eq!(err2, ParseError::MissingWorkspaceName);
}

#[test]
fn section_without_rows_is_kept() {
    let output = "demo\n\
================\n\
Name   Project  Compat  Latest  Kind    Platform\n\
----   -------  ------  ------  ----    --------\n";
    let res = OutdatedResult::try_from(output).unwrap();
    let ws = res.get_workspaces();
    assert_eq!(ws.len(), 1);
    assert_eq!(ws[0].0, "demo");
    assert_eq!(ws[0].1.len(), 0);
}
