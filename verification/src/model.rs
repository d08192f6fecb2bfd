//! The data model of the report: dependency kinds, latest-version tags,
//! parsed records with their builder, and the parse errors, together with
//! the ghost views the contracts speak of.

use vstd::prelude::*;

verus! {

/// How a dependency is used by its workspace.
#[derive(Clone, Debug, PartialEq, Eq)]
pub enum DepKind {
    Normal,
    Development,
    Build,
}

/// The newest version of a dependency, or the fact that it was removed
/// upstream.
#[derive(Clone, Debug, PartialEq, Eq)]
pub enum LatestVersion {
    V(String),
    Removed,
}

/// Ghost view of `LatestVersion`.
pub ghost enum LatestView {
    V(Seq<char>),
    Removed,
}

impl View for LatestVersion {
    type V = LatestView;

    open spec fn view(&self) -> LatestView {
        match self {
            LatestVersion::V(s) => LatestView::V(s@),
            LatestVersion::Removed => LatestView::Removed,
        }
    }
}

/// One parsed table row.
#[derive(Clone, Debug, PartialEq, Eq)]
pub struct OutdatedDep {
    pub name: String,
    pub project_version: String,
    pub latest_compatible_version: Option<String>,
    pub latest_version: LatestVersion,
    pub kind: DepKind,
    pub platform: Option<String>,
}

/// Ghost view of `OutdatedDep`.
#[verifier::ext_equal]
pub ghost struct DepView {
    pub name: Seq<char>,
    pub project_version: Seq<char>,
    pub latest_compatible_version: Option<Seq<char>>,
    pub latest_version: LatestView,
    pub kind: DepKind,
    pub platform: Option<Seq<char>>,
}

impl View for OutdatedDep {
    type V = DepView;

    open spec fn view(&self) -> DepView {
        DepView {
            name: self.name@,
            project_version: self.project_version@,
            latest_compatible_version: match self.latest_compatible_version {
                Some(s) => Some(s@),
                None => None,
            },
            latest_version: self.latest_version@,
            kind: self.kind,
            platform: match self.platform {
                Some(s) => Some(s@),
                None => None,
            },
        }
    }
}

/// Why a parse failed.  Each variant carries the offending text.
#[derive(Clone, Debug, PartialEq, Eq)]
pub enum ParseError {
    /// The line after a workspace name was not the sixteen-character
    /// separator; carries that line.
    MalformedSeparator(String),
    /// A header line whose tokens are not the six expected column labels;
    /// carries that line.
    UnexpectedHeaderShape(String),
    /// A column label could not be located in the header line; carries the
    /// label and the header line.
    MissingColumnLabel(String, String),
    /// A row's kind cell matched no recognized dependency kind; carries the
    /// cell text.
    UnknownDependencyKind(String),
    /// A row finished without a value for a required field; carries the
    /// field's name.
    IncompleteRecord(String),
    /// The input ended with no workspace name ever recorded.
    MissingWorkspaceName,
}

/// Ghost view of `ParseError`.
pub ghost enum ErrView {
    MalformedSeparator(Seq<char>),
    UnexpectedHeaderShape(Seq<char>),
    MissingColumnLabel(Seq<char>, Seq<char>),
    UnknownDependencyKind(Seq<char>),
    IncompleteRecord(Seq<char>),
    MissingWorkspaceName,
}

impl View for ParseError {
    type V = ErrView;

    open spec fn view(&self) -> ErrView {
        match self {
            ParseError::MalformedSeparator(s) => ErrView::MalformedSeparator(s@),
            ParseError::UnexpectedHeaderShape(s) => ErrView::UnexpectedHeaderShape(s@),
            ParseError::MissingColumnLabel(c, h) => ErrView::MissingColumnLabel(c@, h@),
            ParseError::UnknownDependencyKind(s) => ErrView::UnknownDependencyKind(s@),
            ParseError::IncompleteRecord(s) => ErrView::IncompleteRecord(s@),
            ParseError::MissingWorkspaceName => ErrView::MissingWorkspaceName,
        }
    }
}

/// Field-by-field accumulator for one row, validated when the record is
/// finalized.
pub struct OutdatedDepBuilder {
    pub name: Option<String>,
    pub project_version: Option<String>,
    pub latest_compatible_version: Option<String>,
    pub latest_version: Option<LatestVersion>,
    pub kind: Option<DepKind>,
    pub platform: Option<String>,
}

/// Ghost view of `OutdatedDepBuilder`.
#[verifier::ext_equal]
pub ghost struct BuilderView {
    pub name: Option<Seq<char>>,
    pub project_version: Option<Seq<char>>,
    pub latest_compatible_version: Option<Seq<char>>,
    pub latest_version: Option<LatestView>,
    pub kind: Option<DepKind>,
    pub platform: Option<Seq<char>>,
}

impl View for OutdatedDepBuilder {
    type V = BuilderView;

    open spec fn view(&self) -> BuilderView {
        BuilderView {
            name: match self.name {
                Some(s) => Some(s@),
                None => None,
            },
            project_version: match self.project_version {
                Some(s) => Some(s@),
                None => None,
            },
            latest_compatible_version: match self.latest_compatible_version {
                Some(s) => Some(s@),
                None => None,
            },
            latest_version: match self.latest_version {
                Some(v) => Some(v@),
                None => None,
            },
            kind: self.kind,
            platform: match self.platform {
                Some(s) => Some(s@),
                None => None,
            },
        }
    }
}

impl Default for OutdatedDepBuilder {
    /// A builder with every field still unset.
    fn default() -> (r: Self)
        ensures
            r@ == (BuilderView {
                name: None,
                project_version: None,
                latest_compatible_version: None,
                latest_version: None,
                kind: None,
                platform: None,
            }),
    {
        OutdatedDepBuilder {
            name: None,
            project_version: None,
            latest_compatible_version: None,
            latest_version: None,
            kind: None,
            platform: None,
        }
    }
}

/// What finalizing a builder yields: the record when every required field
/// has arrived (a name and a project version must be non-empty), otherwise
/// the first missing field, named.
pub open spec fn spec_build(b: BuilderView) -> Result<DepView, ErrView> {
    if b.name is None || b.name->0.len() == 0 {
        Err(ErrView::IncompleteRecord("name"@))
    } else if b.kind is None {
        Err(ErrView::IncompleteRecord("kind"@))
    } else if b.latest_version is None {
        Err(ErrView::IncompleteRecord("latest version"@))
    } else if b.project_version is None || b.project_version->0.len() == 0 {
        Err(ErrView::IncompleteRecord("project version"@))
    } else {
        Ok(DepView {
            name: b.name->0,
            project_version: b.project_version->0,
            latest_compatible_version: b.latest_compatible_version,
            latest_version: b.latest_version->0,
            kind: b.kind->0,
            platform: b.platform,
        })
    }
}

impl OutdatedDepBuilder {
    /// Finalizes the accumulated fields into a record, or reports the first
    /// required field that has no value.
    pub fn build(self) -> (r: Result<OutdatedDep, ParseError>)
        ensures
            match r {
                Ok(d) => spec_build(self@) == Ok::<DepView, ErrView>(d@),
                Err(e) => spec_build(self@) == Err::<DepView, ErrView>(e@),
            },
    {
        let name = match self.name {
            Some(n) => {
                if n.as_str().is_empty() {
                    return Err(ParseError::IncompleteRecord("name".to_owned()));
                }
                n
            },
            None => {
                return Err(ParseError::IncompleteRecord("name".to_owned()));
            },
        };
        let kind = match self.kind {
            Some(k) => k,
            None => {
                return Err(ParseError::IncompleteRecord("kind".to_owned()));
            },
        };
        let latest_version = match self.latest_version {
            Some(v) => v,
            None => {
                return Err(ParseError::IncompleteRecord("latest version".to_owned()));
            },
        };
        let project_version = match self.project_version {
            Some(p) => {
                if p.as_str().is_empty() {
                    return Err(ParseError::IncompleteRecord("project version".to_owned()));
                }
                p
            },
            None => {
                return Err(ParseError::IncompleteRecord("project version".to_owned()));
            },
        };
        Ok(OutdatedDep {
            name,
            project_version,
            latest_compatible_version: self.latest_compatible_version,
            latest_version,
            kind,
            platform: self.platform,
        })
    }
}

} // verus!
