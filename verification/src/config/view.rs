//! The view of the agents panel that a file declares. A view that is not right is dropped as a
//! whole, with a diagnostic, and every agent is shown.

use crate::text;
use vstd::prelude::*;
use vstd::string::*;

verus! {

/// The declared view. Its filter and sort keys have a grammar of their own.
#[derive(Debug, PartialEq, Eq)]
pub struct AgentsViewConfig<F, S> {
    /// The name in the panel's header while the view is active.
    pub label: Option<String>,
    pub filter: Option<F>,
    pub sort: Vec<S>,
    /// Why the declared view was rejected.
    pub diagnostic: Option<String>,
}

/// A view that is about to be declared.
#[derive(Debug)]
pub struct ViewParams<F, S> {
    pub label: Option<String>,
    pub filter: Option<F>,
    pub sort: Vec<S>,
}

/// One part of a view's table: missing, read, or wrong, with an explanation where there is one
/// and the error as it came.
#[derive(Debug)]
pub enum ViewPart<P> {
    Missing,
    Read(P),
    Wrong { explained: Option<String>, error: String },
}

/// The table of a view.
#[derive(Debug)]
pub struct RawView<F, S> {
    pub label: Option<String>,
    pub filter: ViewPart<F>,
    pub sort: ViewPart<Vec<S>>,
}

/// The diagnostic of a rejected view.
pub open spec fn rejection(reason: Seq<char>) -> Seq<char> {
    "invalid [ui.sidebar.agents.view]: "@ + reason
        + "; ignoring the declared view and showing every agent"@
}

/// What is said of a wrong part: the explanation, else the error.
pub open spec fn said(explained: Option<String>, error: String) -> Seq<char> {
    match explained {
        Some(words) => words@,
        None => error@,
    }
}

impl<F, S> Default for AgentsViewConfig<F, S> {
    fn default() -> (view: Self)
        ensures
            view.is_empty_view(),
            view.diagnostic is None,
    {
        AgentsViewConfig { label: None, filter: None, sort: Vec::new(), diagnostic: None }
    }
}

impl<F, S> ViewParams<F, S> {
    pub open spec fn says_anything(self) -> bool {
        self.label is Some || self.filter is Some || self.sort@.len() > 0
    }

    /// Whether anything is declared at all.
    pub fn declares_anything(&self) -> (declared: bool)
        ensures
            declared == self.says_anything(),
    {
        self.label.is_some() || self.filter.is_some() || self.sort.len() > 0
    }
}

impl<F, S> AgentsViewConfig<F, S> {
    /// A view that selects nothing and orders nothing.
    pub open spec fn is_empty_view(self) -> bool {
        self.label is None && self.filter is None && self.sort@.len() == 0
    }

    /// A rejected view shows every agent and says why.
    pub open spec fn is_rejection(self, reason: Seq<char>) -> bool {
        self.is_empty_view() && self.diagnostic is Some && self.diagnostic->0@ == rejection(reason)
    }

    /// The view in place of one that is not right.
    pub fn rejected(reason: &str) -> (view: Self)
        ensures
            view.is_rejection(reason@),
    {
        let mut diagnostic = "invalid [ui.sidebar.agents.view]: ".to_owned();
        diagnostic.append(reason);
        diagnostic.append("; ignoring the declared view and showing every agent");
        assert(diagnostic@ =~= rejection(reason@));
        AgentsViewConfig {
            label: None,
            filter: None,
            sort: Vec::new(),
            diagnostic: Some(diagnostic),
        }
    }

    /// What a table proposes, before it is checked as a view; a table with a mistake is rejected
    /// for its first one.
    pub fn proposed(raw: Result<RawView<F, S>, String>) -> (proposal: Result<
        ViewParams<F, S>,
        Self,
    >)
        ensures
            match raw {
                Err(error) => proposal is Err && proposal->Err_0.is_rejection(error@),
                Ok(raw) => match raw.filter {
                    ViewPart::Wrong { explained, error } => proposal is Err
                        && proposal->Err_0.is_rejection(
                        "filter is not a valid agent view filter: "@ + said(explained, error),
                    ),
                    _ => match raw.sort {
                        ViewPart::Wrong { explained, error } => proposal is Err
                            && proposal->Err_0.is_rejection(
                            "sort is not a valid agent view sort: "@ + said(explained, error),
                        ),
                        _ => {
                            &&& proposal is Ok
                            &&& proposal->Ok_0.label == raw.label
                            &&& proposal->Ok_0.filter == match raw.filter {
                                ViewPart::Read(filter) => Some(filter),
                                _ => None,
                            }
                            &&& match raw.sort {
                                ViewPart::Read(sort) => proposal->Ok_0.sort == sort,
                                _ => proposal->Ok_0.sort@.len() == 0,
                            }
                        },
                    },
                },
            },
    {
        let raw = match raw {
            Ok(raw) => raw,
            Err(error) => {
                return Err(Self::rejected(error.as_str()));
            },
        };
        let filter = match raw.filter {
            ViewPart::Missing => None,
            ViewPart::Read(filter) => Some(filter),
            ViewPart::Wrong { explained, error } => {
                let mut reason = "filter is not a valid agent view filter: ".to_owned();
                match explained {
                    Some(words) => reason.append(words.as_str()),
                    None => reason.append(error.as_str()),
                }
                return Err(Self::rejected(reason.as_str()));
            },
        };
        let sort = match raw.sort {
            ViewPart::Missing => Vec::new(),
            ViewPart::Read(sort) => sort,
            ViewPart::Wrong { explained, error } => {
                let mut reason = "sort is not a valid agent view sort: ".to_owned();
                match explained {
                    Some(words) => reason.append(words.as_str()),
                    None => reason.append(error.as_str()),
                }
                return Err(Self::rejected(reason.as_str()));
            },
        };
        Ok(ViewParams { label: raw.label, filter, sort })
    }

    /// The view after it was checked: what the check left, unless it complained or something was
    /// declared that selects nothing.
    pub fn checked(declared_anything: bool, checked: Result<ViewParams<F, S>, String>) -> (view:
        Self)
        ensures
            match checked {
                Err(message) => view.is_rejection(message@),
                Ok(params) => if declared_anything && params.filter is None && params.sort@.len()
                    == 0 {
                    view.is_rejection("declares no filter and no sort, so it selects nothing"@)
                } else {
                    &&& view.label == params.label
                    &&& view.filter == params.filter
                    &&& view.sort == params.sort
                    &&& view.diagnostic is None
                },
            },
    {
        match checked {
            Err(message) => Self::rejected(message.as_str()),
            Ok(params) => {
                if declared_anything && params.filter.is_none() && params.sort.len() == 0 {
                    return Self::rejected("declares no filter and no sort, so it selects nothing");
                }
                AgentsViewConfig {
                    label: params.label,
                    filter: params.filter,
                    sort: params.sort,
                    diagnostic: None,
                }
            },
        }
    }

    /// Whether there is a view to apply: not where nothing was declared, and not where what was
    /// declared was rejected.
    pub open spec fn declares(self) -> bool {
        self.filter is Some || self.sort@.len() > 0
    }

    /// The declared view, where there is one.
    pub fn declared_view(&self) -> (view: Option<(&Option<String>, &Option<F>, &Vec<S>)>)
        ensures
            match view {
                Some(view) => self.declares() && *view.0 == self.label && *view.1 == self.filter
                    && *view.2 == self.sort,
                None => !self.declares(),
            },
    {
        if self.filter.is_some() || self.sort.len() > 0 {
            Some((&self.label, &self.filter, &self.sort))
        } else {
            None
        }
    }

    pub fn diagnostics(&self) -> (diagnostic: Option<String>)
        ensures
            text::option_text(diagnostic) == text::option_text(self.diagnostic),
    {
        match &self.diagnostic {
            Some(diagnostic) => Some(text::duplicate(diagnostic.as_str())),
            None => None,
        }
    }
}

/// A rejected view is never applied.
pub proof fn law_rejected_view_shows_everything<F, S>(
    view: AgentsViewConfig<F, S>,
    reason: Seq<char>,
)
    requires
        view.is_rejection(reason),
    ensures
        !view.declares(),
        view.diagnostic is Some,
{
}

/// A view is applied where it has a filter or an order, and a label alone declares something without
/// being applied.
pub proof fn law_what_a_view_declares<F, S>(view: AgentsViewConfig<F, S>, params: ViewParams<F, S>)
    ensures
        view.filter is Some ==> view.declares(),
        view.sort@.len() > 0 ==> view.declares(),
        view.is_empty_view() ==> !view.declares(),
        view.filter is None && view.sort@.len() == 0 ==> !view.declares(),
        view.label is Some ==> !view.is_empty_view(),
        params.label is Some || params.filter is Some ==> params.says_anything(),
        params.sort@.len() > 0 ==> params.says_anything(),
        params.label is None && params.filter is None && params.sort@.len() == 0
            ==> !params.says_anything(),
{
}

/// A wrong part is explained in words where there are any, and by the error where there are none.
pub proof fn law_a_wrong_part_is_explained(words: String, error: String)
    ensures
        said(Some(words), error) == words@,
        said(None, error) == error@,
{
}

} // verus!
