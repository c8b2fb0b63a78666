//! The crawler's errors, and which of them an operator should see.
use vstd::prelude::*;

use crate::web_url::UrlParseError;

verus! {

pub enum CrawlerError {
    ReceivedNoCommandFromChannel,
    FailedToResolveRelativeUrl(String),
    LinkUrlDoesNotMatchBaseUrl(String, String),
    CannotParseLinkUrl(UrlParseError),
    BaseUrlHasStoppedCrawling(String, String),
    ParentUrlWorkerNotFound(String),
    BaseUrlNotFound(String),
    InvalidUrl(UrlParseError),
    FetchFailed(String),
    TreeCorrupt(String),
}

pub enum ErrorView {
    ReceivedNoCommandFromChannel,
    FailedToResolveRelativeUrl(Seq<char>),
    LinkUrlDoesNotMatchBaseUrl(Seq<char>, Seq<char>),
    CannotParseLinkUrl(UrlParseError),
    BaseUrlHasStoppedCrawling(Seq<char>, Seq<char>),
    ParentUrlWorkerNotFound(Seq<char>),
    BaseUrlNotFound(Seq<char>),
    InvalidUrl(UrlParseError),
    FetchFailed(Seq<char>),
    TreeCorrupt(Seq<char>),
}

impl View for CrawlerError {
    type V = ErrorView;

    open spec fn view(&self) -> ErrorView {
        match self {
            CrawlerError::ReceivedNoCommandFromChannel => ErrorView::ReceivedNoCommandFromChannel,
            CrawlerError::FailedToResolveRelativeUrl(s) => ErrorView::FailedToResolveRelativeUrl(s@),
            CrawlerError::LinkUrlDoesNotMatchBaseUrl(a, b) => ErrorView::LinkUrlDoesNotMatchBaseUrl(
                a@,
                b@,
            ),
            CrawlerError::CannotParseLinkUrl(e) => ErrorView::CannotParseLinkUrl(*e),
            CrawlerError::BaseUrlHasStoppedCrawling(a, b) => ErrorView::BaseUrlHasStoppedCrawling(
                a@,
                b@,
            ),
            CrawlerError::ParentUrlWorkerNotFound(s) => ErrorView::ParentUrlWorkerNotFound(s@),
            CrawlerError::BaseUrlNotFound(s) => ErrorView::BaseUrlNotFound(s@),
            CrawlerError::InvalidUrl(e) => ErrorView::InvalidUrl(*e),
            CrawlerError::FetchFailed(s) => ErrorView::FetchFailed(s@),
            CrawlerError::TreeCorrupt(s) => ErrorView::TreeCorrupt(s@),
        }
    }
}

impl CrawlerError {
    /// Expected outcomes that travel as errors (a link to another site, a
    /// stopped site) are not shown.
    pub fn should_display_error(&self) -> (r: bool)
        ensures
            r == !(self is LinkUrlDoesNotMatchBaseUrl || self is BaseUrlHasStoppedCrawling),
    {
        match self {
            CrawlerError::LinkUrlDoesNotMatchBaseUrl(_, _)
            | CrawlerError::BaseUrlHasStoppedCrawling(_, _) => false,
            _ => true,
        }
    }

    pub fn should_display_backtrace(&self) -> (r: bool)
        ensures
            r == !(self is BaseUrlHasStoppedCrawling),
    {
        match self {
            CrawlerError::BaseUrlHasStoppedCrawling(_, _) => false,
            _ => true,
        }
    }
}

} // verus!
