//! Redirects that a wash has to resolve over the network: what to ask, and how to
//! read the answer.
use crate::web_url::{parsed_url, WebUrl, WebUrlView};
use vstd::prelude::*;

verus! {

/// Why washing a URL failed.
#[derive(Clone, Copy, PartialEq, Eq, Debug, Structural)]
pub enum WashError {
    /// The input is not a well-formed URL.
    InvalidUrl,
    /// A direct request got no `Location` header.
    MissingRedirectTarget,
    /// A direct request got a `Location` header that is not a URL.
    InvalidRedirectTarget,
    /// A rule resolves redirects through a mixer, and none is configured.
    MixerNotConfigured,
    /// The mixer could not be reached, or answered with a failure status.
    MixerRequestFailed,
    /// The mixer's answer is not a URL.
    InvalidMixerResponse,
    /// A direct request could not be sent or answered.
    NetworkError,
}

/// A redirect that has to be resolved over the network before washing can go on.
#[derive(Debug)]
pub enum RedirectRequest {
    /// GET `target` without following redirects and read its `Location` header.
    Direct { target: WebUrl },
    /// GET `/wash?url=<target>` on the mixer instance and read the body.
    ViaMixer { mixer: WebUrl, target: WebUrl },
}

pub ghost enum RequestView {
    Direct(WebUrlView),
    ViaMixer(WebUrlView, WebUrlView),
}

impl View for RedirectRequest {
    type V = RequestView;

    open spec fn view(&self) -> RequestView {
        match self {
            RedirectRequest::Direct { target } => RequestView::Direct(target@),
            RedirectRequest::ViaMixer { mixer, target } => RequestView::ViaMixer(mixer@, target@),
        }
    }
}

/// The `Location` header of an answer.
#[derive(Debug)]
pub enum LocationHeader {
    Absent,
    /// Present, but not visible ASCII.
    NotText,
    Text(String),
}

/// What came back for a `RedirectRequest`.
#[derive(Debug)]
pub enum RedirectReply {
    /// The request could not be sent, or no answer came.
    Unreachable,
    /// An answer: its status, its `Location` header, and its body where it could be read.
    Answered { status: u16, location: LocationHeader, body: Option<String> },
}

pub ghost enum LocationView {
    Absent,
    NotText,
    Text(Seq<char>),
}

pub ghost enum ReplyView {
    Unreachable,
    Answered { status: u16, location: LocationView, body: Option<Seq<char>> },
}

impl View for RedirectReply {
    type V = ReplyView;

    open spec fn view(&self) -> ReplyView {
        match self {
            RedirectReply::Unreachable => ReplyView::Unreachable,
            RedirectReply::Answered { status, location, body } => ReplyView::Answered {
                status: *status,
                location: match location {
                    LocationHeader::Absent => LocationView::Absent,
                    LocationHeader::NotText => LocationView::NotText,
                    LocationHeader::Text(t) => LocationView::Text(t@),
                },
                body: crate::web_url::opt_view(*body),
            },
        }
    }
}

pub open spec fn parse_or(s: Seq<char>, e: WashError) -> Result<WebUrlView, WashError> {
    match parsed_url(s) {
        Some(u) => Ok(u),
        None => Err(e),
    }
}

/// Where a redirect led, read from the reply. A direct request reads the `Location`
/// header, whatever the status; a mixer request needs a 2xx status and reads the body.
pub open spec fn target_spec(req: RequestView, reply: ReplyView) -> Result<WebUrlView, WashError> {
    match req {
        RequestView::Direct(_) => match reply {
            ReplyView::Unreachable => Err(WashError::NetworkError),
            ReplyView::Answered { location, .. } => match location {
                LocationView::Absent => Err(WashError::MissingRedirectTarget),
                LocationView::NotText => Err(WashError::InvalidRedirectTarget),
                LocationView::Text(t) => parse_or(t, WashError::InvalidRedirectTarget),
            },
        },
        RequestView::ViaMixer(_, _) => match reply {
            ReplyView::Unreachable => Err(WashError::MixerRequestFailed),
            ReplyView::Answered { status, body, .. } => if !(200 <= status <= 299) {
                Err(WashError::MixerRequestFailed)
            } else {
                match body {
                    None => Err(WashError::MixerRequestFailed),
                    Some(b) => parse_or(b, WashError::InvalidMixerResponse),
                }
            },
        },
    }
}

pub open spec fn target_view(r: Result<WebUrl, WashError>) -> Result<WebUrlView, WashError> {
    match r {
        Ok(t) => Ok(t@),
        Err(e) => Err(e),
    }
}

/// Reads where the redirect of `request` led from `reply`.
pub fn redirect_target(request: &RedirectRequest, reply: &RedirectReply) -> (r: Result<WebUrl, WashError>)
    ensures
        target_view(r) == target_spec(request@, reply@),
{
    match request {
        RedirectRequest::Direct { .. } => match reply {
            RedirectReply::Unreachable => Err(WashError::NetworkError),
            RedirectReply::Answered { location, .. } => match location {
                LocationHeader::Absent => Err(WashError::MissingRedirectTarget),
                LocationHeader::NotText => Err(WashError::InvalidRedirectTarget),
                LocationHeader::Text(t) => match WebUrl::parse(t.as_str()) {
                    Some(u) => Ok(u),
                    None => Err(WashError::InvalidRedirectTarget),
                },
            },
        },
        RedirectRequest::ViaMixer { .. } => match reply {
            RedirectReply::Unreachable => Err(WashError::MixerRequestFailed),
            RedirectReply::Answered { status, body, .. } => {
                if *status < 200 || *status > 299 {
                    Err(WashError::MixerRequestFailed)
                } else {
                    match body {
                        None => Err(WashError::MixerRequestFailed),
                        Some(b) => match WebUrl::parse(b.as_str()) {
                            Some(u) => Ok(u),
                            None => Err(WashError::InvalidMixerResponse),
                        },
                    }
                }
            },
        },
    }
}

} // verus!
