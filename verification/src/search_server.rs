//! What a search server answers: the decisions of its loop, one request at
//! a time.

use vstd::prelude::*;

verus! {

/// What a client asks of the search server.
#[derive(Clone, Copy, Debug, PartialEq, Eq)]
pub enum Request {
    /// Search, and give the result as it is.
    Search,
    /// Give the pages for the places that an earlier search found.
    RetrieveWebsites,
    /// Search, and give the result ready to show.
    SearchPrettified,
}

/// How the work for a request ended.
#[derive(Clone, Copy, Debug, PartialEq, Eq)]
pub enum Outcome {
    /// The work failed.
    Failed,
    /// The search found pages, or the pages asked for were retrieved.
    Websites,
    /// The search was a bang: it leads to another site.
    Bang,
}

/// What the server sends back.
#[derive(Clone, Copy, Debug, PartialEq, Eq)]
pub enum Reply {
    /// Nothing.
    Empty,
    /// What the work gave, as it is.
    Content,
    /// The pages found, made ready to show.
    Prettified,
}

/// What the server sends back for a request whose work ended in `outcome`.
/// Work that failed is answered with nothing. Pages are made ready to show
/// where that was asked for; everything else is sent as it is.
pub open spec fn reply_for(request: Request, outcome: Outcome) -> Reply {
    match (request, outcome) {
        (_, Outcome::Failed) => Reply::Empty,
        (Request::SearchPrettified, Outcome::Websites) => Reply::Prettified,
        _ => Reply::Content,
    }
}

/// Decides what the server sends back.
pub fn respond(request: Request, outcome: Outcome) -> (r: Reply)
    ensures
        r == reply_for(request, outcome),
{
    match outcome {
        Outcome::Failed => Reply::Empty,
        Outcome::Websites => match request {
            Request::SearchPrettified => Reply::Prettified,
            _ => Reply::Content,
        },
        Outcome::Bang => Reply::Content,
    }
}

} // verus!
