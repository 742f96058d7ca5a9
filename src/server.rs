//! The server: its router, made once at startup and shared by every connection.
use vstd::prelude::*;
use crate::handler::with_reference_routes;
use crate::router::{new_router, Router};
use crate::text::{chars_of, string_of};

verus! {

/// The directory that file routes use, as given at startup: none where the
/// argument is empty, and with a `/` appended where it lacks one.
pub open spec fn normalized_dir(d: Seq<char>) -> Option<Seq<char>> {
    if d.len() == 0 {
        None
    } else if d.last() == '/' {
        Some(d)
    } else {
        Some(d.push('/'))
    }
}

/// The server state shared by its connections.
pub struct Server {
    router: Router,
}

impl Server {
    /// Its router.
    pub closed spec fn spec_router(&self) -> Router {
        self.router
    }

    /// Its router.
    pub fn router(&self) -> (r: &Router)
        ensures
            *r == self.spec_router(),
    {
        &self.router
    }
}

/// A server whose file routes use `directory`.
pub fn new_server(directory: String) -> (r: Server)
    ensures
        r.spec_router().wf(),
        r.spec_router()@.root_dir == normalized_dir(directory@),
        r.spec_router()@.routes == with_reference_routes(Seq::empty()),
{
    let mut d = chars_of(directory.as_str());
    let dir = if d.len() == 0 {
        None
    } else {
        if d[d.len() - 1] != '/' {
            d.push('/');
        }
        Some(string_of(&d))
    };
    let http_router = new_router(dir);
    Server { router: http_router }
}

} // verus!
