//! The dashboard's requests: which route a request takes, and what the
//! store and the reply are after it.

use vstd::prelude::*;
use vstd::string::*;
use crate::json::{array_text, row_texts, sessions_json};
use crate::matcher::Matcher;
use crate::session::SessionView;
use crate::store::Store;
use crate::text::{chars_equal, chars_occur_at, has_prefix, to_chars};

verus! {

/// The request methods that the dashboard tells apart.
#[derive(Clone, Copy, Debug)]
pub enum Verb {
    Get,
    Delete,
    Other,
}

/// Where a request goes.
#[derive(Debug)]
pub enum Route {
    /// The dashboard page.
    Page,
    /// The listing of all sessions.
    Sessions,
    /// The deletion of the session with exactly this identifier.
    Remove(String),
    /// Nothing is served there.
    Missing,
}

/// A route over texts.
pub enum RouteView {
    Page,
    Sessions,
    Remove(Seq<char>),
    Missing,
}

impl View for Route {
    type V = RouteView;

    open spec fn view(&self) -> RouteView {
        match self {
            Route::Page => RouteView::Page,
            Route::Sessions => RouteView::Sessions,
            Route::Remove(id) => RouteView::Remove(id@),
            Route::Missing => RouteView::Missing,
        }
    }
}

/// The kind of content in a reply.
#[derive(Clone, Copy, Debug)]
pub enum Content {
    Html,
    Json,
    Plain,
}

/// What is sent back: a status code, the kind of content and the body.
#[derive(Debug)]
pub struct Reply {
    pub status: u16,
    pub content: Content,
    pub body: String,
}

/// The path of the listing.
pub open spec fn sessions_path() -> Seq<char> {
    "/api/sessions"@
}

/// What every path of a single session begins with.
pub open spec fn session_prefix() -> Seq<char> {
    "/api/sessions/"@
}

/// The route of a request. A deletion takes everything behind the prefix as
/// the identifier, as it stands.
pub open spec fn routed(verb: Verb, url: Seq<char>) -> RouteView {
    match verb {
        Verb::Get => if url == "/"@ {
            RouteView::Page
        } else if url == sessions_path() {
            RouteView::Sessions
        } else {
            RouteView::Missing
        },
        Verb::Delete => if has_prefix(url, session_prefix()) {
            RouteView::Remove(url.subrange(session_prefix().len() as int, url.len() as int))
        } else {
            RouteView::Missing
        },
        Verb::Other => RouteView::Missing,
    }
}

/// Finds the route of a request.
pub fn route(verb: Verb, url: &str) -> (r: Route)
    ensures
        r@ == routed(verb, url@),
{
    let u = to_chars(url);
    match verb {
        Verb::Get => {
            let root = to_chars("/");
            let listing = to_chars("/api/sessions");
            if chars_equal(&u, &root) {
                Route::Page
            } else if chars_equal(&u, &listing) {
                Route::Sessions
            } else {
                Route::Missing
            }
        },
        Verb::Delete => {
            let prefix = to_chars("/api/sessions/");
            if prefix.len() <= u.len() && chars_occur_at(&u, &prefix, 0) {
                Route::Remove(url.substring_char(prefix.len(), u.len()).to_owned())
            } else {
                Route::Missing
            }
        },
        Verb::Other => Route::Missing,
    }
}

/// Serves one request on the store. `page` is the dashboard page. A
/// deletion answers the same whether or not a record left.
pub fn serve(store: &mut Store, verb: Verb, url: &str, page: &str) -> (reply: Reply)
    requires
        old(store).wf(),
    ensures
        final(store).wf(),
        match routed(verb, url@) {
            RouteView::Page => {
                &&& final(store)@ == old(store)@
                &&& reply.status == 200
                &&& reply.content is Html
                &&& reply.body@ == page@
            },
            RouteView::Sessions => {
                &&& final(store)@ == old(store)@
                &&& reply.status == 200
                &&& reply.content is Json
                &&& reply.body@ == array_text(row_texts(old(store)@))
            },
            RouteView::Remove(id) => {
                &&& final(store)@ == old(store)@.filter(Matcher::IdIsNot.pred(id))
                &&& reply.status == 200
                &&& reply.content is Json
                &&& reply.body@ == "{\"ok\":true}"@
            },
            RouteView::Missing => {
                &&& final(store)@ == old(store)@
                &&& reply.status == 404
                &&& reply.content is Plain
                &&& reply.body@ == "Not Found"@
            },
        },
{
    match route(verb, url) {
        Route::Page => Reply { status: 200, content: Content::Html, body: page.to_owned() },
        Route::Sessions => Reply {
            status: 200,
            content: Content::Json,
            body: sessions_json(store.rows()),
        },
        Route::Remove(id) => {
            store.delete_by_id(id.as_str());
            Reply { status: 200, content: Content::Json, body: "{\"ok\":true}".to_owned() }
        },
        Route::Missing => Reply { status: 404, content: Content::Plain, body: "Not Found".to_owned() },
    }
}

} // verus!
