//! The static route table. Three responses exist: the greeting at the root
//! path, a diagnostic dump of the committed configuration — reachable only
//! when the configuration enables it — and the plain-text fallback for
//! everything else. Handlers are pure: they read the committed
//! configuration and format text, nothing more.
use crate::config::Config;
use crate::config::str_eq;
use vstd::prelude::*;

verus! {

/// A computed HTTP response: status code, body text, and whether the body
/// is HTML (otherwise plain text).
pub struct HttpResponse {
    pub status: u16,
    pub body: String,
    pub html: bool,
}

/// The greeting served at the root path.
pub open spec fn greeting_text() -> Seq<char> {
    "Hello, notetakers!"@
}

/// The plain-text body of the fallback response.
pub open spec fn not_found_text() -> Seq<char> {
    "Not found"@
}

/// The HTML dump of the configuration that the diagnostic path serves.
pub open spec fn debug_dump_spec(c: Config) -> Seq<char> {
    "<pre>Config { address: "@ + c.address@ + ", debug: "@ + (if c.debug {
        "true"@
    } else {
        "false"@
    }) + " }</pre>"@
}

/// `GET /`: the static greeting.
pub fn root() -> (r: HttpResponse)
    ensures
        r.status == 200 && r.body@ == greeting_text() && r.html,
{
    HttpResponse { status: 200, body: "Hello, notetakers!".to_owned(), html: true }
}

/// The fallback for any unmatched path or method.
pub fn not_found() -> (r: HttpResponse)
    ensures
        r.status == 404 && r.body@ == not_found_text() && !r.html,
{
    HttpResponse { status: 404, body: "Not found".to_owned(), html: false }
}

/// `GET /debug`: a human-readable dump of the committed configuration.
pub fn debug(config: &Config) -> (r: HttpResponse)
    ensures
        r.status == 200 && r.body@ == debug_dump_spec(*config) && r.html,
{
    let mut body = "<pre>Config { address: ".to_owned();
    body.append(config.address.as_str());
    body.append(", debug: ");
    if config.debug {
        body.append("true");
    } else {
        body.append("false");
    }
    body.append(" }</pre>");
    proof {
        assert(body@ =~= debug_dump_spec(*config));
    }
    HttpResponse { status: 200, body, html: true }
}

/// The route table, as one decision: `GET` on the root path is answered
/// with the greeting; `GET` on the diagnostic path is answered with the
/// configuration dump exactly when the configuration enables it; every
/// other request — unknown path, disabled diagnostic path, or another
/// method — falls to the fallback.
pub fn handle_request(config: &Config, method: &str, path: &str) -> (r: HttpResponse)
    ensures
        method@ == "GET"@ && path@ == "/"@ ==> r.status == 200 && r.body@ == greeting_text()
            && r.html,
        method@ == "GET"@ && path@ == "/debug"@ && config.debug ==> r.status == 200 && r.body@
            == debug_dump_spec(*config) && r.html,
        !(method@ == "GET"@ && (path@ == "/"@ || (path@ == "/debug"@ && config.debug)))
            ==> r.status == 404 && r.body@ == not_found_text() && !r.html,
{
    proof {
        reveal_strlit("/");
        reveal_strlit("/debug");
        assert("/"@.len() != "/debug"@.len());
    }
    if str_eq(method, "GET") {
        if str_eq(path, "/") {
            return root();
        }
        if config.debug && str_eq(path, "/debug") {
            return debug(config);
        }
    }
    not_found()
}

/// The diagnostic dump names the configured address: the address text
/// stands verbatim inside the body.
pub proof fn lemma_debug_dump_names_address(c: Config)
    ensures
        exists|i: int|
            0 <= i && i + c.address@.len() <= debug_dump_spec(c).len() && #[trigger] debug_dump_spec(
                c,
            ).subrange(i, i + c.address@.len() as int) == c.address@,
{
    reveal_strlit("<pre>Config { address: ");
    let pre = "<pre>Config { address: "@;
    let i = pre.len() as int;
    let n = c.address@.len() as int;
    assert(debug_dump_spec(c).subrange(i, i + n) =~= c.address@);
    assert(0 <= i && i + n <= debug_dump_spec(c).len());
}

} // verus!
