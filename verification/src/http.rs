//! The client side of the small HTTP dialogue between the two players.
use vstd::prelude::*;
use vstd::string::StringExecFns;
use crate::text::{contains_pat, contains_str, lemma_split_scan_nonempty, split_by, split_on};

verus! {

broadcast use vstd::string::group_string_axioms;

/// A reply from the other player, cut into its parts.
#[derive(Debug)]
pub struct Response {
    /// Everything before the first `Content-Disposition:`.
    pub header: String,
    /// The body.
    pub content: String,
    /// The attached file's name, or `none`.
    pub attachment: String,
}

/// The reply's content: after the first `\r\nContent-Length:`, what follows
/// the first blank line, up to a second one.
pub open spec fn content_of(r: Seq<char>) -> Seq<char> {
    split_by(split_by(r, "\r\nContent-Length:"@)[1], "\r\n\r\n"@)[1]
}

/// The reply's header: everything before the first `Content-Disposition:`.
pub open spec fn header_of(r: Seq<char>) -> Seq<char> {
    split_by(r, "Content-Disposition:"@)[0]
}

/// The attachment's name: when the reply mentions `filename`, the text
/// between the first `filename="` and the next `"`; otherwise `none`.
pub open spec fn attachment_of(r: Seq<char>) -> Seq<char> {
    if contains_pat(r, "filename"@) {
        split_by(split_by(r, "filename=\""@)[1], "\""@)[0]
    } else {
        "none"@
    }
}

/// A reply that can be cut into its parts: it has a `Content-Length`
/// header followed by a blank line, and where it mentions `filename` it
/// has a `filename="`.
pub open spec fn response_readable(r: Seq<char>) -> bool {
    &&& split_by(r, "\r\nContent-Length:"@).len() >= 2
    &&& split_by(split_by(r, "\r\nContent-Length:"@)[1], "\r\n\r\n"@).len() >= 2
    &&& contains_pat(r, "filename"@) ==> split_by(r, "filename=\""@).len() >= 2
}

/// The patterns the reply is cut at are not empty.
proof fn lemma_patterns()
    ensures
        "\r\nContent-Length:"@.len() > 0,
        "\r\n\r\n"@.len() > 0,
        "Content-Disposition:"@.len() > 0,
        "filename"@.len() > 0,
        "filename=\""@.len() > 0,
        "\""@.len() > 0,
        "none"@.len() > 0,
{
    reveal_strlit("\r\nContent-Length:");
    reveal_strlit("\r\n\r\n");
    reveal_strlit("Content-Disposition:");
    reveal_strlit("filename");
    reveal_strlit("filename=\"");
    reveal_strlit("\"");
    reveal_strlit("none");
}

impl Response {
    /// Whether [`Response::new`] can cut `response` into its parts.
    pub fn readable(response: &str) -> (r: bool)
        ensures
            r == response_readable(response@),
    {
        proof {
            lemma_patterns();
        }
        let parts = split_on(response, "\r\nContent-Length:");
        if parts.len() < 2 {
            return false;
        }
        assert(parts@[1]@ == parts.deep_view()[1]);
        let tail = split_on(parts[1], "\r\n\r\n");
        if tail.len() < 2 {
            return false;
        }
        if contains_str(response, "filename") {
            let names = split_on(response, "filename=\"");
            names.len() >= 2
        } else {
            true
        }
    }

    /// Cuts a reply into its header, content and attachment name.
    pub fn new(response: String) -> (res: Response)
        requires
            response_readable(response@),
        ensures
            res.header@ == header_of(response@),
            res.content@ == content_of(response@),
            res.attachment@ == attachment_of(response@),
    {
        proof {
            lemma_patterns();
        }
        let parts = split_on(response.as_str(), "\r\nContent-Length:");
        assert(parts@[1]@ == parts.deep_view()[1]);
        let tail = split_on(parts[1], "\r\n\r\n");
        assert(tail@[1]@ == tail.deep_view()[1]);
        let contents = String::from_str(tail[1]);
        let heads = split_on(response.as_str(), "Content-Disposition:");
        proof {
            lemma_split_scan_nonempty(response@, "Content-Disposition:"@, 0, 0);
        }
        assert(heads@[0]@ == heads.deep_view()[0]);
        let head = String::from_str(heads[0]);
        let attachments = if contains_str(response.as_str(), "filename") {
            let names = split_on(response.as_str(), "filename=\"");
            assert(names@[1]@ == names.deep_view()[1]);
            let quoted = split_on(names[1], "\"");
            proof {
                lemma_split_scan_nonempty(names@[1]@, "\""@, 0, 0);
            }
            assert(quoted@[0]@ == quoted.deep_view()[0]);
            String::from_str(quoted[0])
        } else {
            String::from_str("none")
        };
        Response { header: head, content: contents, attachment: attachments }
    }
}

/// The request line, `Host` header, blank line and body of a request.
pub open spec fn request_text(host: Seq<char>, path: Seq<char>, body: Seq<char>) -> Seq<char> {
    "GET "@ + path + " HTTP/1.1\r\nHost: "@ + host + "\r\n\r\n"@ + body
}

/// The text of a `GET` request for `path` on `host` carrying `body`.
pub fn request_for(host: &str, path: &str, body: &str) -> (r: String)
    ensures
        r@ == request_text(host@, path@, body@),
{
    let mut r = String::from_str("GET ");
    r.append(path);
    r.append(" HTTP/1.1\r\nHost: ");
    r.append(host);
    r.append("\r\n\r\n");
    r.append(body);
    r
}

} // verus!
