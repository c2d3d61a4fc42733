//! What the proxy makes of a request on its way to the origin: which headers go
//! along, where it is sent, who sent it, and what the detection looks at.

use vstd::prelude::*;
use vstd::slice::*;
use vstd::string::*;

use crate::engine::verdict::RequestSummary;
use crate::text::{
    ascii_lower_chars, ascii_lower_text, chars_of, decode_lossy, eq_ignore_case, is_among, join, joined,
    pieces, same_ignoring_case, same_text, split_pieces, text_of, texts, trim, trimmed, utf8_text,
};

verus! {

/// How much of a body the detection looks at, in bytes.
pub const MAX_INSPECT_BODY: usize = 16_384;

/// A header that concerns one connection only.
pub open spec fn hop_by_hop(name: Seq<char>) -> bool {
    let n = ascii_lower_text(name);
    ||| n == "connection"@
    ||| n == "keep-alive"@
    ||| n == "proxy-authenticate"@
    ||| n == "proxy-authorization"@
    ||| n == "te"@
    ||| n == "trailer"@
    ||| n == "transfer-encoding"@
    ||| n == "upgrade"@
}

/// Does the header concern one connection only?
pub fn is_hop_by_hop(name: &str) -> (r: bool)
    ensures
        r == hop_by_hop(name@),
{
    let v = chars_of(name);
    let lower = text_of(ascii_lower_chars(v.as_slice()).as_slice());
    let n: &str = lower.as_str();
    same_text(n, "connection") || same_text(n, "keep-alive") || same_text(n, "proxy-authenticate")
        || same_text(n, "proxy-authorization") || same_text(n, "te") || same_text(n, "trailer")
        || same_text(n, "transfer-encoding") || same_text(n, "upgrade")
}

/// Does the header have the name, whatever its case?
fn is_named(name: &str, other: &str) -> (r: bool)
    ensures
        r == same_ignoring_case(name@, other@),
{
    let a = chars_of(name);
    let b = chars_of(other);
    eq_ignore_case(a.as_slice(), b.as_slice())
}

/// A header of a request that goes to the origin: the connection, the host and
/// the length are those of the new request.
pub open spec fn goes_to_origin(name: Seq<char>) -> bool {
    !hop_by_hop(name) && !same_ignoring_case(name, "host"@) && !same_ignoring_case(
        name,
        "content-length"@,
    )
}

/// Does the header of a request go to the origin?
pub fn keep_request_header(name: &str) -> (r: bool)
    ensures
        r == goes_to_origin(name@),
{
    !is_hop_by_hop(name) && !is_named(name, "host") && !is_named(name, "content-length")
}

/// A header of a response that goes to the client.
pub open spec fn goes_to_client(name: Seq<char>) -> bool {
    !hop_by_hop(name) && !same_ignoring_case(name, "content-length"@)
}

/// Does the header of a response go to the client?
pub fn keep_response_header(name: &str) -> (r: bool)
    ensures
        r == goes_to_client(name@),
{
    !is_hop_by_hop(name) && !is_named(name, "content-length")
}

/// The address at the origin.
pub open spec fn origin_url(upstream: Seq<char>, path_and_query: Option<Seq<char>>) -> Seq<char> {
    upstream + (match path_and_query {
        Some(pq) => pq,
        None => "/"@,
    })
}

/// The address at the origin.
pub fn forward_url(upstream: &str, path_and_query: Option<&str>) -> (r: String)
    ensures
        r@ == origin_url(
            upstream@,
            match path_and_query {
                Some(pq) => Some(pq@),
                None => None,
            },
        ),
{
    let mut r: String = upstream.to_owned();
    match path_and_query {
        Some(pq) => r.append(pq),
        None => r.append("/"),
    }
    r
}

/// The start of a body that the detection looks at.
pub open spec fn inspected_body(body: Seq<u8>) -> Seq<u8> {
    if body.len() <= MAX_INSPECT_BODY {
        body
    } else {
        body.take(MAX_INSPECT_BODY as int)
    }
}

/// The names and values of some headers.
pub open spec fn header_views(headers: Seq<(String, String)>) -> Seq<(Seq<char>, Seq<char>)> {
    Seq::new(headers.len(), |i: int| (headers[i].0@, headers[i].1@))
}

/// The value of the last header User-Agent, or nothing.
pub open spec fn agent_in(headers: Seq<(Seq<char>, Seq<char>)>) -> Seq<char>
    decreases headers.len(),
{
    if headers.len() == 0 {
        Seq::empty()
    } else if same_ignoring_case(headers.last().0, "user-agent"@) {
        headers.last().1
    } else {
        agent_in(headers.drop_last())
    }
}

/// The other headers, as `name: value`.
pub open spec fn header_lines(headers: Seq<(Seq<char>, Seq<char>)>) -> Seq<Seq<char>>
    decreases headers.len(),
{
    if headers.len() == 0 {
        Seq::empty()
    } else {
        let front = header_lines(headers.drop_last());
        if same_ignoring_case(headers.last().0, "user-agent"@) {
            front
        } else {
            front.push(headers.last().0 + ": "@ + headers.last().1)
        }
    }
}

/// What the detection looks at in a request.
pub fn summarize(
    method: &str,
    path: &str,
    query: Option<&str>,
    headers: &Vec<(String, String)>,
    body: &[u8],
    client_ip: &str,
) -> (r: RequestSummary)
    ensures
        r.method@ == method@,
        r.path@ == path@,
        r.query@ == (match query {
            Some(q) => q@,
            None => Seq::empty(),
        }),
        r.user_agent@ == agent_in(header_views(headers@)),
        r.headers@ == joined(header_lines(header_views(headers@)), "\n"@),
        r.body@ == utf8_text(inspected_body(body@)),
        r.client_ip@ == client_ip@,
{
    let n: usize = body.len();
    let end: usize = if n < MAX_INSPECT_BODY {
        n
    } else {
        MAX_INSPECT_BODY
    };
    let inspected = slice_subrange(body, 0, end);
    assert(inspected@ =~= inspected_body(body@));
    let mut user_agent: String = String::new();
    let mut lines: Vec<String> = Vec::new();
    let ghost all = header_views(headers@);
    let mut i: usize = 0;
    while i < headers.len()
        invariant
            i <= headers@.len(),
            all == header_views(headers@),
            user_agent@ == agent_in(all.take(i as int)),
            texts(lines@) == header_lines(all.take(i as int)),
        decreases headers@.len() - i,
    {
        proof {
            assert(all.take(i + 1).drop_last() =~= all.take(i as int));
            assert(all.take(i + 1).last() == all[i as int]);
        }
        let name: &str = headers[i].0.as_str();
        let value: &str = headers[i].1.as_str();
        if is_named(name, "user-agent") {
            user_agent = value.to_owned();
        } else {
            let mut line: String = name.to_owned();
            line.append(": ");
            line.append(value);
            let ghost before = lines@;
            lines.push(line);
            assert(texts(lines@) =~= texts(before).push(line@));
        }
        i += 1;
    }
    assert(all.take(i as int) =~= all);
    RequestSummary {
        method: method.to_owned(),
        path: path.to_owned(),
        query: match query {
            Some(q) => q.to_owned(),
            None => String::new(),
        },
        user_agent,
        body: decode_lossy(inspected),
        headers: join(&lines, "\n"),
        client_ip: client_ip.to_owned(),
    }
}

/// The addresses that a forwarding header lists, from the client's on.
pub fn forwarded_hops(value: &str) -> (r: Vec<String>)
    ensures
        r@.len() == pieces(value@, ',').len(),
        forall|i: int| 0 <= i < r@.len() ==> (#[trigger] r@[i])@ == trimmed(pieces(value@, ',')[i]),
{
    let v = chars_of(value);
    let parts = split_pieces(v.as_slice(), ',');
    let mut r: Vec<String> = Vec::new();
    let mut i: usize = 0;
    while i < parts.len()
        invariant
            i <= parts@.len(),
            i == r@.len(),
            parts@.len() == pieces(value@, ',').len(),
            forall|j: int| 0 <= j < parts@.len() ==> parts@[j]@ == pieces(value@, ',')[j],
            forall|j: int|
                0 <= j < i ==> (#[trigger] r@[j])@ == trimmed(pieces(value@, ',')[j]),
        decreases parts@.len() - i,
    {
        r.push(text_of(trim(parts[i])));
        i += 1;
    }
    r
}

/// The views of some addresses, where they are addresses.
pub open spec fn hop_views(hops: Seq<Option<String>>) -> Seq<Option<Seq<char>>> {
    Seq::new(
        hops.len(),
        |i: int|
            match hops[i] {
                Some(h) => Some(h@),
                None => None,
            },
    )
}

/// The address behind the proxies in front: the last one that they report and
/// that is none of them. A report that cannot be read ends the search at the
/// connection itself.
pub open spec fn behind_proxies(
    peer: Seq<char>,
    hops: Seq<Option<Seq<char>>>,
    trusted: Seq<Seq<char>>,
) -> Seq<char>
    decreases hops.len(),
{
    if hops.len() == 0 {
        peer
    } else {
        match hops.last() {
            None => peer,
            Some(ip) => if trusted.contains(ip) {
                behind_proxies(peer, hops.drop_last(), trusted)
            } else {
                ip
            },
        }
    }
}

/// The client's address: that of the connection, unless it comes from a proxy
/// that is trusted to report it.
pub open spec fn client_of(
    peer: Seq<char>,
    hops: Seq<Option<Seq<char>>>,
    trusted: Seq<Seq<char>>,
) -> Seq<char> {
    if trusted.contains(peer) {
        behind_proxies(peer, hops, trusted)
    } else {
        peer
    }
}

/// The client's address. `peer` is the address of the connection, `hops` are
/// the reported addresses, and addresses are given by their canonical text.
pub fn client_ip(peer: &str, hops: &Vec<Option<String>>, trusted: &Vec<String>) -> (r: String)
    ensures
        r@ == client_of(peer@, hop_views(hops@), texts(trusted@)),
{
    if !is_among(trusted.as_slice(), peer) {
        return peer.to_owned();
    }
    let ghost all = hop_views(hops@);
    let ghost t = texts(trusted@);
    let mut n: usize = hops.len();
    assert(all.take(n as int) =~= all);
    while n > 0
        invariant
            n <= hops@.len(),
            all == hop_views(hops@),
            t == texts(trusted@),
            behind_proxies(peer@, all.take(n as int), t) == client_of(peer@, all, t),
        decreases n,
    {
        assert(all.take(n as int).last() == all[n - 1]);
        match &hops[n - 1] {
            None => {
                return peer.to_owned();
            },
            Some(ip) => {
                if !is_among(trusted.as_slice(), ip.as_str()) {
                    return ip.clone();
                }
            },
        }
        assert(all.take(n as int).drop_last() =~= all.take(n - 1));
        n -= 1;
    }
    peer.to_owned()
}

/// Whoever is not trusted cannot choose the address that they are known by.
pub proof fn law_strangers_are_known_by_their_connection(
    peer: Seq<char>,
    hops: Seq<Option<Seq<char>>>,
    trusted: Seq<Seq<char>>,
)
    requires
        !trusted.contains(peer),
    ensures
        client_of(peer, hops, trusted) == peer,
{
}

/// Behind a trusted proxy that appends the address of its own connection, that
/// address counts, whatever the client had put in front of it.
pub proof fn law_last_report_counts(
    peer: Seq<char>,
    claimed: Seq<Option<Seq<char>>>,
    client: Seq<char>,
    trusted: Seq<Seq<char>>,
)
    requires
        trusted.contains(peer),
        !trusted.contains(client),
    ensures
        client_of(peer, claimed.push(Some(client)), trusted) == client,
{
    let hops = claimed.push(Some(client));
    assert(hops.last() == Some(client));
}

/// The headers of one connection go neither way, and every other header that
/// goes to the client would go to the origin too, but for the host.
pub proof fn law_connection_headers_stop_here(name: Seq<char>)
    ensures
        hop_by_hop(name) ==> !goes_to_origin(name) && !goes_to_client(name),
        goes_to_client(name) && !same_ignoring_case(name, "host"@) ==> goes_to_origin(name),
{
}

/// Names of headers are the same in every case.
pub proof fn law_header_case_is_ignored(a: Seq<char>, b: Seq<char>)
    requires
        same_ignoring_case(a, b),
    ensures
        goes_to_origin(a) == goes_to_origin(b),
        goes_to_client(a) == goes_to_client(b),
{
}

} // verus!
