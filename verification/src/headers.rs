//! Which headers pass between the client and the backend.

use crate::text::same_text;
use vstd::prelude::*;

verus! {

broadcast use vstd::string::group_string_axioms;

/// A header that belongs to one connection, or that is worked out anew for
/// the message that is forwarded. Header names are in lower case.
pub open spec fn is_skipped(k: Seq<char>) -> bool {
    ||| k == "content-length"@
    ||| k == "host"@
    ||| k == "transfer-encoding"@
    ||| k == "connection"@
    ||| k == "keep-alive"@
    ||| k == "proxy-connection"@
    ||| k == "te"@
    ||| k == "trailers"@
    ||| k == "upgrade"@
}

/// Whether a header, by its name in lower case, must not be forwarded.
pub fn is_skip_header(k: &str) -> (r: bool)
    ensures
        r == is_skipped(k@),
{
    same_text(k, "content-length") || same_text(k, "host") || same_text(k, "transfer-encoding")
        || same_text(k, "connection") || same_text(k, "keep-alive") || same_text(
        k,
        "proxy-connection",
    ) || same_text(k, "te") || same_text(k, "trailers") || same_text(k, "upgrade")
}

/// A header as mathematics: its name and its value.
pub open spec fn header_view(h: (String, Vec<u8>)) -> (Seq<char>, Seq<u8>) {
    (h.0@, h.1@)
}

/// Headers as mathematics.
pub open spec fn header_views(headers: Seq<(String, Vec<u8>)>) -> Seq<(Seq<char>, Seq<u8>)> {
    headers.map_values(|h: (String, Vec<u8>)| header_view(h))
}

/// The headers that are forwarded, in their order.
pub open spec fn forwarded(headers: Seq<(Seq<char>, Seq<u8>)>) -> Seq<(Seq<char>, Seq<u8>)> {
    headers.filter(|h: (Seq<char>, Seq<u8>)| !is_skipped(h.0))
}

/// The headers of a message that are forwarded. Their order stays, and so does
/// each of several with one name.
pub fn forward_headers(headers: Vec<(String, Vec<u8>)>) -> (r: Vec<(String, Vec<u8>)>)
    ensures
        header_views(r@) == forwarded(header_views(headers@)),
{
    let ghost all = headers@;
    let ghost views = header_views(all);
    let mut out: Vec<(String, Vec<u8>)> = Vec::new();
    proof {
        reveal(Seq::filter);
        assert(header_views(out@) =~= forwarded(views.take(0)));
    }
    for header in it: headers
        invariant
            it.seq() == all,
            views == header_views(all),
            header_views(out@) == forwarded(views.take(it.index())),
    {
        proof {
            let i = it.index();
            reveal(Seq::filter);
            assert(views.take(i + 1).drop_last() =~= views.take(i));
            assert(views.take(i + 1).last() == header_view(header));
            assert(header_views(out@.push(header)) =~= header_views(out@).push(
                header_view(header),
            ));
        }
        if !is_skip_header(header.0.as_str()) {
            out.push(header);
        }
    }
    proof {
        assert(views.take(views.len() as int) =~= views);
    }
    out
}

// ---------------------------------------------------------------------------
// Laws
// ---------------------------------------------------------------------------

/// No header that must not be forwarded is forwarded, and every other one is,
/// as often as it came.
pub proof fn law_headers_forwarded(headers: Seq<(Seq<char>, Seq<u8>)>, h: (Seq<char>, Seq<u8>))
    ensures
        forwarded(headers).to_multiset().count(h) == if is_skipped(h.0) {
            0
        } else {
            headers.to_multiset().count(h)
        },
        is_skipped(h.0) ==> !forwarded(headers).contains(h),
        !is_skipped(h.0) ==> forwarded(headers).contains(h) == headers.contains(h),
    decreases headers.len(),
{
    reveal(Seq::filter);
    broadcast use vstd::seq_lib::group_to_multiset_ensures;

    if headers.len() > 0 {
        let shorter = headers.drop_last();
        law_headers_forwarded(shorter, h);
        assert(headers =~= shorter.push(headers.last()));
        assert(forwarded(headers) == if is_skipped(headers.last().0) {
            forwarded(shorter)
        } else {
            forwarded(shorter).push(headers.last())
        });
    }
}

/// Forwarding what was forwarded drops nothing more.
pub proof fn law_forwarding_is_idempotent(headers: Seq<(Seq<char>, Seq<u8>)>)
    ensures
        forwarded(forwarded(headers)) == forwarded(headers),
    decreases headers.len(),
{
    reveal(Seq::filter);
    if headers.len() > 0 {
        let shorter = headers.drop_last();
        law_forwarding_is_idempotent(shorter);
        if !is_skipped(headers.last().0) {
            assert(forwarded(headers).drop_last() =~= forwarded(shorter));
        }
    }
}

/// Forwarding a sequence of headers forwards each part in its place.
pub proof fn law_forwarding_keeps_order(
    front: Seq<(Seq<char>, Seq<u8>)>,
    back: Seq<(Seq<char>, Seq<u8>)>,
)
    ensures
        forwarded(front + back) == forwarded(front) + forwarded(back),
    decreases back.len(),
{
    reveal(Seq::filter);
    if back.len() == 0 {
        assert(front + back =~= front);
        assert(forwarded(front) + forwarded(back) =~= forwarded(front));
    } else {
        law_forwarding_keeps_order(front, back.drop_last());
        assert((front + back).drop_last() =~= front + back.drop_last());
        assert(forwarded(front + back) =~= forwarded(front) + forwarded(back));
    }
}

/// A header stays behind just where its name is one of nine: `content-length`,
/// `host`, `transfer-encoding`, `connection`, `keep-alive`, `proxy-connection`,
/// `te`, `trailers` and `upgrade`. Every other header is forwarded as often as
/// it came.
pub proof fn law_nine_headers_stay_behind(
    headers: Seq<(Seq<char>, Seq<u8>)>,
    name: Seq<char>,
    value: Seq<u8>,
)
    ensures
        forwarded(headers).to_multiset().count((name, value)) == if name == "content-length"@
            || name == "host"@ || name == "transfer-encoding"@ || name == "connection"@ || name
            == "keep-alive"@ || name == "proxy-connection"@ || name == "te"@ || name
            == "trailers"@ || name == "upgrade"@ {
            0
        } else {
            headers.to_multiset().count((name, value))
        },
{
    law_headers_forwarded(headers, (name, value));
}

/// One header more is forwarded after those before it, or stays behind where
/// its name is one of the nine.
pub proof fn law_one_header_more(
    headers: Seq<(Seq<char>, Seq<u8>)>,
    name: Seq<char>,
    value: Seq<u8>,
)
    ensures
        forwarded(Seq::empty()) == Seq::<(Seq<char>, Seq<u8>)>::empty(),
        forwarded(headers.push((name, value))) == if name == "content-length"@ || name == "host"@
            || name == "transfer-encoding"@ || name == "connection"@ || name == "keep-alive"@
            || name == "proxy-connection"@ || name == "te"@ || name == "trailers"@ || name
            == "upgrade"@ {
            forwarded(headers)
        } else {
            forwarded(headers).push((name, value))
        },
{
    reveal(Seq::filter);
    assert(headers.push((name, value)).drop_last() =~= headers);
}

} // verus!
