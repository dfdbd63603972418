//! What is worked out before the first request.

use crate::preset;
use crate::preset::{Preset, PresetView};
use crate::table::Table;
use crate::text;
use crate::text::{chars_of, slice_text, without_prefix, without_suffix};
use vstd::prelude::*;

verus! {

broadcast use vstd::string::group_string_axioms;

// ---------------------------------------------------------------------------
// The backend's address
// ---------------------------------------------------------------------------

/// `s` without the slashes at its end.
pub open spec fn without_end_slashes(s: Seq<char>) -> Seq<char>
    decreases s.len(),
{
    if s.len() > 0 && s.last() == '/' {
        without_end_slashes(s.drop_last())
    } else {
        s
    }
}

/// `url` is an `http` or `https` URL.
pub open spec fn is_http(url: Seq<char>) -> bool {
    "http://"@.is_prefix_of(url) || "https://"@.is_prefix_of(url)
}

/// `s` without the slashes at its end.
fn trim_end_slashes(s: &str) -> (r: String)
    ensures
        r@ == without_end_slashes(s@),
{
    let chars = chars_of(s);
    let mut end: usize = chars.len();
    assert(s@.take(end as int) =~= s@);
    while end > 0 && chars[end - 1] == '/'
        invariant
            end <= chars@.len(),
            chars@ == s@,
            without_end_slashes(s@) == without_end_slashes(s@.take(end as int)),
        decreases end,
    {
        proof {
            assert(s@.take(end as int).drop_last() =~= s@.take(end - 1));
        }
        end -= 1;
    }
    assert(s@.subrange(0, end as int) =~= s@.take(end as int));
    slice_text(&chars, 0, end)
}

/// The base URL of the backend's API, without slashes at its end; nothing
/// where `url` does not start with `http://` or `https://`.
pub fn backend_base(url: &str) -> (r: Option<String>)
    ensures
        match r {
            Some(base) => is_http(url@) && base@ == without_end_slashes(url@),
            None => !is_http(url@),
        },
{
    if without_prefix(url, "http://").is_none() && without_prefix(url, "https://").is_none() {
        None
    } else {
        Some(trim_end_slashes(url))
    }
}

/// The address of the backend's API without the `/v1` at its end.
pub open spec fn root_of(base: Seq<char>) -> Seq<char> {
    match text::before_suffix(base, "/v1"@) {
        Some(root) => root,
        None => base,
    }
}

/// The address of the backend without the `/v1` of its API.
pub fn backend_root_of(backend_url: &str) -> (r: String)
    ensures
        r@ == root_of(backend_url@),
{
    match without_suffix(backend_url, "/v1") {
        Some(root) => root,
        None => backend_url.to_owned(),
    }
}

/// The base URL ends with no slash, and taking slashes away once more changes
/// nothing.
pub proof fn law_base_has_no_end_slash(url: Seq<char>)
    ensures
        without_end_slashes(url).len() > 0 ==> without_end_slashes(url).last() != '/',
        without_end_slashes(without_end_slashes(url)) == without_end_slashes(url),
    decreases url.len(),
{
    if url.len() > 0 && url.last() == '/' {
        law_base_has_no_end_slash(url.drop_last());
    }
}

/// Any number of slashes more at the end of a URL make no difference.
pub proof fn law_end_slashes_ignored(url: Seq<char>, slashes: Seq<char>)
    requires
        forall|i: int| 0 <= i < slashes.len() ==> #[trigger] slashes[i] == '/',
    ensures
        without_end_slashes(url + slashes) == without_end_slashes(url),
    decreases slashes.len(),
{
    if slashes.len() == 0 {
        assert(url + slashes =~= url);
    } else {
        assert((url + slashes).last() == slashes.last());
        assert((url + slashes).drop_last() =~= url + slashes.drop_last());
        law_end_slashes_ignored(url, slashes.drop_last());
    }
}

/// Only slashes at the end are taken away.
pub proof fn law_base_is_prefix(url: Seq<char>)
    ensures
        without_end_slashes(url).is_prefix_of(url),
        forall|i: int|
            without_end_slashes(url).len() <= i < url.len() ==> #[trigger] url[i] == '/',
    decreases url.len(),
{
    if url.len() > 0 && url.last() == '/' {
        law_base_is_prefix(url.drop_last());
        assert forall|i: int|
            without_end_slashes(url).len() <= i < url.len() implies #[trigger] url[i] == '/' by {
            if i < url.len() - 1 {
                assert(url.drop_last()[i] == url[i]);
            }
        }
    }
}

/// Adding `/v1` and taking it away gives the root back.
pub proof fn law_root_of_api(root: Seq<char>)
    ensures
        root_of(root + "/v1"@) == root,
{
    let base = root + "/v1"@;
    assert("/v1"@ =~= base.subrange(base.len() - "/v1"@.len(), base.len() as int));
    assert(base.take(base.len() - "/v1"@.len()) =~= root);
}

// ---------------------------------------------------------------------------
// Limits
// ---------------------------------------------------------------------------

/// The bytes in a number of mebibytes, or the largest size where they are more.
pub open spec fn body_limit(mebibytes: int) -> int {
    if mebibytes * 1048576 <= usize::MAX {
        mebibytes * 1048576
    } else {
        usize::MAX as int
    }
}

/// The seconds of `ttl`, but at least one.
pub open spec fn retry_delay(ttl: int) -> int {
    if ttl < 1 {
        1
    } else {
        ttl
    }
}

/// The size of a request body in bytes, from a number of mebibytes. A size
/// that is out of range stands for the largest one.
pub fn max_body_bytes(mebibytes: usize) -> (r: usize)
    ensures
        r == if mebibytes * 1048576 <= usize::MAX {
            mebibytes * 1048576
        } else {
            usize::MAX as int
        },
        r == body_limit(mebibytes as int),
{
    match mebibytes.checked_mul(1048576) {
        Some(bytes) => bytes,
        None => usize::MAX,
    }
}

/// The seconds between two tries to load the presets: the lifetime of a note,
/// but at least one.
pub fn retry_delay_secs(cache_ttl_secs: u64) -> (r: u64)
    ensures
        r == if cache_ttl_secs < 1 {
            1
        } else {
            cache_ttl_secs
        },
        r == retry_delay(cache_ttl_secs as int),
{
    if cache_ttl_secs < 1 {
        1
    } else {
        cache_ttl_secs
    }
}

// ---------------------------------------------------------------------------
// The first presets
// ---------------------------------------------------------------------------

/// Takes the presets that a try to load them brought, where it brought some,
/// and says whether no further try is needed.
pub fn take_loaded(presets: &mut Table<Preset>, loaded: Option<Table<Preset>>) -> (r: bool)
    ensures
        r == (loaded matches Some(p) && preset::preset_views(p) != Map::<
            Seq<char>,
            PresetView,
        >::empty()),
        r ==> *final(presets) == loaded->Some_0,
        !r ==> *final(presets) == *old(presets),
{
    match loaded {
        Some(p) => {
            proof {
                preset::lemma_views_empty(p@);
            }
            if p.is_empty() {
                false
            } else {
                *presets = p;
                true
            }
        },
        None => false,
    }
}

/// The URLs that are taken are those that start with `http://` or `https://`.
pub proof fn law_http_urls(url: Seq<char>, rest: Seq<char>)
    ensures
        is_http("http://"@ + rest),
        is_http("https://"@ + rest),
        is_http(url) ==> exists|r: Seq<char>|
            url == #[trigger] ("http://"@ + r) || url == "https://"@ + r,
{
    let a = "http://"@ + rest;
    let b = "https://"@ + rest;
    assert("http://"@ =~= a.subrange(0, "http://"@.len() as int));
    assert("https://"@ =~= b.subrange(0, "https://"@.len() as int));
    if "http://"@.is_prefix_of(url) {
        assert(url =~= "http://"@ + url.skip("http://"@.len() as int));
    }
    if "https://"@.is_prefix_of(url) {
        let r = url.skip("https://"@.len() as int);
        assert(url =~= "https://"@ + r);
        assert("http://"@ + r == "http://"@ + r);
    }
}

/// A URL that does not end with `/v1` is its own root.
pub proof fn law_root_of_other_urls(base: Seq<char>)
    ensures
        root_of(base) == base || base == root_of(base) + "/v1"@,
        !"/v1"@.is_suffix_of(base) ==> root_of(base) == base,
{
    text::law_prefix_and_rest("/v1"@, Seq::empty(), base);
}

/// The limit of a body is a mebibyte for each that is asked for, as far as that
/// is a size: it is never more than that, nor more than the largest size, and
/// it is one of the two.
pub proof fn law_body_limit(mebibytes: nat)
    ensures
        body_limit(mebibytes as int) <= 1024 * (1024 * mebibytes),
        body_limit(mebibytes as int) <= usize::MAX,
        body_limit(mebibytes as int) == 1024 * (1024 * mebibytes) || body_limit(mebibytes as int)
            == usize::MAX,
{
}

/// Between two tries passes at least a second and at least the lifetime of a
/// note, and no more than the longer of the two.
pub proof fn law_retry_delay(ttl: nat)
    ensures
        retry_delay(ttl as int) >= 1,
        retry_delay(ttl as int) >= ttl,
        retry_delay(ttl as int) == 1 || retry_delay(ttl as int) == ttl,
{
}

} // verus!
