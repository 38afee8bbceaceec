//! Which AWS SDK client a module specifier names, and the address that warms
//! up its connection.
use vstd::prelude::*;
use vstd::string::StringExecFns;

use crate::text::{spec_trim_start_matches, strip_prefix, trim_start_matches};

verus! {

/// `@aws-sdk/` as characters.
pub open spec fn sdk_prefix() -> Seq<char> {
    seq!['@', 'a', 'w', 's', '-', 's', 'd', 'k', '/']
}

/// `client-` as characters.
pub open spec fn client_prefix() -> Seq<char> {
    seq!['c', 'l', 'i', 'e', 'n', 't', '-']
}

/// The client that a specifier such as `@aws-sdk/client-s3` names: what
/// follows `@aws-sdk/`, without leading `client-`s.
pub open spec fn spec_sdk_client_name(specifier: Seq<char>) -> Option<Seq<char>> {
    if sdk_prefix().is_prefix_of(specifier) {
        Some(spec_trim_start_matches(specifier.skip(9), client_prefix()))
    } else {
        None
    }
}

/// The client that `specifier` names, where it is an `@aws-sdk/` specifier.
pub fn sdk_client_name(specifier: &str) -> (res: Option<&str>)
    ensures
        match (res, spec_sdk_client_name(specifier@)) {
            (Some(r), Some(sr)) => r@ == sr,
            (None, None) => true,
            _ => false,
        },
{
    proof {
        reveal_strlit("@aws-sdk/");
        reveal_strlit("client-");
        assert("@aws-sdk/"@ =~= sdk_prefix());
        assert("client-"@ =~= client_prefix());
    }
    match strip_prefix(specifier, "@aws-sdk/") {
        Some(sdk_import) => Some(trim_start_matches(sdk_import, "client-")),
        None => None,
    }
}

/// The endpoint to warm up: the one recorded for the client, or the client's
/// name where the recorded one is empty.
pub fn client_endpoint<'a>(client_name: &'a str, endpoint: &'a str) -> (res: &'a str)
    ensures
        res@ == if endpoint@.len() == 0 { client_name@ } else { endpoint@ },
{
    if endpoint.is_empty() {
        client_name
    } else {
        endpoint
    }
}

/// The address that warms up the connection to `endpoint` in `region`.
pub open spec fn spec_ping_url(endpoint: Seq<char>, region: Seq<char>) -> Seq<char> {
    seq!['h', 't', 't', 'p', 's', ':', '/', '/'] + endpoint + seq!['.'] + region
        + seq!['.', 'a', 'm', 'a', 'z', 'o', 'n', 'a', 'w', 's', '.', 'c', 'o', 'm', '/', 's', 'p', 'i', 'n', 'g']
}

/// `https://{endpoint}.{region}.amazonaws.com/sping`.
pub fn client_ping_url(endpoint: &str, region: &str) -> (res: String)
    ensures
        res@ == spec_ping_url(endpoint@, region@),
{
    proof {
        reveal_strlit("https://");
        reveal_strlit(".");
        reveal_strlit(".amazonaws.com/sping");
    }
    let mut url = String::from_str("https://");
    url.append(endpoint);
    url.append(".");
    url.append(region);
    url.append(".amazonaws.com/sping");
    proof {
        assert(url@ =~= spec_ping_url(endpoint@, region@));
    }
    url
}

/// The client name of `@aws-sdk/` followed by `s` is `s` without its whole
/// leading copies of `client-`: a name that does not start with `client-` is
/// kept as it is, one leading `client-` more or less gives the same name, and
/// other specifiers name no client.
pub proof fn lemma_sdk_client_name(s: Seq<char>, other: Seq<char>)
    ensures
        !client_prefix().is_prefix_of(s) ==> spec_sdk_client_name(sdk_prefix() + s) == Some(s),
        spec_sdk_client_name(sdk_prefix() + client_prefix() + s) == spec_sdk_client_name(sdk_prefix() + s),
        !client_prefix().is_prefix_of(s) ==> spec_sdk_client_name(sdk_prefix() + client_prefix() + s) == Some(s),
        !sdk_prefix().is_prefix_of(other) ==> spec_sdk_client_name(other) is None,
{
    let a = sdk_prefix() + s;
    assert(sdk_prefix().is_prefix_of(a)) by {
        assert(a.subrange(0, 9) =~= sdk_prefix());
    }
    assert(a.skip(9) =~= s);
    let cs = client_prefix() + s;
    let b = sdk_prefix() + client_prefix() + s;
    assert(b =~= sdk_prefix() + cs);
    assert(sdk_prefix().is_prefix_of(b)) by {
        assert(b.subrange(0, 9) =~= sdk_prefix());
    }
    assert(b.skip(9) =~= cs);
    assert(client_prefix().is_prefix_of(cs)) by {
        assert(cs.subrange(0, 7) =~= client_prefix());
    }
    assert(cs.skip(7) =~= s);
    assert(spec_trim_start_matches(cs, client_prefix()) == spec_trim_start_matches(s, client_prefix()));
}

} // verus!
