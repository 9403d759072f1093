//! Media that messages refer to.

use crate::text::{
    chars_of, copy_range, law_split_is_at_the_first, law_trimming_takes_off_one_character,
    matches_at, occurs_at, split_at_first, split_once, string_of, trim_end_of, trimmed_end_of,
};
use vstd::prelude::*;
use vstd::string::StringExecFns;

verus! {

/// The address from which `homeserver` serves the media that `mxc_url` names:
/// `{homeserver}/_matrix/media/v3/download/{serverName}/{mediaId}` for
/// `mxc://serverName/mediaId`, where the homeserver's trailing slashes are
/// dropped. There is none for anything but an `mxc://` URL with a slash after
/// the server name.
pub open spec fn download_url(homeserver: Seq<char>, mxc_url: Seq<char>) -> Option<Seq<char>> {
    if !occurs_at(mxc_url, "mxc://"@, 0) {
        None
    } else {
        let (server_name, media_id) = split_once(mxc_url.skip("mxc://"@.len() as int), '/');
        match media_id {
            Some(id) => Some(
                trimmed_end_of(homeserver, '/') + "/_matrix/media/v3/download/"@ + server_name
                    + "/"@ + id,
            ),
            None => None,
        }
    }
}

/// Convert a Matrix mxc:// URL to a download URL.
///
/// Matrix media URLs are in the format: mxc://serverName/mediaId
/// Download URL format: {homeserver}/_matrix/media/v3/download/{serverName}/{mediaId}
pub fn mxc_to_download_url(homeserver: &str, mxc_url: &str) -> (r: Option<String>)
    ensures
        r is Some <==> download_url(homeserver@, mxc_url@) is Some,
        r matches Some(url) ==> download_url(homeserver@, mxc_url@) == Some(url@),
{
    let chars = chars_of(mxc_url);
    let prefix = chars_of("mxc://");
    if !matches_at(chars.as_slice(), prefix.as_slice(), 0) {
        return None;
    }
    let rest = copy_range(chars.as_slice(), prefix.len(), chars.len());
    assert(rest@ =~= mxc_url@.skip("mxc://"@.len() as int));
    let (server_name, media_id) = split_at_first(rest.as_slice(), '/');
    match media_id {
        None => None,
        Some(id) => {
            let base = trim_end_of(chars_of(homeserver).as_slice(), '/');
            let mut url = string_of(base.as_slice());
            url.append("/_matrix/media/v3/download/");
            url.append(string_of(server_name.as_slice()).as_str());
            url.append("/");
            url.append(string_of(id.as_slice()).as_str());
            Some(url)
        },
    }
}

/// Every `mxc://serverName/mediaId` has its download URL, whatever the media
/// id, as long as the server name ends at the first slash.
pub proof fn law_media_urls_have_their_download_url(
    homeserver: Seq<char>,
    server_name: Seq<char>,
    media_id: Seq<char>,
)
    requires
        !server_name.contains('/'),
    ensures
        download_url(homeserver, "mxc://"@ + server_name + "/"@ + media_id) == Some(
            trimmed_end_of(homeserver, '/') + "/_matrix/media/v3/download/"@ + server_name + "/"@
                + media_id,
        ),
{
    reveal_strlit("mxc://");
    reveal_strlit("/");
    let url = "mxc://"@ + server_name + "/"@ + media_id;
    let rest = server_name + "/"@ + media_id;
    assert(url.subrange(0, 6) =~= "mxc://"@);
    assert(url.skip(6) =~= rest);
    let n = server_name.len() as int;
    rest.index_of_first_ensures('/');
    assert(rest[n] == '/');
    assert(rest.contains('/'));
    let k = rest.index_of_first('/')->0;
    assert(k == n) by {
        if k < n {
            assert(server_name[k] == rest[k]);
        }
    }
    assert(rest.take(n) =~= server_name);
    assert(rest.skip(n + 1) =~= media_id);
}

/// A slash at the end of the homeserver's URL makes no difference.
pub proof fn law_trailing_slash_makes_no_difference(homeserver: Seq<char>, mxc_url: Seq<char>)
    ensures
        download_url(homeserver.push('/'), mxc_url) == download_url(homeserver, mxc_url),
{
    assert(homeserver.push('/').drop_last() =~= homeserver);
}

/// A download URL exists exactly for an `mxc://` URL with a slash after the
/// server name; it starts with the homeserver's URL without the slashes at its
/// end, however many there are.
pub proof fn law_only_media_urls_have_a_download_url(
    base: Seq<char>,
    slashes: Seq<char>,
    mxc_url: Seq<char>,
    server_name: Seq<char>,
    media_id: Seq<char>,
)
    requires
        base.len() > 0 ==> base.last() != '/',
        forall|i: int| 0 <= i < slashes.len() ==> #[trigger] slashes[i] == '/',
        !server_name.contains('/'),
    ensures
        download_url(base + slashes, mxc_url) is Some <==> mxc_url.len() >= 6 && mxc_url.take(6)
            == "mxc://"@ && mxc_url.skip(6).contains('/'),
        mxc_url == "mxc://"@ + server_name + "/"@ + media_id ==> download_url(
            base + slashes,
            mxc_url,
        ) == Some(
            base + "/_matrix/media/v3/download/"@ + server_name + "/"@ + media_id,
        ),
{
    reveal_strlit("mxc://");
    law_trimming_takes_off_one_character(slashes, base, '/');
    law_split_is_at_the_first(mxc_url.skip(6), '/');
    if mxc_url.len() >= 6 {
        assert(mxc_url.take(6) =~= mxc_url.subrange(0, 6));
    }
    law_media_urls_have_their_download_url(base + slashes, server_name, media_id);
}

} // verus!
