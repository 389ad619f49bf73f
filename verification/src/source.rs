//! Where a track comes from: a file, a resource of the application, or a
//! download.
//!
//! Finding out alternates decisions and lookups. Each function here makes one
//! decision and names the next lookup; the host performs it and reports back.
use crate::text::{
    chars_of, contains, find, first_at, has, is_space, law_first_at, law_has, law_occurs_at,
    law_starts, law_trimmed, occurs_at, starts, starts_with, trim, trimmed,
};
use vstd::prelude::*;
use vstd::string::*;

verus! {

/// What to do next to reach the track.
pub enum SourceStep {
    /// Play this file.
    Use(String),
    /// Play the resource that was found.
    UseResource,
    /// Look `resource` up among the application's resources.
    Resource { resource: String, fallback: String },
    /// See whether this file exists.
    File(String),
    /// Download this address.
    Download(String),
    /// Give up with this message.
    Fail(String),
}

/// A step, with its texts as sequences of characters.
pub enum SourcePlan {
    Use(Seq<char>),
    UseResource,
    Resource { resource: Seq<char>, fallback: Seq<char> },
    File(Seq<char>),
    Download(Seq<char>),
    Fail(Seq<char>),
}

impl View for SourceStep {
    type V = SourcePlan;

    open spec fn view(&self) -> SourcePlan {
        match *self {
            SourceStep::Use(p) => SourcePlan::Use(p@),
            SourceStep::UseResource => SourcePlan::UseResource,
            SourceStep::Resource { resource, fallback } => SourcePlan::Resource {
                resource: resource@,
                fallback: fallback@,
            },
            SourceStep::File(p) => SourcePlan::File(p@),
            SourceStep::Download(u) => SourcePlan::Download(u@),
            SourceStep::Fail(e) => SourcePlan::Fail(e@),
        }
    }
}

/// Where `needle` first stands in `hay`.
pub open spec fn index_of(hay: Seq<char>, needle: Seq<char>) -> int {
    choose|i: int| first_at(hay, needle, i)
}

/// `s` from position `i` on.
pub open spec fn tail(s: Seq<char>, i: int) -> Seq<char> {
    s.subrange(i, s.len() as int)
}

/// The path of an address: from the first slash behind its host on.
pub open spec fn path_of(s: Seq<char>) -> Option<Seq<char>> {
    if has(s, "://"@) {
        let after = tail(s, index_of(s, "://"@) + 3);
        if has(after, "/"@) {
            Some(tail(after, index_of(after, "/"@)))
        } else {
            None
        }
    } else {
        None
    }
}

/// `s` without the slashes at its start.
pub open spec fn without_slashes(s: Seq<char>) -> Seq<char>
    decreases s.len(),
{
    if s.len() > 0 && s[0] == '/' {
        without_slashes(tail(s, 1))
    } else {
        s
    }
}

/// An address of the application's own resources.
pub open spec fn is_asset(s: Seq<char>) -> bool {
    starts(s, "asset://"@) || has(s, "asset.localhost"@)
}

/// An address on the web.
pub open spec fn is_remote(s: Seq<char>) -> bool {
    starts(s, "http://"@) || starts(s, "https://"@)
}

/// A stream in segments, which the decoder cannot play.
pub open spec fn is_segmented(s: Seq<char>) -> bool {
    has(s, ".m3u8"@) || has(s, ".mpd"@)
}

/// The first step for a source: a file address is used as it stands, an asset
/// with a path is looked up, anything else may be a file.
pub open spec fn plan_source(src: Seq<char>) -> SourcePlan {
    let s = trimmed(src);
    if s.len() == 0 {
        SourcePlan::Fail("src is required"@)
    } else if starts(s, "file://"@) {
        SourcePlan::Use(tail(s, 7))
    } else if is_asset(s) && path_of(s) is Some {
        let path = path_of(s)->0;
        SourcePlan::Resource { resource: without_slashes(path), fallback: path }
    } else {
        SourcePlan::File(s)
    }
}

/// The step after a lookup among the resources.
pub open spec fn plan_resource(fallback: Seq<char>, found: bool) -> SourcePlan {
    if found {
        SourcePlan::UseResource
    } else {
        SourcePlan::Use(fallback)
    }
}

/// The step after a look at the disk: a file that exists is used, an address on
/// the web is downloaded unless it is segmented.
pub open spec fn plan_file(s: Seq<char>, found: bool) -> SourcePlan {
    if found {
        SourcePlan::Use(s)
    } else if is_remote(s) {
        if is_segmented(s) {
            SourcePlan::Fail(segmented_message())
        } else {
            SourcePlan::Download(s)
        }
    } else {
        SourcePlan::Fail("file not found: "@ + s)
    }
}

/// What is said of a segmented stream.
pub open spec fn segmented_message() -> Seq<char> {
    "HLS/DASH (.m3u8/.mpd) not supported on desktop rodio backend, use progressive mp3/mp4/ogg/wav"@
}

/// There is at most one first place.
proof fn lemma_index_of(hay: Seq<char>, needle: Seq<char>, i: int)
    requires
        first_at(hay, needle, i),
    ensures
        index_of(hay, needle) == i,
{
    let j = index_of(hay, needle);
    assert(first_at(hay, needle, j));
}

/// Skipping `n` slashes.
proof fn lemma_without_slashes(s: Seq<char>, n: int)
    requires
        0 <= n <= s.len(),
        forall|i: int| 0 <= i < n ==> s[i] == '/',
        n < s.len() ==> s[n] != '/',
    ensures
        without_slashes(s) == tail(s, n),
    decreases n,
{
    if n == 0 {
        assert(tail(s, 0) =~= s);
    } else {
        lemma_without_slashes(tail(s, 1), n - 1);
        assert(tail(tail(s, 1), n - 1) =~= tail(s, n));
    }
}

/// The path of an address, if it has one.
pub fn address_path(s: &str) -> (r: Option<String>)
    ensures
        r is Some <==> path_of(s@) is Some,
        r matches Some(p) ==> Some(p@) == path_of(s@),
{
    let chars = chars_of(s);
    let end: usize = chars.len();
    match find(&chars, "://") {
        None => None,
        Some(i) => {
            proof {
                lemma_index_of(s@, "://"@, i as int);
                reveal_strlit("://");
            }
            let after = s.substring_char(i + 3, end);
            let after_chars = chars_of(after);
            match find(&after_chars, "/") {
                None => None,
                Some(j) => {
                    proof {
                        lemma_index_of(after@, "/"@, j as int);
                    }
                    Some(after.substring_char(j, after_chars.len()).to_string())
                },
            }
        },
    }
}

/// The text without the slashes at its start.
pub fn trim_slashes(s: &str) -> (r: String)
    ensures
        r@ == without_slashes(s@),
{
    let chars = chars_of(s);
    let mut n: usize = 0;
    while n < chars.len() && chars[n] == '/'
        invariant
            n <= chars.len(),
            forall|i: int| 0 <= i < n ==> chars@[i] == '/',
        decreases chars.len() - n,
    {
        n = n + 1;
    }
    proof {
        lemma_without_slashes(s@, n as int);
    }
    s.substring_char(n, chars.len()).to_string()
}

/// The first step to reach the track behind `src`.
pub fn resolve_src(src: &str) -> (r: SourceStep)
    ensures
        r@ == plan_source(src@),
{
    let s = trim(src);
    if s.is_empty() {
        return SourceStep::Fail("src is required".to_string());
    }
    let chars = chars_of(s);
    if starts_with(&chars, "file://") {
        proof {
            reveal_strlit("file://");
        }
        return SourceStep::Use(s.substring_char(7, chars.len()).to_string());
    }
    if starts_with(&chars, "asset://") || contains(&chars, "asset.localhost") {
        match address_path(s) {
            Some(path) => {
                let resource = trim_slashes(path.as_str());
                return SourceStep::Resource { resource, fallback: path };
            },
            None => {},
        }
    }
    SourceStep::File(s.to_string())
}

/// The step after the resource was looked up.
pub fn resource_checked(fallback: String, found: bool) -> (r: SourceStep)
    ensures
        r@ == plan_resource(fallback@, found),
{
    if found {
        SourceStep::UseResource
    } else {
        SourceStep::Use(fallback)
    }
}

/// The step after the disk was looked at for the file `s`.
pub fn file_checked(s: String, found: bool) -> (r: SourceStep)
    ensures
        r@ == plan_file(s@, found),
{
    if found {
        return SourceStep::Use(s);
    }
    let chars = chars_of(s.as_str());
    if starts_with(&chars, "http://") || starts_with(&chars, "https://") {
        if contains(&chars, ".m3u8") || contains(&chars, ".mpd") {
            return SourceStep::Fail(
                "HLS/DASH (.m3u8/.mpd) not supported on desktop rodio backend, use progressive mp3/mp4/ogg/wav".to_string(),
            );
        }
        return SourceStep::Download(s);
    }
    let mut message = "file not found: ".to_string();
    message.append(s.as_str());
    SourceStep::Fail(message)
}

/// A source is refused if and only if it holds nothing but white space, and
/// the message says that one is required.
pub proof fn law_only_a_blank_source_is_refused(src: Seq<char>)
    ensures
        plan_source(src) is Fail <==> forall|i: int| 0 <= i < src.len() ==> is_space(src[i]),
        plan_source(src) is Fail ==> plan_source(src) == SourcePlan::Fail("src is required"@),
{
    law_trimmed(src);
}

/// A source is used without any lookup if and only if it is a file address, and
/// then what stands behind `file://` is used, all of it.
pub proof fn law_a_file_address_is_used(src: Seq<char>, path: Seq<char>)
    ensures
        trimmed(src) == "file://"@ + path ==> plan_source(src) == SourcePlan::Use(path),
        plan_source(src) == SourcePlan::Use(path) ==> trimmed(src) == "file://"@ + path,
{
    reveal_strlit("file://");
    let s = trimmed(src);
    law_starts(s, "file://"@);
    if s == "file://"@ + path {
        assert(tail(s, 7) =~= path);
    }
    if plan_source(src) == SourcePlan::Use(path) {
        assert(s =~= "file://"@ + path);
    }
}

/// Only a source that starts with `asset://` or holds `asset.localhost` is ever
/// looked up among the resources.
pub proof fn law_only_assets_are_looked_up(src: Seq<char>)
    ensures
        plan_source(src) is Resource ==> {
            ||| exists|rest: Seq<char>| trimmed(src) == #[trigger] ("asset://"@ + rest)
            ||| exists|before: Seq<char>, after: Seq<char>|
                trimmed(src) == #[trigger] (before + "asset.localhost"@ + after)
        },
{
    let s = trimmed(src);
    law_has(s, "asset.localhost"@);
    law_starts(s, "asset://"@);
    if starts(s, "asset://"@) {
        let n = "asset://"@.len() as int;
        assert(s =~= "asset://"@ + tail(s, n));
    }
}

/// An address on the web that does not hold `asset.localhost` is never looked
/// up among the resources: it may be a file, under the whole of its name, and
/// where no such file exists it is downloaded under the whole of its name,
/// unless it holds `.m3u8` or `.mpd`.
pub proof fn law_a_web_address_is_downloaded(src: Seq<char>)
    requires
        exists|rest: Seq<char>|
            trimmed(src) == #[trigger] ("http://"@ + rest) || trimmed(src) == "https://"@ + rest,
        forall|before: Seq<char>, after: Seq<char>|
            trimmed(src) != #[trigger] (before + "asset.localhost"@ + after),
    ensures
        plan_source(src) == SourcePlan::File(trimmed(src)),
        plan_file(trimmed(src), true) == SourcePlan::Use(trimmed(src)),
        (forall|before: Seq<char>, after: Seq<char>|
            trimmed(src) != #[trigger] (before + ".m3u8"@ + after)) && (forall|
            before: Seq<char>,
            after: Seq<char>,
        |
            trimmed(src) != #[trigger] (before + ".mpd"@ + after)) ==> plan_file(
            trimmed(src),
            false,
        ) == SourcePlan::Download(trimmed(src)),
{
    let s = trimmed(src);
    reveal_strlit("http://");
    reveal_strlit("https://");
    reveal_strlit("file://");
    reveal_strlit("asset://");
    law_has(s, "asset.localhost"@);
    law_has(s, ".m3u8"@);
    law_has(s, ".mpd"@);
    law_starts(s, "file://"@);
    law_starts(s, "asset://"@);
    law_starts(s, "http://"@);
    law_starts(s, "https://"@);
    let rest = choose|rest: Seq<char>|
        s == #[trigger] ("http://"@ + rest) || s == "https://"@ + rest;
    assert(s[0] == 'h');
    assert(s[0] != "file://"@[0]);
    assert(s[0] != "asset://"@[0]);
}

/// The path of an address `scheme://host/path` is what begins at the first
/// slash behind the host.
pub proof fn law_path_of(scheme: Seq<char>, host: Seq<char>, path: Seq<char>)
    requires
        forall|j: int|
            0 <= j < scheme.len() ==> !occurs_at(scheme + "://"@ + host + path, "://"@, j),
        forall|i: int| 0 <= i < host.len() ==> host[i] != '/',
        path.len() > 0 && path[0] == '/',
    ensures
        path_of(scheme + "://"@ + host + path) == Some(path),
{
    reveal_strlit("://");
    reveal_strlit("/");
    let s = scheme + "://"@ + host + path;
    let n = scheme.len() as int;
    law_occurs_at(s, "://"@, n);
    assert(first_at(s, "://"@, n));
    lemma_index_of(s, "://"@, n);
    let after = tail(s, n + 3);
    assert(after =~= host + path);
    let m = host.len() as int;
    law_occurs_at(after, "/"@, m);
    assert forall|j: int| j < m implies !occurs_at(after, "/"@, j) by {
        law_occurs_at(after, "/"@, j);
        if 0 <= j {
            assert("/"@[0] == '/');
            assert(after[j + 0] == host[j]);
        }
    }
    assert(first_at(after, "/"@, m));
    lemma_index_of(after, "/"@, m);
    assert(tail(after, m) =~= path);
}

/// An address that has a path is made of a scheme, a host without slash and
/// that path; one without `://`, or without a slash behind it, has none.
pub proof fn law_path_parts(s: Seq<char>) -> (parts: (Seq<char>, Seq<char>))
    ensures
        path_of(s) matches Some(path) ==> {
            &&& s == parts.0 + "://"@ + parts.1 + path
            &&& forall|j: int| 0 <= j < parts.0.len() ==> !occurs_at(s, "://"@, j)
            &&& forall|i: int| 0 <= i < parts.1.len() ==> parts.1[i] != '/'
            &&& path.len() > 0 && path[0] == '/'
        },
        path_of(s) is None ==> forall|scheme: Seq<char>, rest: Seq<char>, i: int|
            s == #[trigger] (scheme + "://"@ + rest) && (forall|j: int|
                0 <= j < scheme.len() ==> !occurs_at(s, "://"@, j)) && 0 <= i < rest.len()
                ==> #[trigger] rest[i] != '/',
{
    reveal_strlit("://");
    reveal_strlit("/");
    let mut scheme = Seq::<char>::empty();
    let mut host = Seq::<char>::empty();
    if path_of(s) is Some {
        law_first_at(s, "://"@);
        let n = index_of(s, "://"@);
        law_occurs_at(s, "://"@, n);
        let after = tail(s, n + 3);
        law_first_at(after, "/"@);
        let m = index_of(after, "/"@);
        law_occurs_at(after, "/"@, m);
        scheme = s.subrange(0, n);
        host = after.subrange(0, m);
        let path = tail(after, m);
        assert("://"@[0] == ':' && "://"@[1] == '/' && "://"@[2] == '/');
        assert(s[n + 0] == ':' && s[n + 1] == '/' && s[n + 2] == '/');
        assert(s =~= scheme + "://"@ + host + path);
        assert("/"@[0] == '/');
        assert(after[m + 0] == '/');
        assert forall|i: int| 0 <= i < host.len() implies host[i] != '/' by {
            law_occurs_at(after, "/"@, i);
            assert(!occurs_at(after, "/"@, i));
            if host[i] == '/' {
                assert(after[i] == '/');
                assert forall|k: int| 0 <= k < "/"@.len() implies after[i + k] == #[trigger] "/"@[k] by {}
            }
        }
    } else {
        assert forall|a: Seq<char>, rest: Seq<char>, i: int|
            s == #[trigger] (a + "://"@ + rest) && (forall|j: int|
                0 <= j < a.len() ==> !occurs_at(s, "://"@, j)) && 0 <= i
                < rest.len() implies #[trigger] rest[i] != '/' by {
            let n = a.len() as int;
            law_occurs_at(s, "://"@, n);
            assert(first_at(s, "://"@, n));
            lemma_index_of(s, "://"@, n);
            let after = tail(s, n + 3);
            assert(after =~= rest);
            law_occurs_at(after, "/"@, i);
            if rest[i] == '/' {
                assert forall|k: int| 0 <= k < "/"@.len() implies after[i + k] == #[trigger] "/"@[k] by {}
                assert(occurs_at(after, "/"@, i));
            }
        }
    }
    (scheme, host)
}

/// An asset whose address has a path is looked up under that path without its
/// leading slashes, with the path itself to fall back on; an asset without a
/// path, and everything else, may be a file under the whole of its name.
pub proof fn law_an_asset_is_looked_up_by_its_path(src: Seq<char>) -> (slashes: Seq<char>)
    ensures
        trimmed(src).len() > 0 && !starts(trimmed(src), "file://"@) ==> {
            let s = trimmed(src);
            let asset = starts(s, "asset://"@) || has(s, "asset.localhost"@);
            &&& asset && path_of(s) is Some <==> plan_source(src) is Resource
            &&& !(asset && path_of(s) is Some) ==> plan_source(src) == SourcePlan::File(s)
        },
        plan_source(src) matches SourcePlan::Resource { resource, fallback } ==> {
            &&& path_of(trimmed(src)) == Some(fallback)
            &&& fallback == slashes + resource
            &&& slashes.len() > 0
            &&& forall|i: int| 0 <= i < slashes.len() ==> slashes[i] == '/'
            &&& resource.len() > 0 ==> resource[0] != '/'
        },
{
    law_path_parts(trimmed(src));
    match plan_source(src) {
        SourcePlan::Resource { resource, fallback } => lemma_slashes_split(fallback),
        _ => Seq::empty(),
    }
}

proof fn lemma_slashes_split(s: Seq<char>) -> (slashes: Seq<char>)
    ensures
        s == slashes + without_slashes(s),
        forall|i: int| 0 <= i < slashes.len() ==> slashes[i] == '/',
        without_slashes(s).len() > 0 ==> without_slashes(s)[0] != '/',
        s.len() > 0 && s[0] == '/' ==> slashes.len() > 0,
    decreases s.len(),
{
    if s.len() > 0 && s[0] == '/' {
        let rest = tail(s, 1);
        let more = lemma_slashes_split(rest);
        let all = seq!['/'] + more;
        assert(s =~= seq!['/'] + rest);
        assert(s =~= all + without_slashes(s));
        all
    } else {
        assert(s =~= Seq::<char>::empty() + s);
        Seq::empty()
    }
}

/// Without a file of its name, a source that is no web address is given up, and
/// so is a web address that holds `.m3u8` or `.mpd`; each with its own message.
/// With a file of its name it is used, whatever it is.
pub proof fn law_what_is_given_up(s: Seq<char>)
    ensures
        plan_file(s, true) == SourcePlan::Use(s),
        !starts(s, "http://"@) && !starts(s, "https://"@) ==> plan_file(s, false)
            == SourcePlan::Fail("file not found: "@ + s),
        (starts(s, "http://"@) || starts(s, "https://"@)) && (has(s, ".m3u8"@) || has(s, ".mpd"@))
            ==> plan_file(s, false) == SourcePlan::Fail(
            "HLS/DASH (.m3u8/.mpd) not supported on desktop rodio backend, use progressive mp3/mp4/ogg/wav"@,
        ),
        (starts(s, "http://"@) || starts(s, "https://"@)) && !(has(s, ".m3u8"@)) && !(has(s, ".mpd"@))
            ==> plan_file(s, false) == SourcePlan::Download(s),
{
}

/// A resource that was found is played; otherwise the path itself is tried.
pub proof fn law_a_missing_resource_falls_back(fallback: Seq<char>)
    ensures
        plan_resource(fallback, true) is UseResource,
        plan_resource(fallback, false) == SourcePlan::Use(fallback),
{
}

} // verus!
