//! The cache of downloaded tracks: how files are named, how long they stay
//! fresh, and the steps of a download.
use crate::source::{index_of, tail};
use crate::text::{
    append_decimal, ascii_lower, chars_of, contains, decimal, find, first_at, has, law_occurs_at,
    lowers_to, occurs_at, tail_lowers_to,
};
use sha2::Digest;
use vstd::prelude::*;
use vstd::string::*;
use vstd::utf8::{encode_utf8, encode_utf8_decode_utf8, is_ascii_chars};

verus! {

/// Seconds for which a cached file stays fresh: a day.
pub const FRESH_SECS: u64 = 86400;

/// The SHA-256 digest of a sequence of bytes.
pub uninterp spec fn sha256_digest(data: Seq<u8>) -> Seq<u8>;

/// `sha2::Sha256::digest`: the SHA-256 digest of `data`, 32 bytes that depend
/// on nothing else.
#[verifier::external_body]
fn sha256(data: &[u8]) -> (r: Vec<u8>)
    ensures
        r@ == sha256_digest(data@),
        r@.len() == 32,
{
    sha2::Sha256::digest(data).to_vec()
}

/// A number below sixteen as a hexadecimal digit in lower case.
pub open spec fn hex_digit(n: u8) -> char {
    if n < 10 {
        (48 + n) as char
    } else {
        (87 + n) as char
    }
}

/// Bytes in hexadecimal, two digits each, the higher one first.
pub open spec fn hex_text(data: Seq<u8>) -> Seq<char> {
    Seq::new(
        2 * data.len(),
        |i: int|
            if i % 2 == 0 {
                hex_digit(data[i / 2] / 16)
            } else {
                hex_digit(data[i / 2] % 16)
            },
    )
}

/// `hex::encode`: two hexadecimal digits in lower case for each byte.
#[verifier::external_body]
fn hex_encode(data: &[u8]) -> (r: String)
    requires
        2 * data@.len() <= isize::MAX,
    ensures
        r@ == hex_text(data@),
{
    hex::encode(data)
}

/// The lower case of a text, by the rules of Unicode.
pub uninterp spec fn lowercase_of(s: Seq<char>) -> Seq<char>;

/// `str::to_lowercase`: the lower case of a text, by the rules of Unicode. In
/// an ASCII text the letters A to Z become a to z and nothing else changes.
#[verifier::external_body]
fn lowercase(s: &str) -> (r: String)
    ensures
        r@ == lowercase_of(s@),
        is_ascii_chars(s@) ==> r@ == s@.map_values(|c: char| ascii_lower(c)),
{
    s.to_lowercase()
}

/// The name under which an address is cached, without extension: the SHA-256
/// digest of its UTF-8 bytes in hexadecimal.
pub open spec fn hash_of(url: Seq<char>) -> Seq<char> {
    hex_text(sha256_digest(encode_utf8(url)))
}

/// The kinds of file that are cached under their own extension.
#[derive(Clone, Copy, Debug, PartialEq, Eq, Structural)]
pub enum AudioExt {
    Mp3,
    Ogg,
    Flac,
    Wav,
    M4a,
    Aac,
    Opus,
    Mp4,
}

impl AudioExt {
    /// The extension with its dot.
    pub open spec fn dotted(self) -> Seq<char> {
        match self {
            AudioExt::Mp3 => ".mp3"@,
            AudioExt::Ogg => ".ogg"@,
            AudioExt::Flac => ".flac"@,
            AudioExt::Wav => ".wav"@,
            AudioExt::M4a => ".m4a"@,
            AudioExt::Aac => ".aac"@,
            AudioExt::Opus => ".opus"@,
            AudioExt::Mp4 => ".mp4"@,
        }
    }

    /// The extension with its dot.
    pub fn suffix(&self) -> (r: &'static str)
        ensures
            r@ == self.dotted(),
    {
        match *self {
            AudioExt::Mp3 => ".mp3",
            AudioExt::Ogg => ".ogg",
            AudioExt::Flac => ".flac",
            AudioExt::Wav => ".wav",
            AudioExt::M4a => ".m4a",
            AudioExt::Aac => ".aac",
            AudioExt::Opus => ".opus",
            AudioExt::Mp4 => ".mp4",
        }
    }
}

/// The part of an address before its query.
pub open spec fn before_query(url: Seq<char>) -> Seq<char> {
    if has(url, "?"@) {
        url.subrange(0, index_of(url, "?"@))
    } else {
        url
    }
}

/// Where the part behind the last dot begins; zero without a dot.
pub open spec fn behind_last_dot(s: Seq<char>) -> int
    decreases s.len(),
{
    if s.len() == 0 {
        0
    } else if s[s.len() - 1] == '.' {
        s.len() as int
    } else {
        behind_last_dot(s.subrange(0, s.len() - 1))
    }
}

/// The known extension that `s` spells, in either case.
pub open spec fn ext_named(s: Seq<char>) -> Option<AudioExt> {
    if lowers_to(s, "mp3"@) {
        Some(AudioExt::Mp3)
    } else if lowers_to(s, "ogg"@) {
        Some(AudioExt::Ogg)
    } else if lowers_to(s, "flac"@) {
        Some(AudioExt::Flac)
    } else if lowers_to(s, "wav"@) {
        Some(AudioExt::Wav)
    } else if lowers_to(s, "m4a"@) {
        Some(AudioExt::M4a)
    } else if lowers_to(s, "aac"@) {
        Some(AudioExt::Aac)
    } else if lowers_to(s, "opus"@) {
        Some(AudioExt::Opus)
    } else if lowers_to(s, "mp4"@) {
        Some(AudioExt::Mp4)
    } else {
        None
    }
}

/// The extension that an address asks for: what stands behind its last dot, if
/// that is a known extension, else mp3.
pub open spec fn ext_of_url(url: Seq<char>) -> AudioExt {
    let s = before_query(url);
    match ext_named(tail(s, behind_last_dot(s))) {
        Some(e) => e,
        None => AudioExt::Mp3,
    }
}

/// The extension that a content type in lower case stands for.
pub open spec fn ext_of_type(t: Seq<char>) -> Option<AudioExt> {
    if has(t, "ogg"@) || has(t, "opus"@) {
        Some(AudioExt::Ogg)
    } else if has(t, "flac"@) {
        Some(AudioExt::Flac)
    } else if has(t, "wav"@) {
        Some(AudioExt::Wav)
    } else if has(t, "mp4"@) || has(t, "m4a"@) || has(t, "aac"@) {
        Some(AudioExt::M4a)
    } else {
        None
    }
}

/// The extension after the response: where the address gave mp3, a content type
/// (in lower case) that stands for another kind decides.
pub open spec fn refined(ext: AudioExt, content_type: Option<Seq<char>>) -> AudioExt {
    if ext == AudioExt::Mp3 && content_type is Some && ext_of_type(content_type->0) is Some {
        ext_of_type(content_type->0)->0
    } else {
        ext
    }
}

/// The name under which an address is cached, without extension.
pub fn url_hash(url: &str) -> (r: String)
    ensures
        r@ == hash_of(url@),
        r@ == hex_text(sha256_digest(encode_utf8(url@))),
        r@.len() == 64,
{
    let digest = sha256(url.as_bytes());
    hex_encode(digest.as_slice())
}

proof fn lemma_query(url: Seq<char>, i: int)
    requires
        first_at(url, "?"@, i),
    ensures
        before_query(url) == url.subrange(0, i),
{
    assert(first_at(url, "?"@, index_of(url, "?"@)));
}

/// The extension that an address asks for.
pub fn url_ext(url: &str) -> (r: AudioExt)
    ensures
        r == ext_of_url(url@),
{
    let mut chars = chars_of(url);
    match find(&chars, "?") {
        Some(i) => {
            proof {
                lemma_query(url@, i as int);
            }
            chars.truncate(i);
        },
        None => {},
    }
    let ghost s = before_query(url@);
    assert(chars@ =~= s);
    let mut from: usize = chars.len();
    assert(s.subrange(0, from as int) =~= s);
    while from > 0 && chars[from - 1] != '.'
        invariant
            from <= chars.len(),
            chars@ == s,
            behind_last_dot(s) == behind_last_dot(s.subrange(0, from as int)),
        decreases from,
    {
        assert(s.subrange(0, from as int).subrange(0, from - 1) =~= s.subrange(0, from - 1));
        from = from - 1;
    }
    assert(behind_last_dot(s) == from);
    if tail_lowers_to(&chars, from, "mp3") {
        AudioExt::Mp3
    } else if tail_lowers_to(&chars, from, "ogg") {
        AudioExt::Ogg
    } else if tail_lowers_to(&chars, from, "flac") {
        AudioExt::Flac
    } else if tail_lowers_to(&chars, from, "wav") {
        AudioExt::Wav
    } else if tail_lowers_to(&chars, from, "m4a") {
        AudioExt::M4a
    } else if tail_lowers_to(&chars, from, "aac") {
        AudioExt::Aac
    } else if tail_lowers_to(&chars, from, "opus") {
        AudioExt::Opus
    } else if tail_lowers_to(&chars, from, "mp4") {
        AudioExt::Mp4
    } else {
        AudioExt::Mp3
    }
}

/// The extension that a content type in lower case stands for.
pub fn type_ext(lowered: &str) -> (r: Option<AudioExt>)
    ensures
        r == ext_of_type(lowered@),
{
    let t = chars_of(lowered);
    if contains(&t, "ogg") || contains(&t, "opus") {
        Some(AudioExt::Ogg)
    } else if contains(&t, "flac") {
        Some(AudioExt::Flac)
    } else if contains(&t, "wav") {
        Some(AudioExt::Wav)
    } else if contains(&t, "mp4") || contains(&t, "m4a") || contains(&t, "aac") {
        Some(AudioExt::M4a)
    } else {
        None
    }
}

/// The extension after the response, for a content type in lower case.
pub fn refine_ext(ext: AudioExt, lowered: Option<&str>) -> (r: AudioExt)
    ensures
        r == refined(
            ext,
            match lowered {
                Some(t) => Some(t@),
                None => None,
            },
        ),
{
    if ext == AudioExt::Mp3 {
        match lowered {
            Some(t) => match type_ext(t) {
                Some(e) => e,
                None => ext,
            },
            None => ext,
        }
    } else {
        ext
    }
}

/// What the disk says of a cached file.
#[derive(Clone, Copy, Debug, PartialEq, Eq, Structural)]
pub struct CacheEntry {
    /// Its length in bytes.
    pub len: u64,
    /// How long ago it was written, in seconds, where that can be told.
    pub age_secs: Option<u64>,
}

/// A cached file that can be played: not empty, and less than a day old.
pub open spec fn fresh(entry: Option<CacheEntry>) -> bool {
    &&& entry is Some
    &&& entry->0.len > 0
    &&& entry->0.age_secs is Some
    &&& entry->0.age_secs->0 < 24 * 3600
}

/// Whether a cached file can be played.
pub fn is_fresh(entry: Option<CacheEntry>) -> (r: bool)
    ensures
        r == fresh(entry),
{
    match entry {
        Some(e) => match e.age_secs {
            Some(age) => age < FRESH_SECS && e.len > 0,
            None => false,
        },
        None => false,
    }
}

/// What to do next in a download.
pub enum DownloadStep {
    /// Look at the cached file `file_name`.
    CheckCache,
    /// Send the request.
    Fetch,
    /// Write the body to `temp_name` and rename it to `file_name`.
    Store,
    /// Play the cached file `file_name`.
    Finished,
    /// Give up with this message.
    Fail(String),
}

/// A download on its way.
pub struct Download {
    pub hash: String,
    pub ext: AudioExt,
    /// The response has come in.
    pub fetched: bool,
}

/// The step after a look at the cache.
pub open spec fn step_after_check(entry: Option<CacheEntry>, fetched: bool) -> DownloadStep {
    if fresh(entry) {
        DownloadStep::Finished
    } else if fetched {
        DownloadStep::Store
    } else {
        DownloadStep::Fetch
    }
}

/// Begins a download; the cache is looked at first.
pub fn download_to_cache(url: &str) -> (r: Download)
    ensures
        r.hash@ == hash_of(url@),
        r.hash@ == hex_text(sha256_digest(encode_utf8(url@))),
        r.hash@.len() == 64,
        r.ext == ext_of_url(url@),
        !r.fetched,
{
    Download { hash: url_hash(url), ext: url_ext(url), fetched: false }
}

impl Download {
    /// The name of the cached file.
    pub fn file_name(&self) -> (r: String)
        ensures
            r@ == self.hash@ + self.ext.dotted(),
    {
        let mut name = self.hash.clone();
        name.append(self.ext.suffix());
        name
    }

    /// The name of the file that the body is first written to.
    pub fn temp_name(&self) -> (r: String)
        ensures
            r@ == self.hash@ + ".tmp"@,
    {
        let mut name = self.hash.clone();
        name.append(".tmp");
        name
    }

    /// The step after a look at the cache.
    pub fn cache_checked(&self, entry: Option<CacheEntry>) -> (r: DownloadStep)
        ensures
            r == step_after_check(entry, self.fetched),
    {
        if is_fresh(entry) {
            DownloadStep::Finished
        } else if self.fetched {
            DownloadStep::Store
        } else {
            DownloadStep::Fetch
        }
    }

    /// The step after the response, whose content type is given in lower case.
    /// Any status but 200 ends the download. Where the content type changes the
    /// extension, the cache is looked at again under the new name.
    pub fn responded_lowered(&mut self, status: u16, lowered: Option<&str>) -> (r: DownloadStep)
        ensures
            final(self).hash == old(self).hash,
            status != 200 ==> {
                &&& r matches DownloadStep::Fail(e) && e@ == "http status "@ + decimal(
                    status as nat,
                )
                &&& *final(self) == *old(self)
            },
            status == 200 ==> {
                let ext = refined(
                    old(self).ext,
                    match lowered {
                        Some(t) => Some(t@),
                        None => None,
                    },
                );
                &&& final(self).fetched
                &&& final(self).ext == ext
                &&& r == if ext == old(self).ext {
                    DownloadStep::Store
                } else {
                    DownloadStep::CheckCache
                }
            },
    {
        if status != 200 {
            let mut message = "http status ".to_string();
            append_decimal(&mut message, status);
            return DownloadStep::Fail(message);
        }
        let ext = refine_ext(self.ext, lowered);
        let changed = ext != self.ext;
        self.ext = ext;
        self.fetched = true;
        if changed {
            DownloadStep::CheckCache
        } else {
            DownloadStep::Store
        }
    }

    /// The step after the response, with its content type as it was sent.
    pub fn responded(&mut self, status: u16, content_type: Option<&str>) -> (r: DownloadStep)
        ensures
            final(self).hash == old(self).hash,
            status != 200 ==> {
                &&& r matches DownloadStep::Fail(e) && e@ == "http status "@ + decimal(
                    status as nat,
                )
                &&& *final(self) == *old(self)
            },
            status == 200 ==> {
                let ext = refined(
                    old(self).ext,
                    match content_type {
                        Some(t) => Some(lowercase_of(t@)),
                        None => None,
                    },
                );
                &&& final(self).fetched
                &&& final(self).ext == ext
                &&& r == if ext == old(self).ext {
                    DownloadStep::Store
                } else {
                    DownloadStep::CheckCache
                }
            },
            status == 200 && content_type is Some && is_ascii_chars(content_type->0@)
                ==> final(self).ext == refined(
                old(self).ext,
                Some(content_type->0@.map_values(|c: char| ascii_lower(c))),
            ),
    {
        match content_type {
            Some(t) => {
                let lowered = lowercase(t);
                self.responded_lowered(status, Some(lowered.as_str()))
            },
            None => self.responded_lowered(status, None),
        }
    }
}

/// What is said when the request itself fails.
pub fn fetch_failed(detail: &str) -> (r: String)
    ensures
        r@ == "http fetch failed: "@ + detail@,
{
    let mut message = "http fetch failed: ".to_string();
    message.append(detail);
    message
}

/// In hexadecimal each byte is two of the characters `0123456789abcdef`, the
/// one for its higher half first.
pub proof fn law_hex_text(data: Seq<u8>)
    ensures
        hex_text(data).len() == 2 * data.len(),
        forall|i: int|
            0 <= i < data.len() ==> {
                &&& hex_text(data)[2 * i] == "0123456789abcdef"@[#[trigger] data[i] as int / 16]
                &&& hex_text(data)[2 * i + 1] == "0123456789abcdef"@[data[i] as int % 16]
            },
{
    reveal_strlit("0123456789abcdef");
    assert forall|i: int| 0 <= i < data.len() implies {
        &&& hex_text(data)[2 * i] == "0123456789abcdef"@[#[trigger] data[i] as int / 16]
        &&& hex_text(data)[2 * i + 1] == "0123456789abcdef"@[data[i] as int % 16]
    } by {
        lemma_hex_digit(data[i] / 16);
        lemma_hex_digit(data[i] % 16);
        assert((2 * i) / 2 == i && (2 * i + 1) / 2 == i);
    }
}

proof fn lemma_hex_digit(n: u8)
    requires
        n < 16,
    ensures
        hex_digit(n) == "0123456789abcdef"@[n as int],
{
    reveal_strlit("0123456789abcdef");
}

/// Different bytes are different texts in hexadecimal.
pub proof fn law_hex_text_is_injective(a: Seq<u8>, b: Seq<u8>)
    requires
        hex_text(a) == hex_text(b),
    ensures
        a == b,
{
    let x = hex_text(a);
    let y = hex_text(b);
    assert(x.len() == 2 * a.len() && y.len() == 2 * b.len());
    assert forall|i: int| 0 <= i < a.len() implies a[i] == b[i] by {
        assert((2 * i) / 2 == i && (2 * i + 1) / 2 == i);
        assert(x[2 * i] == hex_digit(a[i] / 16));
        assert(y[2 * i] == hex_digit(b[i] / 16));
        assert(x[2 * i + 1] == hex_digit(a[i] % 16));
        assert(y[2 * i + 1] == hex_digit(b[i] % 16));
        lemma_hex_digit_differs(a[i] / 16, b[i] / 16);
        lemma_hex_digit_differs(a[i] % 16, b[i] % 16);
    }
    assert(a =~= b);
}

proof fn lemma_hex_digit_differs(a: u8, b: u8)
    requires
        a < 16,
        b < 16,
        hex_digit(a) == hex_digit(b),
    ensures
        a == b,
{
}

/// The name of a cached file depends on every character of its address: as far
/// as the digest tells the bytes of two different addresses apart, their files
/// have different names, whatever their kinds.
pub proof fn law_different_addresses_have_different_names(
    one: Seq<char>,
    other: Seq<char>,
    one_ext: AudioExt,
    other_ext: AudioExt,
)
    requires
        one != other,
        encode_utf8(one) != encode_utf8(other) ==> sha256_digest(encode_utf8(one))
            != sha256_digest(encode_utf8(other)),
        sha256_digest(encode_utf8(one)).len() == sha256_digest(encode_utf8(other)).len(),
    ensures
        hash_of(one) != hash_of(other),
        hash_of(one) + one_ext.dotted() != hash_of(other) + other_ext.dotted(),
        hash_of(one) + ".tmp"@ != hash_of(other) + ".tmp"@,
{
    encode_utf8_decode_utf8(one);
    encode_utf8_decode_utf8(other);
    assert(encode_utf8(one) != encode_utf8(other));
    let a = hash_of(one);
    let b = hash_of(other);
    if a == b {
        law_hex_text_is_injective(
            sha256_digest(encode_utf8(one)),
            sha256_digest(encode_utf8(other)),
        );
    }
    let n = a.len() as int;
    assert(b.len() == n);
    let x = a + one_ext.dotted();
    let y = b + other_ext.dotted();
    assert(x.subrange(0, n) =~= a);
    assert(y.subrange(0, n) =~= b);
    assert((a + ".tmp"@).subrange(0, n) =~= a);
    assert((b + ".tmp"@).subrange(0, n) =~= b);
}

/// A file that is being written never has the name of a cached one.
pub proof fn law_unfinished_files_are_apart(hash: Seq<char>, ext: AudioExt)
    ensures
        hash + ".tmp"@ != hash + ext.dotted(),
{
    reveal_strlit(".tmp");
    reveal_strlit(".mp3");
    reveal_strlit(".ogg");
    reveal_strlit(".flac");
    reveal_strlit(".wav");
    reveal_strlit(".m4a");
    reveal_strlit(".aac");
    reveal_strlit(".opus");
    reveal_strlit(".mp4");
    let n = hash.len() as int;
    let x = hash + ".tmp"@;
    let y = hash + ext.dotted();
    assert(x[n + 1] == 't');
    assert(y[n + 1] == ext.dotted()[1]);
}

/// Without the character `c` a text has no place for it.
proof fn lemma_absent(s: Seq<char>, needle: Seq<char>, c: char)
    requires
        needle == seq![c],
        forall|i: int| 0 <= i < s.len() ==> s[i] != c,
    ensures
        forall|i: int| !occurs_at(s, needle, i),
        !(has(s, needle)),
{
    assert forall|i: int| !occurs_at(s, needle, i) by {
        law_occurs_at(s, needle, i);
        if occurs_at(s, needle, i) {
            assert(s[i + 0] == needle[0]);
        }
    }
}

/// The query of an address is cut off at its first question mark, and nothing
/// else is.
pub proof fn law_before_query(base: Seq<char>, query: Seq<char>)
    requires
        forall|i: int| 0 <= i < base.len() ==> base[i] != '?',
    ensures
        before_query(base) == base,
        before_query(base + "?"@ + query) == base,
{
    reveal_strlit("?");
    assert("?"@ =~= seq!['?']);
    lemma_absent(base, "?"@, '?');
    let url = base + "?"@ + query;
    let n = base.len() as int;
    law_occurs_at(url, "?"@, n);
    assert forall|j: int| j < n implies !occurs_at(url, "?"@, j) by {
        law_occurs_at(url, "?"@, j);
        if 0 <= j {
            assert("?"@[0] == '?');
            assert(url[j + 0] == base[j]);
        }
    }
    assert(first_at(url, "?"@, n));
    lemma_query(url, n);
    assert(url.subrange(0, n) =~= base);
}

/// What stands behind the last dot begins right after it; without a dot it is
/// the whole text.
pub proof fn law_behind_last_dot(base: Seq<char>, name: Seq<char>)
    requires
        forall|i: int| 0 <= i < name.len() ==> name[i] != '.',
    ensures
        tail(base + "."@ + name, behind_last_dot(base + "."@ + name)) == name,
        tail(name, behind_last_dot(name)) == name,
{
    reveal_strlit(".");
    let s = base + "."@ + name;
    let n = base.len() + 1;
    lemma_last_dot(s, n as int);
    lemma_last_dot(name, 0);
    assert(tail(s, n as int) =~= name);
    assert(tail(name, 0) =~= name);
}

proof fn lemma_last_dot(s: Seq<char>, n: int)
    requires
        0 <= n <= s.len(),
        n == 0 || s[n - 1] == '.',
        forall|i: int| n <= i < s.len() ==> s[i] != '.',
    ensures
        behind_last_dot(s) == n,
    decreases s.len(),
{
    if s.len() > n {
        lemma_last_dot(s.subrange(0, s.len() - 1), n);
    }
}

/// An address is of the kind that its last extension spells, in whatever case
/// and whatever query follows: the kind `ext` if the extension in lower case is
/// the one that files of this kind are cached under, and mp3 if it is that of
/// no kind.
pub proof fn law_kind_of_an_address(
    base: Seq<char>,
    name: Seq<char>,
    query: Seq<char>,
    ext: AudioExt,
)
    requires
        forall|i: int| 0 <= i < base.len() ==> base[i] != '?',
        forall|i: int| 0 <= i < name.len() ==> name[i] != '?' && name[i] != '.',
    ensures
        ext_of_url(base + "."@ + name + "?"@ + query) == ext_of_url(base + "."@ + name),
        lowers_to("."@ + name, ext.dotted()) ==> ext_of_url(base + "."@ + name) == ext
            && ext_of_url(name) == ext,
        (forall|e: AudioExt| !lowers_to("."@ + name, #[trigger] e.dotted())) ==> ext_of_url(
            base + "."@ + name,
        ) == AudioExt::Mp3,
{
    reveal_strlit(".");
    let url = base + "."@ + name;
    assert forall|i: int| 0 <= i < url.len() implies url[i] != '?' by {
        if i < base.len() {
            assert(url[i] == base[i]);
        } else if i > base.len() {
            assert(url[i] == name[i - base.len() - 1]);
        }
    }
    law_before_query(url, query);
    law_before_query(name, query);
    law_behind_last_dot(base, name);
    lemma_named(name, ext);
    match ext_named(name) {
        Some(e) => lemma_named(name, e),
        None => {},
    }
}

/// A name spells a kind if and only if, with a dot before it, it is the
/// extension of that kind.
proof fn lemma_named(name: Seq<char>, ext: AudioExt)
    ensures
        ext_named(name) == Some(ext) <==> lowers_to("."@ + name, ext.dotted()),
{
    reveal_strlit(".");
    reveal_strlit(".mp3");
    reveal_strlit(".ogg");
    reveal_strlit(".flac");
    reveal_strlit(".wav");
    reveal_strlit(".m4a");
    reveal_strlit(".aac");
    reveal_strlit(".opus");
    reveal_strlit(".mp4");
    reveal_strlit("mp3");
    reveal_strlit("ogg");
    reveal_strlit("flac");
    reveal_strlit("wav");
    reveal_strlit("m4a");
    reveal_strlit("aac");
    reveal_strlit("opus");
    reveal_strlit("mp4");
    lemma_dotted(name, "mp3"@, ".mp3"@);
    lemma_dotted(name, "ogg"@, ".ogg"@);
    lemma_dotted(name, "flac"@, ".flac"@);
    lemma_dotted(name, "wav"@, ".wav"@);
    lemma_dotted(name, "m4a"@, ".m4a"@);
    lemma_dotted(name, "aac"@, ".aac"@);
    lemma_dotted(name, "opus"@, ".opus"@);
    lemma_dotted(name, "mp4"@, ".mp4"@);
    assert("mp3"@[0] == 'm' && "mp3"@[1] == 'p' && "mp3"@[2] == '3');
    assert("ogg"@[0] == 'o' && "flac"@.len() == 4 && "flac"@[0] == 'f' && "wav"@[0] == 'w');
    assert("m4a"@[0] == 'm' && "m4a"@[1] == '4' && "aac"@[0] == 'a');
    assert("opus"@.len() == 4 && "opus"@[0] == 'o' && "mp4"@[0] == 'm' && "mp4"@[1] == 'p'
        && "mp4"@[2] == '4');
}

proof fn lemma_dotted(name: Seq<char>, plain: Seq<char>, dotted: Seq<char>)
    requires
        dotted.len() == plain.len() + 1,
        dotted[0] == '.',
        forall|i: int| 0 <= i < plain.len() ==> dotted[i + 1] == #[trigger] plain[i],
    ensures
        lowers_to(name, plain) <==> lowers_to("."@ + name, dotted),
{
    reveal_strlit(".");
    let full = "."@ + name;
    let a = name.map_values(|c: char| ascii_lower(c));
    let b = full.map_values(|c: char| ascii_lower(c));
    assert(b =~= seq!['.'] + a);
    assert(dotted =~= seq!['.'] + plain);
    if b == dotted {
        assert(a =~= b.subrange(1, b.len() as int));
        assert(plain =~= dotted.subrange(1, dotted.len() as int));
    }
}

/// The extensions under which the kinds are cached.
pub proof fn law_extensions()
    ensures
        forall|e: AudioExt|
            (#[trigger] e.dotted())[0] == '.' && tail(e.dotted(), 1) == match e {
                AudioExt::Mp3 => seq!['m', 'p', '3'],
                AudioExt::Ogg => seq!['o', 'g', 'g'],
                AudioExt::Flac => seq!['f', 'l', 'a', 'c'],
                AudioExt::Wav => seq!['w', 'a', 'v'],
                AudioExt::M4a => seq!['m', '4', 'a'],
                AudioExt::Aac => seq!['a', 'a', 'c'],
                AudioExt::Opus => seq!['o', 'p', 'u', 's'],
                AudioExt::Mp4 => seq!['m', 'p', '4'],
            },
{
    reveal_strlit(".mp3");
    reveal_strlit(".ogg");
    reveal_strlit(".flac");
    reveal_strlit(".wav");
    reveal_strlit(".m4a");
    reveal_strlit(".aac");
    reveal_strlit(".opus");
    reveal_strlit(".mp4");
    assert(tail(".mp3"@, 1) =~= seq!['m', 'p', '3']);
    assert(tail(".ogg"@, 1) =~= seq!['o', 'g', 'g']);
    assert(tail(".flac"@, 1) =~= seq!['f', 'l', 'a', 'c']);
    assert(tail(".wav"@, 1) =~= seq!['w', 'a', 'v']);
    assert(tail(".m4a"@, 1) =~= seq!['m', '4', 'a']);
    assert(tail(".aac"@, 1) =~= seq!['a', 'a', 'c']);
    assert(tail(".opus"@, 1) =~= seq!['o', 'p', 'u', 's']);
    assert(tail(".mp4"@, 1) =~= seq!['m', 'p', '4']);
}

/// Where the address gives mp3 a content type decides: one that holds `ogg` or
/// `opus` gives ogg, else one that holds `flac` flac, else one that holds `wav`
/// wav, else one that holds `mp4`, `m4a` or `aac` m4a; any other, or none,
/// leaves mp3. Where the address gives another kind, nothing changes it.
pub proof fn law_kind_after_the_response(ext: AudioExt, t: Seq<char>)
    ensures
        refined(ext, None) == ext,
        ext != AudioExt::Mp3 ==> refined(ext, Some(t)) == ext,
        refined(AudioExt::Mp3, Some(t)) == AudioExt::Ogg <==> has(t, "ogg"@) || has(t, "opus"@),
        refined(AudioExt::Mp3, Some(t)) == AudioExt::Flac <==> has(t, "flac"@) && !(has(t, "ogg"@)
            || has(t, "opus"@)),
        refined(AudioExt::Mp3, Some(t)) == AudioExt::Wav <==> has(t, "wav"@) && !(has(t, "ogg"@)
            || has(t, "opus"@) || has(t, "flac"@)),
        refined(AudioExt::Mp3, Some(t)) == AudioExt::M4a <==> (has(t, "mp4"@) || has(t, "m4a"@)
            || has(t, "aac"@)) && !(has(t, "ogg"@) || has(t, "opus"@) || has(t, "flac"@) || has(
            t,
            "wav"@,
        )),
        refined(AudioExt::Mp3, Some(t)) != AudioExt::Aac,
        refined(AudioExt::Mp3, Some(t)) != AudioExt::Opus,
        refined(AudioExt::Mp3, Some(t)) != AudioExt::Mp4,
{
}

/// A cached file is played if and only if it is known to be less than 24 hours
/// old and holds at least one byte. So a younger or a longer one is played
/// where an older or a shorter one is.
pub proof fn law_fresh(len: u64, age: u64, more: u64, less: u64)
    ensures
        fresh(Some(CacheEntry { len, age_secs: Some(age) })) <==> len >= 1 && age < 86400,
        !fresh(Some(CacheEntry { len, age_secs: None })),
        !fresh(None),
        fresh(Some(CacheEntry { len, age_secs: Some(age) })) && more >= len && less <= age
            ==> fresh(Some(CacheEntry { len: more, age_secs: Some(less) })),
{
}

/// A request is only sent when the cache has no fresh file, and only once: a
/// fresh file ends the download, and once the response is in, its body is
/// stored.
pub proof fn law_steps_after_a_check(entry: Option<CacheEntry>)
    ensures
        fresh(entry) ==> step_after_check(entry, false) is Finished && step_after_check(
            entry,
            true,
        ) is Finished,
        !fresh(entry) ==> step_after_check(entry, false) is Fetch && step_after_check(
            entry,
            true,
        ) is Store,
{
}

} // verus!
