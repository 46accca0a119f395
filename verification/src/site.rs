//! Hosts, paths and objects: how a request names an object of the store, and how
//! long an object may be cached.
use vstd::prelude::*;
use vstd::slice::slice_subrange;
use vstd::string::*;
use vstd::utf8;

use crate::percent;
use crate::percent::encode_component;
use crate::text;
use crate::text::{
    find_char, has_char, has_prefix, has_suffix, join_texts, same, same_text, split_text, to_chars,
    to_text, trimmed,
};
use crate::trusted;
use crate::trusted::{drop_query, parse_url, percent_decoded};

verus! {

/// The lower case form of an ASCII letter; any other character itself.
pub open spec fn lower(c: char) -> char {
    if 'A' <= c <= 'Z' {
        (c as int + 32) as char
    } else {
        c
    }
}

/// A text with its ASCII letters in lower case.
pub open spec fn lowered(s: Seq<char>) -> Seq<char> {
    s.map_values(|c: char| lower(c))
}

/// A lower case ASCII letter or a digit.
pub open spec fn is_lower_alnum(c: char) -> bool {
    'a' <= c <= 'z' || '0' <= c <= '9'
}

/// The characters of host and bucket names.
pub open spec fn is_name_char(c: char) -> bool {
    is_lower_alnum(c) || c == '.' || c == '-'
}

/// A label of a host name: one to 63 characters, with no hyphen at either end.
pub open spec fn valid_label(label: Seq<char>) -> bool {
    0 < label.len() <= 63 && label[0] != '-' && label.last() != '-'
}

/// A host name that the gateway serves: at most 253 characters, at least one
/// dot, and valid labels between the dots.
pub open spec fn valid_host(host: Seq<char>) -> bool {
    &&& host.len() <= 253
    &&& host.contains('.')
    &&& forall|i: int| 0 <= i < host.len() ==> is_name_char(#[trigger] host[i])
    &&& forall|i: int|
        0 <= i < text::split(host, '.').len() ==> valid_label(
            #[trigger] text::split(host, '.')[i],
        )
}

/// A host header without its port.
pub open spec fn without_port(s: Seq<char>) -> Seq<char> {
    s.take(text::index_of(s, ':'))
}

/// A host name without one dot at its end.
pub open spec fn without_root_dot(s: Seq<char>) -> Seq<char> {
    if s.len() > 0 && s.last() == '.' {
        s.drop_last()
    } else {
        s
    }
}

/// The host that a host header names.
pub open spec fn normalized_host(value: Seq<char>) -> Option<Seq<char>> {
    let header = lowered(text::trim(value));
    let host = without_root_dot(without_port(header));
    if (header.len() > 0 && header[0] == '[') || !valid_host(host) {
        None
    } else {
        Some(host)
    }
}

fn lower_char(c: char) -> (r: char)
    ensures
        r == lower(c),
{
    if 'A' <= c && c <= 'Z' {
        (c as u8 + 32) as char
    } else {
        c
    }
}

fn is_lower_alnum_char(c: char) -> (r: bool)
    ensures
        r == is_lower_alnum(c),
{
    ('a' <= c && c <= 'z') || ('0' <= c && c <= '9')
}

/// Whether every character may stand in a host or bucket name.
fn all_name_chars(s: &[char]) -> (r: bool)
    ensures
        r == (forall|i: int| 0 <= i < s@.len() ==> is_name_char(#[trigger] s@[i])),
{
    for i in 0..s.len()
        invariant
            forall|j: int| 0 <= j < i ==> is_name_char(#[trigger] s@[j]),
    {
        let c = s[i];
        if !(is_lower_alnum_char(c) || c == '.' || c == '-') {
            assert(!is_name_char(s@[i as int]));
            return false;
        }
    }
    true
}

/// Whether a name is one that the gateway serves.
fn is_valid_host(host: &[char]) -> (r: bool)
    ensures
        r == valid_host(host@),
{
    if host.len() > 253 || !has_char(host, '.') || !all_name_chars(host) {
        return false;
    }
    let labels = split_text(host, '.');
    let ghost parts = text::split(host@, '.');
    for i in 0..labels.len()
        invariant
            parts == text::split(host@, '.'),
            parts == text::char_views(labels@),
            forall|j: int| 0 <= j < i ==> valid_label(#[trigger] parts[j]),
    {
        let label = labels[i].as_slice();
        assert(label@ == parts[i as int]);
        let n = label.len();
        if n == 0 || n > 63 || label[0] == '-' || label[n - 1] == '-' {
            assert(!valid_label(parts[i as int]));
            return false;
        }
    }
    true
}

/// The host that the value of a host header names: in lower case, without port
/// and root dot. There is none where the value is missing, is an IPv6 address or
/// is no valid host name.
pub fn normalize_host(value: Option<&str>) -> (r: Option<String>)
    ensures
        match r {
            Some(host) => value is Some && normalized_host(value->0@) == Some(host@),
            None => value is None || normalized_host(value->0@) is None,
        },
{
    let value = match value {
        Some(value) => value,
        None => return None,
    };
    let chars = to_chars(value);
    let body = trimmed(chars.as_slice());
    let mut header: Vec<char> = Vec::new();
    for i in 0..body.len()
        invariant
            header@ == lowered(body@).take(i as int),
    {
        header.push(lower_char(body[i]));
    }
    assert(lowered(body@).take(body@.len() as int) == lowered(body@));
    if header.len() > 0 && header[0] == '[' {
        return None;
    }
    let end = find_char(header.as_slice(), ':');
    let mut host: &[char] = slice_subrange(header.as_slice(), 0, end);
    assert(host@ == without_port(header@));
    if host.len() > 0 && host[host.len() - 1] == '.' {
        let n = host.len() - 1;
        assert(host@.subrange(0, n as int) == host@.drop_last());
        host = slice_subrange(host, 0, n);
    }
    if is_valid_host(host) {
        Some(to_text(host))
    } else {
        None
    }
}

/// A path that stays inside the directory of its host: no null character, no
/// backslash, and no segment that leads upwards.
pub open spec fn safe_path(path: Seq<char>) -> bool {
    &&& !path.contains('\0')
    &&& !path.contains('\\')
    &&& forall|i: int|
        0 <= i < text::split(path, '/').len() ==> #[trigger] text::split(path, '/')[i]
            != seq!['.', '.']
}

/// The path that a percent-encoded path names.
pub open spec fn decoded_path(path: Seq<char>) -> Option<Seq<char>> {
    let bytes = percent::percent_decode(utf8::encode_utf8(path));
    if utf8::valid_utf8(bytes) && safe_path(utf8::decode_utf8(bytes)) {
        Some(utf8::decode_utf8(bytes))
    } else {
        None
    }
}

/// The path that a percent-encoded path names. There is none where it is not
/// UTF-8 or not safe.
pub fn decode_pathname(pathname: &str) -> (r: Option<String>)
    ensures
        match r {
            Some(path) => decoded_path(pathname@) == Some(path@),
            None => decoded_path(pathname@) is None,
        },
{
    let path = match percent_decoded(pathname) {
        Some(path) => path,
        None => return None,
    };
    let chars = to_chars(path.as_str());
    if has_char(chars.as_slice(), '\0') || has_char(chars.as_slice(), '\\') {
        return None;
    }
    let segments = split_text(chars.as_slice(), '/');
    let mut up: Vec<char> = Vec::new();
    up.push('.');
    up.push('.');
    let ghost parts = text::split(path@, '/');
    for i in 0..segments.len()
        invariant
            up@ == seq!['.', '.'],
            parts == text::split(path@, '/'),
            parts == text::char_views(segments@),
            decoded_path(pathname@) is Some ==> safe_path(path@),
            forall|j: int| 0 <= j < i ==> #[trigger] parts[j] != seq!['.', '.'],
    {
        assert(segments@[i as int]@ == parts[i as int]);
        if same(segments[i].as_slice(), up.as_slice()) {
            return None;
        }
    }
    Some(path)
}

/// The parts that are not empty.
pub open spec fn nonempty(parts: Seq<Seq<char>>) -> Seq<Seq<char>>
    decreases parts.len(),
{
    if parts.len() == 0 {
        Seq::empty()
    } else if parts.last().len() == 0 {
        nonempty(parts.drop_last())
    } else {
        nonempty(parts.drop_last()).push(parts.last())
    }
}

/// The names on the way to an object: its host and the segments of its path.
pub open spec fn object_names(host: Seq<char>, path: Seq<char>) -> Seq<Seq<char>> {
    seq![host] + nonempty(text::split(path, '/'))
}

/// The percent encodings of several names.
pub open spec fn encoded_names(names: Seq<Seq<char>>) -> Seq<Seq<char>> {
    names.map_values(|name: Seq<char>| percent::encoded_component(name))
}

/// The key of an object, encoded for a URL.
pub open spec fn object_key(host: Seq<char>, path: Seq<char>) -> Seq<char> {
    text::join(encoded_names(object_names(host, path)), "/"@)
}

/// The key of the object that a host keeps at a path: the host and the segments
/// of the path that are not empty, each percent-encoded, with slashes between.
pub fn encode_object_key(host: &str, pathname: &str) -> (r: String)
    ensures
        r@ == object_key(host@, pathname@),
{
    let mut names: Vec<String> = Vec::new();
    names.push(encode_component(host));
    let chars = to_chars(pathname);
    let segments = split_text(chars.as_slice(), '/');
    let ghost parts = text::split(pathname@, '/');
    assert(parts.take(0) == Seq::<Seq<char>>::empty());
    assert(text::views(names@) == encoded_names(seq![host@] + nonempty(parts.take(0))));
    for i in 0..segments.len()
        invariant
            parts == text::char_views(segments@),
            text::views(names@) == encoded_names(seq![host@] + nonempty(parts.take(i as int))),
    {
        let ghost before = seq![host@] + nonempty(parts.take(i as int));
        let ghost old_names = text::views(names@);
        assert(parts.take(i + 1).drop_last() == parts.take(i as int));
        assert(segments@[i as int]@ == parts[i as int]);
        if segments[i].len() > 0 {
            let segment = to_text(segments[i].as_slice());
            names.push(encode_component(segment.as_str()));
            assert(text::views(names@) == old_names.push(percent::encoded_component(segment@)));
            assert(seq![host@] + nonempty(parts.take(i + 1)) == before.push(segment@));
            assert(encoded_names(before.push(segment@)) == encoded_names(before).push(
                percent::encoded_component(segment@),
            ));
        }
    }
    assert(parts.take(parts.len() as int) == parts);
    join_texts(names.as_slice(), "/")
}

/// The URL of an object: its key below the bucket.
pub open spec fn object_url(
    endpoint: Seq<char>,
    bucket: Seq<char>,
    host: Seq<char>,
    path: Seq<char>,
) -> Seq<char> {
    endpoint + "/"@ + bucket + "/"@ + object_key(host, path)
}

/// The name of the file that a path ends with: what follows its last slash.
pub open spec fn file_name(path: Seq<char>) -> Seq<char> {
    text::split(path, '/').last()
}

/// The name of the file that a path ends with.
pub fn file_name_of(path: &[char]) -> (r: Vec<char>)
    ensures
        r@ == file_name(path@),
{
    let mut segments = split_text(path, '/');
    let ghost parts = text::char_views(segments@);
    match segments.pop() {
        Some(name) => {
            assert(name@ == parts.last());
            name
        },
        None => Vec::new(),
    }
}

/// The characters between which a build hash stands.
pub open spec fn is_mark(c: char) -> bool {
    c == '.' || c == '-'
}

/// The characters of a build hash.
pub open spec fn is_hash_char(c: char) -> bool {
    'a' <= c <= 'z' || 'A' <= c <= 'Z' || '0' <= c <= '9' || c == '_' || c == '-'
}

/// Between places `i` and `e`, each a dot or a hyphen, stand at least eight
/// characters of a build hash and nothing else.
pub open spec fn hash_between(name: Seq<char>, i: int, e: int) -> bool {
    &&& 0 <= i
    &&& i + 9 <= e < name.len()
    &&& is_mark(name[i])
    &&& is_mark(name[e])
    &&& forall|k: int| i < k < e ==> is_hash_char(#[trigger] name[k])
}

/// A file name that holds a build hash of at least eight characters.
pub open spec fn hashed_name(name: Seq<char>) -> bool {
    exists|i: int, e: int| #[trigger] hash_between(name, i, e)
}

fn is_mark_char(c: char) -> (r: bool)
    ensures
        r == is_mark(c),
{
    c == '.' || c == '-'
}

/// Whether all characters of `name` from `start` on and before `end` may stand
/// in a build hash.
fn all_hash_chars(name: &[char], start: usize, end: usize) -> (r: bool)
    requires
        start <= end <= name@.len(),
    ensures
        r == (forall|k: int| start <= k < end ==> is_hash_char(#[trigger] name@[k])),
{
    for k in start..end
        invariant
            start <= end <= name@.len(),
            forall|j: int| start <= j < k ==> is_hash_char(#[trigger] name@[j]),
    {
        let c = name[k];
        let ok = ('a' <= c && c <= 'z') || ('A' <= c && c <= 'Z') || ('0' <= c && c <= '9') || c
            == '_' || c == '-';
        if !ok {
            assert(!is_hash_char(name@[k as int]));
            return false;
        }
    }
    true
}

/// Whether a build hash opens behind place `i` of a file name.
fn hash_opens_at(name: &[char], i: usize) -> (r: bool)
    requires
        i < name@.len(),
    ensures
        r == (exists|e: int| #[trigger] hash_between(name@, i as int, e)),
{
    let n = name.len();
    if !is_mark_char(name[i]) || n - i < 10 {
        return false;
    }
    let mut e: usize = i + 9;
    while e < n && !is_mark_char(name[e])
        invariant
            n == name@.len(),
            i + 9 <= e <= n,
            forall|k: int| i + 9 <= k < e ==> !is_mark(#[trigger] name@[k]),
        decreases n - e,
    {
        e += 1;
    }
    if e == n {
        assert forall|d: int| !#[trigger] hash_between(name@, i as int, d) by {
            if hash_between(name@, i as int, d) {
                assert(is_mark(name@[d]));
            }
        }
        return false;
    }
    if all_hash_chars(name, i + 1, e) {
        assert(hash_between(name@, i as int, e as int));
        true
    } else {
        assert forall|d: int| !#[trigger] hash_between(name@, i as int, d) by {
            if hash_between(name@, i as int, d) {
                assert(is_mark(name@[d]));
                assert(e <= d);
            }
        }
        false
    }
}

/// Whether the file that a path names carries a build hash of at least eight
/// characters in its name.
pub fn has_hashed_filename(pathname: &str) -> (r: bool)
    ensures
        r == hashed_name(file_name(pathname@)),
{
    let chars = to_chars(pathname);
    let name = file_name_of(chars.as_slice());
    for i in 0..name.len()
        invariant
            name@ == file_name(pathname@),
            forall|j: int, e: int| 0 <= j < i ==> !#[trigger] hash_between(name@, j, e),
    {
        if hash_opens_at(name.as_slice(), i) {
            return true;
        }
    }
    assert forall|j: int, e: int| !#[trigger] hash_between(name@, j, e) by {}
    false
}

/// The cache policy of an object.
pub open spec fn cache_policy(path: Seq<char>, upstream: Option<Seq<char>>) -> Seq<char> {
    if text::ends_with(path, ".html"@) {
        "no-cache"@
    } else if text::starts_with(path, "/assets/"@) || text::starts_with(path, "/_astro/"@)
        || hashed_name(file_name(path)) {
        "public, max-age=31536000, immutable"@
    } else {
        match upstream {
            Some(policy) => policy,
            None => "public, max-age=3600"@,
        }
    }
}

/// The cache policy of an object: pages are always checked again, built assets
/// never change, and anything else keeps the policy of the store or is kept for
/// an hour.
pub fn cache_control_for(pathname: &str, upstream: Option<&str>) -> (r: String)
    ensures
        r@ == cache_policy(
            pathname@,
            match upstream {
                Some(policy) => Some(policy@),
                None => None,
            },
        ),
{
    let chars = to_chars(pathname);
    let path = chars.as_slice();
    if has_suffix(path, to_chars(".html").as_slice()) {
        "no-cache".to_owned()
    } else if has_prefix(path, to_chars("/assets/").as_slice()) || has_prefix(
        path,
        to_chars("/_astro/").as_slice(),
    ) || has_hashed_filename(pathname) {
        "public, max-age=31536000, immutable".to_owned()
    } else {
        match upstream {
            Some(policy) => policy.to_owned(),
            None => "public, max-age=3600".to_owned(),
        }
    }
}

/// A bucket name: three to 63 characters, with a letter or a digit at both ends.
pub open spec fn valid_bucket(name: Seq<char>) -> bool {
    &&& 3 <= name.len() <= 63
    &&& forall|i: int| 0 <= i < name.len() ==> is_name_char(#[trigger] name[i])
    &&& is_lower_alnum(name[0])
    &&& is_lower_alnum(name.last())
}

/// The name itself where it is a valid bucket name.
pub fn normalize_bucket(value: &str) -> (r: Result<String, String>)
    ensures
        match r {
            Ok(bucket) => valid_bucket(value@) && bucket@ == value@,
            Err(message) => !valid_bucket(value@) && message@
                == "S3_BUCKET must be a valid S3 bucket name"@,
        },
{
    let chars = to_chars(value);
    let name = chars.as_slice();
    let n = name.len();
    if n >= 3 && n <= 63 && all_name_chars(name) && is_lower_alnum_char(name[0])
        && is_lower_alnum_char(name[n - 1]) {
        Ok(value.to_owned())
    } else {
        Err("S3_BUCKET must be a valid S3 bucket name".to_owned())
    }
}

/// A text without the slashes at its end.
pub open spec fn without_slashes(s: Seq<char>) -> Seq<char>
    decreases s.len(),
{
    if s.len() > 0 && s.last() == '/' {
        without_slashes(s.drop_last())
    } else {
        s
    }
}

/// A URL without its query and its fragment: what stands before the first question
/// mark or number sign.
pub open spec fn before_query(s: Seq<char>) -> Seq<char>
    decreases s.len(),
{
    if s.len() == 0 || s[0] == '?' || s[0] == '#' {
        Seq::empty()
    } else {
        seq![s[0]] + before_query(s.drop_first())
    }
}

/// The endpoint of a URL with a given scheme that reads `base` without query and
/// fragment, or the message that refuses it or the text that is no URL.
pub open spec fn checked_endpoint(scheme: Result<Seq<char>, Seq<char>>, base: Seq<char>) -> Result<
    Seq<char>,
    Seq<char>,
> {
    match scheme {
        Err(message) => Err("invalid S3_ENDPOINT: "@ + message),
        Ok(scheme) => if scheme != "http"@ && scheme != "https"@ {
            Err("S3_ENDPOINT must use http or https"@)
        } else {
            Ok(without_slashes(base))
        },
    }
}

/// The endpoint that a setting names, or the message that refuses it.
pub open spec fn normalized_endpoint(value: Seq<char>) -> Result<Seq<char>, Seq<char>> {
    match trusted::url_parsed(value) {
        Err(message) => checked_endpoint(Err(message), Seq::empty()),
        Ok(url) => checked_endpoint(Ok(url.scheme), before_query(url.text)),
    }
}

/// The endpoint of a URL with a given scheme that reads `base` without query and
/// fragment.
pub fn endpoint_of(scheme: Result<&str, &str>, base: &str) -> (r: Result<String, String>)
    ensures
        ({
            let checked = checked_endpoint(
                match scheme {
                    Ok(scheme) => Ok(scheme@),
                    Err(message) => Err(message@),
                },
                base@,
            );
            match r {
                Ok(endpoint) => checked == Ok::<Seq<char>, Seq<char>>(endpoint@),
                Err(message) => checked == Err::<Seq<char>, Seq<char>>(message@),
            }
        }),
{
    match scheme {
        Err(error) => {
            let mut message = "invalid S3_ENDPOINT: ".to_owned();
            message.append(error);
            Err(message)
        },
        Ok(scheme) => {
            if !same_text(scheme, "http") && !same_text(scheme, "https") {
                return Err("S3_ENDPOINT must use http or https".to_owned());
            }
            Ok(strip_slashes(base))
        },
    }
}

/// The base that object URLs start with: an HTTP or HTTPS URL without query,
/// fragment and slashes at its end.
pub fn normalize_endpoint(value: &str) -> (r: Result<String, String>)
    ensures
        match r {
            Ok(endpoint) => normalized_endpoint(value@) == Ok::<Seq<char>, Seq<char>>(endpoint@),
            Err(message) => normalized_endpoint(value@) == Err::<Seq<char>, Seq<char>>(message@),
        },
{
    match parse_url(value) {
        Err(error) => {
            proof {
                reveal_strlit("");
            }
            assert(""@ == Seq::<char>::empty());
            endpoint_of(Err(error.as_str()), "")
        },
        Ok(url) => {
            let base = drop_query(value).unwrap();
            endpoint_of(Ok(url.scheme.as_str()), base.as_str())
        },
    }
}

/// A text without the slashes at its end.
fn strip_slashes(s: &str) -> (r: String)
    ensures
        r@ == without_slashes(s@),
{
    let chars = to_chars(s);
    let mut rest: &[char] = chars.as_slice();
    while rest.len() > 0 && rest[rest.len() - 1] == '/'
        invariant
            without_slashes(rest@) == without_slashes(s@),
        decreases rest@.len(),
    {
        assert(rest@.subrange(0, rest@.len() - 1) == rest@.drop_last());
        rest = slice_subrange(rest, 0, rest.len() - 1);
    }
    to_text(rest)
}

/// What `nonempty` keeps are the parts that are not empty, and no others.
pub proof fn lemma_nonempty(parts: Seq<Seq<char>>)
    ensures
        forall|i: int|
            0 <= i < nonempty(parts).len() ==> (#[trigger] nonempty(parts)[i]).len() > 0
                && parts.contains(nonempty(parts)[i]),
    decreases parts.len(),
{
    if parts.len() > 0 {
        let front = parts.drop_last();
        lemma_nonempty(front);
        assert forall|i: int| 0 <= i < nonempty(parts).len() implies (#[trigger] nonempty(
            parts,
        )[i]).len() > 0 && parts.contains(nonempty(parts)[i]) by {
            if i < nonempty(front).len() {
                let part = nonempty(front)[i];
                assert(front.contains(part));
                let k = choose|k: int| 0 <= k < front.len() && front[k] == part;
                assert(parts[k] == part);
            } else {
                assert(parts[parts.len() - 1] == nonempty(parts)[i]);
            }
        }
    }
}

/// Normalising a host that was normalised changes nothing.
pub proof fn law_normalize_host_is_idempotent(value: Seq<char>)
    requires
        normalized_host(value) is Some,
    ensures
        normalized_host(normalized_host(value)->0) == normalized_host(value),
{
    let host = normalized_host(value)->0;
    let k = choose|k: int| 0 <= k < host.len() && host[k] == '.';
    assert(is_name_char(host[0]) && is_name_char(host.last()));
    assert(text::trim(host) == host);
    assert(lowered(host) =~= host);
    text::lemma_index_of_at(host, ':', host.len() as int);
    assert(without_port(host) == host);
    if host.last() == '.' {
        text::lemma_split_last(host, '.');
        let labels = text::split(host, '.');
        assert(valid_label(labels[labels.len() - 1]));
    }
}

/// The decoded form of encoded names is their plain form, whatever follows.
proof fn lemma_decode_join(names: Seq<Seq<char>>, rest: Seq<u8>)
    requires
        names.len() > 0,
    ensures
        utf8::is_ascii_chars(text::join(encoded_names(names), "/"@)),
        percent::percent_decode(
            percent::ascii_bytes(text::join(encoded_names(names), "/"@)) + rest,
        ) == utf8::encode_utf8(text::join(names, "/"@)) + percent::percent_decode(rest),
    decreases names.len(),
{
    reveal_strlit("/");
    let all = text::join(encoded_names(names), "/"@);
    let last = utf8::encode_utf8(names.last());
    let last_encoded = percent::encoded_bytes(last);
    percent::lemma_encoded_ascii(last);
    percent::lemma_decode_bytes(last, rest);
    if names.len() == 1 {
        assert(all == last_encoded);
    } else {
        let front = names.drop_last();
        let front_encoded = text::join(encoded_names(front), "/"@);
        assert(encoded_names(names).drop_last() == encoded_names(front));
        assert(all == front_encoded + "/"@ + last_encoded);
        let tail = percent::ascii_bytes(last_encoded) + rest;
        let slash = seq![47u8];
        lemma_decode_join(front, slash + tail);
        assert(percent::ascii_bytes(all) + rest == percent::ascii_bytes(front_encoded) + (slash
            + tail));
        assert((slash + tail).drop_first() == tail);
        assert(percent::percent_decode(slash + tail) == slash + percent::percent_decode(tail));
        percent::lemma_utf8_concat(text::join(front, "/"@) + "/"@, names.last());
        percent::lemma_utf8_concat(text::join(front, "/"@), "/"@);
        utf8::is_ascii_chars_encode_utf8("/"@);
        assert(utf8::encode_utf8("/"@) =~= slash);
        let plain = utf8::encode_utf8(text::join(front, "/"@));
        let after = percent::percent_decode(rest);
        assert(plain + (slash + (last + after)) == plain + slash + last + after);
        assert forall|i: int| 0 <= i < all.len() implies '\0' <= #[trigger] all[i] <= '\u{7f}' by {
            if i < front_encoded.len() {
                assert(all[i] == front_encoded[i]);
            } else if i > front_encoded.len() {
                assert(all[i] == last_encoded[i - front_encoded.len() - 1]);
            }
        }
    }
}

/// The key of an object, percent-decoded, is the host and the path segments with
/// slashes between them: the host names the directory, and the path the place in
/// it.
pub proof fn law_object_key_names_host_and_path(host: Seq<char>, path: Seq<char>)
    ensures
        percent::percent_decode(utf8::encode_utf8(object_key(host, path))) == utf8::encode_utf8(
            text::join(object_names(host, path), "/"@),
        ),
{
    let names = object_names(host, path);
    let key = object_key(host, path);
    lemma_decode_join(names, Seq::empty());
    utf8::is_ascii_chars_encode_utf8(key);
    assert(utf8::encode_utf8(key) =~= percent::ascii_bytes(key));
    assert(percent::ascii_bytes(key) + Seq::<u8>::empty() == percent::ascii_bytes(key));
    assert(percent::percent_decode(Seq::<u8>::empty()) == Seq::<u8>::empty());
    let plain = utf8::encode_utf8(text::join(names, "/"@));
    assert(plain + Seq::<u8>::empty() == plain);
}

/// No request leaves the directory of its host: of the names on the way to an
/// object none is empty, none leads upwards and none holds a slash.
pub proof fn law_object_stays_below_its_host(value: Seq<char>, pathname: Seq<char>)
    requires
        normalized_host(value) is Some,
        decoded_path(pathname) is Some,
    ensures
        object_names(normalized_host(value)->0, decoded_path(pathname)->0)[0] == normalized_host(
            value,
        )->0,
        forall|i: int|
            #![trigger object_names(normalized_host(value)->0, decoded_path(pathname)->0)[i]]
            0 <= i < object_names(normalized_host(value)->0, decoded_path(pathname)->0).len() ==> {
                let name = object_names(normalized_host(value)->0, decoded_path(pathname)->0)[i];
                &&& name.len() > 0
                &&& name != seq!['.', '.']
                &&& !name.contains('/')
            },
{
    let host = normalized_host(value)->0;
    let path = decoded_path(pathname)->0;
    let names = object_names(host, path);
    let parts = text::split(path, '/');
    text::lemma_split_parts(path, '/');
    lemma_nonempty(parts);
    let k = choose|k: int| 0 <= k < host.len() && host[k] == '.';
    assert forall|i: int| 0 <= i < names.len() implies (#[trigger] names[i]).len() > 0 && names[i]
        != seq!['.', '.'] && !names[i].contains('/') by {
        if i == 0 {
            assert(forall|j: int| 0 <= j < host.len() ==> is_name_char(#[trigger] host[j]));
            if host == seq!['.', '.'] {
                text::lemma_split_last(host, '.');
                let labels = text::split(host, '.');
                assert(valid_label(labels[labels.len() - 1]));
            }
        } else {
            let part = nonempty(parts)[i - 1];
            assert(names[i] == part);
            let j = choose|j: int| 0 <= j < parts.len() && parts[j] == part;
            assert(parts[j] == part);
        }
    }
}

/// The file of a path is what stands behind its last slash, and a path without slashes
/// is a file itself.
pub proof fn law_files_are_named_behind_the_last_slash(dir: Seq<char>, name: Seq<char>)
    requires
        !name.contains('/'),
    ensures
        file_name(dir + seq!['/'] + name) == name,
        file_name(name) == name,
{
    text::lemma_split_push(dir, '/', name);
    assert forall|j: int| 0 <= j < name.len() implies name[j] != '/' by {
        assert(name.contains(name[j]));
    }
    text::lemma_index_of_at(name, '/', name.len() as int);
}

/// A host is found whatever its case, with or without a port behind it, with or
/// without the dot of the root, and with white space around it.
pub proof fn law_hosts_are_found_however_they_are_written(
    host: Seq<char>,
    written: Seq<char>,
    port: Seq<char>,
    before: Seq<char>,
    after: Seq<char>,
)
    requires
        valid_host(host),
        lowered(written) == host,
        port.len() > 0 ==> !text::is_space(port.last()),
        forall|i: int| 0 <= i < before.len() ==> text::is_space(#[trigger] before[i]),
        forall|i: int| 0 <= i < after.len() ==> text::is_space(#[trigger] after[i]),
    ensures
        normalized_host(before + written + after) == Some(host),
        normalized_host(before + (written + seq!['.']) + after) == Some(host),
        normalized_host(before + (written + seq![':'] + port) + after) == Some(host),
        normalized_host(before + (written + seq!['.', ':'] + port) + after) == Some(host),
{
    let k = choose|k: int| 0 <= k < host.len() && host[k] == '.';
    lemma_written_host(host, written);
    let none = Seq::<char>::empty();
    lemma_trim_around(before, written, after);
    lemma_header(host, written, none, false);
    assert(written + none + none =~= written);
    assert((written + seq!['.']).last() == '.');
    lemma_trim_around(before, written + seq!['.'], after);
    lemma_header(host, written, none, true);
    assert(written + seq!['.'] + none =~= written + seq!['.']);
    let with_port = written + seq![':'] + port;
    assert(with_port.last() == if port.len() > 0 {
        port.last()
    } else {
        ':'
    });
    lemma_trim_around(before, with_port, after);
    lemma_header(host, written, seq![':'] + port, false);
    assert(written + none + (seq![':'] + port) =~= with_port);
    let with_both = written + seq!['.', ':'] + port;
    assert(with_both.last() == if port.len() > 0 {
        port.last()
    } else {
        ':'
    });
    lemma_trim_around(before, with_both, after);
    lemma_header(host, written, seq![':'] + port, true);
    assert(written + seq!['.'] + (seq![':'] + port) =~= with_both);
}

/// What a host is written with.
proof fn lemma_written_host(host: Seq<char>, written: Seq<char>)
    requires
        valid_host(host),
        lowered(written) == host,
    ensures
        written.len() == host.len(),
        written.len() > 0,
        forall|i: int|
            0 <= i < written.len() ==> !text::is_space(#[trigger] written[i]) && written[i] != ':'
                && written[i] != '[',
        host.last() != '.',
{
    let k = choose|k: int| 0 <= k < host.len() && host[k] == '.';
    assert forall|i: int| 0 <= i < written.len() implies !text::is_space(#[trigger] written[i])
        && written[i] != ':' && written[i] != '[' by {
        assert(host[i] == lower(written[i]));
        assert(is_name_char(host[i]));
    }
    if host.last() == '.' {
        text::lemma_split_last(host, '.');
        let labels = text::split(host, '.');
        assert(valid_label(labels[labels.len() - 1]));
    }
}

/// Trimming takes away the white space around a text that has none at its ends.
proof fn lemma_trim_around(before: Seq<char>, s: Seq<char>, after: Seq<char>)
    requires
        s.len() > 0,
        !text::is_space(s[0]),
        !text::is_space(s.last()),
        forall|i: int| 0 <= i < before.len() ==> text::is_space(#[trigger] before[i]),
        forall|i: int| 0 <= i < after.len() ==> text::is_space(#[trigger] after[i]),
    ensures
        text::trim(before + s + after) == s,
    decreases before.len() + after.len(),
{
    let all = before + s + after;
    if before.len() > 0 {
        assert(text::is_space(before[0]));
        assert(all[0] == before[0]);
        assert(all.drop_first() =~= before.drop_first() + s + after);
        assert forall|i: int| 0 <= i < before.drop_first().len() implies text::is_space(
            #[trigger] before.drop_first()[i],
        ) by {
            assert(before.drop_first()[i] == before[i + 1]);
        }
        lemma_trim_around(before.drop_first(), s, after);
    } else {
        assert(all =~= s + after);
        assert(all[0] == s[0]);
        assert(text::trim_start(all) == all);
        lemma_trim_behind(s, after);
    }
}

proof fn lemma_trim_behind(s: Seq<char>, after: Seq<char>)
    requires
        s.len() > 0,
        !text::is_space(s.last()),
        forall|i: int| 0 <= i < after.len() ==> text::is_space(#[trigger] after[i]),
    ensures
        text::trim_end(s + after) == s,
    decreases after.len(),
{
    let all = s + after;
    if after.len() == 0 {
        assert(all =~= s);
    } else {
        assert(text::is_space(after[after.len() - 1]));
        assert(all.last() == after.last());
        assert(all.drop_last() =~= s + after.drop_last());
        lemma_trim_behind(s, after.drop_last());
    }
}

/// A header that is trimmed, with the dot of the root or without, and with what
/// follows a colon.
proof fn lemma_header(host: Seq<char>, written: Seq<char>, tail: Seq<char>, dotted: bool)
    requires
        valid_host(host),
        lowered(written) == host,
        tail.len() > 0 ==> tail[0] == ':',
    ensures
        ({
            let dot = if dotted {
                seq!['.']
            } else {
                Seq::empty()
            };
            let header = lowered(written + dot + tail);
            &&& header.len() > 0 && header[0] != '['
            &&& without_root_dot(without_port(header)) == host
        }),
{
    let dot = if dotted {
        seq!['.']
    } else {
        Seq::<char>::empty()
    };
    lemma_written_host(host, written);
    let all = written + dot + tail;
    let header = lowered(all);
    let n = (written.len() + dot.len()) as int;
    assert(header[0] == lower(written[0]));
    assert(is_name_char(host[0]) && host[0] == lower(written[0]));
    assert forall|j: int| 0 <= j < n implies header[j] != ':' by {
        if j < written.len() {
            assert(header[j] == lower(written[j]));
            assert(host[j] == lower(written[j]));
            assert(is_name_char(host[j]));
        }
    }
    if tail.len() > 0 {
        assert(header[n] == lower(tail[0]));
    }
    text::lemma_index_of_at(header, ':', n);
    let front = header.take(n);
    assert(without_port(header) == front);
    if dotted {
        assert(front.last() == '.');
        assert(front.drop_last() =~= host);
    } else {
        assert(front =~= host);
    }
}

/// A host name is made of at least two labels with dots between them. A label has one
/// to 63 letters in lower case, digits and hyphens, of which none stands at either
/// end; the whole name has at most 253 characters.
pub proof fn law_host_names_are_made_of_labels(labels: Seq<Seq<char>>)
    requires
        labels.len() > 0,
        forall|i: int| 0 <= i < labels.len() ==> !(#[trigger] labels[i]).contains('.'),
    ensures
        valid_host(text::join(labels, seq!['.'])) <==> {
            &&& labels.len() >= 2
            &&& text::join(labels, seq!['.']).len() <= 253
            &&& forall|i: int|
                0 <= i < labels.len() ==> 1 <= (#[trigger] labels[i]).len() <= 63 && labels[i][0]
                    != '-' && labels[i].last() != '-'
            &&& forall|i: int, j: int|
                0 <= i < labels.len() && 0 <= j < labels[i].len() ==> ('a' <= #[trigger] labels[i][j]
                    <= 'z' || '0' <= labels[i][j] <= '9' || labels[i][j] == '-')
        },
{
    let host = text::join(labels, seq!['.']);
    text::lemma_split_join(labels, '.');
    lemma_joined_chars(labels);
    if valid_host(host) {
        assert forall|i: int| 0 <= i < labels.len() implies 1 <= (#[trigger] labels[i]).len() <= 63
            && labels[i][0] != '-' && labels[i].last() != '-' by {
            assert(valid_label(text::split(host, '.')[i]));
        }
        assert forall|i: int, j: int| 0 <= i < labels.len() && 0 <= j < labels[i].len() implies (
        'a' <= #[trigger] labels[i][j] <= 'z' || '0' <= labels[i][j] <= '9' || labels[i][j]
            == '-') by {
            assert(labels[i].contains(labels[i][j]));
            assert(host.contains(labels[i][j]));
            let k = choose|k: int| 0 <= k < host.len() && host[k] == labels[i][j];
            assert(is_name_char(host[k]));
        }
        if labels.len() == 1 {
            assert(host == labels[0]);
        }
    }
    if labels.len() >= 2 && (forall|i: int, j: int|
        0 <= i < labels.len() && 0 <= j < labels[i].len() ==> ('a' <= #[trigger] labels[i][j] <= 'z'
            || '0' <= labels[i][j] <= '9' || labels[i][j] == '-')) {
        assert forall|k: int| 0 <= k < host.len() implies is_name_char(#[trigger] host[k]) by {
            assert(host.contains(host[k]));
            if host[k] != '.' {
                let i = choose|i: int| 0 <= i < labels.len() && (#[trigger] labels[i]).contains(host[k]);
                let j = choose|j: int| 0 <= j < labels[i].len() && labels[i][j] == host[k];
                assert('a' <= labels[i][j] <= 'z' || '0' <= labels[i][j] <= '9' || labels[i][j]
                    == '-');
            }
        }
    }
}

/// The characters of joined labels are those of the labels, and dots where there is
/// more than one.
proof fn lemma_joined_chars(labels: Seq<Seq<char>>)
    requires
        labels.len() > 0,
    ensures
        forall|i: int, c: char|
            0 <= i < labels.len() && #[trigger] labels[i].contains(c) ==> text::join(
                labels,
                seq!['.'],
            ).contains(c),
        labels.len() >= 2 ==> text::join(labels, seq!['.']).contains('.'),
        forall|c: char| #[trigger]
            text::join(labels, seq!['.']).contains(c) && c != '.' ==> exists|i: int|
                0 <= i < labels.len() && (#[trigger] labels[i]).contains(c),
    decreases labels.len(),
{
    let all = text::join(labels, seq!['.']);
    if labels.len() >= 2 {
        let front = labels.drop_last();
        let before = text::join(front, seq!['.']);
        lemma_joined_chars(front);
        let n = before.len() as int;
        assert(all[n] == '.');
        assert forall|i: int, c: char| 0 <= i < labels.len() && #[trigger] labels[i].contains(
            c,
        ) implies all.contains(c) by {
            if i < front.len() {
                assert(front[i].contains(c));
                assert(before.contains(c));
                let k = choose|k: int| 0 <= k < before.len() && before[k] == c;
                assert(all[k] == c);
            } else {
                let k = choose|k: int| 0 <= k < labels[i].len() && labels[i][k] == c;
                assert(all[n + 1 + k] == c);
            }
        }
        assert forall|c: char| #[trigger] all.contains(c) && c != '.' implies exists|i: int|
            0 <= i < labels.len() && (#[trigger] labels[i]).contains(c) by {
            let k = choose|k: int| 0 <= k < all.len() && all[k] == c;
            if k < n {
                assert(before[k] == c);
                assert(before.contains(c));
                let i = choose|i: int| 0 <= i < front.len() && (#[trigger] front[i]).contains(c);
                assert(labels[i].contains(c));
            } else {
                let last = labels[labels.len() - 1];
                assert(last[k - n - 1] == c);
                assert(labels[labels.len() - 1].contains(c));
            }
        }
    } else {
        assert(all == labels[0]);
        assert forall|c: char| #[trigger] all.contains(c) && c != '.' implies exists|i: int|
            0 <= i < labels.len() && (#[trigger] labels[i]).contains(c) by {
            assert(labels[0].contains(c));
        }
    }
}

/// A path that is sent percent-encoded names the path that its bytes decode to, where
/// that is UTF-8, and stays inside the directory of its host: with a null character,
/// a backslash or a segment that leads upwards it names none.
pub proof fn law_paths_are_decoded(sent: Seq<char>, path: Seq<char>)
    requires
        percent::percent_decode(utf8::encode_utf8(sent)) == utf8::encode_utf8(path),
    ensures
        path.contains('\0') || path.contains('\\') || text::split(path, '/').contains(
            seq!['.', '.'],
        ) ==> decoded_path(sent) is None,
        !path.contains('\0') && !path.contains('\\') && !text::split(path, '/').contains(
            seq!['.', '.'],
        ) ==> decoded_path(sent) == Some(path),
{
    utf8::encode_utf8_valid_utf8(path);
    utf8::encode_utf8_decode_utf8(path);
    let parts = text::split(path, '/');
    if parts.contains(seq!['.', '.']) {
        let i = choose|i: int| 0 <= i < parts.len() && parts[i] == seq!['.', '.'];
        assert(!safe_path(path));
    }
}

/// A path that does not decode to UTF-8 names nothing.
pub proof fn law_other_bytes_name_no_path(sent: Seq<char>)
    requires
        !utf8::valid_utf8(percent::percent_decode(utf8::encode_utf8(sent))),
    ensures
        decoded_path(sent) is None,
{
}

/// The names on the way to an object are its host and then the segments of its path
/// that are not empty, in order.
pub proof fn law_objects_are_found_along_their_path(
    host: Seq<char>,
    path: Seq<char>,
)
    ensures
        object_names(host, path) == seq![host] + text::split(path, '/').filter(
            |part: Seq<char>| part.len() > 0,
        ),
{
    lemma_nonempty_is_filter(text::split(path, '/'));
}

proof fn lemma_nonempty_is_filter(parts: Seq<Seq<char>>)
    ensures
        nonempty(parts) == parts.filter(|part: Seq<char>| part.len() > 0),
    decreases parts.len(),
{
    reveal(Seq::filter);
    if parts.len() > 0 {
        lemma_nonempty_is_filter(parts.drop_last());
    } else {
        assert(nonempty(parts) =~= parts.filter(|part: Seq<char>| part.len() > 0));
    }
}

/// A file name with at least eight characters of a build hash between two marks, each
/// a dot or a hyphen, holds a build hash.
pub proof fn law_build_hashes_stand_between_marks(
    before: Seq<char>,
    open: char,
    hash: Seq<char>,
    close: char,
    after: Seq<char>,
)
    requires
        open == '.' || open == '-',
        close == '.' || close == '-',
        hash.len() >= 8,
        forall|i: int|
            0 <= i < hash.len() ==> 'a' <= #[trigger] hash[i] <= 'z' || 'A' <= hash[i] <= 'Z' || '0'
                <= hash[i] <= '9' || hash[i] == '_' || hash[i] == '-',
    ensures
        hashed_name(before + seq![open] + hash + seq![close] + after),
{
    let name = before + seq![open] + hash + seq![close] + after;
    let i = before.len() as int;
    let e = i + 1 + hash.len();
    assert(name[i] == open && name[e] == close);
    assert forall|k: int| i < k < e implies is_hash_char(#[trigger] name[k]) by {
        assert(name[k] == hash[k - i - 1]);
    }
    assert(hash_between(name, i, e));
}

/// A file name that holds a build hash has at least eight characters of one between
/// two marks.
pub proof fn law_names_with_hashes(name: Seq<char>) -> (places: (int, int))
    requires
        hashed_name(name),
    ensures
        0 <= places.0 && places.0 + 9 <= places.1 < name.len(),
        name[places.0] == '.' || name[places.0] == '-',
        name[places.1] == '.' || name[places.1] == '-',
        forall|k: int|
            places.0 < k < places.1 ==> 'a' <= #[trigger] name[k] <= 'z' || 'A' <= name[k] <= 'Z'
                || '0' <= name[k] <= '9' || name[k] == '_' || name[k] == '-',
{
    let (i, e) = choose|i: int, e: int| #[trigger] hash_between(name, i, e);
    assert forall|k: int| i < k < e implies 'a' <= #[trigger] name[k] <= 'z' || 'A' <= name[k] <= 'Z'
        || '0' <= name[k] <= '9' || name[k] == '_' || name[k] == '-' by {
        assert(is_hash_char(name[k]));
    }
    (i, e)
}

/// Pages are always checked again. Of other objects those of a build, which lie under
/// the paths of built assets or carry a build hash, never change; any other keeps the
/// policy that the store states, and is kept for an hour where it states none.
pub proof fn law_cache_policies(path: Seq<char>, rest: Seq<char>, upstream: Option<Seq<char>>)
    ensures
        cache_policy(rest + ".html"@, upstream) == "no-cache"@,
        !text::ends_with(path, ".html"@) && (text::starts_with(path, "/assets/"@)
            || text::starts_with(path, "/_astro/"@) || hashed_name(file_name(path)))
            ==> cache_policy(path, upstream) == "public, max-age=31536000, immutable"@,
        !text::ends_with(path, ".html"@) && !text::starts_with(path, "/assets/"@)
            && !text::starts_with(path, "/_astro/"@) && !hashed_name(file_name(path))
            ==> cache_policy(path, upstream) == match upstream {
            Some(policy) => policy,
            None => "public, max-age=3600"@,
        },
{
    let page = rest + ".html"@;
    assert(page.skip(page.len() - ".html"@.len()) =~= ".html"@);
}

/// Slashes at the end of a text go, and nothing else does.
pub proof fn law_slashes_go_from_the_end(base: Seq<char>, slashes: Seq<char>)
    requires
        base.len() == 0 || base.last() != '/',
        forall|i: int| 0 <= i < slashes.len() ==> #[trigger] slashes[i] == '/',
    ensures
        without_slashes(base + slashes) == base,
    decreases slashes.len(),
{
    let all = base + slashes;
    if slashes.len() == 0 {
        assert(all =~= base);
    } else {
        assert(slashes[slashes.len() - 1] == '/');
        assert(all.last() == slashes.last());
        assert(all.drop_last() =~= base + slashes.drop_last());
        law_slashes_go_from_the_end(base, slashes.drop_last());
    }
}

/// The query and the fragment of a URL begin at the first question mark or number
/// sign.
pub proof fn law_queries_begin_at_their_mark(base: Seq<char>, mark: char, rest: Seq<char>)
    requires
        !base.contains('?'),
        !base.contains('#'),
        mark == '?' || mark == '#',
    ensures
        before_query(base) == base,
        before_query(base + seq![mark] + rest) == base,
    decreases base.len(),
{
    let all = base + seq![mark] + rest;
    if base.len() == 0 {
        assert(all[0] == mark);
        assert(before_query(all) =~= base);
        assert(before_query(base) =~= base);
    } else {
        let tail = base.drop_first();
        assert(base.contains(base[0]));
        assert(all[0] == base[0]);
        assert(all.drop_first() =~= tail + seq![mark] + rest);
        assert forall|c: char| tail.contains(c) implies base.contains(c) by {
            let i = choose|i: int| 0 <= i < tail.len() && tail[i] == c;
            assert(base[i + 1] == c);
        }
        law_queries_begin_at_their_mark(tail, mark, rest);
        assert(seq![base[0]] + tail =~= base);
    }
}

/// An endpoint is a URL of the web without its query, its fragment and the slashes at
/// its end; a URL of any other kind is refused, and so is what is no URL.
pub proof fn law_endpoints_are_web_addresses(value: Seq<char>)
    ensures
        match trusted::url_parsed(value) {
            Err(message) => normalized_endpoint(value) == Err::<Seq<char>, Seq<char>>(
                "invalid S3_ENDPOINT: "@ + message,
            ),
            Ok(url) => if url.scheme == "http"@ || url.scheme == "https"@ {
                normalized_endpoint(value) == Ok::<Seq<char>, Seq<char>>(
                    without_slashes(before_query(url.text)),
                )
            } else {
                normalized_endpoint(value) == Err::<Seq<char>, Seq<char>>(
                    "S3_ENDPOINT must use http or https"@,
                )
            },
        },
{
}

/// The URL of an object is the endpoint, the bucket and the key of the object, with
/// slashes between them; the key is the host and the segments of the path, each
/// percent-encoded by itself.
pub proof fn law_objects_lie_in_their_bucket(
    endpoint: Seq<char>,
    bucket: Seq<char>,
    host: Seq<char>,
    path: Seq<char>,
)
    ensures
        object_url(endpoint, bucket, host, path) == text::join(
            seq![endpoint, bucket, object_key(host, path)],
            seq!['/'],
        ),
        object_key(host, path) == text::join(
            object_names(host, path).map_values(
                |name: Seq<char>| percent::encoded_bytes(utf8::encode_utf8(name)),
            ),
            seq!['/'],
        ),
{
    reveal_strlit("/");
    assert("/"@ =~= seq!['/']);
    let parts = seq![endpoint, bucket, object_key(host, path)];
    assert(parts.drop_last() =~= seq![endpoint, bucket]);
    assert(parts.drop_last().drop_last() =~= seq![endpoint]);
    reveal_with_fuel(text::join, 3);
    assert(text::join(parts, seq!['/']) =~= object_url(endpoint, bucket, host, path));
    let names = object_names(host, path);
    assert(encoded_names(names) =~= names.map_values(
        |name: Seq<char>| percent::encoded_bytes(utf8::encode_utf8(name)),
    ));
}

/// A bucket name has three to 63 letters in lower case, digits, dots and hyphens, and
/// begins and ends with a letter or a digit.
pub proof fn law_bucket_names(first: char, middle: Seq<char>, last: char)
    ensures
        valid_bucket(seq![first] + middle + seq![last]) <==> {
            &&& 1 <= middle.len() <= 61
            &&& 'a' <= first <= 'z' || '0' <= first <= '9'
            &&& 'a' <= last <= 'z' || '0' <= last <= '9'
            &&& forall|i: int|
                0 <= i < middle.len() ==> 'a' <= #[trigger] middle[i] <= 'z' || '0' <= middle[i]
                    <= '9' || middle[i] == '.' || middle[i] == '-'
        },
{
    let name = seq![first] + middle + seq![last];
    assert(name[0] == first && name.last() == last);
    if valid_bucket(name) {
        assert forall|i: int| 0 <= i < middle.len() implies 'a' <= #[trigger] middle[i] <= 'z' || '0'
            <= middle[i] <= '9' || middle[i] == '.' || middle[i] == '-' by {
            assert(is_name_char(name[i + 1]));
        }
    }
    if forall|i: int|
        0 <= i < middle.len() ==> 'a' <= #[trigger] middle[i] <= 'z' || '0' <= middle[i] <= '9'
            || middle[i] == '.' || middle[i] == '-' {
        assert forall|i: int| 1 <= i < name.len() - 1 implies is_name_char(#[trigger] name[i]) by {
            assert(name[i] == middle[i - 1]);
        }
    }
}

/// Only ASCII letters have another form in lower case.
pub proof fn law_letters_are_lowered(c: char, s: Seq<char>)
    ensures
        'A' <= c <= 'Z' ==> lower(c) as int == c as int + 32,
        !('A' <= c <= 'Z') ==> lower(c) == c,
        lowered(s).len() == s.len(),
        forall|i: int| 0 <= i < s.len() ==> #[trigger] lowered(s)[i] == lower(s[i]),
{
}

/// A host that is found was written in the value: in whatever case, behind white space
/// or not, and followed by nothing but the dot of the root, a port, and white space.
pub proof fn law_found_hosts_were_written(value: Seq<char>) -> (parts: (
    Seq<char>,
    Seq<char>,
    Seq<char>,
    Seq<char>,
))
    requires
        normalized_host(value) is Some,
    ensures
        ({
            let (before, written, tail, after) = parts;
            &&& value == before + written + tail + after
            &&& lowered(written) == normalized_host(value)->0
            &&& valid_host(lowered(written))
            &&& tail.len() == 0 || tail[0] == ':' || (tail[0] == '.' && (tail.len() == 1 || tail[1]
                == ':'))
            &&& forall|i: int| 0 <= i < before.len() ==> text::is_space(#[trigger] before[i])
            &&& forall|i: int| 0 <= i < after.len() ==> text::is_space(#[trigger] after[i])
        }),
{
    let body = text::trim(value);
    let (before, after) = text::law_trimming_takes_the_ends(value);
    let header = lowered(body);
    text::lemma_index_of(header, ':');
    let n = text::index_of(header, ':');
    let front = without_port(header);
    let host = without_root_dot(front);
    let m = host.len() as int;
    let written = body.take(m);
    let tail = body.skip(m);
    assert(body =~= written + tail);
    assert(before + (written + tail) + after =~= before + written + tail + after);
    assert(lowered(written) =~= host);
    if n < header.len() {
        assert(header[n] == lower(body[n]));
    }
    if m < n {
        assert(header[m] == '.');
        assert(lower(body[m]) == '.');
        assert(tail[0] == body[m]);
        if n < header.len() {
            assert(tail[1] == body[n]);
        }
    } else if n < header.len() {
        assert(tail[0] == body[n]);
    }
    (before, written, tail, after)
}

} // verus!
