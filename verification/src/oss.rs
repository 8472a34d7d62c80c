//! What the library has from the OSS client and from `urlencoding`, and the
//! verified logic around it: endpoints, clients, decoded keys, object URLs.

use vstd::prelude::*;
use aliyun_oss_client::builder::ClientWithMiddleware;
use aliyun_oss_client::client::Client;
use aliyun_oss_client::types::{InvalidBucketName, InvalidEndPoint};
use aliyun_oss_client::{BucketName, EndPoint, KeyId, KeySecret};
use crate::config::{oss_marker, oss_region, normalize_region, LocalConfig};
use crate::text::{has_prefix, join_strings, join_with, split_chars, split_on, starts_with, substring};

verus! {

#[verifier::external_type_specification]
#[verifier::external_body]
pub struct ExEndPoint(EndPoint);

#[verifier::external_type_specification]
#[verifier::external_body]
pub struct ExInvalidEndPoint(InvalidEndPoint);

#[verifier::external_type_specification]
#[verifier::external_body]
pub struct ExBucketName(BucketName);

#[verifier::external_type_specification]
#[verifier::external_body]
pub struct ExInvalidBucketName(InvalidBucketName);

#[verifier::external_type_specification]
#[verifier::external_body]
pub struct ExClientWithMiddleware(ClientWithMiddleware);

#[verifier::external_type_specification]
#[verifier::external_body]
#[verifier::reject_recursive_types(M)]
pub struct ExClient<M>(Client<M>);

/// Whether `EndPoint::new` accepts the name.
pub uninterp spec fn endpoint_accepts(name: Seq<char>) -> bool;

/// Whether `BucketName::new` accepts the name.
pub uninterp spec fn bucket_name_accepts(name: Seq<char>) -> bool;

/// The value of an ASCII hexadecimal digit, of either case.
pub open spec fn hex_value(b: u8) -> Option<u8> {
    if 0x30 <= b && b <= 0x39 {
        Some((b - 0x30) as u8)
    } else if 0x41 <= b && b <= 0x46 {
        Some((b - 0x41 + 10) as u8)
    } else if 0x61 <= b && b <= 0x66 {
        Some((b - 0x61 + 10) as u8)
    } else {
        None
    }
}

/// Percent-decoding of bytes: `%` followed by two hexadecimal digits
/// becomes the byte they name; every other byte, a malformed escape
/// included, is kept as it is (a `+` too).
pub open spec fn percent_decode_bytes(b: Seq<u8>) -> Seq<u8>
    decreases b.len(),
{
    if b.len() == 0 {
        Seq::empty()
    } else if b[0] == 0x25 && b.len() >= 3 && hex_value(b[1]) is Some && hex_value(b[2]) is Some {
        seq![(hex_value(b[1])->0 * 16 + hex_value(b[2])->0) as u8] + percent_decode_bytes(b.skip(3))
    } else {
        seq![b[0]] + percent_decode_bytes(b.skip(1))
    }
}

/// The text of `s` percent-decoded: the decoded bytes of its UTF-8 form,
/// read back as UTF-8; `None` when they are not UTF-8.
pub open spec fn percent_decoded(s: Seq<char>) -> Option<Seq<char>> {
    let bytes = percent_decode_bytes(vstd::utf8::encode_utf8(s));
    if vstd::utf8::valid_utf8(bytes) {
        Some(vstd::utf8::decode_utf8(bytes))
    } else {
        None
    }
}

/// A parsed endpoint, with the name it was parsed from.
pub struct OssEndpoint {
    endpoint: EndPoint,
    name: String,
}

impl OssEndpoint {
    /// The name the endpoint was parsed from.
    pub closed spec fn name(&self) -> Seq<char> {
        self.name@
    }
}

/// A checked bucket name, with the text it was made from.
pub struct OssBucket {
    bucket: BucketName,
    name: String,
}

impl OssBucket {
    /// The text the bucket name was made from.
    pub closed spec fn name(&self) -> Seq<char> {
        self.name@
    }
}

/// A client, with the key, endpoint and bucket it was built for.
pub struct OssClient {
    client: Client<ClientWithMiddleware>,
    key_id: String,
    key_secret: String,
    endpoint: String,
    bucket: String,
}

impl OssClient {
    /// The access key id the client signs with.
    pub closed spec fn key_id(&self) -> Seq<char> {
        self.key_id@
    }

    /// The access key secret the client signs with.
    pub closed spec fn key_secret(&self) -> Seq<char> {
        self.key_secret@
    }

    /// The name of the endpoint the client talks to.
    pub closed spec fn endpoint(&self) -> Seq<char> {
        self.endpoint@
    }

    /// The bucket the client works on.
    pub closed spec fn bucket(&self) -> Seq<char> {
        self.bucket@
    }

    /// The client itself, for the requests.
    pub fn client(&self) -> &Client<ClientWithMiddleware> {
        &self.client
    }

    /// The key id, key secret, endpoint name and bucket of the client.
    pub fn settings(&self) -> (r: (&str, &str, &str, &str))
        ensures
            r.0@ == self.key_id(),
            r.1@ == self.key_secret(),
            r.2@ == self.endpoint(),
            r.3@ == self.bucket(),
    {
        (
            self.key_id.as_str(),
            self.key_secret.as_str(),
            self.endpoint.as_str(),
            self.bucket.as_str(),
        )
    }
}

/// Calls `EndPoint::from_str` (that is, `EndPoint::new`) and keeps the name
/// beside the endpoint. The contract claims that it accepts exactly the
/// names of `endpoint_accepts` and refuses the empty name; which names it
/// accepts is not written out.
#[verifier::external_body]
fn parse_endpoint_name(name: &str) -> (r: Result<OssEndpoint, InvalidEndPoint>)
    ensures
        r is Ok <==> endpoint_accepts(name@),
        name@.len() == 0 ==> r is Err,
        r is Ok ==> r->Ok_0.name() == name@,
{
    match name.parse::<EndPoint>() {
        Ok(endpoint) => Ok(OssEndpoint { endpoint, name: name.to_owned() }),
        Err(e) => Err(e),
    }
}

/// Calls `BucketName::new`. The contract claims that it accepts exactly the
/// names of `bucket_name_accepts`; that an accepted name is not empty and
/// neither starts nor ends with `-`; and that a name of lower-case ASCII
/// letters, digits and inner `-` is accepted.
#[verifier::external_body]
fn new_bucket_name(name: String) -> (r: Result<OssBucket, InvalidBucketName>)
    ensures
        r is Ok <==> bucket_name_accepts(name@),
        r is Ok ==> r->Ok_0.name() == name@,
        r is Ok ==> name@.len() > 0 && name@[0] != '-' && name@.last() != '-',
        (name@.len() > 0 && name@[0] != '-' && name@.last() != '-' && forall|i: int|
            0 <= i < name@.len() ==> #[trigger] plain_bucket_char(name@[i])) ==> r is Ok,
{
    match BucketName::new(name.clone()) {
        Ok(bucket) => Ok(OssBucket { bucket, name }),
        Err(e) => Err(e),
    }
}

/// A lower-case ASCII letter, an ASCII digit or `-`.
pub open spec fn plain_bucket_char(c: char) -> bool {
    ('a' <= c && c <= 'z') || ('0' <= c && c <= '9') || c == '-'
}

/// Calls `Client::new` with the key id and secret turned into `KeyId` and
/// `KeySecret`, and keeps the four settings beside the client. The contract
/// claims that the client is built from exactly these settings, as
/// `Client::new` stores them. Building it builds a `reqwest` client, which
/// panics when no TLS backend can be set up on the machine; that is not an
/// input this contract can leave out.
#[verifier::external_body]
fn new_client(key_id: String, key_secret: String, endpoint: OssEndpoint, bucket: OssBucket) -> (r:
    OssClient)
    ensures
        r.key_id() == key_id@,
        r.key_secret() == key_secret@,
        r.endpoint() == endpoint.name(),
        r.bucket() == bucket.name(),
{
    let client = Client::new(
        KeyId::new(key_id.clone()),
        KeySecret::new(key_secret.clone()),
        endpoint.endpoint,
        bucket.bucket,
    );
    OssClient { client, key_id, key_secret, endpoint: endpoint.name, bucket: bucket.name }
}

/// Calls `urlencoding::decode`. The contract claims that its result is
/// `percent_decoded` of the input: escapes `%XX` decoded byte by byte,
/// malformed ones kept, and the bytes read as UTF-8, with a UTF-8 failure
/// as `None`; and that a string without `%` comes back unchanged.
#[verifier::external_body]
fn url_decode(s: &str) -> (r: Option<String>)
    ensures
        match r {
            Some(d) => percent_decoded(s@) == Some(d@),
            None => percent_decoded(s@) is None,
        },
        !s@.contains('%') ==> r is Some && r->0@ == s@,
{
    urlencoding::decode(s).ok().map(|d| d.into_owned())
}

/// A byte that percent-encoding keeps: an ASCII letter or digit, `-`, `.`,
/// `_` or `~`.
pub open spec fn url_safe_byte(b: u8) -> bool {
    (0x30 <= b && b <= 0x39) || (0x41 <= b && b <= 0x5a) || (0x61 <= b && b <= 0x7a) || b == 0x2d
        || b == 0x2e || b == 0x5f || b == 0x7e
}

/// The upper-case hexadecimal digit for `d` (below 16).
pub open spec fn hex_digit(d: u8) -> char {
    if d < 10 {
        ((0x30 + d) as u8) as char
    } else {
        ((0x41 - 10 + d) as u8) as char
    }
}

/// One byte percent-encoded: itself when safe, else `%` and two hex digits.
pub open spec fn percent_encode_byte(b: u8) -> Seq<char> {
    if url_safe_byte(b) {
        seq![b as char]
    } else {
        seq!['%', hex_digit(b / 16), hex_digit(b % 16)]
    }
}

/// The bytes percent-encoded one after another.
pub open spec fn percent_encoded(bytes: Seq<u8>) -> Seq<char>
    decreases bytes.len(),
{
    if bytes.len() == 0 {
        Seq::empty()
    } else {
        percent_encoded(bytes.drop_last()) + percent_encode_byte(bytes.last())
    }
}

/// Calls `urlencoding::encode`. The contract claims what its documentation
/// says: every byte of the UTF-8 form is kept when it is an ASCII letter or
/// digit, `-`, `.`, `_` or `~`, and is written `%XX` (upper-case hex) else.
#[verifier::external_body]
fn url_encode(s: &str) -> (r: String)
    ensures
        r@ == percent_encoded(vstd::utf8::encode_utf8(s@)),
{
    urlencoding::encode(s).into_owned()
}

/// The key as OSS listed it when decoding fails: the decoded form when
/// there is one, else the key unchanged.
pub fn decoded_or_raw(value: &str, decoded: Option<String>) -> (r: String)
    ensures
        match decoded {
            Some(d) => r@ == d@,
            None => r@ == value@,
        },
{
    match decoded {
        Some(d) => d,
        None => value.to_owned(),
    }
}

/// A field of a listing requested with `encoding-type=url`, decoded.
pub open spec fn decoded_field(value: Seq<char>) -> Seq<char> {
    if value.len() == 0 {
        Seq::empty()
    } else {
        match percent_decoded(value) {
            Some(d) => d,
            None => value,
        }
    }
}

/// Decodes a key or prefix that OSS returned percent-encoded; keeps it as
/// it is when it does not decode to UTF-8.
pub fn decode_oss_encoded_field(value: &str) -> (r: String)
    ensures
        r@ == decoded_field(value@),
        !value@.contains('%') ==> r@ == value@,
{
    if value.is_empty() {
        return String::new();
    }
    decoded_or_raw(value, url_decode(value))
}

/// Why no client could be built.
#[derive(PartialEq, Eq, Structural, Clone, Copy, Debug)]
pub enum ClientErrorKind {
    /// The region names no endpoint.
    InvalidRegion,
    /// The bucket name is not valid.
    InvalidBucketName,
}

/// Why no client could be built, with the region in normal form.
pub struct ClientError {
    pub kind: ClientErrorKind,
    pub region: String,
}

/// The endpoint name for a region: its normal form without `oss-`.
pub open spec fn endpoint_name(region: Seq<char>) -> Seq<char> {
    let n = oss_region(region);
    if starts_with(n, oss_marker()) {
        n.subrange(4, n.len() as int)
    } else {
        n
    }
}

/// The endpoint a region names, or `InvalidRegion` with the region in
/// normal form.
pub fn parse_endpoint(region: &str) -> (r: Result<OssEndpoint, ClientError>)
    ensures
        r is Ok <==> endpoint_accepts(endpoint_name(region@)),
        r is Ok ==> r->Ok_0.name() == endpoint_name(region@),
        match r {
            Ok(_) => true,
            Err(e) => e.kind == ClientErrorKind::InvalidRegion && e.region@ == oss_region(region@),
        },
{
    let normalized = normalize_region(region);
    let marker = "oss-";
    proof {
        reveal_strlit("oss-");
        assert(marker@ =~= oss_marker());
    }
    let name = if has_prefix(normalized.as_str(), marker) {
        let n = crate::text::chars_of(normalized.as_str()).len();
        substring(normalized.as_str(), 4, n)
    } else {
        normalized.clone()
    };
    endpoint_or_region_error(parse_endpoint_name(name.as_str()), normalized)
}

/// The parsed endpoint, or `InvalidRegion` naming the region in normal form.
pub fn endpoint_or_region_error(
    parsed: Result<OssEndpoint, InvalidEndPoint>,
    normalized: String,
) -> (r: Result<OssEndpoint, ClientError>)
    ensures
        r is Ok <==> parsed is Ok,
        r is Ok ==> r->Ok_0.name() == parsed->Ok_0.name(),
        match r {
            Ok(_) => true,
            Err(e) => e.kind == ClientErrorKind::InvalidRegion && e.region@ == normalized@,
        },
{
    match parsed {
        Ok(endpoint) => Ok(endpoint),
        Err(_) => Err(ClientError { kind: ClientErrorKind::InvalidRegion, region: normalized }),
    }
}

/// The parsed bucket name, or `InvalidBucketName` with the region in normal
/// form.
pub fn bucket_or_name_error(
    parsed: Result<OssBucket, InvalidBucketName>,
    normalized: String,
) -> (r: Result<OssBucket, ClientError>)
    ensures
        r is Ok <==> parsed is Ok,
        r is Ok ==> r->Ok_0.name() == parsed->Ok_0.name(),
        match r {
            Ok(_) => true,
            Err(e) => e.kind == ClientErrorKind::InvalidBucketName && e.region@ == normalized@,
        },
{
    match parsed {
        Ok(bucket) => Ok(bucket),
        Err(_) => Err(ClientError { kind: ClientErrorKind::InvalidBucketName, region: normalized }),
    }
}

/// Whether a client can be built for the region and bucket.
pub open spec fn client_buildable(region: Seq<char>, bucket: Seq<char>) -> bool {
    endpoint_accepts(endpoint_name(region)) && bucket_name_accepts(bucket)
}

/// A client for the configured bucket; the region is checked first.
pub fn build_client(config: &LocalConfig) -> (r: Result<OssClient, ClientError>)
    ensures
        r is Ok <==> client_buildable(config@.region, config@.bucket),
        r is Ok ==> {
            &&& r->Ok_0.key_id() == config@.access_key_id
            &&& r->Ok_0.key_secret() == config@.access_key_secret
            &&& r->Ok_0.endpoint() == endpoint_name(config@.region)
            &&& r->Ok_0.bucket() == config@.bucket
        },
        match r {
            Ok(_) => true,
            Err(e) => if endpoint_accepts(endpoint_name(config@.region)) {
                e.kind == ClientErrorKind::InvalidBucketName
            } else {
                e.kind == ClientErrorKind::InvalidRegion && e.region@ == oss_region(config@.region)
            },
        },
{
    let endpoint = parse_endpoint(config.region.as_str())?;
    let bucket = bucket_or_name_error(
        new_bucket_name(config.bucket.clone()),
        normalize_region(config.region.as_str()),
    )?;
    Ok(new_client(config.access_key_id.clone(), config.access_key_secret.clone(), endpoint, bucket))
}

/// The name given to the bucket of a client that only lists buckets.
pub open spec fn placeholder_bucket() -> Seq<char> {
    seq!['b', 'u', 'c', 'k', 'e', 't', '-', 'p', 'l', 'a', 'c', 'e', 'h', 'o', 'l', 'd', 'e', 'r']
}

/// A client for listing the buckets of an access key in a region.
pub fn build_bucket_list_client(
    access_key_id: String,
    access_key_secret: String,
    region: String,
) -> (r: Result<OssClient, ClientError>)
    ensures
        r is Ok <==> endpoint_accepts(endpoint_name(region@)),
        r is Ok ==> {
            &&& r->Ok_0.key_id() == access_key_id@
            &&& r->Ok_0.key_secret() == access_key_secret@
            &&& r->Ok_0.endpoint() == endpoint_name(region@)
            &&& r->Ok_0.bucket() == placeholder_bucket()
        },
        match r {
            Ok(_) => true,
            Err(e) => e.kind == ClientErrorKind::InvalidRegion && e.region@ == oss_region(region@),
        },
{
    let endpoint = parse_endpoint(region.as_str())?;
    let name = "bucket-placeholder";
    proof {
        reveal_strlit("bucket-placeholder");
        assert(name@ =~= placeholder_bucket());
    }
    proof {
        let p = placeholder_bucket();
        assert forall|i: int| 0 <= i < p.len() implies #[trigger] plain_bucket_char(p[i]) by {}
    }
    let bucket = bucket_or_name_error(new_bucket_name(name.to_owned()), region)?;
    Ok(new_client(access_key_id, access_key_secret, endpoint, bucket))
}

/// The key with each `/`-separated piece percent-encoded.
pub open spec fn encoded_key_path(key: Seq<char>) -> Seq<char> {
    join_with(
        split_on(key, '/').map_values(|p: Seq<char>| percent_encoded(vstd::utf8::encode_utf8(p))),
        seq!['/'],
    )
}

/// The public address of an object:
/// `https://<bucket>.<region>.aliyuncs.com/<encoded key>`.
pub open spec fn object_url_text(bucket: Seq<char>, region: Seq<char>, key: Seq<char>) -> Seq<char> {
    "https://"@ + bucket + "."@ + region + ".aliyuncs.com/"@ + encoded_key_path(key)
}

/// The public address of an uploaded object, with each piece of its key
/// percent-encoded and the `/` between them kept.
pub fn object_url(config: &LocalConfig, key: &str) -> (r: String)
    ensures
        r@ == object_url_text(config@.bucket, config@.region, key@),
{
    let parts = split_chars(key, '/');
    let mut encoded: Vec<String> = Vec::new();
    let n = parts.len();
    let mut i: usize = 0;
    while i < n
        invariant
            n == parts.len(),
            i <= n,
            encoded.deep_view() =~= parts.deep_view().take(i as int).map_values(
                |p: Seq<char>| percent_encoded(vstd::utf8::encode_utf8(p)),
            ),
        decreases n - i,
    {
        let piece = url_encode(parts[i].as_str());
        let ghost f = |p: Seq<char>| percent_encoded(vstd::utf8::encode_utf8(p));
        assert(parts.deep_view().take(i + 1).map_values(f) =~= parts.deep_view().take(
            i as int,
        ).map_values(f).push(f(parts[i as int]@)));
        encoded.push(piece);
        i = i + 1;
    }
    assert(parts.deep_view().take(n as int) =~= parts.deep_view());
    let path = join_strings(&encoded, "/");
    let mut url = "https://".to_owned();
    url.append(config.bucket.as_str());
    url.append(".");
    url.append(config.region.as_str());
    url.append(".aliyuncs.com/");
    url.append(path.as_str());
    proof {
        reveal_strlit("/");
        assert("/"@ =~= seq!['/']);
    }
    url
}

/// A character that percent-encoding keeps: an ASCII letter or digit, `-`,
/// `.`, `_` or `~`.
pub open spec fn url_safe_char(c: char) -> bool {
    ('0' <= c && c <= '9') || ('A' <= c && c <= 'Z') || ('a' <= c && c <= 'z') || c == '-' || c
        == '.' || c == '_' || c == '~'
}

proof fn lemma_safe_bytes_kept(bytes: Seq<u8>, chars: Seq<char>)
    requires
        bytes.len() == chars.len(),
        forall|i: int| 0 <= i < chars.len() ==> url_safe_char(#[trigger] chars[i]),
        forall|i: int| 0 <= i < chars.len() ==> #[trigger] bytes[i] == chars[i] as u8,
    ensures
        percent_encoded(bytes) == chars,
    decreases bytes.len(),
{
    if bytes.len() > 0 {
        let n = bytes.len() - 1;
        lemma_safe_bytes_kept(bytes.drop_last(), chars.drop_last());
        let c = chars[n as int];
        let b = bytes[n as int];
        assert(url_safe_char(c));
        assert(b == c as u8);
        assert(url_safe_byte(b) && b as char == c) by {
            assert(url_safe_char(c));
        }
        assert(chars.drop_last().push(c) =~= chars);
    }
}

/// A string of URL-safe characters is percent-encoded as itself.
pub proof fn law_safe_text_encodes_to_itself(s: Seq<char>)
    requires
        forall|i: int| 0 <= i < s.len() ==> url_safe_char(#[trigger] s[i]),
    ensures
        percent_encoded(vstd::utf8::encode_utf8(s)) == s,
{
    assert(vstd::utf8::is_ascii_chars(s)) by {
        assert forall|i: int| 0 <= i < s.len() implies '\0' <= #[trigger] s[i] <= '\u{7f}' by {
            assert(url_safe_char(s[i]));
        }
    }
    vstd::utf8::is_ascii_chars_encode_utf8(s);
    let bytes = vstd::utf8::encode_utf8(s);
    assert forall|i: int| 0 <= i < s.len() implies #[trigger] bytes[i] == s[i] as u8 by {
    }
    lemma_safe_bytes_kept(bytes, s);
}

/// The address of an object whose key holds only URL-safe characters and
/// `/` carries the key unchanged.
pub proof fn law_object_url_of_safe_key(bucket: Seq<char>, region: Seq<char>, key: Seq<char>)
    requires
        forall|i: int| 0 <= i < key.len() ==> url_safe_char(#[trigger] key[i]) || key[i] == '/',
    ensures
        object_url_text(bucket, region, key) == "https://"@ + bucket + "."@ + region
            + ".aliyuncs.com/"@ + key,
{
    let parts = split_on(key, '/');
    crate::text::lemma_split_pieces(key, '/');
    crate::text::lemma_split_nonempty(key, '/');
    let f = |p: Seq<char>| percent_encoded(vstd::utf8::encode_utf8(p));
    assert(parts.map_values(f) =~= parts) by {
        assert forall|j: int| 0 <= j < parts.len() implies #[trigger] parts.map_values(f)[j]
            == parts[j] by {
            crate::text::lemma_split_piece_chars(key, '/');
            let p = parts[j];
            assert forall|k: int| 0 <= k < p.len() implies url_safe_char(#[trigger] p[k]) by {
                assert(key.contains(p[k]));
                let m = choose|m: int| 0 <= m < key.len() && key[m] == p[k];
                if p[k] == '/' {
                    assert(p.contains('/'));
                }
            }
            law_safe_text_encodes_to_itself(p);
        }
    }
    crate::text::lemma_join_split(key, '/');
}

/// A character of a percent-encoded path: URL-safe, `%` or `/`.
pub open spec fn encoded_path_char(c: char) -> bool {
    url_safe_char(c) || c == '%' || c == '/'
}

proof fn lemma_hex_digit_safe(d: u8)
    requires
        d < 16,
    ensures
        url_safe_char(hex_digit(d)),
{
}

proof fn lemma_encode_byte_safe(b: u8)
    ensures
        forall|i: int|
            0 <= i < percent_encode_byte(b).len() ==> url_safe_char(#[trigger] percent_encode_byte(b)[i])
                || percent_encode_byte(b)[i] == '%',
{
    if !url_safe_byte(b) {
        lemma_hex_digit_safe(b / 16);
        lemma_hex_digit_safe(b % 16);
    }
}

/// Percent-encoding writes only URL-safe characters and `%`.
proof fn lemma_percent_encoded_safe(bytes: Seq<u8>)
    ensures
        forall|i: int|
            0 <= i < percent_encoded(bytes).len() ==> url_safe_char(#[trigger] percent_encoded(bytes)[i])
                || percent_encoded(bytes)[i] == '%',
    decreases bytes.len(),
{
    if bytes.len() > 0 {
        let init = percent_encoded(bytes.drop_last());
        let tail = percent_encode_byte(bytes.last());
        lemma_percent_encoded_safe(bytes.drop_last());
        lemma_encode_byte_safe(bytes.last());
        assert forall|i: int| 0 <= i < percent_encoded(bytes).len() implies url_safe_char(
            #[trigger] percent_encoded(bytes)[i],
        ) || percent_encoded(bytes)[i] == '%' by {
            if i < init.len() {
                assert(percent_encoded(bytes)[i] == init[i]);
            } else {
                assert(percent_encoded(bytes)[i] == tail[i - init.len()]);
            }
        }
    }
}

/// Joining pieces of path characters with `/` gives path characters.
proof fn lemma_join_path_chars(parts: Seq<Seq<char>>)
    requires
        forall|j: int, k: int|
            0 <= j < parts.len() && 0 <= k < parts[j].len() ==> encoded_path_char(
                #[trigger] parts[j][k],
            ),
    ensures
        forall|i: int|
            0 <= i < join_with(parts, seq!['/']).len() ==> encoded_path_char(
                #[trigger] join_with(parts, seq!['/'])[i],
            ),
    decreases parts.len(),
{
    if parts.len() == 1 {
        assert forall|i: int| 0 <= i < join_with(parts, seq!['/']).len() implies encoded_path_char(
            #[trigger] join_with(parts, seq!['/'])[i],
        ) by {
            assert(join_with(parts, seq!['/'])[i] == parts[0][i]);
        }
    } else if parts.len() > 1 {
        let init = parts.drop_last();
        lemma_join_path_chars(init);
        let a = join_with(init, seq!['/']);
        let last = parts.last();
        assert forall|i: int| 0 <= i < join_with(parts, seq!['/']).len() implies encoded_path_char(
            #[trigger] join_with(parts, seq!['/'])[i],
        ) by {
            let j = join_with(parts, seq!['/']);
            assert(j == a + seq!['/'] + last);
            if i < a.len() {
                assert(j[i] == a[i]);
            } else if i == a.len() {
                assert(j[i] == '/');
            } else {
                assert(j[i] == parts[parts.len() - 1][i - a.len() - 1]);
            }
        }
    }
}

/// The address of an object is the bucket's host followed by the encoded
/// key: each `/`-separated piece of the key becomes the percent-encoding of
/// its UTF-8 bytes, the `/` between pieces are kept, and the path holds
/// nothing but URL-safe characters, `%` and `/` (never a raw `#`, `?` or
/// space, which would cut the address short).
pub proof fn law_object_url_path_is_encoded(bucket: Seq<char>, region: Seq<char>, key: Seq<char>)
    ensures
        object_url_text(bucket, region, key) == "https://"@ + bucket + "."@ + region
            + ".aliyuncs.com/"@ + encoded_key_path(key),
        split_on(encoded_key_path(key), '/') == split_on(key, '/').map_values(
            |p: Seq<char>| percent_encoded(vstd::utf8::encode_utf8(p)),
        ),
        forall|i: int|
            0 <= i < encoded_key_path(key).len() ==> encoded_path_char(
                #[trigger] encoded_key_path(key)[i],
            ),
        !encoded_key_path(key).contains('#'),
        !encoded_key_path(key).contains('?'),
        !encoded_key_path(key).contains(' '),
{
    let f = |p: Seq<char>| percent_encoded(vstd::utf8::encode_utf8(p));
    let pieces = split_on(key, '/');
    let enc = pieces.map_values(f);
    crate::text::lemma_split_nonempty(key, '/');
    assert forall|j: int, k: int| 0 <= j < enc.len() && 0 <= k < enc[j].len() implies encoded_path_char(
        #[trigger] enc[j][k],
    ) by {
        lemma_percent_encoded_safe(vstd::utf8::encode_utf8(pieces[j]));
        assert(enc[j] == percent_encoded(vstd::utf8::encode_utf8(pieces[j])));
    }
    assert forall|j: int| 0 <= j < enc.len() implies !(#[trigger] enc[j]).contains('/') by {
        lemma_percent_encoded_safe(vstd::utf8::encode_utf8(pieces[j]));
        assert(enc[j] == percent_encoded(vstd::utf8::encode_utf8(pieces[j])));
        if enc[j].contains('/') {
            let k = choose|k: int| 0 <= k < enc[j].len() && enc[j][k] == '/';
            assert(url_safe_char(enc[j][k]) || enc[j][k] == '%');
        }
    }
    crate::text::lemma_split_join(enc, '/');
    lemma_join_path_chars(enc);
    let e = encoded_key_path(key);
    assert(e == join_with(enc, seq!['/']));
    assert forall|c: char| (c == '#' || c == '?' || c == ' ') implies !e.contains(c) by {
        if e.contains(c) {
            let i = choose|i: int| 0 <= i < e.len() && e[i] == c;
            assert(encoded_path_char(e[i]));
        }
    }
}

} // verus!
