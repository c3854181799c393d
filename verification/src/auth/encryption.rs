//! Tokens that carry a destination and its headers through a public URL.
//!
//! A token is the URL-safe base64 text of a JSON document that is encrypted
//! with AES-256-GCM. The document is sealed in frames, each a random nonce
//! followed by the ciphertext and its tag; a document of up to one GiB is a
//! single frame.

use vstd::prelude::*;

use crate::codec::{
    all_base64url, base64url_decode_exact, base64url_decoded, base64url_encode, entry_texts,
    gcm_nonce, gcm_open, gcm_opened, gcm_seal, json_entries, json_entries_at, json_object,
    json_string, json_string_at, json_u64, json_u64_at, member, number_texts, object_texts,
    opt_bytes, plain_name, string_members,
};
use crate::error::{AppError, AppErrorView, AppResult};
use crate::string_map::{
    lemma_lookup_from, lemma_with_pair, lookup, pair_texts, unique_keys, Pairs, StringMap,
};
use crate::text::{opt_str, opt_text, same};

verus! {

/// What a proxied request carries.
pub struct ProxyData {
    /// Where the request goes.
    pub destination: String,
    /// Query parameters of the endpoint.
    pub query_params: Option<StringMap>,
    /// Headers to send upstream.
    pub request_headers: Option<StringMap>,
    /// Headers to set on the response.
    pub response_headers: Option<StringMap>,
    /// When the data expires, in seconds of Unix time.
    pub exp: Option<u64>,
    /// The only client address that may use the data.
    pub ip: Option<String>,
}

/// What a proxied request carries, by its texts.
pub struct ProxyDataView {
    pub destination: Seq<char>,
    pub query_params: Option<Map<Seq<char>, Seq<char>>>,
    pub request_headers: Option<Map<Seq<char>, Seq<char>>>,
    pub response_headers: Option<Map<Seq<char>, Seq<char>>>,
    pub exp: Option<u64>,
    pub ip: Option<Seq<char>>,
}

/// The map that a list of pairs stands for.
pub open spec fn pairs_map(p: Pairs) -> Map<Seq<char>, Seq<char>> {
    Map::new(|k: Seq<char>| lookup(p, k) is Some, |k: Seq<char>| lookup(p, k)->0)
}

/// The map that an optional string map stands for.
pub open spec fn opt_pairs_map(m: Option<StringMap>) -> Option<Map<Seq<char>, Seq<char>>> {
    match m {
        Some(m) => Some(pairs_map(m@)),
        None => None,
    }
}

impl View for ProxyData {
    type V = ProxyDataView;

    open spec fn view(&self) -> ProxyDataView {
        ProxyDataView {
            destination: self.destination@,
            query_params: opt_pairs_map(self.query_params),
            request_headers: opt_pairs_map(self.request_headers),
            response_headers: opt_pairs_map(self.response_headers),
            exp: self.exp,
            ip: opt_text(self.ip),
        }
    }
}

/// The members of a JSON object that are strings.
pub open spec fn string_entries(m: Option<Map<Seq<char>, Option<Seq<char>>>>) -> Option<
    Map<Seq<char>, Seq<char>>,
> {
    match m {
        Some(m) => Some(
            Map::new(
                |k: Seq<char>| m.contains_key(k) && m[k] is Some,
                |k: Seq<char>| m[k]->0,
            ),
        ),
        None => None,
    }
}

/// The data that a JSON document stands for: it must name a destination.
pub open spec fn payload_data(bytes: Seq<u8>) -> Option<ProxyDataView> {
    match json_string_at(bytes, "/destination"@) {
        None => None,
        Some(destination) => Some(
            ProxyDataView {
                destination,
                query_params: string_entries(json_entries_at(bytes, "/query_params"@)),
                request_headers: string_entries(json_entries_at(bytes, "/request_headers"@)),
                response_headers: string_entries(json_entries_at(bytes, "/response_headers"@)),
                exp: json_u64_at(bytes, "/exp"@),
                ip: json_string_at(bytes, "/ip"@),
            },
        ),
    }
}

/// The cipher key of a secret: its first 32 bytes, filled up with spaces.
pub open spec fn key_of(secret: Seq<u8>) -> Seq<u8> {
    Seq::new(
        32,
        |i: int|
            if i < secret.len() {
                secret[i]
            } else {
                32u8
            },
    )
}

/// How many bytes of a document one frame holds at most.
pub const FRAME: usize = 0x4000_0000;

/// The document that a list of frames holds under a key, where each frame is
/// authentic.
pub open spec fn frames_opened(key: Seq<u8>, bytes: Seq<u8>) -> Option<Seq<u8>>
    decreases bytes.len(),
{
    if bytes.len() < 12 {
        None
    } else if bytes.len() <= FRAME + 28 {
        gcm_opened(key, bytes.take(12), bytes.skip(12))
    } else {
        match gcm_opened(key, bytes.take(12), bytes.subrange(12, FRAME + 28)) {
            None => None,
            Some(head) => match frames_opened(key, bytes.skip(FRAME + 28)) {
                None => None,
                Some(tail) => Some(head + tail),
            },
        }
    }
}

/// The document that a token holds under a key, where the token is authentic.
pub open spec fn token_payload(key: Seq<u8>, token: Seq<char>) -> Option<Seq<u8>> {
    match base64url_decoded(token) {
        Ok(bytes) => frames_opened(key, bytes),
        Err(_) => None,
    }
}

/// The data that a token holds under a key.
pub open spec fn token_data(key: Seq<u8>, token: Seq<char>) -> Option<ProxyDataView> {
    match token_payload(key, token) {
        Some(bytes) => payload_data(bytes),
        None => None,
    }
}

/// Whether a client may use data that is bound to an address.
pub open spec fn address_allowed(bound: Option<Seq<char>>, client: Option<Seq<char>>) -> bool {
    bound is None || client is None || bound == client
}

impl ProxyData {
    /// Whether the data has expired at the Unix time `now`.
    pub fn is_expired(&self, now: u64) -> (r: bool)
        ensures
            r == (self@.exp matches Some(t) && t < now),
    {
        match self.exp {
            Some(t) => t < now,
            None => false,
        }
    }
}

/// The pairs of a JSON object whose values are strings.
fn string_pairs(entries: &Vec<(String, Option<String>)>) -> (r: StringMap)
    requires
        forall|i: int, j: int|
            0 <= i < j < entries@.len() ==> (#[trigger] entries@[i]).0@ != (
            #[trigger] entries@[j]).0@,
    ensures
        unique_keys(r@),
        forall|k: Seq<char>|
            (#[trigger] lookup(r@, k)) matches Some(v) ==> exists|i: int|
                0 <= i < entries@.len() && (#[trigger] entries@[i]).0@ == k && opt_text(
                    entries@[i].1,
                ) == Some(v),
        forall|i: int|
            0 <= i < entries@.len() ==> lookup(r@, (#[trigger] entries@[i]).0@) == opt_text(
                entries@[i].1,
            ),
{
    let mut r = StringMap::new();
    let mut i: usize = 0;
    while i < entries.len()
        invariant
            i <= entries.len(),
            unique_keys(r@),
            forall|a: int, b: int|
                0 <= a < b < entries@.len() ==> (#[trigger] entries@[a]).0@ != (
                #[trigger] entries@[b]).0@,
            forall|k: Seq<char>|
                (#[trigger] lookup(r@, k)) matches Some(v) ==> exists|j: int|
                    0 <= j < i && (#[trigger] entries@[j]).0@ == k && opt_text(entries@[j].1)
                        == Some(v),
            forall|j: int|
                0 <= j < i ==> lookup(r@, (#[trigger] entries@[j]).0@) == opt_text(entries@[j].1),
        decreases entries.len() - i,
    {
        let ghost before = r@;
        let ghost key = entries@[i as int].0@;
        assert(lookup(before, key) is None);
        match &entries[i].1 {
            Some(v) => {
                proof {
                    lemma_with_pair(before, key, v@);
                }
                r.insert(entries[i].0.as_str(), v.as_str());
                assert forall|j: int| 0 <= j < i + 1 implies lookup(
                    r@,
                    (#[trigger] entries@[j]).0@,
                ) == opt_text(entries@[j].1) by {
                    if j < i {
                        assert(entries@[j].0@ != entries@[i as int].0@);
                    }
                }
                assert forall|k: Seq<char>| (#[trigger] lookup(r@, k)) is Some implies exists|j: int|
                    0 <= j < i + 1 && (#[trigger] entries@[j]).0@ == k && opt_text(entries@[j].1)
                        == lookup(r@, k) by {
                    if k == key {
                        assert(entries@[i as int].0@ == k);
                    } else {
                        assert(lookup(before, k) == lookup(r@, k));
                    }
                }
            },
            None => {},
        }
        i += 1;
    }
    r
}

/// The object at a JSON pointer, as a string map.
fn read_map(bytes: &[u8], pointer: &str) -> (r: Option<StringMap>)
    ensures
        opt_pairs_map(r) == string_entries(json_entries_at(bytes@, pointer@)),
{
    match json_entries(bytes, pointer) {
        None => None,
        Some(entries) => {
            let ghost texts = entry_texts(entries@);
            let ghost m = json_entries_at(bytes@, pointer@)->0;
            assert forall|i: int, j: int| 0 <= i < j < entries@.len() implies (
            #[trigger] entries@[i]).0@ != (#[trigger] entries@[j]).0@ by {
                assert(texts[i].0 != texts[j].0);
            }
            let r = string_pairs(&entries);
            proof {
                let want = string_entries(Some(m))->0;
                let got = pairs_map(r@);
                assert forall|k: Seq<char>| #[trigger] want.contains_key(k) == got.contains_key(k) && (
                want.contains_key(k) ==> want[k] == got[k]) by {
                    if want.contains_key(k) {
                        let i = choose|i: int| 0 <= i < texts.len() && (#[trigger] texts[i]).0 == k;
                        assert(m[texts[i].0] == texts[i].1);
                        assert(lookup(r@, entries@[i].0@) == opt_text(entries@[i].1));
                    }
                    if got.contains_key(k) {
                        let i = choose|i: int|
                            0 <= i < entries@.len() && (#[trigger] entries@[i]).0@ == k && opt_text(
                                entries@[i].1,
                            ) == lookup(r@, k);
                        assert(m.contains_key(texts[i].0));
                    }
                }
                assert(want.dom() =~= got.dom());
                assert(want =~= got);
            }
            Some(r)
        },
    }
}

/// Reads the data of a JSON document.
fn read_payload(bytes: &[u8]) -> (r: Option<ProxyData>)
    ensures
        match r {
            Some(d) => payload_data(bytes@) == Some(d@),
            None => payload_data(bytes@) is None,
        },
{
    match json_string(bytes, "/destination") {
        None => None,
        Some(destination) => Some(
            ProxyData {
                destination,
                query_params: read_map(bytes, "/query_params"),
                request_headers: read_map(bytes, "/request_headers"),
                response_headers: read_map(bytes, "/response_headers"),
                exp: json_u64(bytes, "/exp"),
                ip: json_string(bytes, "/ip"),
            },
        ),
    }
}

/// The member names of a token's document: each stands for itself in a
/// pointer, and no two are alike.
proof fn lemma_member_names()
    ensures
        plain_name("destination"@) && member("destination"@) == "/destination"@,
        plain_name("query_params"@) && member("query_params"@) == "/query_params"@,
        plain_name("request_headers"@) && member("request_headers"@) == "/request_headers"@,
        plain_name("response_headers"@) && member("response_headers"@) == "/response_headers"@,
        plain_name("exp"@) && member("exp"@) == "/exp"@,
        plain_name("ip"@) && member("ip"@) == "/ip"@,
        "destination"@.len() == 11,
        "query_params"@.len() == 12,
        "request_headers"@.len() == 15,
        "response_headers"@.len() == 16,
        "exp"@.len() == 3,
        "ip"@.len() == 2,
{
    reveal_strlit("destination");
    reveal_strlit("query_params");
    reveal_strlit("request_headers");
    reveal_strlit("response_headers");
    reveal_strlit("exp");
    reveal_strlit("ip");
    reveal_strlit("/destination");
    reveal_strlit("/query_params");
    reveal_strlit("/request_headers");
    reveal_strlit("/response_headers");
    reveal_strlit("/exp");
    reveal_strlit("/ip");
    assert(member("destination"@) =~= "/destination"@);
    assert(member("query_params"@) =~= "/query_params"@);
    assert(member("request_headers"@) =~= "/request_headers"@);
    assert(member("response_headers"@) =~= "/response_headers"@);
    assert(member("exp"@) =~= "/exp"@);
    assert(member("ip"@) =~= "/ip"@);
}

/// An object with the members of a pair list stands for the list's map.
proof fn lemma_string_members(p: Pairs, m: Map<Seq<char>, Option<Seq<char>>>)
    requires
        unique_keys(p),
        string_members(p, m),
    ensures
        string_entries(Some(m)) == Some(pairs_map(p)),
{
    let want = pairs_map(p);
    let got = string_entries(Some(m))->0;
    assert forall|k: Seq<char>| #[trigger] want.contains_key(k) == got.contains_key(k) && (want.contains_key(k)
        ==> want[k] == got[k]) by {
        lemma_lookup_from(p, k, 0);
        if want.contains_key(k) {
            let j = choose|j: int| 0 <= j < p.len() && (#[trigger] p[j]) == (k, want[k]);
            assert(m.contains_key(p[j].0));
        }
        if got.contains_key(k) {
            let j = choose|j: int| 0 <= j < p.len() && (#[trigger] p[j]).0 == k;
            assert(lookup(p, k) == Some(p[j].1));
        }
    }
    assert(want.dom() =~= got.dom());
    assert(want =~= got);
}

/// Appends a named object where there is one.
fn push_object(objects: &mut Vec<(String, Vec<(String, String)>)>, name: &str, m: &Option<StringMap>)
    ensures
        match m {
            Some(m) => object_texts(final(objects)@) == object_texts(old(objects)@).push(
                (name@, m@),
            ) && unique_keys(m@),
            None => final(objects)@ == old(objects)@,
        },
{
    match m {
        Some(m) => {
            let pairs = m.to_pairs();
            objects.push((name.to_owned(), pairs));
            assert(object_texts(objects@) =~= object_texts(old(objects)@).push((name@, m@)));
        },
        None => {},
    }
}

/// The objects of a token's document.
spec fn payload_objects(d: ProxyData) -> Seq<(Seq<char>, Pairs)> {
    let a = match d.query_params {
        Some(m) => seq![("query_params"@, m@)],
        None => Seq::empty(),
    };
    let b = match d.request_headers {
        Some(m) => a.push(("request_headers"@, m@)),
        None => a,
    };
    match d.response_headers {
        Some(m) => b.push(("response_headers"@, m@)),
        None => b,
    }
}

/// Writes data as a JSON document.
fn write_payload(data: &ProxyData) -> (r: Vec<u8>)
    ensures
        payload_data(r@) == Some(data@),
{
    proof {
        lemma_member_names();
    }
    let mut strings: Vec<(String, String)> = Vec::new();
    strings.push(("destination".to_owned(), data.destination.clone()));
    if let Some(ip) = &data.ip {
        strings.push(("ip".to_owned(), ip.clone()));
    }
    let ghost s = pair_texts(strings@);
    let mut numbers: Vec<(String, u64)> = Vec::new();
    if let Some(exp) = data.exp {
        numbers.push(("exp".to_owned(), exp));
    }
    let ghost n = number_texts(numbers@);
    let mut objects: Vec<(String, Vec<(String, String)>)> = Vec::new();
    assert(object_texts(objects@) =~= Seq::empty());
    push_object(&mut objects, "query_params", &data.query_params);
    push_object(&mut objects, "request_headers", &data.request_headers);
    push_object(&mut objects, "response_headers", &data.response_headers);
    let ghost o = object_texts(objects@);
    assert(o =~= payload_objects(*data));
    assert(unique_keys(s));
    assert forall|i: int| 0 <= i < s.len() implies (#[trigger] s[i]).0 == "destination"@ || s[i].0
        == "ip"@ by {}
    assert forall|i: int| 0 <= i < n.len() implies (#[trigger] n[i]).0 == "exp"@ by {}
    assert forall|i: int| 0 <= i < o.len() implies {
        ||| (#[trigger] o[i]).0 == "query_params"@
        ||| o[i].0 == "request_headers"@
        ||| o[i].0 == "response_headers"@
    } by {}
    let r = json_object(&strings, &numbers, &objects);
    proof {
        reveal_with_fuel(crate::string_map::lookup_from, 4);
        reveal_with_fuel(crate::codec::number_from, 3);
        reveal_with_fuel(crate::codec::object_from, 5);
        assert(s[0] == ("destination"@, data.destination@));
        assert(json_string_at(r@, member("destination"@)) == Some(data.destination@));
        assert(json_string_at(r@, member("ip"@)) == opt_text(data.ip));
        assert(json_u64_at(r@, member("exp"@)) == data.exp);
        assert(string_entries(json_entries_at(r@, member("query_params"@))) == opt_pairs_map(
            data.query_params,
        )) by {
            if let Some(m) = data.query_params {
                lemma_string_members(m@, json_entries_at(r@, member("query_params"@))->0);
            }
        }
        assert(string_entries(json_entries_at(r@, member("request_headers"@))) == opt_pairs_map(
            data.request_headers,
        )) by {
            if let Some(m) = data.request_headers {
                lemma_string_members(m@, json_entries_at(r@, member("request_headers"@))->0);
            }
        }
        assert(string_entries(json_entries_at(r@, member("response_headers"@))) == opt_pairs_map(
            data.response_headers,
        )) by {
            if let Some(m) = data.response_headers {
                lemma_string_members(m@, json_entries_at(r@, member("response_headers"@))->0);
            }
        }
    }
    r
}

/// Seals a document into frames.
fn seal_frames(key: &[u8], document: &[u8]) -> (r: Vec<u8>)
    requires
        key@.len() == 32,
    ensures
        frames_opened(key@, r@) == Some(document@),
        r@.len() >= 28,
    decreases document@.len(),
{
    let mut bytes = gcm_nonce();
    let ghost nonce = bytes@;
    if document.len() <= FRAME {
        let sealed = gcm_seal(key, bytes.as_slice(), document).unwrap();
        bytes.extend_from_slice(sealed.as_slice());
        assert(bytes@.take(12) =~= nonce);
        assert(bytes@.skip(12) =~= sealed@);
        bytes
    } else {
        let (head, tail) = document.split_at(FRAME);
        let sealed = gcm_seal(key, bytes.as_slice(), head).unwrap();
        let rest = seal_frames(key, tail);
        bytes.extend_from_slice(sealed.as_slice());
        bytes.extend_from_slice(rest.as_slice());
        assert(bytes@.take(12) =~= nonce);
        assert(bytes@.subrange(12, FRAME + 28) =~= sealed@);
        assert(bytes@.skip(FRAME + 28) =~= rest@);
        assert(head@ + tail@ =~= document@);
        bytes
    }
}

/// Opens a list of frames.
fn open_frames(key: &[u8], bytes: &[u8]) -> (r: Option<Vec<u8>>)
    requires
        key@.len() == 32,
    ensures
        opt_bytes(r) == frames_opened(key@, bytes@),
    decreases bytes@.len(),
{
    if bytes.len() < 12 {
        return None;
    }
    let (nonce, sealed) = bytes.split_at(12);
    assert(nonce@ =~= bytes@.take(12));
    assert(sealed@ =~= bytes@.skip(12));
    if bytes.len() <= FRAME + 28 {
        return gcm_open(key, nonce, sealed);
    }
    let (first, rest) = sealed.split_at(FRAME + 16);
    assert(first@ =~= bytes@.subrange(12, FRAME + 28));
    assert(rest@ =~= bytes@.skip(FRAME + 28));
    match gcm_open(key, nonce, first) {
        None => None,
        Some(mut head) => match open_frames(key, rest) {
            None => None,
            Some(tail) => {
                head.extend_from_slice(tail.as_slice());
                Some(head)
            },
        },
    }
}

/// Seals proxy data into tokens and opens them again.
pub struct EncryptionHandler {
    key: Vec<u8>,
}

impl EncryptionHandler {
    /// The key is one of AES-256.
    #[verifier::type_invariant]
    closed spec fn inv(self) -> bool {
        self.key@.len() == 32
    }

    /// The cipher key.
    pub closed spec fn key(self) -> Seq<u8> {
        self.key@
    }

    /// A handler for a secret, which must not be empty.
    pub fn new(secret: &[u8]) -> (r: AppResult<Self>)
        ensures
            match r {
                Ok(h) => secret@.len() > 0 && h.key() == key_of(secret@),
                Err(e) => secret@.len() == 0 && e@ == AppErrorView::Internal(
                    "encryption secret is empty"@,
                ),
            },
    {
        if secret.len() == 0 {
            return Err(AppError::Internal("encryption secret is empty".to_owned()));
        }
        let mut key: Vec<u8> = Vec::new();
        let mut i: usize = 0;
        while i < 32
            invariant
                i <= 32,
                key@ == key_of(secret@).take(i as int),
            decreases 32 - i,
        {
            key.push(
                if i < secret.len() {
                    secret[i]
                } else {
                    32u8
                },
            );
            i += 1;
            assert(key@ =~= key_of(secret@).take(i as int));
        }
        assert(key_of(secret@).take(32) =~= key_of(secret@));
        Ok(EncryptionHandler { key })
    }

    /// Seals data into a token. Opening the token under the same key gives the
    /// data back, and the token is made of URL-safe characters alone.
    pub fn encrypt(&self, data: &ProxyData) -> (r: AppResult<String>)
        ensures
            r matches Ok(token) && token_data(self.key(), token@) == Some(data@) && all_base64url(
                token@,
            ),
    {
        proof {
            use_type_invariant(self);
        }
        let payload = write_payload(data);
        let bytes = seal_frames(self.key.as_slice(), payload.as_slice());
        Ok(base64url_encode(bytes.as_slice()))
    }

    /// Opens a token. The token must be authentic under the key, name a
    /// destination, and not be bound to an address other than `client_ip`.
    pub fn decrypt(&self, token: &str, client_ip: Option<&str>) -> (r: AppResult<ProxyData>)
        ensures
            match r {
                Ok(d) => token_data(self.key(), token@) == Some(d@) && address_allowed(
                    d@.ip,
                    opt_str(client_ip),
                ),
                Err(e) => match token_data(self.key(), token@) {
                    None => e@ == AppErrorView::BadRequest("invalid token"@),
                    Some(d) => !address_allowed(d.ip, opt_str(client_ip)) && e@
                        == AppErrorView::Forbidden("token is bound to another address"@),
                },
            },
    {
        proof {
            use_type_invariant(self);
        }
        let bytes = match base64url_decode_exact(token) {
            Ok(b) => b,
            Err(_) => {
                return Err(AppError::BadRequest("invalid token".to_owned()));
            },
        };
        let payload = match open_frames(self.key.as_slice(), bytes.as_slice()) {
            Some(p) => p,
            None => {
                return Err(AppError::BadRequest("invalid token".to_owned()));
            },
        };
        let data = match read_payload(payload.as_slice()) {
            Some(d) => d,
            None => {
                return Err(AppError::BadRequest("invalid token".to_owned()));
            },
        };
        if let Some(bound) = &data.ip {
            if let Some(client) = client_ip {
                if !same(bound.as_str(), client) {
                    return Err(
                        AppError::Forbidden("token is bound to another address".to_owned()),
                    );
                }
            }
        }
        Ok(data)
    }
}

} // verus!
