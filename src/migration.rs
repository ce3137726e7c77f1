//! The transfer URL codec: base64 blobs carried in `data` query parameters.
use vstd::prelude::*;
use vstd::string::*;
use crate::payload::{
    decode_payload, lemma_fits_by_length, lemma_payload_round_trip, payload_bytes, DecodeError,
    MigrationPayload, PayloadView,
};

verus! {

/// One query parameter, percent-decoded.
#[derive(Debug, Clone, PartialEq, Eq)]
pub struct QueryPair {
    pub key: String,
    pub value: String,
}

pub struct PairView {
    pub key: Seq<char>,
    pub value: Seq<char>,
}

impl View for QueryPair {
    type V = PairView;

    open spec fn view(&self) -> PairView {
        PairView { key: self.key@, value: self.value@ }
    }
}

/// What the codec reads of a URL: its scheme, its host, and its query
/// parameters in order.
#[derive(Debug, Clone, PartialEq, Eq)]
pub struct TransferUrl {
    pub scheme: String,
    pub host: String,
    pub query: Vec<QueryPair>,
}

pub struct UrlView {
    pub scheme: Seq<char>,
    pub host: Seq<char>,
    pub query: Seq<PairView>,
}

impl View for TransferUrl {
    type V = UrlView;

    open spec fn view(&self) -> UrlView {
        UrlView {
            scheme: self.scheme@,
            host: self.host@,
            query: self.query@.map_values(|p: QueryPair| p@),
        }
    }
}

/// Why a base64 text was refused.
#[derive(Debug, Clone, Copy, PartialEq, Eq, Structural)]
pub enum Base64Error {
    InvalidByte(usize, u8),
    InvalidLength,
    InvalidLastSymbol(usize, u8),
}

/// Why a transfer URL could not be decoded.
#[derive(Debug, Clone, PartialEq, Eq)]
pub enum OtpMigrationError {
    InvalidUrl(String),
    InvalidScheme(String),
    Base64DecodeError(Base64Error),
    ProtobufDecodeError(DecodeError),
}

/// The kind of failure, with the offending scheme.
pub enum UrlFault {
    Url,
    Scheme(Seq<char>),
    Base64,
    Binary(DecodeError),
}

pub open spec fn fault_of(e: OtpMigrationError) -> UrlFault {
    match e {
        OtpMigrationError::InvalidUrl(_) => UrlFault::Url,
        OtpMigrationError::InvalidScheme(s) => UrlFault::Scheme(s@),
        OtpMigrationError::Base64DecodeError(_) => UrlFault::Base64,
        OtpMigrationError::ProtobufDecodeError(e) => UrlFault::Binary(e),
    }
}

pub open spec fn migration_scheme() -> Seq<char> {
    "otpauth-migration"@
}

pub open spec fn data_key() -> Seq<char> {
    "data"@
}

/// What `base64::decode` gives for a text.
pub uninterp spec fn base64_decoded(s: Seq<char>) -> Option<Seq<u8>>;

/// What `base64::encode_config` gives for bytes, standard alphabet, unpadded.
pub uninterp spec fn base64_encoded(b: Seq<u8>) -> Seq<char>;

/// Relies on `base64::decode` (standard alphabet, padding optional): it fails
/// or succeeds, and with which bytes, by the text alone.
#[verifier::external_body]
fn decode_base64(s: &str) -> (r: Result<Vec<u8>, Base64Error>)
    ensures
        r is Ok <==> base64_decoded(s@) is Some,
        r is Ok ==> base64_decoded(s@) == Some(r->Ok_0@),
{
    match base64::decode(s.as_bytes()) {
        Ok(v) => Ok(v),
        Err(base64::DecodeError::InvalidByte(i, b)) => Err(Base64Error::InvalidByte(i, b)),
        Err(base64::DecodeError::InvalidLength) => Err(Base64Error::InvalidLength),
        Err(base64::DecodeError::InvalidLastSymbol(i, b)) => Err(
            Base64Error::InvalidLastSymbol(i, b),
        ),
    }
}

/// Relies on `base64::encode_config` with the standard alphabet and no
/// padding, and on `base64::decode` reading such a text back to the same bytes.
#[verifier::external_body]
fn encode_base64(b: &[u8]) -> (r: String)
    ensures
        r@ == base64_encoded(b@),
        base64_decoded(r@) == Some(b@),
{
    base64::encode_config(b, base64::Config::new(base64::CharacterSet::Standard, false))
}

/// The values of the `data` parameters, in order.
pub open spec fn data_values(q: Seq<PairView>) -> Seq<Seq<char>>
    decreases q.len(),
{
    if q.len() == 0 {
        seq![]
    } else if q.last().key == data_key() {
        data_values(q.drop_last()).push(q.last().value)
    } else {
        data_values(q.drop_last())
    }
}

/// One blob: base64 text, then a binary batch record.
pub open spec fn decode_blob(v: Seq<char>) -> Result<PayloadView, UrlFault> {
    match base64_decoded(v) {
        None => Err(UrlFault::Base64),
        Some(b) => match decode_payload(b) {
            Err(e) => Err(UrlFault::Binary(e)),
            Ok(m) => Ok(m),
        },
    }
}

/// All blobs in order; the first that fails fails the whole.
pub open spec fn decode_blobs(vs: Seq<Seq<char>>) -> Result<Seq<PayloadView>, UrlFault>
    decreases vs.len(),
{
    if vs.len() == 0 {
        Ok(seq![])
    } else {
        match decode_blobs(vs.drop_last()) {
            Err(e) => Err(e),
            Ok(ms) => match decode_blob(vs.last()) {
                Err(e) => Err(e),
                Ok(m) => Ok(ms.push(m)),
            },
        }
    }
}

/// The batch records that a transfer URL carries.
pub open spec fn decode_url(u: UrlView) -> Result<Seq<PayloadView>, UrlFault> {
    if u.scheme != migration_scheme() {
        Err(UrlFault::Scheme(u.scheme))
    } else {
        decode_blobs(data_values(u.query))
    }
}

/// The transfer URL that carries `ms`, one `data` parameter each, in order.
pub open spec fn url_of(ms: Seq<PayloadView>) -> UrlView {
    UrlView {
        scheme: migration_scheme(),
        host: "offline"@,
        query: ms.map_values(
            |m: PayloadView| PairView { key: data_key(), value: base64_encoded(payload_bytes(m)) },
        ),
    }
}

pub open spec fn views_of(ms: Seq<MigrationPayload>) -> Seq<PayloadView> {
    ms.map_values(|m: MigrationPayload| m@)
}

proof fn lemma_blobs_err_extends(q: Seq<PairView>, i: int, n: int, e: UrlFault)
    requires
        0 <= i <= n <= q.len(),
        decode_blobs(data_values(q.take(i))) == Err::<Seq<PayloadView>, UrlFault>(e),
    ensures
        decode_blobs(data_values(q.take(n))) == Err::<Seq<PayloadView>, UrlFault>(e),
    decreases n - i,
{
    if n > i {
        lemma_blobs_err_extends(q, i, n - 1, e);
        assert(q.take(n).drop_last() =~= q.take(n - 1));
        let vs = data_values(q.take(n - 1));
        if q.take(n).last().key == data_key() {
            assert(vs.push(q.take(n).last().value).drop_last() =~= vs);
        }
    }
}

/// Decodes the batch records of a transfer URL.
pub fn try_one(url: &TransferUrl) -> (r: Result<Vec<MigrationPayload>, OtpMigrationError>)
    ensures
        match r {
            Ok(found) => decode_url(url@) == Ok::<Seq<PayloadView>, UrlFault>(views_of(found@)),
            Err(e) => decode_url(url@) == Err::<Seq<PayloadView>, UrlFault>(fault_of(e)),
        },
        url@.scheme != migration_scheme() ==> (r matches Err(OtpMigrationError::InvalidScheme(s))
            && s@ == url@.scheme),
{
    let scheme = String::from_str("otpauth-migration");
    if !(url.scheme == scheme) {
        return Err(OtpMigrationError::InvalidScheme(url.scheme.clone()));
    }
    let key = String::from_str("data");
    let ghost q = url@.query;
    let mut found: Vec<MigrationPayload> = Vec::new();
    let mut i: usize = 0;
    assert(q.take(0) =~= Seq::<PairView>::empty());
    assert(views_of(found@) =~= Seq::<PayloadView>::empty());
    while i < url.query.len()
        invariant
            i <= url.query@.len(),
            q == url@.query,
            key@ == data_key(),
            url@.scheme == migration_scheme(),
            decode_blobs(data_values(q.take(i as int))) == Ok::<Seq<PayloadView>, UrlFault>(
                views_of(found@),
            ),
        decreases url.query@.len() - i,
    {
        let pair = &url.query[i];
        assert(q.take(i + 1).drop_last() =~= q.take(i as int));
        assert(q.take(i + 1).last() == pair@);
        if pair.key == key {
            let ghost vs = data_values(q.take(i as int));
            assert(data_values(q.take(i + 1)) == vs.push(pair.value@));
            assert(vs.push(pair.value@).drop_last() =~= vs);
            let bytes = match decode_base64(pair.value.as_str()) {
                Ok(b) => b,
                Err(e) => {
                    proof {
                        lemma_blobs_err_extends(q, i + 1, q.len() as int, UrlFault::Base64);
                        assert(q.take(q.len() as int) =~= q);
                    }
                    return Err(OtpMigrationError::Base64DecodeError(e));
                },
            };
            let payload = match MigrationPayload::decode(bytes.as_slice()) {
                Ok(m) => m,
                Err(e) => {
                    proof {
                        lemma_blobs_err_extends(q, i + 1, q.len() as int, UrlFault::Binary(e));
                        assert(q.take(q.len() as int) =~= q);
                    }
                    return Err(OtpMigrationError::ProtobufDecodeError(e));
                },
            };
            let ghost before = views_of(found@);
            found.push(payload);
            assert(views_of(found@) =~= before.push(payload@));
        }
        i = i + 1;
    }
    assert(q.take(i as int) =~= q);
    Ok(found)
}

/// The transfer URL that carries `payloads`, one `data` parameter each, in
/// order; decoding it gives the same records back.
pub fn to_url(payloads: &[MigrationPayload]) -> (r: TransferUrl)
    ensures
        r@ == url_of(views_of(payloads@)),
        decode_url(r@) == Ok::<Seq<PayloadView>, UrlFault>(views_of(payloads@)),
{
    let ghost ms = views_of(payloads@);
    let mut query: Vec<QueryPair> = Vec::new();
    let mut i: usize = 0;
    assert(ms.take(0) =~= Seq::<PayloadView>::empty());
    assert(query@.map_values(|p: QueryPair| p@) =~= url_of(ms.take(0)).query);
    while i < payloads.len()
        invariant
            i <= payloads@.len(),
            ms == views_of(payloads@),
            query@.map_values(|p: QueryPair| p@) == url_of(ms.take(i as int)).query,
            decode_blobs(data_values(query@.map_values(|p: QueryPair| p@))) == Ok::<
                Seq<PayloadView>,
                UrlFault,
            >(ms.take(i as int)),
        decreases payloads@.len() - i,
    {
        let bytes = payloads[i].encode_to_vec();
        let n = bytes.len();
        proof {
            assert(payload_bytes(payloads[i as int]@).len() == n);
            lemma_fits_by_length(payloads[i as int]@);
            lemma_payload_round_trip(payloads[i as int]@);
        }
        let value = encode_base64(bytes.as_slice());
        let pair = QueryPair { key: String::from_str("data"), value };
        let ghost before = query@.map_values(|p: QueryPair| p@);
        query.push(pair);
        let ghost after = query@.map_values(|p: QueryPair| p@);
        assert(after =~= before.push(pair@));
        assert(after.drop_last() =~= before);
        assert(data_values(after) == data_values(before).push(pair@.value));
        assert(data_values(before).push(pair@.value).drop_last() =~= data_values(before));
        assert(ms.take(i + 1) =~= ms.take(i as int).push(ms[i as int]));
        assert(after =~= url_of(ms.take(i + 1)).query);
        i = i + 1;
    }
    assert(ms.take(i as int) =~= ms);
    TransferUrl {
        scheme: String::from_str("otpauth-migration"),
        host: String::from_str("offline"),
        query,
    }
}

/// The query with every parameter other than `data` removed.
pub open spec fn only_data(q: Seq<PairView>) -> Seq<PairView>
    decreases q.len(),
{
    if q.len() == 0 {
        seq![]
    } else if q.last().key == data_key() {
        only_data(q.drop_last()).push(q.last())
    } else {
        only_data(q.drop_last())
    }
}

proof fn lemma_data_values_only_data(q: Seq<PairView>)
    ensures
        data_values(only_data(q)) == data_values(q),
    decreases q.len(),
{
    if q.len() > 0 {
        lemma_data_values_only_data(q.drop_last());
        let r = only_data(q.drop_last());
        if q.last().key == data_key() {
            assert(r.push(q.last()).drop_last() =~= r);
        }
    }
}

/// Query parameters other than `data` do not change what a transfer URL
/// decodes to.
pub proof fn lemma_skip_unrelated(u: UrlView)
    ensures
        decode_url(u) == decode_url(UrlView { query: only_data(u.query), ..u }),
{
    lemma_data_values_only_data(u.query);
}

proof fn lemma_blobs_ok(vs: Seq<Seq<char>>)
    requires
        forall|j: int| 0 <= j < vs.len() ==> (#[trigger] decode_blob(vs[j])) is Ok,
    ensures
        decode_blobs(vs) is Ok,
    decreases vs.len(),
{
    if vs.len() > 0 {
        let front = vs.drop_last();
        assert forall|j: int| 0 <= j < front.len() implies (#[trigger] decode_blob(
            front[j],
        )) is Ok by {
            assert(front[j] == vs[j]);
        }
        lemma_blobs_ok(front);
        assert(decode_blob(vs[vs.len() - 1]) is Ok);
    }
}

proof fn lemma_blobs_fail(vs: Seq<Seq<char>>, i: int)
    requires
        0 <= i < vs.len(),
        decode_blob(vs[i]) is Err,
    ensures
        decode_blobs(vs) is Err,
        (forall|j: int| 0 <= j < i ==> (#[trigger] decode_blob(vs[j])) is Ok) ==> decode_blobs(vs)
            == Err::<Seq<PayloadView>, UrlFault>(decode_blob(vs[i])->Err_0),
    decreases vs.len(),
{
    let front = vs.drop_last();
    if i == vs.len() - 1 {
        if forall|j: int| 0 <= j < i ==> (#[trigger] decode_blob(vs[j])) is Ok {
            assert forall|j: int| 0 <= j < front.len() implies (#[trigger] decode_blob(
                front[j],
            )) is Ok by {
                assert(front[j] == vs[j]);
            }
            lemma_blobs_ok(front);
        }
    } else {
        assert(front[i] == vs[i]);
        lemma_blobs_fail(front, i);
        if forall|j: int| 0 <= j < i ==> (#[trigger] decode_blob(vs[j])) is Ok {
            assert forall|j: int| 0 <= j < i implies (#[trigger] decode_blob(front[j])) is Ok by {
                assert(front[j] == vs[j]);
            }
        }
    }
}

/// A `data` value that is not base64 fails the whole transfer URL, with no
/// records; the failure is `Base64` when every `data` value before it decodes.
pub proof fn lemma_bad_base64_fails(u: UrlView, i: int)
    requires
        u.scheme == migration_scheme(),
        0 <= i < data_values(u.query).len(),
        base64_decoded(data_values(u.query)[i]) is None,
    ensures
        decode_url(u) is Err,
        (forall|j: int| 0 <= j < i ==> (#[trigger] decode_blob(data_values(u.query)[j])) is Ok)
            ==> decode_url(u) == Err::<Seq<PayloadView>, UrlFault>(UrlFault::Base64),
{
    lemma_blobs_fail(data_values(u.query), i);
}

/// The kinds of text that a transfer export may hold, by URL scheme.
#[derive(Debug, Clone, Copy, PartialEq, Eq, Structural)]
pub enum UrlKind {
    /// A transfer URL, for `try_one`.
    Migration,
    /// A single-credential URL.
    Single,
    /// Any other scheme.
    Other,
}

pub open spec fn single_scheme() -> Seq<char> {
    "otpauth"@
}

/// Routes a parsed URL by its scheme.
pub fn url_kind(scheme: &String) -> (r: UrlKind)
    ensures
        r == (if scheme@ == migration_scheme() {
            UrlKind::Migration
        } else if scheme@ == single_scheme() {
            UrlKind::Single
        } else {
            UrlKind::Other
        }),
{
    if *scheme == String::from_str("otpauth-migration") {
        UrlKind::Migration
    } else if *scheme == String::from_str("otpauth") {
        UrlKind::Single
    } else {
        UrlKind::Other
    }
}

} // verus!
