//! The batch record and its credential entries, with their binary codec.
use vstd::prelude::*;
use vstd::utf8::*;
use crate::wire::{
    field_at, has_at, int32_of_wire, int_field, len_field, lemma_has_at_concat, lemma_int32_round_trip,
    lemma_int_field_at, lemma_len_field_at, opt_len_field, read_field, two64, write_int_field,
    write_len_field, write_opt_len_field, FieldAt, LEN, VARINT,
};

verus! {

/// One credential entry of a batch, as it stands on the wire.
#[derive(Debug, Clone, PartialEq, Eq)]
pub struct OtpParameters {
    pub secret: Vec<u8>,
    pub name: String,
    pub issuer: String,
    pub algorithm: i32,
    pub digits: i32,
    pub otp_type: i32,
}

/// The meaning of an `OtpParameters`.
pub struct ParamsView {
    pub secret: Seq<u8>,
    pub name: Seq<char>,
    pub issuer: Seq<char>,
    pub algorithm: i32,
    pub digits: i32,
    pub otp_type: i32,
}

impl View for OtpParameters {
    type V = ParamsView;

    open spec fn view(&self) -> ParamsView {
        ParamsView {
            secret: self.secret@,
            name: self.name@,
            issuer: self.issuer@,
            algorithm: self.algorithm,
            digits: self.digits,
            otp_type: self.otp_type,
        }
    }
}

/// One decoded blob: batch metadata and the credential entries it lists.
#[derive(Debug, Clone, PartialEq, Eq)]
pub struct MigrationPayload {
    pub otp_parameters: Vec<OtpParameters>,
    pub version: i32,
    pub batch_size: i32,
    pub batch_index: i32,
    pub batch_id: i32,
}

/// The meaning of a `MigrationPayload`.
pub struct PayloadView {
    pub params: Seq<ParamsView>,
    pub version: i32,
    pub batch_size: i32,
    pub batch_index: i32,
    pub batch_id: i32,
}

impl View for MigrationPayload {
    type V = PayloadView;

    open spec fn view(&self) -> PayloadView {
        PayloadView {
            params: self.otp_parameters@.map_values(|p: OtpParameters| p@),
            version: self.version,
            batch_size: self.batch_size,
            batch_index: self.batch_index,
            batch_id: self.batch_id,
        }
    }
}

/// Field numbers of a credential entry.
pub const SECRET: u64 = 1;
pub const NAME: u64 = 2;
pub const ISSUER: u64 = 3;
pub const ALGORITHM: u64 = 4;
pub const DIGITS: u64 = 5;
pub const OTP_TYPE: u64 = 6;

/// Field numbers of a batch record.
pub const OTP_PARAMETERS: u64 = 1;
pub const VERSION: u64 = 2;
pub const BATCH_SIZE: u64 = 3;
pub const BATCH_INDEX: u64 = 4;
pub const BATCH_ID: u64 = 5;

pub open spec fn empty_params() -> ParamsView {
    ParamsView {
        secret: seq![],
        name: seq![],
        issuer: seq![],
        algorithm: 0,
        digits: 0,
        otp_type: 0,
    }
}

pub open spec fn empty_payload() -> PayloadView {
    PayloadView { params: seq![], version: 0, batch_size: 0, batch_index: 0, batch_id: 0 }
}

/// The entry `acc` after field `f` of `b` is read into it. A known field
/// with the wrong wire type, or a text field that is not UTF-8, is an error;
/// unknown fields leave the entry unchanged.
pub open spec fn params_with(acc: ParamsView, b: Seq<u8>, f: FieldAt) -> Result<ParamsView, DecodeError> {
    let data = b.subrange(f.start, f.end);
    let number = f.number as u64;
    if f.number == SECRET {
        if f.wire == LEN { Ok(ParamsView { secret: data, ..acc }) } else { Err(DecodeError::WrongWireType(number)) }
    } else if f.number == NAME || f.number == ISSUER {
        if f.wire != LEN {
            Err(DecodeError::WrongWireType(number))
        } else if !valid_utf8(data) {
            Err(DecodeError::InvalidUtf8(number))
        } else if f.number == NAME {
            Ok(ParamsView { name: decode_utf8(data), ..acc })
        } else {
            Ok(ParamsView { issuer: decode_utf8(data), ..acc })
        }
    } else if f.number == ALGORITHM || f.number == DIGITS || f.number == OTP_TYPE {
        if f.wire != VARINT {
            Err(DecodeError::WrongWireType(number))
        } else if f.number == ALGORITHM {
            Ok(ParamsView { algorithm: int32_of_wire(f.value), ..acc })
        } else if f.number == DIGITS {
            Ok(ParamsView { digits: int32_of_wire(f.value), ..acc })
        } else {
            Ok(ParamsView { otp_type: int32_of_wire(f.value), ..acc })
        }
    } else {
        Ok(acc)
    }
}

/// The entry decoded from the fields of `b` from `pos` on, starting from `acc`.
pub open spec fn params_from(b: Seq<u8>, pos: int, acc: ParamsView) -> Result<ParamsView, DecodeError>
    decreases b.len() - pos,
{
    if pos >= b.len() {
        Ok(acc)
    } else {
        match field_at(b, pos) {
            None => Err(DecodeError::Malformed),
            Some(f) => if pos < f.end <= b.len() {
                match params_with(acc, b, f) {
                    Err(e) => Err(e),
                    Ok(a) => params_from(b, f.end, a),
                }
            } else {
                Err(DecodeError::Malformed)
            },
        }
    }
}

/// The credential entry that `b` encodes, or why it is not a well-formed message.
pub open spec fn decode_params(b: Seq<u8>) -> Result<ParamsView, DecodeError> {
    params_from(b, 0, empty_params())
}

/// The record `acc` after field `f` of `b` is read into it.
pub open spec fn payload_with(acc: PayloadView, b: Seq<u8>, f: FieldAt) -> Result<PayloadView, DecodeError> {
    let number = f.number as u64;
    if f.number == OTP_PARAMETERS {
        if f.wire == LEN {
            match decode_params(b.subrange(f.start, f.end)) {
                Err(e) => Err(e),
                Ok(p) => Ok(PayloadView { params: acc.params.push(p), ..acc }),
            }
        } else {
            Err(DecodeError::WrongWireType(number))
        }
    } else if f.number == VERSION || f.number == BATCH_SIZE || f.number == BATCH_INDEX
        || f.number == BATCH_ID {
        if f.wire != VARINT {
            Err(DecodeError::WrongWireType(number))
        } else if f.number == VERSION {
            Ok(PayloadView { version: int32_of_wire(f.value), ..acc })
        } else if f.number == BATCH_SIZE {
            Ok(PayloadView { batch_size: int32_of_wire(f.value), ..acc })
        } else if f.number == BATCH_INDEX {
            Ok(PayloadView { batch_index: int32_of_wire(f.value), ..acc })
        } else {
            Ok(PayloadView { batch_id: int32_of_wire(f.value), ..acc })
        }
    } else {
        Ok(acc)
    }
}

/// The record decoded from the fields of `b` from `pos` on, starting from `acc`.
pub open spec fn payload_from(b: Seq<u8>, pos: int, acc: PayloadView) -> Result<PayloadView, DecodeError>
    decreases b.len() - pos,
{
    if pos >= b.len() {
        Ok(acc)
    } else {
        match field_at(b, pos) {
            None => Err(DecodeError::Malformed),
            Some(f) => if pos < f.end <= b.len() {
                match payload_with(acc, b, f) {
                    Err(e) => Err(e),
                    Ok(a) => payload_from(b, f.end, a),
                }
            } else {
                Err(DecodeError::Malformed)
            },
        }
    }
}

/// The batch record that `b` encodes, or why it is not a well-formed message.
pub open spec fn decode_payload(b: Seq<u8>) -> Result<PayloadView, DecodeError> {
    payload_from(b, 0, empty_payload())
}

/// The encoding of a credential entry: fields in number order, defaults left out.
pub open spec fn params_bytes(p: ParamsView) -> Seq<u8> {
    opt_len_field(SECRET as nat, p.secret) + opt_len_field(NAME as nat, encode_utf8(p.name))
        + opt_len_field(ISSUER as nat, encode_utf8(p.issuer)) + int_field(ALGORITHM as nat, p.algorithm)
        + int_field(DIGITS as nat, p.digits) + int_field(OTP_TYPE as nat, p.otp_type)
}

/// The encoding of a list of entries, one length-delimited field each, in order.
pub open spec fn entries_bytes(ps: Seq<ParamsView>) -> Seq<u8>
    decreases ps.len(),
{
    if ps.len() == 0 {
        seq![]
    } else {
        entries_bytes(ps.drop_last()) + len_field(OTP_PARAMETERS as nat, params_bytes(ps.last()))
    }
}

/// The encoding of a batch record.
pub open spec fn payload_bytes(m: PayloadView) -> Seq<u8> {
    entries_bytes(m.params) + int_field(VERSION as nat, m.version) + int_field(
        BATCH_SIZE as nat,
        m.batch_size,
    ) + int_field(BATCH_INDEX as nat, m.batch_index) + int_field(BATCH_ID as nat, m.batch_id)
}

/// Why a binary message could not be decoded.
#[derive(Debug, Clone, Copy, PartialEq, Eq, Structural)]
pub enum DecodeError {
    /// Malformed framing: a bad varint or key, a group or undefined wire
    /// type, or a field that runs past the end.
    Malformed,
    /// A known field, by number, with another wire type than its own.
    WrongWireType(u64),
    /// A text field, by number, that is not UTF-8.
    InvalidUtf8(u64),
}

/// Relies on `String::from_utf8`: it succeeds exactly on UTF-8 bytes, and
/// then holds the characters they encode.
#[verifier::external_body]
fn utf8_string(v: Vec<u8>) -> (r: Option<String>)
    ensures
        r is Some <==> valid_utf8(v@),
        r is Some ==> r->0@ == decode_utf8(v@),
{
    String::from_utf8(v).ok()
}

/// A copy of `b[start..end]`.
fn copy_range(b: &[u8], start: usize, end: usize) -> (r: Vec<u8>)
    requires
        start <= end <= b@.len(),
    ensures
        r@ == b@.subrange(start as int, end as int),
{
    let mut r: Vec<u8> = Vec::new();
    let mut i: usize = start;
    while i < end
        invariant
            start <= i <= end <= b@.len(),
            r@ == b@.subrange(start as int, i as int),
        decreases end - i,
    {
        r.push(b[i]);
        i = i + 1;
        assert(r@ =~= b@.subrange(start as int, i as int));
    }
    r
}

/// The integer that a varint field holds, cut to 32 bits as the format asks.
fn int32_from_wire(v: u64) -> (r: i32)
    ensures
        r == int32_of_wire(v as nat),
{
    let m: u64 = v % 0x1_0000_0000;
    if m < 0x8000_0000 {
        m as i32
    } else {
        (m as i64 - 0x1_0000_0000) as i32
    }
}

impl OtpParameters {
    /// Decodes one credential entry.
    pub fn decode(b: &[u8]) -> (r: Result<OtpParameters, DecodeError>)
        ensures
            match r {
                Ok(p) => decode_params(b@) == Ok::<ParamsView, DecodeError>(p@),
                Err(e) => decode_params(b@) == Err::<ParamsView, DecodeError>(e),
            },
    {
        let mut acc = OtpParameters {
            secret: Vec::new(),
            name: String::new(),
            issuer: String::new(),
            algorithm: 0,
            digits: 0,
            otp_type: 0,
        };
        assert(acc@.secret =~= empty_params().secret);
        let mut pos: usize = 0;
        while pos < b.len()
            invariant
                pos <= b@.len(),
                params_from(b@, pos as int, acc@) == decode_params(b@),
            decreases b@.len() - pos,
        {
            let f = match read_field(b, pos) {
                None => return Err(DecodeError::Malformed),
                Some(f) => f,
            };
            let ghost old_acc = acc@;
            if f.number == SECRET {
                if f.wire != LEN {
                    return Err(DecodeError::WrongWireType(f.number));
                }
                acc.secret = copy_range(b, f.start, f.end);
            } else if f.number == NAME || f.number == ISSUER {
                if f.wire != LEN {
                    return Err(DecodeError::WrongWireType(f.number));
                }
                let text = match utf8_string(copy_range(b, f.start, f.end)) {
                    None => return Err(DecodeError::InvalidUtf8(f.number)),
                    Some(t) => t,
                };
                if f.number == NAME {
                    acc.name = text;
                } else {
                    acc.issuer = text;
                }
            } else if f.number == ALGORITHM || f.number == DIGITS || f.number == OTP_TYPE {
                if f.wire != VARINT {
                    return Err(DecodeError::WrongWireType(f.number));
                }
                let x = int32_from_wire(f.value);
                if f.number == ALGORITHM {
                    acc.algorithm = x;
                } else if f.number == DIGITS {
                    acc.digits = x;
                } else {
                    acc.otp_type = x;
                }
            }
            assert(params_with(old_acc, b@, f@) == Ok::<ParamsView, DecodeError>(acc@));
            pos = f.end;
        }
        Ok(acc)
    }

    /// Appends the encoding of this entry.
    pub fn encode_into(&self, out: &mut Vec<u8>)
        ensures
            final(out)@ == old(out)@ + params_bytes(self@),
    {
        write_opt_len_field(out, SECRET, self.secret.as_slice());
        write_opt_len_field(out, NAME, self.name.as_str().as_bytes());
        write_opt_len_field(out, ISSUER, self.issuer.as_str().as_bytes());
        write_int_field(out, ALGORITHM, self.algorithm);
        write_int_field(out, DIGITS, self.digits);
        write_int_field(out, OTP_TYPE, self.otp_type);
        assert(final(out)@ =~= old(out)@ + params_bytes(self@));
    }

    /// The encoding of this entry.
    pub fn encode_to_vec(&self) -> (r: Vec<u8>)
        ensures
            r@ == params_bytes(self@),
    {
        let mut out: Vec<u8> = Vec::new();
        self.encode_into(&mut out);
        assert(out@ =~= params_bytes(self@));
        out
    }
}

impl MigrationPayload {
    /// Decodes one batch record.
    pub fn decode(b: &[u8]) -> (r: Result<MigrationPayload, DecodeError>)
        ensures
            match r {
                Ok(m) => decode_payload(b@) == Ok::<PayloadView, DecodeError>(m@),
                Err(e) => decode_payload(b@) == Err::<PayloadView, DecodeError>(e),
            },
    {
        let mut acc = MigrationPayload {
            otp_parameters: Vec::new(),
            version: 0,
            batch_size: 0,
            batch_index: 0,
            batch_id: 0,
        };
        assert(acc@.params =~= empty_payload().params);
        let mut pos: usize = 0;
        while pos < b.len()
            invariant
                pos <= b@.len(),
                payload_from(b@, pos as int, acc@) == decode_payload(b@),
            decreases b@.len() - pos,
        {
            let f = match read_field(b, pos) {
                None => return Err(DecodeError::Malformed),
                Some(f) => f,
            };
            let ghost old_acc = acc@;
            if f.number == OTP_PARAMETERS {
                if f.wire != LEN {
                    return Err(DecodeError::WrongWireType(f.number));
                }
                let inner = copy_range(b, f.start, f.end);
                let p = match OtpParameters::decode(inner.as_slice()) {
                    Err(e) => return Err(e),
                    Ok(p) => p,
                };
                acc.otp_parameters.push(p);
                assert(acc@.params =~= old_acc.params.push(p@));
            } else if f.number == VERSION || f.number == BATCH_SIZE || f.number == BATCH_INDEX
                || f.number == BATCH_ID {
                if f.wire != VARINT {
                    return Err(DecodeError::WrongWireType(f.number));
                }
                let x = int32_from_wire(f.value);
                if f.number == VERSION {
                    acc.version = x;
                } else if f.number == BATCH_SIZE {
                    acc.batch_size = x;
                } else if f.number == BATCH_INDEX {
                    acc.batch_index = x;
                } else {
                    acc.batch_id = x;
                }
            }
            assert(payload_with(old_acc, b@, f@) == Ok::<PayloadView, DecodeError>(acc@));
            pos = f.end;
        }
        Ok(acc)
    }

    /// The encoding of this record: its entries in order, then the batch fields.
    pub fn encode_to_vec(&self) -> (r: Vec<u8>)
        ensures
            r@ == payload_bytes(self@),
    {
        let mut out: Vec<u8> = Vec::new();
        let ghost ps = self@.params;
        let mut i: usize = 0;
        while i < self.otp_parameters.len()
            invariant
                i <= self.otp_parameters@.len(),
                ps == self@.params,
                out@ == entries_bytes(ps.take(i as int)),
            decreases self.otp_parameters@.len() - i,
        {
            let inner = self.otp_parameters[i].encode_to_vec();
            write_len_field(&mut out, OTP_PARAMETERS, inner.as_slice());
            assert(ps.take(i + 1).drop_last() =~= ps.take(i as int));
            i = i + 1;
        }
        assert(ps.take(i as int) =~= ps);
        write_int_field(&mut out, VERSION, self.version);
        write_int_field(&mut out, BATCH_SIZE, self.batch_size);
        write_int_field(&mut out, BATCH_INDEX, self.batch_index);
        write_int_field(&mut out, BATCH_ID, self.batch_id);
        assert(out@ =~= payload_bytes(self@));
        out
    }
}

/// A credential entry whose encoding fits the format's 64-bit lengths.
pub open spec fn params_fit(p: ParamsView) -> bool {
    params_bytes(p).len() < two64()
}

/// A batch record all of whose entries fit the format's 64-bit lengths.
pub open spec fn payload_fits(m: PayloadView) -> bool {
    forall|i: int| 0 <= i < m.params.len() ==> params_fit(#[trigger] m.params[i])
}

proof fn lemma_has_all(b: Seq<u8>)
    ensures
        has_at(b, 0, b),
{
    assert(b.subrange(0, b.len() as int) =~= b);
}

proof fn lemma_text_round_trip(name: Seq<char>)
    ensures
        valid_utf8(encode_utf8(name)),
        decode_utf8(encode_utf8(name)) == name,
{
    encode_utf8_valid_utf8(name);
    encode_utf8_decode_utf8(name);
}

proof fn lemma_secret_step(b: Seq<u8>, pos: int, d: Seq<u8>, acc: ParamsView)
    requires
        d.len() < two64(),
        has_at(b, pos, opt_len_field(SECRET as nat, d)),
        acc.secret == Seq::<u8>::empty(),
    ensures
        params_from(b, pos, acc) == params_from(
            b,
            pos + opt_len_field(SECRET as nat, d).len(),
            ParamsView { secret: d, ..acc },
        ),
{
    if d.len() == 0 {
        assert(ParamsView { secret: d, ..acc } == acc) by {
            assert(d =~= acc.secret);
        }
    } else {
        lemma_len_field_at(b, pos, SECRET as nat, d);
    }
}

proof fn lemma_name_step(b: Seq<u8>, pos: int, t: Seq<char>, acc: ParamsView)
    requires
        encode_utf8(t).len() < two64(),
        has_at(b, pos, opt_len_field(NAME as nat, encode_utf8(t))),
        acc.name == Seq::<char>::empty(),
    ensures
        params_from(b, pos, acc) == params_from(
            b,
            pos + opt_len_field(NAME as nat, encode_utf8(t)).len(),
            ParamsView { name: t, ..acc },
        ),
{
    lemma_text_round_trip(t);
    if encode_utf8(t).len() == 0 {
        assert(ParamsView { name: t, ..acc } == acc) by {
            assert(encode_utf8(acc.name) =~= encode_utf8(t));
            lemma_text_round_trip(acc.name);
        }
    } else {
        lemma_len_field_at(b, pos, NAME as nat, encode_utf8(t));
    }
}

proof fn lemma_issuer_step(b: Seq<u8>, pos: int, t: Seq<char>, acc: ParamsView)
    requires
        encode_utf8(t).len() < two64(),
        has_at(b, pos, opt_len_field(ISSUER as nat, encode_utf8(t))),
        acc.issuer == Seq::<char>::empty(),
    ensures
        params_from(b, pos, acc) == params_from(
            b,
            pos + opt_len_field(ISSUER as nat, encode_utf8(t)).len(),
            ParamsView { issuer: t, ..acc },
        ),
{
    lemma_text_round_trip(t);
    if encode_utf8(t).len() == 0 {
        assert(ParamsView { issuer: t, ..acc } == acc) by {
            assert(encode_utf8(acc.issuer) =~= encode_utf8(t));
            lemma_text_round_trip(acc.issuer);
        }
    } else {
        lemma_len_field_at(b, pos, ISSUER as nat, encode_utf8(t));
    }
}

proof fn lemma_params_int_step(b: Seq<u8>, pos: int, number: nat, x: i32, acc: ParamsView)
    requires
        number == ALGORITHM || number == DIGITS || number == OTP_TYPE,
        has_at(b, pos, int_field(number, x)),
        number == ALGORITHM ==> acc.algorithm == 0,
        number == DIGITS ==> acc.digits == 0,
        number == OTP_TYPE ==> acc.otp_type == 0,
    ensures
        params_from(b, pos, acc) == params_from(
            b,
            pos + int_field(number, x).len(),
            if number == ALGORITHM {
                ParamsView { algorithm: x, ..acc }
            } else if number == DIGITS {
                ParamsView { digits: x, ..acc }
            } else {
                ParamsView { otp_type: x, ..acc }
            },
        ),
{
    if x != 0 {
        lemma_int_field_at(b, pos, number, x);
        lemma_int32_round_trip(x);
    }
}

/// Decoding the encoding of a credential entry gives the entry back.
pub proof fn lemma_params_round_trip(p: ParamsView)
    requires
        params_fit(p),
    ensures
        decode_params(params_bytes(p)) == Ok::<ParamsView, DecodeError>(p),
{
    let b = params_bytes(p);
    let f1 = opt_len_field(SECRET as nat, p.secret);
    let f2 = opt_len_field(NAME as nat, encode_utf8(p.name));
    let f3 = opt_len_field(ISSUER as nat, encode_utf8(p.issuer));
    let f4 = int_field(ALGORITHM as nat, p.algorithm);
    let f5 = int_field(DIGITS as nat, p.digits);
    let f6 = int_field(OTP_TYPE as nat, p.otp_type);
    lemma_has_all(b);
    lemma_has_at_concat(b, 0, f1 + f2 + f3 + f4 + f5, f6);
    lemma_has_at_concat(b, 0, f1 + f2 + f3 + f4, f5);
    lemma_has_at_concat(b, 0, f1 + f2 + f3, f4);
    lemma_has_at_concat(b, 0, f1 + f2, f3);
    lemma_has_at_concat(b, 0, f1, f2);
    let p1 = f1.len() as int;
    let p2 = p1 + f2.len();
    let p3 = p2 + f3.len();
    let p4 = p3 + f4.len();
    let p5 = p4 + f5.len();
    let a0 = empty_params();
    let a1 = ParamsView { secret: p.secret, ..a0 };
    let a2 = ParamsView { name: p.name, ..a1 };
    let a3 = ParamsView { issuer: p.issuer, ..a2 };
    let a4 = ParamsView { algorithm: p.algorithm, ..a3 };
    let a5 = ParamsView { digits: p.digits, ..a4 };
    let a6 = ParamsView { otp_type: p.otp_type, ..a5 };
    lemma_secret_step(b, 0, p.secret, a0);
    lemma_name_step(b, p1, p.name, a1);
    lemma_issuer_step(b, p2, p.issuer, a2);
    lemma_params_int_step(b, p3, ALGORITHM as nat, p.algorithm, a3);
    lemma_params_int_step(b, p4, DIGITS as nat, p.digits, a4);
    lemma_params_int_step(b, p5, OTP_TYPE as nat, p.otp_type, a5);
    assert(params_from(b, b.len() as int, a6) == Ok::<ParamsView, DecodeError>(a6));
    assert(a6 == p);
}

proof fn lemma_entries_step(b: Seq<u8>, pos: int, ps: Seq<ParamsView>, acc: PayloadView)
    requires
        forall|i: int| 0 <= i < ps.len() ==> params_fit(#[trigger] ps[i]),
        has_at(b, pos, entries_bytes(ps)),
    ensures
        payload_from(b, pos, acc) == payload_from(
            b,
            pos + entries_bytes(ps).len(),
            PayloadView { params: acc.params + ps, ..acc },
        ),
    decreases ps.len(),
{
    if ps.len() == 0 {
        assert(acc.params + ps =~= acc.params);
    } else {
        let front = ps.drop_last();
        let last = ps.last();
        let e = len_field(OTP_PARAMETERS as nat, params_bytes(last));
        lemma_has_at_concat(b, pos, entries_bytes(front), e);
        assert forall|i: int| 0 <= i < front.len() implies params_fit(#[trigger] front[i]) by {
            assert(front[i] == ps[i]);
        }
        lemma_entries_step(b, pos, front, acc);
        let mid = PayloadView { params: acc.params + front, ..acc };
        let q = pos + entries_bytes(front).len();
        assert(params_fit(ps[ps.len() - 1]));
        lemma_len_field_at(b, q, OTP_PARAMETERS as nat, params_bytes(last));
        lemma_params_round_trip(last);
        assert(mid.params.push(last) =~= acc.params + ps);
    }
}

proof fn lemma_payload_int_step(b: Seq<u8>, pos: int, number: nat, x: i32, acc: PayloadView)
    requires
        number == VERSION || number == BATCH_SIZE || number == BATCH_INDEX || number == BATCH_ID,
        has_at(b, pos, int_field(number, x)),
        number == VERSION ==> acc.version == 0,
        number == BATCH_SIZE ==> acc.batch_size == 0,
        number == BATCH_INDEX ==> acc.batch_index == 0,
        number == BATCH_ID ==> acc.batch_id == 0,
    ensures
        payload_from(b, pos, acc) == payload_from(
            b,
            pos + int_field(number, x).len(),
            if number == VERSION {
                PayloadView { version: x, ..acc }
            } else if number == BATCH_SIZE {
                PayloadView { batch_size: x, ..acc }
            } else if number == BATCH_INDEX {
                PayloadView { batch_index: x, ..acc }
            } else {
                PayloadView { batch_id: x, ..acc }
            },
        ),
{
    if x != 0 {
        lemma_int_field_at(b, pos, number, x);
        lemma_int32_round_trip(x);
    }
}

/// Decoding the encoding of a batch record gives the record back.
pub proof fn lemma_payload_round_trip(m: PayloadView)
    requires
        payload_fits(m),
    ensures
        decode_payload(payload_bytes(m)) == Ok::<PayloadView, DecodeError>(m),
{
    let b = payload_bytes(m);
    let f1 = entries_bytes(m.params);
    let f2 = int_field(VERSION as nat, m.version);
    let f3 = int_field(BATCH_SIZE as nat, m.batch_size);
    let f4 = int_field(BATCH_INDEX as nat, m.batch_index);
    let f5 = int_field(BATCH_ID as nat, m.batch_id);
    lemma_has_all(b);
    lemma_has_at_concat(b, 0, f1 + f2 + f3 + f4, f5);
    lemma_has_at_concat(b, 0, f1 + f2 + f3, f4);
    lemma_has_at_concat(b, 0, f1 + f2, f3);
    lemma_has_at_concat(b, 0, f1, f2);
    let p1 = f1.len() as int;
    let p2 = p1 + f2.len();
    let p3 = p2 + f3.len();
    let p4 = p3 + f4.len();
    let a0 = empty_payload();
    let a1 = PayloadView { params: a0.params + m.params, ..a0 };
    let a2 = PayloadView { version: m.version, ..a1 };
    let a3 = PayloadView { batch_size: m.batch_size, ..a2 };
    let a4 = PayloadView { batch_index: m.batch_index, ..a3 };
    let a5 = PayloadView { batch_id: m.batch_id, ..a4 };
    lemma_entries_step(b, 0, m.params, a0);
    lemma_payload_int_step(b, p1, VERSION as nat, m.version, a1);
    lemma_payload_int_step(b, p2, BATCH_SIZE as nat, m.batch_size, a2);
    lemma_payload_int_step(b, p3, BATCH_INDEX as nat, m.batch_index, a3);
    lemma_payload_int_step(b, p4, BATCH_ID as nat, m.batch_id, a4);
    assert(payload_from(b, b.len() as int, a5) == Ok::<PayloadView, DecodeError>(a5));
    assert(a0.params + m.params =~= m.params);
    assert(a5 == m);
}

proof fn lemma_entries_len(ps: Seq<ParamsView>, i: int)
    requires
        0 <= i < ps.len(),
    ensures
        params_bytes(ps[i]).len() <= entries_bytes(ps).len(),
    decreases ps.len(),
{
    if i < ps.len() - 1 {
        lemma_entries_len(ps.drop_last(), i);
    }
}

/// A record whose whole encoding has a 64-bit length fits the format.
pub proof fn lemma_fits_by_length(m: PayloadView)
    requires
        payload_bytes(m).len() < two64(),
    ensures
        payload_fits(m),
{
    assert forall|i: int| 0 <= i < m.params.len() implies params_fit(#[trigger] m.params[i]) by {
        lemma_entries_len(m.params, i);
    }
}

} // verus!
