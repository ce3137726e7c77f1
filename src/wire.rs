//! Framing of the field-tagged binary message format: base-128 integers,
//! field keys, and the span that each field occupies.
use vstd::prelude::*;

verus! {

/// 2^64: the first value that no 64-bit varint can carry.
pub open spec fn two64() -> nat {
    0x1_0000_0000_0000_0000
}

/// 128^k.
pub open spec fn pow128(k: nat) -> nat
    decreases k,
{
    if k == 0 {
        1
    } else {
        128 * pow128((k - 1) as nat)
    }
}

/// The varint that starts at `pos`, as (value, length in bytes); `None` when it
/// runs past the end, takes more than `budget` bytes, or does not fit in 64 bits.
pub open spec fn varint_at(b: Seq<u8>, pos: int, budget: nat) -> Option<(nat, nat)>
    decreases budget,
{
    if budget == 0 || pos < 0 || pos >= b.len() {
        None
    } else if b[pos] < 128 {
        Some((b[pos] as nat, 1))
    } else {
        match varint_at(b, pos + 1, (budget - 1) as nat) {
            None => None,
            Some((v, n)) => {
                let w = (b[pos] - 128) as nat + 128 * v;
                if w < two64() {
                    Some((w, n + 1))
                } else {
                    None
                }
            },
        }
    }
}

/// The shortest varint encoding of `v`: seven bits per byte, low bits first.
pub open spec fn varint_bytes(v: nat) -> Seq<u8>
    decreases v,
{
    if v < 128 {
        seq![v as u8]
    } else {
        seq![(v % 128 + 128) as u8] + varint_bytes(v / 128)
    }
}

/// `e` stands in `b` from position `pos` on.
pub open spec fn has_at(b: Seq<u8>, pos: int, e: Seq<u8>) -> bool {
    0 <= pos && pos + e.len() <= b.len() && b.subrange(pos, pos + e.len()) == e
}

/// The 64-bit wire value of a 32-bit signed integer (sign-extended).
pub open spec fn wire_of_int32(x: i32) -> nat {
    if x >= 0 {
        x as nat
    } else {
        (x + two64()) as nat
    }
}

/// The 32-bit signed integer that a wire value stands for (its low 32 bits).
pub open spec fn int32_of_wire(v: nat) -> i32 {
    let m = v % 0x1_0000_0000;
    if m < 0x8000_0000 {
        m as i32
    } else {
        (m - 0x1_0000_0000) as i32
    }
}

pub proof fn lemma_has_at_concat(b: Seq<u8>, pos: int, e1: Seq<u8>, e2: Seq<u8>)
    requires
        has_at(b, pos, e1 + e2),
    ensures
        has_at(b, pos, e1),
        has_at(b, pos + e1.len(), e2),
{
    let whole = b.subrange(pos, pos + e1.len() + e2.len());
    assert(b.subrange(pos, pos + e1.len()) =~= whole.subrange(0, e1.len() as int));
    assert((e1 + e2).subrange(0, e1.len() as int) =~= e1);
    assert(b.subrange(pos + e1.len(), pos + e1.len() + e2.len()) =~= whole.subrange(
        e1.len() as int,
        (e1.len() + e2.len()) as int,
    ));
    assert((e1 + e2).subrange(e1.len() as int, (e1.len() + e2.len()) as int) =~= e2);
}

pub proof fn lemma_varint_len(v: nat, k: nat)
    requires
        v < pow128(k),
        k >= 1,
    ensures
        varint_bytes(v).len() <= k,
    decreases v,
{
    if v >= 128 {
        assert(k >= 2) by {
            if k == 1 {
                reveal_with_fuel(pow128, 2);
            }
        }
        assert(v / 128 < pow128((k - 1) as nat)) by (nonlinear_arith)
            requires
                v < pow128(k),
                pow128(k) == 128 * pow128((k - 1) as nat),
        ;
        lemma_varint_len(v / 128, (k - 1) as nat);
    }
}

pub proof fn lemma_varint_len_64(v: nat)
    requires
        v < two64(),
    ensures
        1 <= varint_bytes(v).len() <= 10,
{
    assert(pow128(0) == 1);
    assert(pow128(1) == 0x80);
    assert(pow128(2) == 0x4000);
    assert(pow128(3) == 0x20_0000);
    assert(pow128(4) == 0x1000_0000);
    assert(pow128(5) == 0x8_0000_0000);
    assert(pow128(6) == 0x400_0000_0000);
    assert(pow128(7) == 0x2_0000_0000_0000);
    assert(pow128(8) == 0x100_0000_0000_0000);
    assert(pow128(9) == 0x8000_0000_0000_0000);
    assert(pow128(10) == 0x40_0000_0000_0000_0000);
    lemma_varint_len(v, 10);
}

pub proof fn lemma_varint_at(b: Seq<u8>, pos: int, v: nat, budget: nat)
    requires
        v < two64(),
        has_at(b, pos, varint_bytes(v)),
        varint_bytes(v).len() <= budget,
    ensures
        varint_at(b, pos, budget) == Some((v, varint_bytes(v).len())),
    decreases v,
{
    let e = varint_bytes(v);
    assert(b[pos] == e[0]) by {
        assert(b.subrange(pos, pos + e.len())[0] == b[pos]);
    }
    if v >= 128 {
        let first = seq![(v % 128 + 128) as u8];
        lemma_has_at_concat(b, pos, first, varint_bytes(v / 128));
        lemma_varint_at(b, pos + 1, v / 128, (budget - 1) as nat);
    }
}

pub proof fn lemma_int32_round_trip(x: i32)
    ensures
        wire_of_int32(x) < two64(),
        int32_of_wire(wire_of_int32(x)) == x,
{
    if x < 0 {
        let v = wire_of_int32(x);
        let low = (x + 0x1_0000_0000) as nat;
        assert(v == low + 0xffff_ffff * 0x1_0000_0000);
        vstd::arithmetic::div_mod::lemma_mod_multiples_vanish(
            0xffff_ffff,
            low as int,
            0x1_0000_0000,
        );
        vstd::arithmetic::div_mod::lemma_small_mod(low, 0x1_0000_0000);
    }
}

/// Reads the varint at `pos`, taking at most `budget` bytes.
pub fn read_varint(b: &[u8], pos: usize, budget: usize) -> (r: Option<(u64, usize)>)
    ensures
        match r {
            None => varint_at(b@, pos as int, budget as nat) is None,
            Some((v, n)) => {
                &&& varint_at(b@, pos as int, budget as nat) == Some((v as nat, n as nat))
                &&& 1 <= n <= budget
                &&& pos + n <= b@.len()
            },
        },
    decreases budget,
{
    if budget == 0 || pos >= b.len() {
        return None;
    }
    let x = b[pos];
    if x < 128 {
        return Some((x as u64, 1));
    }
    match read_varint(b, pos + 1, budget - 1) {
        None => None,
        Some((v, n)) => {
            let low = (x - 128) as u64;
            if v > (u64::MAX - low) / 128 {
                assert(low + 128 * (v as nat) >= two64()) by (nonlinear_arith)
                    requires
                        v > (0xffff_ffff_ffff_ffffu64 - low) / 128,
                        low < 128,
                ;
                None
            } else {
                assert(low + 128 * (v as nat) < two64()) by (nonlinear_arith)
                    requires
                        v <= (0xffff_ffff_ffff_ffffu64 - low) / 128,
                        low < 128,
                ;
                Some((low + 128 * v, n + 1))
            }
        },
    }
}

/// Appends the varint encoding of `v`.
pub fn write_varint(out: &mut Vec<u8>, v: u64)
    ensures
        final(out)@ == old(out)@ + varint_bytes(v as nat),
    decreases v,
{
    if v < 128 {
        out.push(v as u8);
    } else {
        out.push((v % 128 + 128) as u8);
        write_varint(out, v / 128);
        assert(final(out)@ =~= old(out)@ + varint_bytes(v as nat));
    }
}

/// Wire type of a varint field.
pub const VARINT: u64 = 0;

/// Wire type of an eight-byte field.
pub const FIXED64: u64 = 1;

/// Wire type of a length-delimited field.
pub const LEN: u64 = 2;

/// Wire type of a four-byte field.
pub const FIXED32: u64 = 5;

/// One field as it stands in a buffer: its number, its wire type, the varint
/// value (or the declared length, for a length-delimited field), the span of
/// its payload bytes, and where the next field starts (`end`).
pub struct FieldAt {
    pub number: nat,
    pub wire: nat,
    pub value: nat,
    pub start: int,
    pub end: int,
}

/// The field whose key starts at `pos`, or `None` when its framing is malformed:
/// a bad varint, a key past 32 bits, field number 0, a wire type other than
/// varint, eight-byte, length-delimited or four-byte, or a payload that runs
/// past the end. Unknown fields of those four wire types are skipped by their
/// length. The group wire types (3 and 4) are refused: groups carry no length,
/// are deprecated in the format, and the migration message defines none, so a
/// blob that holds one is not a migration export.
pub open spec fn field_at(b: Seq<u8>, pos: int) -> Option<FieldAt> {
    match varint_at(b, pos, 10) {
        None => None,
        Some((key, n)) => {
            let number = key / 8;
            let wire = key % 8;
            let p = pos + n;
            if key > 0xffff_ffff || number == 0 {
                None
            } else if wire == VARINT {
                match varint_at(b, p, 10) {
                    None => None,
                    Some((v, m)) => Some(FieldAt { number, wire, value: v, start: p + m, end: p + m }),
                }
            } else if wire == FIXED64 {
                if p + 8 <= b.len() {
                    Some(FieldAt { number, wire, value: 0, start: p, end: p + 8 })
                } else {
                    None
                }
            } else if wire == FIXED32 {
                if p + 4 <= b.len() {
                    Some(FieldAt { number, wire, value: 0, start: p, end: p + 4 })
                } else {
                    None
                }
            } else if wire == LEN {
                match varint_at(b, p, 10) {
                    None => None,
                    Some((l, m)) => if p + m + l <= b.len() {
                        Some(FieldAt { number, wire, value: l, start: p + m, end: p + m + l })
                    } else {
                        None
                    },
                }
            } else {
                None
            }
        },
    }
}

/// The key of a field.
pub open spec fn key_bytes(number: nat, wire: nat) -> Seq<u8> {
    varint_bytes(number * 8 + wire)
}

/// A 32-bit integer field; a zero value is left out.
pub open spec fn int_field(number: nat, x: i32) -> Seq<u8> {
    if x == 0 {
        seq![]
    } else {
        key_bytes(number, VARINT as nat) + varint_bytes(wire_of_int32(x))
    }
}

/// A length-delimited field.
pub open spec fn len_field(number: nat, d: Seq<u8>) -> Seq<u8> {
    key_bytes(number, LEN as nat) + varint_bytes(d.len()) + d
}

/// A length-delimited field that is left out when empty.
pub open spec fn opt_len_field(number: nat, d: Seq<u8>) -> Seq<u8> {
    if d.len() == 0 {
        seq![]
    } else {
        len_field(number, d)
    }
}

pub proof fn lemma_int_field_at(b: Seq<u8>, pos: int, number: nat, x: i32)
    requires
        1 <= number < 16,
        x != 0,
        has_at(b, pos, int_field(number, x)),
    ensures
        ({
            let e = int_field(number, x);
            field_at(b, pos) == Some(
                FieldAt {
                    number,
                    wire: VARINT as nat,
                    value: wire_of_int32(x),
                    start: pos + e.len(),
                    end: pos + e.len(),
                },
            )
        }),
{
    let k = number * 8;
    assert(k / 8 == number && k % 8 == 0);
    lemma_int32_round_trip(x);
    lemma_varint_len_64(wire_of_int32(x));
    lemma_has_at_concat(b, pos, key_bytes(number, 0), varint_bytes(wire_of_int32(x)));
    lemma_varint_at(b, pos, k, 10);
    lemma_varint_at(b, pos + 1, wire_of_int32(x), 10);
}

pub proof fn lemma_len_field_at(b: Seq<u8>, pos: int, number: nat, d: Seq<u8>)
    requires
        1 <= number < 16,
        d.len() < two64(),
        has_at(b, pos, len_field(number, d)),
    ensures
        ({
            let e = len_field(number, d);
            let start = pos + e.len() - d.len();
            &&& field_at(b, pos) == Some(
                FieldAt { number, wire: LEN as nat, value: d.len(), start, end: pos + e.len() },
            )
            &&& b.subrange(start, pos + e.len()) == d
        }),
{
    let k = number * 8 + 2;
    assert(k / 8 == number && k % 8 == 2);
    lemma_varint_len_64(d.len());
    let kb = key_bytes(number, 2);
    let lb = varint_bytes(d.len());
    assert(len_field(number, d) == kb + (lb + d)) by {
        assert(kb + lb + d =~= kb + (lb + d));
    }
    lemma_has_at_concat(b, pos, kb, lb + d);
    lemma_has_at_concat(b, pos + 1, lb, d);
    lemma_varint_at(b, pos, k, 10);
    lemma_varint_at(b, pos + 1, d.len(), 10);
}

/// A field read from a buffer; `FieldAt` is its meaning.
pub struct Field {
    pub number: u64,
    pub wire: u64,
    pub value: u64,
    pub start: usize,
    pub end: usize,
}

impl View for Field {
    type V = FieldAt;

    open spec fn view(&self) -> FieldAt {
        FieldAt {
            number: self.number as nat,
            wire: self.wire as nat,
            value: self.value as nat,
            start: self.start as int,
            end: self.end as int,
        }
    }
}

/// Reads the field whose key starts at `pos`.
pub fn read_field(b: &[u8], pos: usize) -> (r: Option<Field>)
    ensures
        match r {
            None => field_at(b@, pos as int) is None,
            Some(f) => {
                &&& field_at(b@, pos as int) == Some(f@)
                &&& pos < f.start <= f.end <= b@.len()
                &&& pos < f.end
            },
        },
{
    let len = b.len();
    let kr = read_varint(b, pos, 10);
    if kr.is_none() {
        return None;
    }
    let (key, n) = kr.unwrap();
    assert(pos + n <= b@.len());
    let number = key / 8;
    let wire = key % 8;
    let p = pos + n;
    if key > 0xffff_ffff || number == 0 {
        return None;
    }
    if wire == VARINT {
        let vr = read_varint(b, p, 10);
        if vr.is_none() {
            return None;
        }
        let (v, m) = vr.unwrap();
        Some(Field { number, wire, value: v, start: p + m, end: p + m })
    } else if wire == FIXED64 {
        if b.len() - p >= 8 {
            Some(Field { number, wire, value: 0, start: p, end: p + 8 })
        } else {
            None
        }
    } else if wire == FIXED32 {
        if b.len() - p >= 4 {
            Some(Field { number, wire, value: 0, start: p, end: p + 4 })
        } else {
            None
        }
    } else if wire == LEN {
        let lr = read_varint(b, p, 10);
        if lr.is_none() {
            return None;
        }
        let (l, m) = lr.unwrap();
        if l <= (b.len() - p - m) as u64 {
            let start = p + m;
            Some(Field { number, wire, value: l, start, end: start + l as usize })
        } else {
            None
        }
    } else {
        None
    }
}

/// Appends the key of a field.
pub fn write_key(out: &mut Vec<u8>, number: u64, wire: u64)
    requires
        number < 16,
        wire < 8,
    ensures
        final(out)@ == old(out)@ + key_bytes(number as nat, wire as nat),
{
    write_varint(out, number * 8 + wire);
}

/// Appends a 32-bit integer field, unless its value is zero.
pub fn write_int_field(out: &mut Vec<u8>, number: u64, x: i32)
    requires
        number < 16,
    ensures
        final(out)@ == old(out)@ + int_field(number as nat, x),
{
    if x == 0 {
        assert(old(out)@ + int_field(number as nat, x) =~= old(out)@);
    } else {
        write_key(out, number, VARINT);
        let w: u64 = if x >= 0 {
            x as u64
        } else {
            (u64::MAX - ((-(x as i64) - 1) as u64))
        };
        assert(w as nat == wire_of_int32(x));
        write_varint(out, w);
        assert(final(out)@ =~= old(out)@ + int_field(number as nat, x));
    }
}

/// Appends a length-delimited field.
pub fn write_len_field(out: &mut Vec<u8>, number: u64, d: &[u8])
    requires
        number < 16,
    ensures
        final(out)@ == old(out)@ + len_field(number as nat, d@),
{
    write_key(out, number, LEN);
    write_varint(out, d.len() as u64);
    let ghost mid = out@;
    let mut i: usize = 0;
    while i < d.len()
        invariant
            i <= d@.len(),
            out@ == mid + d@.subrange(0, i as int),
        decreases d@.len() - i,
    {
        out.push(d[i]);
        i = i + 1;
        assert(out@ =~= mid + d@.subrange(0, i as int));
    }
    assert(d@.subrange(0, i as int) =~= d@);
    assert(out@ =~= old(out)@ + len_field(number as nat, d@));
}

/// Appends a length-delimited field, unless `d` is empty.
pub fn write_opt_len_field(out: &mut Vec<u8>, number: u64, d: &[u8])
    requires
        number < 16,
    ensures
        final(out)@ == old(out)@ + opt_len_field(number as nat, d@),
{
    if d.len() == 0 {
        assert(old(out)@ + opt_len_field(number as nat, d@) =~= old(out)@);
    } else {
        write_len_field(out, number, d);
    }
}

} // verus!
