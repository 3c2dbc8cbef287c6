//! The length-delimited wire format of the proof file: a message is a sequence of fields, each
//! a key (field number and wire type) followed by either a varint or a length-prefixed byte
//! string. This module holds the field layer; `file_format` maps messages onto it.
use vstd::prelude::*;

verus! {

/// Wire type of a varint field.
pub const WIRE_VARINT: u64 = 0;

/// Wire type of a length-delimited field.
pub const WIRE_BYTES: u64 = 2;

/// Field numbers stay below this bound, so that a key fits in 64 bits.
pub const FIELD_NUMBER_LIMIT: u64 = 0x2000_0000_0000_0000;

/// The value of one field.
pub enum FieldValue {
    Varint(u64),
    Bytes(Vec<u8>),
}

pub enum FieldValueView {
    Varint(u64),
    Bytes(Seq<u8>),
}

/// One field of a message.
pub struct Field {
    pub number: u64,
    pub value: FieldValue,
}

pub struct FieldView {
    pub number: u64,
    pub value: FieldValueView,
}

impl View for Field {
    type V = FieldView;

    open spec fn view(&self) -> FieldView {
        FieldView {
            number: self.number,
            value: match self.value {
                FieldValue::Varint(v) => FieldValueView::Varint(v),
                FieldValue::Bytes(b) => FieldValueView::Bytes(b@),
            },
        }
    }
}

pub open spec fn fields_view(s: Seq<Field>) -> Seq<FieldView> {
    s.map_values(|f: Field| f@)
}

/// Little-endian base-128 encoding, high bit set on every byte but the last.
pub open spec fn varint(n: u64) -> Seq<u8>
    decreases n,
{
    if n < 128 {
        seq![n as u8]
    } else {
        seq![((n % 128) + 128) as u8] + varint(n / 128)
    }
}

/// The varint at the start of `b`, and how many bytes it takes; none where `b` ends first or
/// the value does not fit in 64 bits.
pub open spec fn read_varint(b: Seq<u8>) -> Option<(u64, int)>
    decreases b.len(),
{
    if b.len() == 0 {
        None
    } else if b[0] < 128 {
        Some((b[0] as u64, 1))
    } else {
        match read_varint(b.drop_first()) {
            Some((v, n)) => if v * 128 + (b[0] - 128) <= u64::MAX {
                Some(((v * 128 + (b[0] - 128)) as u64, n + 1))
            } else {
                None
            },
            None => None,
        }
    }
}

pub open spec fn field_key(number: u64, wire: u64) -> u64 {
    (number * 8 + wire) as u64
}

pub open spec fn encode_field(f: FieldView) -> Seq<u8> {
    match f.value {
        FieldValueView::Varint(v) => varint(field_key(f.number, WIRE_VARINT)) + varint(v),
        FieldValueView::Bytes(b) => varint(field_key(f.number, WIRE_BYTES)) + varint(b.len() as u64) + b,
    }
}

/// The fields, one after the other.
pub open spec fn serialize(fs: Seq<FieldView>) -> Seq<u8>
    decreases fs.len(),
{
    if fs.len() == 0 {
        Seq::empty()
    } else {
        encode_field(fs[0]) + serialize(fs.drop_first())
    }
}

/// A field the format can carry: a number under the limit and a length that fits in 64 bits.
pub open spec fn field_ok(f: FieldView) -> bool {
    &&& f.number < FIELD_NUMBER_LIMIT
    &&& (f.value matches FieldValueView::Bytes(b) ==> b.len() <= u64::MAX)
}

/// The field at the start of `b`, and how many bytes it takes.
pub open spec fn parse_field(b: Seq<u8>) -> Option<(FieldView, int)> {
    match read_varint(b) {
        None => None,
        Some((key, n)) => {
            let number = key / 8;
            let wire = key % 8;
            let rest = b.subrange(n, b.len() as int);
            if wire == WIRE_VARINT {
                match read_varint(rest) {
                    Some((v, m)) => Some((FieldView { number, value: FieldValueView::Varint(v) }, n + m)),
                    None => None,
                }
            } else if wire == WIRE_BYTES {
                match read_varint(rest) {
                    Some((len, m)) => if n + m + len <= b.len() {
                        Some((FieldView { number, value: FieldValueView::Bytes(b.subrange(n + m, n + m + len)) }, n + m + len))
                    } else {
                        None
                    },
                    None => None,
                }
            } else {
                None
            }
        },
    }
}

/// All the fields that `b` holds, in order; none where it does not split into fields.
pub open spec fn parse_fields(b: Seq<u8>) -> Option<Seq<FieldView>>
    decreases b.len(),
{
    if b.len() == 0 {
        Some(Seq::empty())
    } else {
        match parse_field(b) {
            Some((f, n)) => if 0 < n <= b.len() {
                match parse_fields(b.subrange(n, b.len() as int)) {
                    Some(fs) => Some(seq![f] + fs),
                    None => None,
                }
            } else {
                None
            },
            None => None,
        }
    }
}

proof fn lemma_read_varint_prefix(b: Seq<u8>)
    ensures
        read_varint(b) is Some ==> 1 <= read_varint(b)->Some_0.1 <= b.len(),
    decreases b.len(),
{
    if b.len() > 0 && b[0] >= 128 {
        lemma_read_varint_prefix(b.drop_first());
    }
}

/// Reading back a varint gives the value and its length, whatever follows it.
pub proof fn lemma_varint_round_trip(n: u64, rest: Seq<u8>)
    ensures
        read_varint(varint(n) + rest) == Some((n, varint(n).len() as int)),
        varint(n).len() >= 1,
    decreases n,
{
    let b = varint(n) + rest;
    if n < 128 {
        assert(b[0] == n as u8);
    } else {
        let x = ((n % 128) + 128) as u8;
        assert(b[0] == x);
        assert(b.drop_first() =~= varint(n / 128) + rest);
        lemma_varint_round_trip(n / 128, rest);
        assert((n / 128) * 128 + n % 128 == n) by (nonlinear_arith);
    }
}

proof fn lemma_field_round_trip(f: FieldView, rest: Seq<u8>)
    requires
        field_ok(f),
    ensures
        parse_field(encode_field(f) + rest) == Some((f, encode_field(f).len() as int)),
        encode_field(f).len() > 0,
{
    let b = encode_field(f) + rest;
    match f.value {
        FieldValueView::Varint(v) => {
            let k = field_key(f.number, WIRE_VARINT);
            assert(k / 8 == f.number && k % 8 == WIRE_VARINT) by (nonlinear_arith)
                requires
                    k == f.number * 8 + 0,
                    f.number < FIELD_NUMBER_LIMIT,
            ;
            assert(b =~= varint(k) + (varint(v) + rest));
            lemma_varint_round_trip(k, varint(v) + rest);
            let n = varint(k).len() as int;
            assert(b.subrange(n, b.len() as int) =~= varint(v) + rest);
            lemma_varint_round_trip(v, rest);
        },
        FieldValueView::Bytes(bytes) => {
            let k = field_key(f.number, WIRE_BYTES);
            assert(k / 8 == f.number && k % 8 == WIRE_BYTES) by (nonlinear_arith)
                requires
                    k == f.number * 8 + 2,
                    f.number < FIELD_NUMBER_LIMIT,
            ;
            let l = bytes.len() as u64;
            assert(b =~= varint(k) + (varint(l) + (bytes + rest)));
            lemma_varint_round_trip(k, varint(l) + (bytes + rest));
            let n = varint(k).len() as int;
            assert(b.subrange(n, b.len() as int) =~= varint(l) + (bytes + rest));
            lemma_varint_round_trip(l, bytes + rest);
            let m = varint(l).len() as int;
            assert(b.subrange(n + m, n + m + l) =~= bytes);
        },
    }
}

/// Parsing the serialization of well-formed fields gives them back.
pub proof fn lemma_serialize_round_trip(fs: Seq<FieldView>)
    requires
        forall|i: int| 0 <= i < fs.len() ==> field_ok(#[trigger] fs[i]),
    ensures
        parse_fields(serialize(fs)) == Some(fs),
    decreases fs.len(),
{
    if fs.len() > 0 {
        let rest = fs.drop_first();
        assert forall|i: int| 0 <= i < rest.len() implies field_ok(#[trigger] rest[i]) by {
            assert(rest[i] == fs[i + 1]);
        }
        lemma_serialize_round_trip(rest);
        lemma_field_round_trip(fs[0], serialize(rest));
        let b = serialize(fs);
        let n = encode_field(fs[0]).len() as int;
        assert(b.subrange(n, b.len() as int) =~= serialize(rest));
        assert(seq![fs[0]] + rest =~= fs);
    } else {
        assert(serialize(fs) =~= Seq::<u8>::empty());
    }
}

proof fn lemma_serialize_push(fs: Seq<FieldView>, f: FieldView)
    ensures
        serialize(fs.push(f)) == serialize(fs) + encode_field(f),
    decreases fs.len(),
{
    if fs.len() == 0 {
        assert(fs.push(f).drop_first() =~= Seq::<FieldView>::empty());
        assert(serialize(Seq::<FieldView>::empty()) =~= Seq::<u8>::empty());
        assert(fs.push(f)[0] == f);
        assert(serialize(fs.push(f)) =~= encode_field(f));
        assert(serialize(fs) + encode_field(f) =~= encode_field(f));
    } else {
        assert(fs.push(f).drop_first() =~= fs.drop_first().push(f));
        lemma_serialize_push(fs.drop_first(), f);
        assert(serialize(fs.push(f)) =~= serialize(fs) + encode_field(f));
    }
}

/// Reads the varint at `pos`.
pub fn read_varint_at(b: &[u8], pos: usize) -> (r: Option<(u64, usize)>)
    requires
        pos <= b@.len(),
    ensures
        match r {
            Some((v, n)) => read_varint(b@.subrange(pos as int, b@.len() as int)) == Some((v, n as int)),
            None => read_varint(b@.subrange(pos as int, b@.len() as int)) is None,
        },
    decreases b@.len() - pos,
{
    let ghost s = b@.subrange(pos as int, b@.len() as int);
    if pos == b.len() {
        return None;
    }
    let byte = b[pos];
    assert(s[0] == byte);
    if byte < 128 {
        return Some((byte as u64, 1));
    }
    assert(s.drop_first() =~= b@.subrange(pos + 1, b@.len() as int));
    proof {
        lemma_read_varint_prefix(s.drop_first());
    }
    match read_varint_at(b, pos + 1) {
        Some((v, n)) => {
            let low = (byte - 128) as u64;
            if v <= (u64::MAX - low) / 128 {
                assert(v * 128 + low <= u64::MAX) by (nonlinear_arith)
                    requires
                        v <= (u64::MAX - low) / 128,
                        low < 128,
                ;
                Some((v * 128 + low, n + 1))
            } else {
                assert(v * 128 + low > u64::MAX) by (nonlinear_arith)
                    requires
                        v > (u64::MAX - low) / 128,
                        low < 128,
                ;
                None
            }
        },
        None => None,
    }
}

/// Appends the varint encoding of `n`.
pub fn write_varint(out: &mut Vec<u8>, n: u64)
    ensures
        final(out)@ == old(out)@ + varint(n),
{
    let mut v = n;
    while v >= 128
        invariant
            old(out)@ + varint(n) == out@ + varint(v),
        decreases v,
    {
        let ghost before = out@;
        out.push(((v % 128) + 128) as u8);
        assert(before + varint(v) =~= out@ + varint(v / 128));
        v = v / 128;
    }
    let ghost before = out@;
    out.push(v as u8);
    assert(before + varint(v) =~= out@);
}

/// Appends one field.
pub fn write_field(out: &mut Vec<u8>, f: &Field)
    requires
        f.number < FIELD_NUMBER_LIMIT,
    ensures
        final(out)@ == old(out)@ + encode_field(f@),
{
    match &f.value {
        FieldValue::Varint(v) => {
            write_varint(out, f.number * 8 + WIRE_VARINT);
            write_varint(out, *v);
            assert(old(out)@ + encode_field(f@) =~= out@);
        },
        FieldValue::Bytes(b) => {
            write_varint(out, f.number * 8 + WIRE_BYTES);
            write_varint(out, b.len() as u64);
            let ghost mid = out@;
            let mut i: usize = 0;
            while i < b.len()
                invariant
                    0 <= i <= b@.len(),
                    out@ == mid + b@.subrange(0, i as int),
                decreases b@.len() - i,
            {
                out.push(b[i]);
                assert(b@.subrange(0, i + 1) =~= b@.subrange(0, i as int).push(b@[i as int]));
                i += 1;
            }
            assert(b@.subrange(0, i as int) =~= b@);
            assert(old(out)@ + encode_field(f@) =~= out@);
        },
    }
}

/// Serializes the fields, one after the other.
pub fn write_fields(fields: &Vec<Field>) -> (r: Vec<u8>)
    requires
        forall|i: int| 0 <= i < fields@.len() ==> (#[trigger] fields@[i]).number < FIELD_NUMBER_LIMIT,
    ensures
        r@ == serialize(fields_view(fields@)),
{
    let ghost fs = fields_view(fields@);
    let mut out: Vec<u8> = Vec::new();
    let mut i: usize = 0;
    while i < fields.len()
        invariant
            fs == fields_view(fields@),
            0 <= i <= fields@.len(),
            forall|i: int| 0 <= i < fields@.len() ==> (#[trigger] fields@[i]).number < FIELD_NUMBER_LIMIT,
            out@ == serialize(fs.subrange(0, i as int)),
        decreases fields@.len() - i,
    {
        write_field(&mut out, &fields[i]);
        proof {
            lemma_serialize_push(fs.subrange(0, i as int), fs[i as int]);
            assert(fs.subrange(0, i + 1) =~= fs.subrange(0, i as int).push(fs[i as int]));
        }
        i += 1;
    }
    assert(fs.subrange(0, i as int) =~= fs);
    out
}

/// Copies `b[start..end]`.
pub fn copy_range(b: &[u8], start: usize, end: usize) -> (r: Vec<u8>)
    requires
        start <= end <= b@.len(),
    ensures
        r@ == b@.subrange(start as int, end as int),
{
    let mut r: Vec<u8> = Vec::new();
    let mut i = start;
    while i < end
        invariant
            start <= i <= end <= b@.len(),
            r@ == b@.subrange(start as int, i as int),
        decreases end - i,
    {
        r.push(b[i]);
        assert(b@.subrange(start as int, i + 1) =~= b@.subrange(start as int, i as int).push(b@[i as int]));
        i += 1;
    }
    r
}

/// Reads the field at `pos`.
pub fn read_field_at(b: &[u8], pos: usize) -> (r: Option<(Field, usize)>)
    requires
        pos <= b@.len(),
    ensures
        match parse_field(b@.subrange(pos as int, b@.len() as int)) {
            Some((f, n)) => r matches Some((g, m)) && g@ == f && m == n,
            None => r is None,
        },
{
    let ghost s = b@.subrange(pos as int, b@.len() as int);
    let blen = b.len();
    let (key, n) = match read_varint_at(b, pos) {
        Some(x) => x,
        None => {
            return None;
        },
    };
    proof {
        lemma_read_varint_prefix(s);
    }
    assert(n as int <= s.len());
    let number = key / 8;
    let wire = key % 8;
    assert(s.subrange(n as int, s.len() as int) =~= b@.subrange(pos + n, b@.len() as int));
    if wire == WIRE_VARINT {
        match read_varint_at(b, pos + n) {
            Some((v, m)) => {
                proof {
                    lemma_read_varint_prefix(s.subrange(n as int, s.len() as int));
                }
                assert(m as int <= s.len() - n);
                Some((Field { number, value: FieldValue::Varint(v) }, n + m))
            },
            None => None,
        }
    } else if wire == WIRE_BYTES {
        match read_varint_at(b, pos + n) {
            Some((len, m)) => {
                proof {
                    lemma_read_varint_prefix(s.subrange(n as int, s.len() as int));
                }
                if len <= (b.len() - pos - n - m) as u64 {
                    let start = pos + n + m;
                    let bytes = copy_range(b, start, start + len as usize);
                    assert(bytes@ =~= s.subrange(n + m, n + m + len));
                    Some((Field { number, value: FieldValue::Bytes(bytes) }, n + m + len as usize))
                } else {
                    None
                }
            },
            None => None,
        }
    } else {
        None
    }
}

/// Splits a message into its fields.
pub fn read_fields(b: &[u8]) -> (r: Option<Vec<Field>>)
    ensures
        match parse_fields(b@) {
            Some(fs) => r matches Some(v) && fields_view(v@) == fs,
            None => r is None,
        },
{
    let mut fields: Vec<Field> = Vec::new();
    let mut pos: usize = 0;
    assert(b@.subrange(0, b@.len() as int) =~= b@);
    while pos < b.len()
        invariant
            0 <= pos <= b@.len(),
            parse_fields(b@) == match parse_fields(b@.subrange(pos as int, b@.len() as int)) {
                Some(rest) => Some(fields_view(fields@) + rest),
                None => None,
            },
        decreases b@.len() - pos,
    {
        let ghost s = b@.subrange(pos as int, b@.len() as int);
        let (f, n) = match read_field_at(b, pos) {
            Some(x) => x,
            None => {
                return None;
            },
        };
        if n == 0 || n > b.len() - pos {
            return None;
        }
        assert(s.subrange(n as int, s.len() as int) =~= b@.subrange(pos + n, b@.len() as int));
        let ghost before = fields_view(fields@);
        fields.push(f);
        assert(fields_view(fields@) =~= before.push(f@));
        proof {
            match parse_fields(b@.subrange(pos + n, b@.len() as int)) {
                Some(rest) => {
                    assert(before + (seq![f@] + rest) =~= before.push(f@) + rest);
                },
                None => {},
            }
        }
        pos += n;
    }
    assert(b@.subrange(pos as int, b@.len() as int) =~= Seq::<u8>::empty());
    assert(fields_view(fields@) + Seq::<FieldView>::empty() =~= fields_view(fields@));
    Some(fields)
}

} // verus!
