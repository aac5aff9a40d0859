//! The wire format of the messages: fields in the protocol-buffers encoding.
//!
//! A message is a sequence of fields. Every field starts with a key, the field number
//! times eight plus the wire type, written as a varint. A varint holds seven bits per
//! byte, least significant group first, with the top bit set on every byte but the last.

use vstd::prelude::*;

verus! {

/// Largest number of bytes that a varint may take.
pub const MAX_VARINT_LEN: usize = 10;

/// Field numbers lie below this bound.
pub const FIELD_NUMBER_LIMIT: u64 = 0x2000_0000;

/// The varint that stands for `v`.
pub open spec fn varint(v: nat) -> Seq<u8>
    decreases v,
{
    if v < 128 {
        seq![v as u8]
    } else {
        seq![(v % 128 + 128) as u8] + varint(v / 128)
    }
}

/// Reads a varint of at most `budget` bytes at `pos`: its value and the position behind
/// it, or `None` where the bytes end early or the varint is longer.
pub open spec fn read_varint(bytes: Seq<u8>, pos: int, budget: nat) -> Option<(nat, int)>
    decreases budget,
{
    if budget == 0 || pos < 0 || pos >= bytes.len() {
        None
    } else if bytes[pos] < 128 {
        Some((bytes[pos] as nat, pos + 1))
    } else {
        match read_varint(bytes, pos + 1, (budget - 1) as nat) {
            Some((high, next)) => Some((((bytes[pos] - 128) + 128 * high) as nat, next)),
            None => None,
        }
    }
}

/// `128` to the power of `k`.
pub open spec fn pow128(k: nat) -> nat
    decreases k,
{
    if k == 0 {
        1
    } else {
        128 * pow128((k - 1) as nat)
    }
}

/// A value below `128^k` takes at most `k` bytes as a varint, and at least one.
pub proof fn lemma_varint_len(v: nat, k: nat)
    requires
        k >= 1,
        v < pow128(k),
    ensures
        1 <= varint(v).len() <= k,
    decreases k,
{
    reveal_with_fuel(pow128, 2);
    if v >= 128 {
        assert(k >= 2) by {
            if k == 1 {
                assert(pow128(1) == 128);
            }
        }
        assert(v / 128 < pow128((k - 1) as nat));
        lemma_varint_len(v / 128, (k - 1) as nat);
    }
}

/// Every 64-bit value takes at most ten bytes as a varint.
pub proof fn lemma_varint_len_u64(v: u64)
    ensures
        1 <= varint(v as nat).len() <= MAX_VARINT_LEN,
{
    reveal_with_fuel(pow128, 11);
    assert(pow128(10) == 1180591620717411303424nat);
    lemma_varint_len(v as nat, 10);
}

/// A varint that stands in the bytes at `pos` is read back as its value.
pub proof fn lemma_read_written_varint(bytes: Seq<u8>, pos: int, v: nat, budget: nat)
    requires
        0 <= pos,
        pos + varint(v).len() <= bytes.len(),
        bytes.subrange(pos, pos + varint(v).len()) == varint(v),
        budget >= varint(v).len(),
    ensures
        read_varint(bytes, pos, budget) == Some((v, pos + varint(v).len())),
    decreases v,
{
    let enc = varint(v);
    assert(bytes[pos] == bytes.subrange(pos, pos + enc.len())[0]);
    if v >= 128 {
        let tail = varint(v / 128);
        assert(enc.len() == 1 + tail.len());
        assert(bytes.subrange(pos + 1, pos + 1 + tail.len()) =~= enc.subrange(
            1,
            enc.len() as int,
        ));
        assert(enc.subrange(1, enc.len() as int) =~= tail);
        lemma_read_written_varint(bytes, pos + 1, v / 128, (budget - 1) as nat);
        assert(enc[0] == (v % 128 + 128) as u8);
        assert((v % 128) + 128 * (v / 128) == v);
    }
}

/// The value of a field.
#[derive(Debug, PartialEq, Eq)]
pub enum Value {
    /// Wire type 0.
    Varint(u64),
    /// Wire type 1: eight bytes as they stand.
    Fixed64(Vec<u8>),
    /// Wire type 2: a length and that many bytes.
    Bytes(Vec<u8>),
    /// Wire type 5: four bytes as they stand.
    Fixed32(Vec<u8>),
}

/// Mathematical value of a [`Value`].
pub enum ValueView {
    Varint(u64),
    Fixed64(Seq<u8>),
    Bytes(Seq<u8>),
    Fixed32(Seq<u8>),
}

impl View for Value {
    type V = ValueView;

    open spec fn view(&self) -> ValueView {
        match self {
            Value::Varint(v) => ValueView::Varint(*v),
            Value::Fixed64(b) => ValueView::Fixed64(b@),
            Value::Bytes(b) => ValueView::Bytes(b@),
            Value::Fixed32(b) => ValueView::Fixed32(b@),
        }
    }
}

/// One field of a message.
#[derive(Debug, PartialEq, Eq)]
pub struct Field {
    pub number: u64,
    pub value: Value,
}

/// Mathematical value of a [`Field`].
pub struct FieldView {
    pub number: u64,
    pub value: ValueView,
}

impl View for Field {
    type V = FieldView;

    open spec fn view(&self) -> FieldView {
        FieldView { number: self.number, value: self.value@ }
    }
}

impl DeepView for Field {
    type V = FieldView;

    open spec fn deep_view(&self) -> FieldView {
        self@
    }
}

impl ValueView {
    /// The wire type of the value.
    pub open spec fn wire_type(self) -> nat {
        match self {
            ValueView::Varint(_) => 0,
            ValueView::Fixed64(_) => 1,
            ValueView::Bytes(_) => 2,
            ValueView::Fixed32(_) => 5,
        }
    }

    /// What follows the key on the wire.
    pub open spec fn body(self) -> Seq<u8> {
        match self {
            ValueView::Varint(v) => varint(v as nat),
            ValueView::Fixed64(b) => b,
            ValueView::Bytes(b) => varint(b.len()) + b,
            ValueView::Fixed32(b) => b,
        }
    }

    /// Whether the value can stand on the wire: fixed values have their width and a
    /// length fits in 64 bits.
    pub open spec fn wf(self) -> bool {
        match self {
            ValueView::Varint(_) => true,
            ValueView::Fixed64(b) => b.len() == 8,
            ValueView::Bytes(b) => b.len() <= u64::MAX,
            ValueView::Fixed32(b) => b.len() == 4,
        }
    }
}

impl FieldView {
    /// The key of the field.
    pub open spec fn key(self) -> nat {
        (self.number * 8 + self.value.wire_type()) as nat
    }

    /// Whether the field can stand on the wire.
    pub open spec fn wf(self) -> bool {
        1 <= self.number < FIELD_NUMBER_LIMIT && self.value.wf()
    }

    /// The bytes of the field.
    pub open spec fn encoding(self) -> Seq<u8> {
        varint(self.key()) + self.value.body()
    }
}

/// The bytes of a message: those of its fields one after the other.
pub open spec fn encoding_of(fields: Seq<FieldView>) -> Seq<u8>
    decreases fields.len(),
{
    if fields.len() == 0 {
        Seq::empty()
    } else {
        fields[0].encoding() + encoding_of(fields.drop_first())
    }
}

/// Reads one field at `pos`: the field and the position behind it.
pub open spec fn read_field(bytes: Seq<u8>, pos: int) -> Option<(FieldView, int)> {
    match read_varint(bytes, pos, MAX_VARINT_LEN as nat) {
        None => None,
        Some((key, p)) => {
            let number = key / 8;
            let wire_type = key % 8;
            if number < 1 || number >= FIELD_NUMBER_LIMIT {
                None
            } else if wire_type == 0 {
                match read_varint(bytes, p, MAX_VARINT_LEN as nat) {
                    Some((v, q)) => if v <= u64::MAX {
                        Some((FieldView { number: number as u64, value: ValueView::Varint(v as u64) }, q))
                    } else {
                        None
                    },
                    None => None,
                }
            } else if wire_type == 1 {
                if p + 8 <= bytes.len() {
                    Some(
                        (
                            FieldView {
                                number: number as u64,
                                value: ValueView::Fixed64(bytes.subrange(p, p + 8)),
                            },
                            p + 8,
                        ),
                    )
                } else {
                    None
                }
            } else if wire_type == 2 {
                match read_varint(bytes, p, MAX_VARINT_LEN as nat) {
                    Some((len, q)) => if q + len <= bytes.len() {
                        Some(
                            (
                                FieldView {
                                    number: number as u64,
                                    value: ValueView::Bytes(bytes.subrange(q, q + len)),
                                },
                                q + len,
                            ),
                        )
                    } else {
                        None
                    },
                    None => None,
                }
            } else if wire_type == 5 {
                if p + 4 <= bytes.len() {
                    Some(
                        (
                            FieldView {
                                number: number as u64,
                                value: ValueView::Fixed32(bytes.subrange(p, p + 4)),
                            },
                            p + 4,
                        ),
                    )
                } else {
                    None
                }
            } else {
                None
            }
        },
    }
}

/// Reads the fields from `pos` to the end of the bytes; `None` where a field is broken.
pub open spec fn parse_from(bytes: Seq<u8>, pos: int) -> Option<Seq<FieldView>>
    decreases bytes.len() - pos,
{
    if pos >= bytes.len() {
        Some(Seq::empty())
    } else {
        match read_field(bytes, pos) {
            Some((field, next)) => if pos < next <= bytes.len() {
                match parse_from(bytes, next) {
                    Some(rest) => Some(seq![field] + rest),
                    None => None,
                }
            } else {
                None
            },
            None => None,
        }
    }
}

/// The fields that the bytes hold; `None` where they are no message.
pub open spec fn parse(bytes: Seq<u8>) -> Option<Seq<FieldView>> {
    parse_from(bytes, 0)
}

/// A varint read from the bytes ends behind where it starts, inside the bytes.
pub proof fn lemma_read_varint_advances(bytes: Seq<u8>, pos: int, budget: nat)
    ensures
        read_varint(bytes, pos, budget) matches Some((v, next)) ==> pos < next <= bytes.len()
            && next <= pos + budget && v < pow128(budget),
    decreases budget,
{
    reveal_with_fuel(pow128, 2);
    if budget > 0 {
        lemma_pow128_grows(1, budget);
        assert(pow128(1) == 128);
        assert(pow128(budget) == 128 * pow128((budget - 1) as nat));
    }
    if budget > 0 && 0 <= pos < bytes.len() && bytes[pos] >= 128 {
        lemma_read_varint_advances(bytes, pos + 1, (budget - 1) as nat);
    }
}

/// A field that stands in the bytes at `pos` is read back.
pub proof fn lemma_read_written_field(bytes: Seq<u8>, pos: int, field: FieldView)
    requires
        field.wf(),
        0 <= pos,
        pos + field.encoding().len() <= bytes.len(),
        bytes.subrange(pos, pos + field.encoding().len()) == field.encoding(),
    ensures
        read_field(bytes, pos) == Some((field, pos + field.encoding().len())),
{
    let key = field.key();
    let k = varint(key);
    let body = field.value.body();
    let enc = field.encoding();
    assert(key <= u64::MAX);
    lemma_varint_len_u64(key as u64);
    assert(bytes.subrange(pos, pos + k.len()) =~= enc.subrange(0, k.len() as int));
    assert(enc.subrange(0, k.len() as int) =~= k);
    lemma_read_written_varint(bytes, pos, key, MAX_VARINT_LEN as nat);
    let p = pos + k.len();
    assert(bytes.subrange(p, p + body.len()) =~= enc.subrange(k.len() as int, enc.len() as int));
    assert(enc.subrange(k.len() as int, enc.len() as int) =~= body);
    assert(key / 8 == field.number && key % 8 == field.value.wire_type());
    match field.value {
        ValueView::Varint(v) => {
            lemma_varint_len_u64(v);
            lemma_read_written_varint(bytes, p, v as nat, MAX_VARINT_LEN as nat);
        },
        ValueView::Fixed64(b) => {},
        ValueView::Bytes(b) => {
            let l = varint(b.len());
            lemma_varint_len_u64(b.len() as u64);
            assert(bytes.subrange(p, p + l.len()) =~= body.subrange(0, l.len() as int));
            assert(body.subrange(0, l.len() as int) =~= l);
            lemma_read_written_varint(bytes, p, b.len(), MAX_VARINT_LEN as nat);
            assert(bytes.subrange(p + l.len(), p + l.len() + b.len()) =~= body.subrange(
                l.len() as int,
                body.len() as int,
            ));
            assert(body.subrange(l.len() as int, body.len() as int) =~= b);
        },
        ValueView::Fixed32(b) => {},
    }
}

/// Fields that stand in the bytes from `pos` to the end are read back.
pub proof fn lemma_parse_written(bytes: Seq<u8>, pos: int, fields: Seq<FieldView>)
    requires
        forall|i: int| 0 <= i < fields.len() ==> (#[trigger] fields[i]).wf(),
        0 <= pos,
        pos + encoding_of(fields).len() == bytes.len(),
        bytes.subrange(pos, bytes.len() as int) == encoding_of(fields),
    ensures
        parse_from(bytes, pos) == Some(fields),
    decreases fields.len(),
{
    if fields.len() == 0 {
        assert(fields =~= Seq::<FieldView>::empty());
    } else {
        let first = fields[0];
        let rest = fields.drop_first();
        let enc = encoding_of(fields);
        let head = first.encoding();
        lemma_varint_len_u64(first.key() as u64);
        assert(bytes.subrange(pos, pos + head.len()) =~= enc.subrange(0, head.len() as int));
        assert(enc.subrange(0, head.len() as int) =~= head);
        lemma_read_written_field(bytes, pos, first);
        let next = pos + head.len();
        assert(bytes.subrange(next, bytes.len() as int) =~= enc.subrange(
            head.len() as int,
            enc.len() as int,
        ));
        assert(enc.subrange(head.len() as int, enc.len() as int) =~= encoding_of(rest));
        assert forall|i: int| 0 <= i < rest.len() implies (#[trigger] rest[i]).wf() by {
            assert(rest[i] == fields[i + 1]);
        }
        lemma_parse_written(bytes, next, rest);
        assert(seq![first] + rest =~= fields);
    }
}

/// Round trip of the field layer: the encoding of valid fields parses to those fields.
pub proof fn lemma_parse_encoding(fields: Seq<FieldView>)
    requires
        forall|i: int| 0 <= i < fields.len() ==> (#[trigger] fields[i]).wf(),
    ensures
        parse(encoding_of(fields)) == Some(fields),
{
    let bytes = encoding_of(fields);
    assert(bytes.subrange(0, bytes.len() as int) =~= bytes);
    lemma_parse_written(bytes, 0, fields);
}

/// Appends the varint of `v`.
pub fn put_varint(out: &mut Vec<u8>, v: u64)
    ensures
        final(out)@ == old(out)@ + varint(v as nat),
{
    let mut rest: u64 = v;
    assert(out@ + varint(rest as nat) =~= old(out)@ + varint(v as nat));
    while rest >= 128
        invariant
            out@ + varint(rest as nat) == old(out)@ + varint(v as nat),
        decreases rest,
    {
        let ghost before = out@;
        out.push((rest % 128 + 128) as u8);
        assert(before + varint(rest as nat) =~= out@ + varint((rest / 128) as nat));
        rest = rest / 128;
    }
    out.push(rest as u8);
}

/// Appends the bytes of `part`.
pub fn put_bytes(out: &mut Vec<u8>, part: &Vec<u8>)
    ensures
        final(out)@ == old(out)@ + part@,
{
    let mut i: usize = 0;
    assert(out@ =~= old(out)@ + part@.subrange(0, 0));
    while i < part.len()
        invariant
            i <= part@.len(),
            out@ == old(out)@ + part@.subrange(0, i as int),
        decreases part@.len() - i,
    {
        out.push(part[i]);
        i += 1;
        assert(out@ =~= old(out)@ + part@.subrange(0, i as int));
    }
    assert(part@.subrange(0, part@.len() as int) =~= part@);
}

/// Appends one field.
pub fn put_field(out: &mut Vec<u8>, field: &Field)
    requires
        field@.wf(),
    ensures
        final(out)@ == old(out)@ + field@.encoding(),
{
    let ghost start = out@;
    match &field.value {
        Value::Varint(v) => {
            put_varint(out, field.number * 8);
            put_varint(out, *v);
        },
        Value::Fixed64(b) => {
            put_varint(out, field.number * 8 + 1);
            put_bytes(out, b);
        },
        Value::Bytes(b) => {
            put_varint(out, field.number * 8 + 2);
            put_varint(out, b.len() as u64);
            put_bytes(out, b);
        },
        Value::Fixed32(b) => {
            put_varint(out, field.number * 8 + 5);
            put_bytes(out, b);
        },
    }
    assert(out@ =~= start + field@.encoding());
}

/// The fields as mathematical values.
pub open spec fn views(fields: Seq<Field>) -> Seq<FieldView> {
    Seq::new(fields.len(), |i: int| fields[i]@)
}

/// The bytes of a message with the given fields.
pub fn encode_fields(fields: &Vec<Field>) -> (out: Vec<u8>)
    requires
        forall|i: int| 0 <= i < fields@.len() ==> (#[trigger] fields@[i])@.wf(),
    ensures
        out@ == encoding_of(views(fields@)),
{
    let mut out: Vec<u8> = Vec::new();
    let mut i: usize = 0;
    let ghost all = views(fields@);
    assert(all.skip(0) =~= all);
    while i < fields.len()
        invariant
            i <= fields@.len(),
            all == views(fields@),
            forall|k: int| 0 <= k < fields@.len() ==> (#[trigger] fields@[k])@.wf(),
            out@ + encoding_of(all.skip(i as int)) == encoding_of(all),
        decreases fields@.len() - i,
    {
        let ghost before = out@;
        put_field(&mut out, &fields[i]);
        proof {
            let rest = all.skip(i as int);
            assert(rest[0] == fields@[i as int]@);
            assert(rest.drop_first() =~= all.skip(i + 1));
            assert(out@ + encoding_of(all.skip(i + 1)) =~= before + encoding_of(rest));
        }
        i += 1;
    }
    assert(out@ + encoding_of(all.skip(i as int)) =~= out@);
    out
}

/// Reads a varint at `pos` that takes at most `budget` bytes.
fn take_varint_within(bytes: &[u8], pos: usize, budget: usize) -> (read: Option<(u128, usize)>)
    requires
        budget <= MAX_VARINT_LEN,
    ensures
        read is None <==> read_varint(bytes@, pos as int, budget as nat) is None,
        read matches Some((v, next)) ==> read_varint(bytes@, pos as int, budget as nat) == Some(
            (v as nat, next as int),
        ) && v < pow128(budget as nat),
    decreases budget,
{
    proof {
        lemma_read_varint_advances(bytes@, pos as int, budget as nat);
        reveal_with_fuel(pow128, 11);
        assert(pow128(10) == 1180591620717411303424nat);
        lemma_pow128_grows(budget as nat, 10);
    }
    if budget == 0 || pos >= bytes.len() {
        return None;
    }
    let b = bytes[pos];
    if b < 128 {
        proof {
            lemma_pow128_grows(1, budget as nat);
            assert(pow128(1) == 128);
        }
        return Some((b as u128, pos + 1));
    }
    match take_varint_within(bytes, pos + 1, budget - 1) {
        Some((high, next)) => {
            proof {
                lemma_pow128_grows((budget - 1) as nat, 9);
                assert(pow128(9) == 9223372036854775808nat);
                reveal_with_fuel(pow128, 2);
                assert(pow128(budget as nat) == 128 * pow128((budget - 1) as nat));
            }
            Some(((b - 128) as u128 + 128 * high, next))
        },
        None => None,
    }
}

/// Larger powers are not smaller.
pub proof fn lemma_pow128_grows(a: nat, b: nat)
    requires
        a <= b,
    ensures
        1 <= pow128(a) <= pow128(b),
    decreases b,
{
    reveal_with_fuel(pow128, 2);
    if a < b {
        lemma_pow128_grows(a, (b - 1) as nat);
    } else if a > 0 {
        lemma_pow128_grows((a - 1) as nat, (a - 1) as nat);
    }
}

/// Reads one field at `pos`.
fn take_field(bytes: &[u8], pos: usize) -> (read: Option<(Field, usize)>)
    ensures
        read is None <==> read_field(bytes@, pos as int) is None,
        read matches Some((field, next)) ==> read_field(bytes@, pos as int) == Some(
            (field@, next as int),
        ) && pos < next <= bytes@.len(),
{
    proof {
        lemma_read_varint_advances(bytes@, pos as int, MAX_VARINT_LEN as nat);
    }
    let (key, p) = match take_varint_within(bytes, pos, MAX_VARINT_LEN) {
        Some(read) => read,
        None => {
            return None;
        },
    };
    let number = key / 8;
    let wire_type = key % 8;
    if number < 1 || number >= FIELD_NUMBER_LIMIT as u128 {
        return None;
    }
    let number = number as u64;
    proof {
        lemma_read_varint_advances(bytes@, p as int, MAX_VARINT_LEN as nat);
    }
    if wire_type == 0 {
        match take_varint_within(bytes, p, MAX_VARINT_LEN) {
            Some((v, q)) => {
                if v <= u64::MAX as u128 {
                    Some((Field { number, value: Value::Varint(v as u64) }, q))
                } else {
                    None
                }
            },
            None => None,
        }
    } else if wire_type == 1 {
        if bytes.len() - p >= 8 {
            Some((Field { number, value: Value::Fixed64(copy_range(bytes, p, p + 8)) }, p + 8))
        } else {
            None
        }
    } else if wire_type == 2 {
        match take_varint_within(bytes, p, MAX_VARINT_LEN) {
            Some((len, q)) => {
                if len <= (bytes.len() - q) as u128 {
                    let end = q + len as usize;
                    Some((Field { number, value: Value::Bytes(copy_range(bytes, q, end)) }, end))
                } else {
                    None
                }
            },
            None => None,
        }
    } else if wire_type == 5 {
        if bytes.len() - p >= 4 {
            Some((Field { number, value: Value::Fixed32(copy_range(bytes, p, p + 4)) }, p + 4))
        } else {
            None
        }
    } else {
        None
    }
}

/// Copies the bytes from `from` up to `to`.
pub fn copy_range(bytes: &[u8], from: usize, to: usize) -> (part: Vec<u8>)
    requires
        from <= to <= bytes@.len(),
    ensures
        part@ == bytes@.subrange(from as int, to as int),
{
    let mut part: Vec<u8> = Vec::with_capacity(to - from);
    let mut k: usize = from;
    while k < to
        invariant
            from <= k <= to <= bytes@.len(),
            part@ == bytes@.subrange(from as int, k as int),
        decreases to - k,
    {
        part.push(bytes[k]);
        k += 1;
        assert(part@ =~= bytes@.subrange(from as int, k as int));
    }
    part
}

/// Reads the fields of a message; `None` where the bytes are no message.
pub fn parse_fields(bytes: &[u8]) -> (fields: Option<Vec<Field>>)
    ensures
        fields is None <==> parse(bytes@) is None,
        fields matches Some(f) ==> parse(bytes@) == Some(views(f@)),
{
    let mut fields: Vec<Field> = Vec::new();
    let mut pos: usize = 0;
    assert(views(fields@) =~= Seq::<FieldView>::empty());
    while pos < bytes.len()
        invariant
            pos <= bytes@.len(),
            parse(bytes@) == match parse_from(bytes@, pos as int) {
                Some(rest) => Some(views(fields@) + rest),
                None => None,
            },
        decreases bytes@.len() - pos,
    {
        let ghost before = views(fields@);
        match take_field(bytes, pos) {
            Some((field, next)) => {
                let ghost fv = field@;
                fields.push(field);
                proof {
                    assert(views(fields@) =~= before.push(fv));
                    match parse_from(bytes@, next as int) {
                        Some(rest) => {
                            assert(before + (seq![fv] + rest) =~= views(fields@) + rest);
                        },
                        None => {},
                    }
                }
                pos = next;
            },
            None => {
                return None;
            },
        }
    }
    assert(views(fields@) + Seq::<FieldView>::empty() =~= views(fields@));
    Some(fields)
}

} // verus!
