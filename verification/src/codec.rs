//! The four messages of the service on the wire, and the frame around a message.
//!
//! A field that holds its default (no bytes, an empty name, zero) is not written, and a
//! missing field reads as its default. Of several fields with one number the last counts.
//! Fields with other numbers are passed over.

use crate::engine::{be_bytes, nonce_bytes};
use crate::proto::{copy_bytes, Block, BlockHash, BlockHashView, BlockStatus, ClientInfo};
use crate::wire::{
    encode_fields, encoding_of, lemma_parse_encoding, parse, parse_fields, put_bytes, views, Field,
    FieldView, Value, ValueView,
};
use vstd::prelude::*;
use vstd::slice::slice_to_vec;
use vstd::utf8::{decode_utf8, encode_utf8, valid_utf8};

verus! {

/// The bytes of the last field numbered `number`: `Some(None)` where the message has no
/// such field, `None` where one of them is no bytes field.
pub open spec fn last_bytes(fields: Seq<FieldView>, number: u64) -> Option<Option<Seq<u8>>>
    decreases fields.len(),
{
    if fields.len() == 0 {
        Some(None)
    } else {
        match last_bytes(fields.drop_last(), number) {
            None => None,
            Some(before) => if fields.last().number == number {
                match fields.last().value {
                    ValueView::Bytes(b) => Some(Some(b)),
                    _ => None,
                }
            } else {
                Some(before)
            },
        }
    }
}

/// The varint of the last field numbered `number`: `Some(None)` where the message has no
/// such field, `None` where one of them is no varint field.
pub open spec fn last_varint(fields: Seq<FieldView>, number: u64) -> Option<Option<u64>>
    decreases fields.len(),
{
    if fields.len() == 0 {
        Some(None)
    } else {
        match last_varint(fields.drop_last(), number) {
            None => None,
            Some(before) => if fields.last().number == number {
                match fields.last().value {
                    ValueView::Varint(v) => Some(Some(v)),
                    _ => None,
                }
            } else {
                Some(before)
            },
        }
    }
}

/// What [`last_bytes`] says, with an empty sequence for a missing field.
pub open spec fn bytes_or_empty(found: Option<Option<Seq<u8>>>) -> Option<Seq<u8>> {
    match found {
        None => None,
        Some(None) => Some(Seq::empty()),
        Some(Some(b)) => Some(b),
    }
}

/// What [`last_varint`] says, with zero for a missing field.
pub open spec fn varint_or_zero(found: Option<Option<u64>>) -> Option<u64> {
    match found {
        None => None,
        Some(None) => Some(0),
        Some(Some(v)) => Some(v),
    }
}

/// Looks up the bytes field `number`, empty where it is missing.
pub fn find_bytes(fields: &Vec<Field>, number: u64) -> (found: Option<Vec<u8>>)
    ensures
        found is None <==> bytes_or_empty(last_bytes(views(fields@), number)) is None,
        found matches Some(b) ==> bytes_or_empty(last_bytes(views(fields@), number)) == Some(b@),
{
    let mut found: Option<usize> = None;
    let mut i: usize = 0;
    assert(views(fields@).take(0) =~= Seq::<FieldView>::empty());
    while i < fields.len()
        invariant
            i <= fields@.len(),
            found matches Some(at) ==> at < i && fields@[at as int].value is Bytes && last_bytes(
                views(fields@).take(i as int),
                number,
            ) == Some(Some(fields@[at as int].value->Bytes_0@)),
            found is None ==> last_bytes(views(fields@).take(i as int), number) == Some(
                None::<Seq<u8>>,
            ),
        decreases fields@.len() - i,
    {
        proof {
            let next = views(fields@).take(i + 1);
            assert(next.drop_last() =~= views(fields@).take(i as int));
            assert(next.last() == fields@[i as int]@);
        }
        if fields[i].number == number {
            match &fields[i].value {
                Value::Bytes(_) => {
                    found = Some(i);
                },
                _ => {
                    proof {
                        lemma_broken_stays_broken_bytes(views(fields@), number, i + 1);
                    }
                    return None;
                },
            }
        }
        i += 1;
    }
    assert(views(fields@).take(fields@.len() as int) =~= views(fields@));
    match found {
        Some(at) => match &fields[at].value {
            Value::Bytes(b) => Some(copy_bytes(b)),
            _ => None,
        },
        None => Some(Vec::new()),
    }
}

/// Once a field of the number has the wrong wire type, more fields do not mend it.
pub proof fn lemma_broken_stays_broken_bytes(fields: Seq<FieldView>, number: u64, upto: int)
    requires
        0 <= upto <= fields.len(),
        last_bytes(fields.take(upto), number) is None,
    ensures
        last_bytes(fields, number) is None,
    decreases fields.len() - upto,
{
    if upto < fields.len() {
        let next = fields.take(upto + 1);
        assert(next.drop_last() =~= fields.take(upto));
        lemma_broken_stays_broken_bytes(fields, number, upto + 1);
    } else {
        assert(fields.take(upto) =~= fields);
    }
}

/// Once a field of the number has the wrong wire type, more fields do not mend it.
pub proof fn lemma_broken_stays_broken_varint(fields: Seq<FieldView>, number: u64, upto: int)
    requires
        0 <= upto <= fields.len(),
        last_varint(fields.take(upto), number) is None,
    ensures
        last_varint(fields, number) is None,
    decreases fields.len() - upto,
{
    if upto < fields.len() {
        let next = fields.take(upto + 1);
        assert(next.drop_last() =~= fields.take(upto));
        lemma_broken_stays_broken_varint(fields, number, upto + 1);
    } else {
        assert(fields.take(upto) =~= fields);
    }
}

/// Looks up the varint field `number`, zero where it is missing.
pub fn find_varint(fields: &Vec<Field>, number: u64) -> (found: Option<u64>)
    ensures
        found == varint_or_zero(last_varint(views(fields@), number)),
{
    let mut found: u64 = 0;
    let mut seen = false;
    let mut i: usize = 0;
    assert(views(fields@).take(0) =~= Seq::<FieldView>::empty());
    while i < fields.len()
        invariant
            i <= fields@.len(),
            seen ==> last_varint(views(fields@).take(i as int), number) == Some(Some(found)),
            !seen ==> found == 0 && last_varint(views(fields@).take(i as int), number) == Some(
                None::<u64>,
            ),
        decreases fields@.len() - i,
    {
        proof {
            let next = views(fields@).take(i + 1);
            assert(next.drop_last() =~= views(fields@).take(i as int));
            assert(next.last() == fields@[i as int]@);
        }
        if fields[i].number == number {
            match &fields[i].value {
                Value::Varint(v) => {
                    found = *v;
                    seen = true;
                },
                _ => {
                    proof {
                        lemma_broken_stays_broken_varint(views(fields@), number, i + 1);
                    }
                    return None;
                },
            }
        }
        i += 1;
    }
    assert(views(fields@).take(fields@.len() as int) =~= views(fields@));
    Some(found)
}

/// A bytes field, left out where there are no bytes.
pub open spec fn bytes_field(number: u64, bytes: Seq<u8>) -> Seq<FieldView> {
    if bytes.len() == 0 {
        Seq::empty()
    } else {
        seq![FieldView { number, value: ValueView::Bytes(bytes) }]
    }
}

/// A varint field, left out where the value is zero.
pub open spec fn varint_field(number: u64, v: u64) -> Seq<FieldView> {
    if v == 0 {
        Seq::empty()
    } else {
        seq![FieldView { number, value: ValueView::Varint(v) }]
    }
}

fn push_bytes_field(fields: &mut Vec<Field>, number: u64, bytes: &Vec<u8>)
    requires
        1 <= number < crate::wire::FIELD_NUMBER_LIMIT,
        forall|i: int| 0 <= i < old(fields)@.len() ==> (#[trigger] old(fields)@[i])@.wf(),
    ensures
        views(final(fields)@) == views(old(fields)@) + bytes_field(number, bytes@),
        forall|i: int| 0 <= i < final(fields)@.len() ==> (#[trigger] final(fields)@[i])@.wf(),
{
    if bytes.len() > 0 {
        fields.push(Field { number, value: Value::Bytes(copy_bytes(bytes)) });
    }
    assert(views(fields@) =~= views(old(fields)@) + bytes_field(number, bytes@));
}

fn push_varint_field(fields: &mut Vec<Field>, number: u64, v: u64)
    requires
        1 <= number < crate::wire::FIELD_NUMBER_LIMIT,
        forall|i: int| 0 <= i < old(fields)@.len() ==> (#[trigger] old(fields)@[i])@.wf(),
    ensures
        views(final(fields)@) == views(old(fields)@) + varint_field(number, v),
        forall|i: int| 0 <= i < final(fields)@.len() ==> (#[trigger] final(fields)@[i])@.wf(),
{
    if v != 0 {
        fields.push(Field { number, value: Value::Varint(v) });
    }
    assert(views(fields@) =~= views(old(fields)@) + varint_field(number, v));
}

/// The fields of a [`BlockHash`]: the id as field 1, the hash as field 2, the nonce as
/// field 3.
pub open spec fn block_hash_fields(h: BlockHashView) -> Seq<FieldView> {
    bytes_field(1, h.id) + bytes_field(2, h.hash) + varint_field(3, h.nonce as u64)
}

/// The message that the fields stand for, if they stand for one.
pub open spec fn block_hash_of(fields: Seq<FieldView>) -> Option<BlockHashView> {
    match (
        bytes_or_empty(last_bytes(fields, 1)),
        bytes_or_empty(last_bytes(fields, 2)),
        varint_or_zero(last_varint(fields, 3)),
    ) {
        (Some(id), Some(hash), Some(nonce)) => Some(
            BlockHashView { id, hash, nonce: (nonce % 0x1_0000_0000) as u32 },
        ),
        _ => None,
    }
}

/// What the bytes decode to as a [`BlockHash`].
pub open spec fn decoded_block_hash(bytes: Seq<u8>) -> Option<BlockHashView> {
    match parse(bytes) {
        Some(fields) => block_hash_of(fields),
        None => None,
    }
}

pub fn encode_block_hash(h: &BlockHash) -> (out: Vec<u8>)
    ensures
        out@ == encoding_of(block_hash_fields(h@)),
{
    let mut fields: Vec<Field> = Vec::new();
    assert(views(fields@) =~= Seq::<FieldView>::empty());
    push_bytes_field(&mut fields, 1, &h.id);
    push_bytes_field(&mut fields, 2, &h.hash);
    push_varint_field(&mut fields, 3, h.nonce as u64);
    assert(views(fields@) =~= block_hash_fields(h@));
    encode_fields(&fields)
}

pub fn decode_block_hash(bytes: &[u8]) -> (h: Option<BlockHash>)
    ensures
        h is None <==> decoded_block_hash(bytes@) is None,
        h matches Some(found) ==> decoded_block_hash(bytes@) == Some(found@),
{
    let fields = match parse_fields(bytes) {
        Some(fields) => fields,
        None => {
            return None;
        },
    };
    let id = find_bytes(&fields, 1);
    let hash = find_bytes(&fields, 2);
    let nonce = find_varint(&fields, 3);
    match (id, hash, nonce) {
        (Some(id), Some(hash), Some(nonce)) => Some(
            BlockHash { id, hash, nonce: (nonce % 0x1_0000_0000) as u32 },
        ),
        _ => None,
    }
}

/// Encoding a [`BlockHash`] and decoding the bytes gives the same three fields back.
pub proof fn lemma_block_hash_round_trip(h: BlockHashView)
    requires
        h.id.len() <= u64::MAX,
        h.hash.len() <= u64::MAX,
    ensures
        decoded_block_hash(encoding_of(block_hash_fields(h))) == Some(h),
{
    let fields = block_hash_fields(h);
    let a = bytes_field(1, h.id);
    let b = bytes_field(2, h.hash);
    let c = varint_field(3, h.nonce as u64);
    lemma_parse_encoding(fields);
    reveal_with_fuel(last_bytes, 4);
    reveal_with_fuel(last_varint, 4);
    lemma_lookups_of_three(a, b, c);
    if a.len() == 1 {
        assert(a.drop_last().len() == 0);
    } else {
        assert(h.id =~= Seq::<u8>::empty());
    }
    if b.len() == 1 {
        assert(b.drop_last().len() == 0);
    } else {
        assert(h.hash =~= Seq::<u8>::empty());
    }
    if c.len() == 1 {
        assert(c.drop_last().len() == 0);
    }
    assert((h.nonce as u64) % 0x1_0000_0000 == h.nonce);
}

/// Looking a number up among at most three fields with three different numbers finds
/// the field with that number.
proof fn lemma_lookups_of_three(a: Seq<FieldView>, b: Seq<FieldView>, c: Seq<FieldView>)
    requires
        a.len() <= 1,
        b.len() <= 1,
        c.len() <= 1,
        forall|i: int| 0 <= i < a.len() ==> a[i].number == 1,
        forall|i: int| 0 <= i < b.len() ==> b[i].number == 2,
        forall|i: int| 0 <= i < c.len() ==> c[i].number == 3,
    ensures
        last_bytes(a + b + c, 1) == if a.len() == 0 {
            Some(None::<Seq<u8>>)
        } else {
            last_bytes(a, 1)
        },
        last_bytes(a + b + c, 2) == if b.len() == 0 {
            Some(None::<Seq<u8>>)
        } else {
            last_bytes(b, 2)
        },
        last_varint(a + b + c, 3) == if c.len() == 0 {
            Some(None::<u64>)
        } else {
            last_varint(c, 3)
        },
        last_varint(a + b + c, 1) == if a.len() == 0 {
            Some(None::<u64>)
        } else {
            last_varint(a, 1)
        },
{
    reveal_with_fuel(last_bytes, 4);
    reveal_with_fuel(last_varint, 4);
    let all = a + b + c;
    if all.len() >= 1 {
        let d1 = all.drop_last();
        assert(d1.len() == all.len() - 1);
        if d1.len() >= 1 {
            let d2 = d1.drop_last();
            if d2.len() >= 1 {
                let d3 = d2.drop_last();
                assert(d3.len() == 0);
            }
        }
    }
    if a.len() == 1 {
        assert(a.drop_last().len() == 0);
    }
    if b.len() == 1 {
        assert(b.drop_last().len() == 0);
    }
    if c.len() == 1 {
        assert(c.drop_last().len() == 0);
    }
}

/// The fields of a [`Block`]: the payload as field 1.
pub open spec fn block_fields(data: Seq<u8>) -> Seq<FieldView> {
    bytes_field(1, data)
}

/// What the bytes decode to as a [`Block`]: its payload.
pub open spec fn decoded_block(bytes: Seq<u8>) -> Option<Seq<u8>> {
    match parse(bytes) {
        Some(fields) => bytes_or_empty(last_bytes(fields, 1)),
        None => None,
    }
}

pub fn encode_block(block: &Block) -> (out: Vec<u8>)
    ensures
        out@ == encoding_of(block_fields(block@)),
{
    let mut fields: Vec<Field> = Vec::new();
    assert(views(fields@) =~= Seq::<FieldView>::empty());
    push_bytes_field(&mut fields, 1, &block.data);
    assert(views(fields@) =~= block_fields(block@));
    encode_fields(&fields)
}

pub fn decode_block(bytes: &[u8]) -> (block: Option<Block>)
    ensures
        block is None <==> decoded_block(bytes@) is None,
        block matches Some(b) ==> decoded_block(bytes@) == Some(b@),
{
    let fields = match parse_fields(bytes) {
        Some(fields) => fields,
        None => {
            return None;
        },
    };
    match find_bytes(&fields, 1) {
        Some(data) => Some(Block { data }),
        None => None,
    }
}

/// Encoding a [`Block`] and decoding the bytes gives the same payload back.
pub proof fn lemma_block_round_trip(data: Seq<u8>)
    requires
        data.len() <= u64::MAX,
    ensures
        decoded_block(encoding_of(block_fields(data))) == Some(data),
{
    let fields = block_fields(data);
    lemma_parse_encoding(fields);
    lemma_lookups_of_three(fields, Seq::empty(), Seq::empty());
    assert(fields + Seq::<FieldView>::empty() + Seq::<FieldView>::empty() =~= fields);
    reveal_with_fuel(last_bytes, 3);
    if fields.len() == 1 {
        assert(fields.drop_last().len() == 0);
    }
    if data.len() == 0 {
        assert(data =~= Seq::<u8>::empty());
    }
}

/// The 64-bit value that stands for a status code on the wire: the code itself, or for a
/// negative code its two's complement.
pub open spec fn code_on_wire(code: i32) -> u64 {
    if code >= 0 {
        code as u64
    } else {
        (0x1_0000_0000_0000_0000 + code) as u64
    }
}

/// The status code that a 64-bit value of the wire stands for: its low 32 bits, read as
/// two's complement.
pub open spec fn code_off_wire(v: u64) -> i32 {
    let low = v % 0x1_0000_0000;
    if low < 0x8000_0000 {
        low as i32
    } else {
        (low - 0x1_0000_0000) as i32
    }
}

/// The fields of a [`BlockStatus`]: the code as field 1.
pub open spec fn block_status_fields(status: BlockStatus) -> Seq<FieldView> {
    varint_field(1, code_on_wire(status.code))
}

/// What the bytes decode to as a [`BlockStatus`].
pub open spec fn decoded_block_status(bytes: Seq<u8>) -> Option<BlockStatus> {
    match parse(bytes) {
        Some(fields) => match varint_or_zero(last_varint(fields, 1)) {
            Some(v) => Some(BlockStatus { code: code_off_wire(v) }),
            None => None,
        },
        None => None,
    }
}

pub fn encode_block_status(status: &BlockStatus) -> (out: Vec<u8>)
    ensures
        out@ == encoding_of(block_status_fields(*status)),
{
    let code = status.code;
    let v: u64 = if code >= 0 {
        code as u64
    } else {
        u64::MAX - ((-(code + 1)) as u64)
    };
    let mut fields: Vec<Field> = Vec::new();
    assert(views(fields@) =~= Seq::<FieldView>::empty());
    push_varint_field(&mut fields, 1, v);
    assert(views(fields@) =~= block_status_fields(*status));
    encode_fields(&fields)
}

pub fn decode_block_status(bytes: &[u8]) -> (status: Option<BlockStatus>)
    ensures
        status == decoded_block_status(bytes@),
{
    let fields = match parse_fields(bytes) {
        Some(fields) => fields,
        None => {
            return None;
        },
    };
    match find_varint(&fields, 1) {
        Some(v) => {
            let low = v % 0x1_0000_0000;
            let code: i32 = if low < 0x8000_0000 {
                low as i32
            } else {
                (low as i64 - 0x1_0000_0000i64) as i32
            };
            Some(BlockStatus { code })
        },
        None => None,
    }
}

/// Encoding a [`BlockStatus`] and decoding the bytes gives the same code back.
pub proof fn lemma_block_status_round_trip(status: BlockStatus)
    ensures
        decoded_block_status(encoding_of(block_status_fields(status))) == Some(status),
{
    let fields = block_status_fields(status);
    lemma_parse_encoding(fields);
    reveal_with_fuel(last_varint, 3);
    if fields.len() == 1 {
        assert(fields.drop_last().len() == 0);
    }
    lemma_code_round_trip(status.code);
}

/// A status code comes back from the 64-bit value that stands for it.
pub proof fn lemma_code_round_trip(code: i32)
    ensures
        code_off_wire(code_on_wire(code)) == code,
{
    let v = code_on_wire(code) as int;
    let r: int = if code >= 0 {
        code as int
    } else {
        0x1_0000_0000 + code
    };
    let q: int = if code >= 0 {
        0
    } else {
        0xffff_ffff
    };
    assert(v % 0x1_0000_0000 == r) by (nonlinear_arith)
        requires
            v == q * 0x1_0000_0000 + r,
            0 <= r < 0x1_0000_0000,
    ;
}

/// `String::from_utf8`: the string whose UTF-8 bytes are the given ones, where they are
/// valid UTF-8, and `None` where they are not.
#[verifier::external_body]
fn string_from_utf8(bytes: Vec<u8>) -> (text: Option<String>)
    ensures
        text is Some <==> valid_utf8(bytes@),
        text matches Some(s) ==> encode_utf8(s@) == bytes@,
{
    String::from_utf8(bytes).ok()
}

/// The fields of a [`ClientInfo`]: the name in UTF-8 as field 1.
pub open spec fn client_info_fields(name: Seq<char>) -> Seq<FieldView> {
    bytes_field(1, encode_utf8(name))
}

/// What the bytes decode to as a [`ClientInfo`]: its name.
pub open spec fn decoded_client_info(bytes: Seq<u8>) -> Option<Seq<char>> {
    match parse(bytes) {
        Some(fields) => match bytes_or_empty(last_bytes(fields, 1)) {
            Some(name) => if valid_utf8(name) {
                Some(decode_utf8(name))
            } else {
                None
            },
            None => None,
        },
        None => None,
    }
}

pub fn encode_client_info(info: &ClientInfo) -> (out: Vec<u8>)
    ensures
        out@ == encoding_of(client_info_fields(info@)),
{
    let name = slice_to_vec(info.name.as_str().as_bytes());
    let mut fields: Vec<Field> = Vec::new();
    assert(views(fields@) =~= Seq::<FieldView>::empty());
    push_bytes_field(&mut fields, 1, &name);
    assert(views(fields@) =~= client_info_fields(info@));
    encode_fields(&fields)
}

pub fn decode_client_info(bytes: &[u8]) -> (info: Option<ClientInfo>)
    ensures
        info is None <==> decoded_client_info(bytes@) is None,
        info matches Some(i) ==> decoded_client_info(bytes@) == Some(i@),
{
    let fields = match parse_fields(bytes) {
        Some(fields) => fields,
        None => {
            return None;
        },
    };
    let name = match find_bytes(&fields, 1) {
        Some(name) => name,
        None => {
            return None;
        },
    };
    match string_from_utf8(name) {
        Some(name) => {
            proof {
                vstd::utf8::encode_utf8_decode_utf8(name@);
            }
            Some(ClientInfo { name })
        },
        None => None,
    }
}

/// Encoding a [`ClientInfo`] and decoding the bytes gives the same name back.
pub proof fn lemma_client_info_round_trip(name: Seq<char>)
    requires
        encode_utf8(name).len() <= u64::MAX,
    ensures
        decoded_client_info(encoding_of(client_info_fields(name))) == Some(name),
{
    let bytes = encode_utf8(name);
    let fields = client_info_fields(name);
    lemma_parse_encoding(fields);
    reveal_with_fuel(last_bytes, 3);
    if fields.len() == 1 {
        assert(fields.drop_last().len() == 0);
    }
    vstd::utf8::encode_utf8_valid_utf8(name);
    vstd::utf8::encode_utf8_decode_utf8(name);
    if bytes.len() == 0 {
        assert(bytes =~= Seq::<u8>::empty());
    }
}

/// Length of the prefix of a frame: the compression flag and four bytes of length.
pub const FRAME_PREFIX_LEN: usize = 5;

/// The frame around a message: a zero flag for "not compressed", the length of the
/// message as four bytes, most significant first, and the message.
pub open spec fn framed(message: Seq<u8>) -> Seq<u8> {
    seq![0u8] + be_bytes(message.len() as u32) + message
}

/// The number that four bytes stand for, most significant first.
pub open spec fn be_value(b0: u8, b1: u8, b2: u8, b3: u8) -> nat {
    (b0 as nat) * 0x100_0000 + (b1 as nat) * 0x1_0000 + (b2 as nat) * 0x100 + (b3 as nat)
}

/// The message in the frame at the front of the bytes and the length of the frame;
/// `None` where the prefix is incomplete, the flag is not zero or the message is cut off.
pub open spec fn unframed(bytes: Seq<u8>) -> Option<(Seq<u8>, nat)> {
    if bytes.len() < FRAME_PREFIX_LEN || bytes[0] != 0 {
        None
    } else {
        let len = be_value(bytes[1], bytes[2], bytes[3], bytes[4]);
        if FRAME_PREFIX_LEN + len <= bytes.len() {
            Some(
                (
                    bytes.subrange(FRAME_PREFIX_LEN as int, FRAME_PREFIX_LEN + len),
                    (FRAME_PREFIX_LEN + len) as nat,
                ),
            )
        } else {
            None
        }
    }
}

/// Puts the frame around a message; `None` for a message whose length does not fit in
/// four bytes.
pub fn frame(message: &Vec<u8>) -> (out: Option<Vec<u8>>)
    ensures
        out is Some <==> message@.len() <= u32::MAX,
        out matches Some(f) ==> f@ == framed(message@),
{
    if message.len() > u32::MAX as usize {
        return None;
    }
    let mut out: Vec<u8> = Vec::new();
    out.push(0);
    let len = nonce_bytes(message.len() as u32);
    put_bytes(&mut out, &len);
    put_bytes(&mut out, message);
    assert(out@ =~= framed(message@));
    Some(out)
}

/// Takes the frame at the front of the bytes apart: the message and the length of the
/// frame.
pub fn unframe(bytes: &[u8]) -> (taken: Option<(Vec<u8>, usize)>)
    ensures
        taken is None <==> unframed(bytes@) is None,
        taken matches Some((message, used)) ==> unframed(bytes@) == Some((message@, used as nat)),
{
    if bytes.len() < FRAME_PREFIX_LEN || bytes[0] != 0 {
        return None;
    }
    let len: u64 = (bytes[1] as u64) * 0x100_0000 + (bytes[2] as u64) * 0x1_0000 + (bytes[3] as u64)
        * 0x100 + (bytes[4] as u64);
    if len > (bytes.len() - FRAME_PREFIX_LEN) as u64 {
        return None;
    }
    let end = FRAME_PREFIX_LEN + len as usize;
    Some((crate::wire::copy_range(bytes, FRAME_PREFIX_LEN, end), end))
}

/// The four bytes of a number, most significant first, stand for that number.
pub proof fn lemma_be_value(n: u32)
    ensures
        be_value(be_bytes(n)[0], be_bytes(n)[1], be_bytes(n)[2], be_bytes(n)[3]) == n,
{
    let b0 = (n >> 24u32) as u8;
    let b1 = ((n >> 16u32) & 0xffu32) as u8;
    let b2 = ((n >> 8u32) & 0xffu32) as u8;
    let b3 = (n & 0xffu32) as u8;
    assert((b0 as u32) * 0x100_0000u32 + (b1 as u32) * 0x1_0000u32 + (b2 as u32) * 0x100u32 + (
    b3 as u32) == n && (b0 as u32) <= 0xffu32) by (bit_vector)
        requires
            b0 == (n >> 24u32) as u8,
            b1 == ((n >> 16u32) & 0xffu32) as u8,
            b2 == ((n >> 8u32) & 0xffu32) as u8,
            b3 == (n & 0xffu32) as u8,
    ;
}

/// Taking a frame apart gives the message back, whatever follows the frame.
pub proof fn lemma_frame_round_trip(message: Seq<u8>, rest: Seq<u8>)
    requires
        message.len() <= u32::MAX,
    ensures
        unframed(framed(message) + rest) == Some(
            (message, (FRAME_PREFIX_LEN + message.len()) as nat),
        ),
{
    let n = message.len() as u32;
    lemma_be_value(n);
    let all = framed(message) + rest;
    assert(all[1] == be_bytes(n)[0]);
    assert(all[2] == be_bytes(n)[1]);
    assert(all[3] == be_bytes(n)[2]);
    assert(all[4] == be_bytes(n)[3]);
    assert(all.subrange(FRAME_PREFIX_LEN as int, FRAME_PREFIX_LEN + message.len()) =~= message);
}

} // verus!
