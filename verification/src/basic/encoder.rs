//! Events that encode themselves as bytes.

use vstd::prelude::*;
use vstd::slice::slice_to_vec;

verus! {

/// Why a value could not be encoded.
#[derive(Debug, Clone, Copy, PartialEq, Eq, Structural)]
pub enum EncodeError {
    /// The value has no encoding.
    Unencodable,
}

pub trait Encode {
    /// Whether the value has an encoding.
    spec fn encodable(&self) -> bool;

    /// The bytes that stand for the value.
    spec fn encoding(&self) -> Seq<u8>;

    fn encode(&self) -> (bytes: Result<Vec<u8>, EncodeError>)
        ensures
            bytes is Ok <==> self.encodable(),
            bytes matches Ok(b) ==> b@ == self.encoding(),
    ;
}

pub struct Event<Id, Data> where Id: Encode, Data: Encode {
    id: Id,
    data: Data,
}

impl<Id, Data> Event<Id, Data> where Id: Encode, Data: Encode {
    pub closed spec fn id(&self) -> Id {
        self.id
    }

    pub closed spec fn data(&self) -> Data {
        self.data
    }

    pub fn new(id: Id, data: Data) -> (event: Self)
        ensures
            event.id() == id,
            event.data() == data,
    {
        Self { id, data }
    }

    /// The encoding of the id followed by that of the data; the error of the first of
    /// the two that has no encoding.
    pub fn encode(&self) -> (bytes: Result<Vec<u8>, EncodeError>)
        ensures
            bytes is Ok <==> self.id().encodable() && self.data().encodable(),
            bytes matches Ok(b) ==> b@ == self.id().encoding() + self.data().encoding(),
    {
        let mut id = match self.id.encode() {
            Ok(id) => id,
            Err(e) => {
                return Err(e);
            },
        };
        let mut data = match self.data.encode() {
            Ok(data) => data,
            Err(e) => {
                return Err(e);
            },
        };
        id.append(&mut data);
        Ok(id)
    }
}

/// The eight bytes of `x`, most significant first.
pub open spec fn be_bytes_u64(x: u64) -> Seq<u8> {
    seq![
        (x >> 56u64) as u8,
        ((x >> 48u64) & 0xffu64) as u8,
        ((x >> 40u64) & 0xffu64) as u8,
        ((x >> 32u64) & 0xffu64) as u8,
        ((x >> 24u64) & 0xffu64) as u8,
        ((x >> 16u64) & 0xffu64) as u8,
        ((x >> 8u64) & 0xffu64) as u8,
        (x & 0xffu64) as u8,
    ]
}

impl Encode for u64 {
    open spec fn encodable(&self) -> bool {
        true
    }

    open spec fn encoding(&self) -> Seq<u8> {
        be_bytes_u64(*self)
    }

    fn encode(&self) -> (bytes: Result<Vec<u8>, EncodeError>) {
        let x = *self;
        let mut out: Vec<u8> = Vec::with_capacity(8);
        out.push((x >> 56) as u8);
        out.push(((x >> 48) & 0xff) as u8);
        out.push(((x >> 40) & 0xff) as u8);
        out.push(((x >> 32) & 0xff) as u8);
        out.push(((x >> 24) & 0xff) as u8);
        out.push(((x >> 16) & 0xff) as u8);
        out.push(((x >> 8) & 0xff) as u8);
        out.push((x & 0xff) as u8);
        assert(out@ =~= be_bytes_u64(x));
        Ok(out)
    }
}

impl Encode for String {
    open spec fn encodable(&self) -> bool {
        true
    }

    /// The UTF-8 bytes of the string.
    open spec fn encoding(&self) -> Seq<u8> {
        vstd::utf8::encode_utf8(self@)
    }

    fn encode(&self) -> (bytes: Result<Vec<u8>, EncodeError>) {
        Ok(slice_to_vec(self.as_str().as_bytes()))
    }
}

} // verus!
