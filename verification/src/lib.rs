//! A small CBOR library: an encoder, a decoder and the `Encode` trait, with
//! the wire format stated as specification and the implementation proved
//! against it.
use vstd::prelude::*;

pub mod data;
pub mod decode;
pub mod encode;
pub mod head;
pub mod wellformed;

pub use decode::Decoder;
pub use encode::{CborLen, Encode, Encoder};

verus! {

/// Encodes a value into a new vector.
pub fn to_vec<T: Encode<()>>(x: T) -> (r: Result<Vec<u8>, encode::Error>)
    ensures
        r matches Ok(v) ==> v@ == x.encoding(),
        r is Ok <==> x.encodable(),
        r matches Err(err) ==> err == x.encode_error(),
{
    let mut e = Encoder::new(Vec::new());
    x.encode(&mut e, &mut ())?;
    Ok(e.into_inner())
}

} // verus!
