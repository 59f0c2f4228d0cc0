use vstd::prelude::*;
use wasm_bindgen::Clamped;

verus! {

/// `wasm_bindgen::Clamped`, the marker that makes a byte buffer cross to the
/// host as a clamped byte array. Its contents are not visible to the
/// verifier.
#[verifier::external_type_specification]
#[verifier::external_body]
#[verifier::reject_recursive_types(T)]
pub struct ExClamped<T>(Clamped<T>);

/// The bytes that a clamped buffer holds, in order.
pub uninterp spec fn clamped_bytes(data: Clamped<Vec<u8>>) -> Seq<u8>;

/// Builds a `wasm_bindgen::Clamped` around an owned byte buffer. `Clamped` is
/// a tuple struct with one public field, and building it stores the buffer
/// in that field unchanged; the contract claims just that: the result holds
/// the bytes handed in, in the same order. This is believed, not proved.
#[verifier::external_body]
pub(crate) fn clamp(bytes: Vec<u8>) -> (data: Clamped<Vec<u8>>)
    ensures
        clamped_bytes(data) == bytes@,
{
    Clamped(bytes)
}

} // verus!
