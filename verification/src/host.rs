//! Declarations and trusted wrappers for the parts of `soroban_sdk` that the
//! settlement logic reads: host vectors and addresses.
use vstd::prelude::*;

verus! {

#[verifier::external_type_specification]
#[verifier::external_body]
#[verifier::reject_recursive_types(T)]
pub struct ExSorobanVec<T>(soroban_sdk::Vec<T>);

#[verifier::external_type_specification]
#[verifier::external_body]
pub struct ExAddress(soroban_sdk::Address);

#[verifier::external_type_specification]
#[verifier::external_body]
pub struct ExConversionError(soroban_sdk::ConversionError);

/// What a host vector declared as holding `u32` holds, slot by slot: `Some(x)`
/// where the slot's value is a `u32` with payload `x`, `None` where it is a
/// value of another type (a host vector handed in by a caller does not
/// guarantee the type of its items).
pub uninterp spec fn u32_vec_slots(v: soroban_sdk::Vec<u32>) -> Seq<Option<u32>>;

/// What a host vector declared as holding addresses holds, slot by slot:
/// `true` where the slot's value is an address, `false` where it is a value of
/// another type.
pub uninterp spec fn address_vec_slots(v: soroban_sdk::Vec<soroban_sdk::Address>) -> Seq<bool>;

/// Whether two addresses name the same account or contract. The host compares
/// the address objects by content, and host objects never change.
pub uninterp spec fn address_eq(a: soroban_sdk::Address, b: soroban_sdk::Address) -> bool;

/// `soroban_sdk::Vec::<u32>::len`: the number of slots of the vector, as the
/// host reports it. Like every host call, it aborts the whole invocation when
/// the host's resource budget runs out; that outcome is outside this contract.
#[verifier::external_body]
pub(crate) fn u32_vec_len(v: &soroban_sdk::Vec<u32>) -> (n: u32)
    ensures
        n == u32_vec_slots(*v).len(),
{
    v.len()
}

/// `soroban_sdk::Vec::<u32>::try_get`: `Ok(None)` past the end; within the
/// vector `Ok(Some(x))` where the slot holds the `u32` `x`, and the conversion
/// error where the slot holds a value of another type.
#[verifier::external_body]
pub(crate) fn u32_vec_try_get(v: &soroban_sdk::Vec<u32>, i: u32) -> (r: Result<
    Option<u32>,
    soroban_sdk::ConversionError,
>)
    ensures
        i >= u32_vec_slots(*v).len() ==> (r matches Ok(None)),
        i < u32_vec_slots(*v).len() ==> (match u32_vec_slots(*v)[i as int] {
            Some(x) => r matches Ok(Some(y)) && y == x,
            None => r is Err,
        }),
{
    v.try_get(i)
}

/// `soroban_sdk::Vec::<Address>::len`: the number of slots of the vector.
#[verifier::external_body]
pub(crate) fn address_vec_len(v: &soroban_sdk::Vec<soroban_sdk::Address>) -> (n: u32)
    ensures
        n == address_vec_slots(*v).len(),
{
    v.len()
}

/// `soroban_sdk::Vec::<Address>::try_get`: `Ok(None)` past the end; within the
/// vector `Ok(Some(..))` where the slot holds an address, and the conversion
/// error where it holds a value of another type.
#[verifier::external_body]
pub(crate) fn address_vec_try_get(v: &soroban_sdk::Vec<soroban_sdk::Address>, i: u32) -> (r:
    Result<Option<soroban_sdk::Address>, soroban_sdk::ConversionError>)
    ensures
        i >= address_vec_slots(*v).len() ==> (r matches Ok(None)),
        i < address_vec_slots(*v).len() ==> (address_vec_slots(*v)[i as int] <==> (r matches Ok(
            Some(_),
        ))),
        i < address_vec_slots(*v).len() ==> (!address_vec_slots(*v)[i as int] <==> r is Err),
{
    v.try_get(i)
}

/// `PartialEq::eq` on `soroban_sdk::Address`: the host compares the two
/// address objects by content (`Ord::cmp`, through the host's `obj_cmp`, or
/// through their `ScVal`s where they live in different environments).
#[verifier::external_body]
pub(crate) fn same_address(a: &soroban_sdk::Address, b: &soroban_sdk::Address) -> (r: bool)
    ensures
        r == address_eq(*a, *b),
        *a == *b ==> r,
{
    a == b
}

} // verus!
