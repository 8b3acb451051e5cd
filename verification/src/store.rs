use vstd::prelude::*;
use cosmwasm_std::testing::MockStorage;
use cosmwasm_std::Storage;

verus! {

#[verifier::external_type_specification]
#[verifier::external_body]
pub struct ExMockStorage(MockStorage);

/// The map of flat keys to stored values that a store holds.
pub uninterp spec fn contents(store: MockStorage) -> Map<Seq<u8>, Seq<u8>>;

/// Relies on cosmwasm_std::Storage::get on MockStorage: it returns a copy of
/// the value stored under the key, or None when the key is absent.
#[verifier::external_body]
pub(crate) fn store_get(store: &MockStorage, key: &[u8]) -> (r: Option<Vec<u8>>)
    ensures
        match r {
            Some(v) => contents(*store).contains_key(key@) && v@ == contents(*store)[key@],
            None => !contents(*store).contains_key(key@),
        },
{
    store.get(key)
}

/// Relies on cosmwasm_std::Storage::set on MockStorage: it stores a copy of
/// the value under the key, replacing any prior value. The store refuses an
/// empty value, so callers keep those out.
#[verifier::external_body]
pub(crate) fn store_set(store: &mut MockStorage, key: &[u8], value: &[u8])
    requires
        value@.len() > 0,
    ensures
        contents(*final(store)) == contents(*old(store)).insert(key@, value@),
{
    store.set(key, value)
}

} // verus!
