//! Interned names, held in a `lasso::Rodeo`.
use vstd::prelude::*;
use lasso::Key;

verus! {

#[verifier::external_type_specification]
#[verifier::external_body]
#[verifier::reject_recursive_types(K)]
#[verifier::reject_recursive_types(S)]
pub struct ExRodeo<K, S>(lasso::Rodeo<K, S>);

#[verifier::external_type_specification]
#[verifier::external_body]
pub struct ExSpur(lasso::Spur);

/// The strings an interner holds, in the order of their keys.
pub uninterp spec fn interned(r: lasso::Rodeo) -> Seq<Seq<char>>;

/// The key of `name`, interning it if needed (`Rodeo::get_or_intern`, the key
/// read as its index by `Key::into_usize`): a string already held keeps its
/// key and leaves the interner as it was; a new one is appended and gets the
/// next key. Keys are indices into the interned strings.
#[verifier::external_body]
pub(crate) fn get_or_intern(r: &mut lasso::Rodeo, name: &str) -> (k: usize)
    requires
        interned(*old(r)).len() + 1 < u32::MAX,
    ensures
        interned(*old(r)).contains(name@) ==> {
            &&& interned(*final(r)) == interned(*old(r))
            &&& k < interned(*old(r)).len()
            &&& interned(*old(r))[k as int] == name@
        },
        !interned(*old(r)).contains(name@) ==> {
            &&& interned(*final(r)) == interned(*old(r)).push(name@)
            &&& k == interned(*old(r)).len()
        },
{
    r.get_or_intern(name).into_usize()
}

/// An empty interner (`Rodeo::new`).
#[verifier::external_body]
pub(crate) fn rodeo_new() -> (r: lasso::Rodeo)
    ensures
        interned(r) == Seq::<Seq<char>>::empty(),
{
    lasso::Rodeo::new()
}

/// The string of key `k` (`Rodeo::resolve`, the key made from its index by
/// `Key::try_from_usize`). A `Rodeo` with `Spur` keys holds at most
/// `u32::MAX` strings (`get_or_intern` refuses to make a key past that), so
/// every index below the count is below `u32::MAX` and converts.
#[verifier::external_body]
pub(crate) fn resolve(r: &lasso::Rodeo, k: usize) -> (s: &str)
    requires
        k < interned(*r).len(),
    ensures
        s@ == interned(*r)[k as int],
{
    r.resolve(&lasso::Spur::try_from_usize(k).unwrap())
}

} // verus!
