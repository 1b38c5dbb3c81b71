//! Parsing, checking and canonical printing of SPDX license expressions.
use vstd::prelude::*;

pub mod ast;
pub mod laws;
pub mod lexer;
pub mod license_id;
pub mod parser;

pub use license_id::LicenseId;

verus! {

#[verifier::external_type_specification]
#[verifier::external_body]
pub struct ExAnyhowError(anyhow::Error);

/// Whether a lookup found a value, passing a failed lookup's error on.
pub fn found<V>(lookup: anyhow::Result<Option<V>>) -> (r: anyhow::Result<bool>)
    ensures
        match lookup {
            Ok(o) => r matches Ok(b) && b == o is Some,
            Err(e) => r matches Err(f) && f == e,
        },
{
    match lookup {
        Ok(o) => Ok(o.is_some()),
        Err(e) => Err(e),
    }
}

/// A key-value store that can be shared between threads.
pub trait Store<K, V>: std::fmt::Debug + Send + Sync where
    K: Send + Sync + Eq + std::hash::Hash,
    V: Clone + Send + Sync,
 {
    /// Whether `r` is a result that `get` may give for `key`; each store says what it
    /// means, and nothing is assumed of it here.
    spec fn get_result(&self, key: &K, r: anyhow::Result<Option<V>>) -> bool;

    fn get(&self, key: &K) -> (r: anyhow::Result<Option<V>>)
        ensures
            self.get_result(key, r),
    ;

    fn insert(&self, key: K, val: V) -> anyhow::Result<()>;

    /// Whether `key` has a value, by way of `get`: for some result that `get` may give
    /// for `key`, a value gives `true`, none gives `false`, and an error is passed on.
    fn contains_key(&self, key: &K) -> (r: anyhow::Result<bool>)
        ensures
            exists|g: anyhow::Result<Option<V>>|
                self.get_result(key, g) && match g {
                    Ok(o) => r matches Ok(b) && b == o is Some,
                    Err(e) => r matches Err(f) && f == e,
                },
    {
        let g = self.get(key);
        let ghost gg = g;
        let r = found(g);
        assert(self.get_result(key, gg));
        r
    }
}

} // verus!
