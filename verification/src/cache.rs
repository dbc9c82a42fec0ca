//! The cache that makes names: one name for each text, one key for each
//! canonical spelling.

use std::sync::Arc;
use vstd::hash_map::StringHashMap;
use vstd::prelude::*;
use crate::grammar::classify;
use crate::grammar::is_valid_name;
use crate::name::invalid_name_message;
use crate::name::name_of;
use crate::name::share;
use crate::name::Name;
use crate::name::NameError;
use crate::name::NameView;
use crate::text::ascii_upper;
use crate::text::to_upper;

verus! {

/// What parsing the text `raw` gives: its name, or nothing where `raw` is
/// not a name. No cache has a say in it.
pub open spec fn parse(raw: Seq<char>) -> Option<NameView> {
    if is_valid_name(raw) {
        Some(name_of(raw))
    } else {
        None
    }
}

/// The texts that a cache holds once it was asked for `raw`, where it held
/// `held` before: a name is added, anything else leaves no trace.
pub open spec fn held_after(held: Set<Seq<char>>, raw: Seq<char>) -> Set<Seq<char>> {
    if is_valid_name(raw) {
        held.insert(raw)
    } else {
        held
    }
}

/// The canonical keys of the texts `held`: as many as there are names that
/// differ in more than case.
pub open spec fn canonical_keys(held: Set<Seq<char>>) -> Set<Seq<char>> {
    Set::new(|k: Seq<char>| exists|r: Seq<char>| held.contains(r) && #[trigger] to_upper(r) == k)
}

/// The store of the names made so far. It holds each text it was asked for
/// with its name, and each canonical key with the one allocation that all
/// names of that key share. Its view is the set of the texts it holds.
pub struct NameCache {
    names: StringHashMap<Name>,
    keys: StringHashMap<Arc<String>>,
}

impl View for NameCache {
    type V = Set<Seq<char>>;

    closed spec fn view(&self) -> Set<Seq<char>> {
        self.names@.dom()
    }
}

impl NameCache {
    /// Each text is held with its own name, each key with its own text, and
    /// the keys held are those of the names held.
    #[verifier::type_invariant]
    closed spec fn inv(self) -> bool {
        &&& self.names@.dom().finite()
        &&& forall|r: Seq<char>| #[trigger]
            self.names@.dom().contains(r) ==> is_valid_name(r) && self.names@[r]@ == name_of(r)
        &&& forall|k: Seq<char>| #[trigger] self.keys@.dom().contains(k) ==> self.keys@[k]@ == k
        &&& self.keys@.dom() == canonical_keys(self.names@.dom())
    }

    /// A cache that holds nothing.
    pub fn new() -> (cache: NameCache)
        ensures
            cache@ == Set::<Seq<char>>::empty(),
    {
        let names = StringHashMap::new();
        let keys = StringHashMap::new();
        assert(keys@.dom() =~= canonical_keys(names@.dom()));
        NameCache { names, keys }
    }

    /// The name of the text `raw`: the one made when `raw` was first asked
    /// for, or a new one, which the cache then holds. A text that is not a
    /// name is refused, with a message that holds it, and leaves the cache
    /// as it was.
    pub fn get(&mut self, raw: &str) -> (res: Result<Name, NameError>)
        ensures
            final(self)@ == held_after(old(self)@, raw@),
            match res {
                Ok(name) => parse(raw@) == Some(name@),
                Err(e) => parse(raw@) is None && e.text() == invalid_name_message(raw@),
            },
    {
        proof {
            use_type_invariant(&*self);
        }
        if let Some(name) = self.names.get(raw) {
            let name = name.clone();
            assert(self@.insert(raw@) =~= self@);
            return Ok(name);
        }
        let ty = match classify(raw) {
            Some(ty) => ty,
            None => {
                return Err(NameError::invalid(raw));
            },
        };
        let mut taken = NameCache::new();
        std::mem::swap(self, &mut taken);
        let NameCache { mut names, mut keys } = taken;
        let ghost old_names = names@;
        let ghost old_keys = keys@;
        let upper = ascii_upper(raw);
        let key = match keys.get(upper.as_str()) {
            Some(key) => share(key),
            None => {
                let key = Arc::new(upper.clone());
                keys.insert(upper, share(&key));
                key
            },
        };
        let name = Name::new(ty, key, raw.to_owned());
        names.insert(raw.to_owned(), name.clone());
        proof {
            let k = to_upper(raw@);
            assert(keys@.dom() =~= old_keys.dom().insert(k));
            assert(names@.dom() =~= old_names.dom().insert(raw@));
            assert forall|x: Seq<char>|
                canonical_keys(names@.dom()).contains(x) <==> keys@.dom().contains(x) by {
                if canonical_keys(names@.dom()).contains(x) {
                    let r = choose|r: Seq<char>| names@.dom().contains(r) && #[trigger] to_upper(r) == x;
                    if r != raw@ {
                        assert(old_names.dom().contains(r));
                        assert(canonical_keys(old_names.dom()).contains(x));
                    }
                }
                if keys@.dom().contains(x) {
                    if x == k {
                        assert(names@.dom().contains(raw@) && to_upper(raw@) == x);
                    } else {
                        assert(canonical_keys(old_names.dom()).contains(x));
                        let r = choose|r: Seq<char>|
                            old_names.dom().contains(r) && #[trigger] to_upper(r) == x;
                        assert(names@.dom().contains(r) && to_upper(r) == x);
                    }
                }
            }
            assert(keys@.dom() =~= canonical_keys(names@.dom()));
        }
        *self = NameCache { names, keys };
        Ok(name)
    }

    /// Empties the cache. The names it gave out stay as they are.
    pub fn clear(&mut self)
        ensures
            final(self)@ == Set::<Seq<char>>::empty(),
    {
        let mut taken = NameCache::new();
        std::mem::swap(self, &mut taken);
        let NameCache { mut names, mut keys } = taken;
        keys.clear();
        names.clear();
        assert(keys@.dom() =~= canonical_keys(names@.dom()));
        *self = NameCache { names, keys };
    }

    /// How many texts the cache holds: one for each name it made.
    pub fn len(&self) -> (n: usize)
        ensures
            n == self@.len(),
            self@.finite(),
    {
        proof {
            use_type_invariant(self);
        }
        self.names.len()
    }

    /// How many canonical keys the cache holds: one for each set of names
    /// that differ in case alone.
    pub fn key_count(&self) -> (n: usize)
        ensures
            n == canonical_keys(self@).len(),
    {
        proof {
            use_type_invariant(self);
        }
        self.keys.len()
    }
}

/// Empties `cache`, to bound the memory it holds. The names it gave out
/// stay as they are.
pub fn clear_cache(cache: &mut NameCache)
    ensures
        final(cache)@ == Set::<Seq<char>>::empty(),
{
    cache.clear();
}

} // verus!
