//! Interning of source text: one `&'static str` for each distinct text, so
//! that spans can carry their source without copying it.

use dashmap::DashSet;
use std::collections::hash_map::RandomState;
use vstd::prelude::*;
use vstd::string::StringExecFns;

verus! {

/// `dashmap::DashSet`, carried as an opaque value.
#[verifier::external_type_specification]
#[verifier::external_body]
#[verifier::reject_recursive_types(K)]
#[verifier::reject_recursive_types(S)]
pub struct ExDashSet<K, S>(DashSet<K, S>);

/// The texts of the strings that `set` holds.
pub uninterp spec fn held(set: DashSet<&'static str, RandomState>) -> Set<Seq<char>>;

/// `DashSet::new`: a set that holds nothing.
#[verifier::external_body]
fn set_new() -> (set: DashSet<&'static str, RandomState>)
    ensures
        held(set) == Set::<Seq<char>>::empty(),
{
    DashSet::new()
}

/// `DashSet::get`: the string of the set that is equal to `key`, if the set
/// holds one. The set is not changed.
#[verifier::external_body]
fn set_get(set: &mut DashSet<&'static str, RandomState>, key: &str) -> (found: Option<&'static str>)
    ensures
        held(*final(set)) == held(*old(set)),
        found is Some <==> held(*old(set)).contains(key@),
        found matches Some(text) ==> text@ == key@,
{
    match set.get(key) {
        Some(entry) => Some(*entry),
        None => None,
    }
}

/// `DashSet::insert`: afterwards the set holds `key` as well. Returns whether
/// the set did not hold it before.
#[verifier::external_body]
fn set_insert(set: &mut DashSet<&'static str, RandomState>, key: &'static str) -> (fresh: bool)
    ensures
        held(*final(set)) == held(*old(set)).insert(key@),
        fresh == !held(*old(set)).contains(key@),
{
    set.insert(key)
}

/// `String::leak`: the text of `text`, for the rest of the program.
#[verifier::external_body]
fn leak(text: String) -> (leaked: &'static str)
    ensures
        leaked@ == text@,
{
    text.leak()
}

/// Keeps one copy of each text it is asked for.
pub struct StringAllocator {
    strings: DashSet<&'static str, RandomState>,
}

impl View for StringAllocator {
    type V = Set<Seq<char>>;

    /// The texts that have been interned.
    closed spec fn view(&self) -> Set<Seq<char>> {
        held(self.strings)
    }
}

impl StringAllocator {
    /// An allocator that holds nothing.
    pub fn new() -> (allocator: StringAllocator)
        ensures
            allocator@ == Set::<Seq<char>>::empty(),
    {
        StringAllocator { strings: set_new() }
    }

    /// The interned copy of `string`: the one that is held already, or a new
    /// one, which is held from now on.
    pub fn intern(&mut self, string: &str) -> (interned: &'static str)
        ensures
            interned@ == string@,
            final(self)@ == old(self)@.insert(string@),
    {
        match set_get(&mut self.strings, string) {
            Some(interned) => {
                assert(old(self)@.insert(string@) =~= old(self)@);
                interned
            },
            None => {
                let interned = leak(String::from_str(string));
                let _ = set_insert(&mut self.strings, interned);
                interned
            },
        }
    }
}

impl Default for StringAllocator {
    fn default() -> (allocator: StringAllocator)
        ensures
            allocator@ == Set::<Seq<char>>::empty(),
    {
        StringAllocator::new()
    }
}

/// The interned copy of `string` in `allocator`.
#[inline]
pub fn static_str(allocator: &mut StringAllocator, string: &str) -> (interned: &'static str)
    ensures
        interned@ == string@,
        final(allocator)@ == old(allocator)@.insert(string@),
{
    allocator.intern(string)
}

} // verus!
