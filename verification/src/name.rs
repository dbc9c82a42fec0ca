//! The artifact type and the artifact name.

use std::cmp::Ordering;
use std::hash::Hash;
use std::hash::Hasher;
use std::ops::Deref;
use std::sync::Arc;
use vstd::prelude::*;
use crate::grammar::is_valid_name;
use crate::grammar::tag_type;
use crate::order::compare_text;
use crate::order::text_order;
use crate::text::to_upper;

verus! {

/// The type of an artifact, read from the tag that starts its name.
#[derive(Debug, Copy, Clone, Eq, PartialEq, Hash, Structural)]
pub enum Type {
    REQ,
    SPC,
    TST,
}

/// Why a text was refused.
#[derive(Debug)]
pub enum NameError {
    /// The text is not a name; `msg` says so and holds the text.
    InvalidName { msg: String },
}

/// What a name is to a contract: its type, its canonical key and the text
/// it was written with.
pub struct NameView {
    pub ty: Type,
    pub key: Seq<char>,
    pub raw: Seq<char>,
}

/// The parts of a name. Read them through a [`Name`].
#[derive(Debug)]
pub struct InternalName {
    /// The type of the artifact, which the tag of the name spells.
    pub ty: Type,
    /// The canonical key: the whole text in upper case.
    pub key: Arc<String>,
    /// The text as it was written.
    pub raw: String,
}

/// A name, shared by all who hold it. A name is equal to another when its
/// type and its key are; the case it was written in does not count.
#[derive(Debug)]
pub struct Name {
    internal_name: Arc<InternalName>,
}

/// The name that the text `raw` stands for, where `raw` is a name.
pub open spec fn name_of(raw: Seq<char>) -> NameView
    recommends
        is_valid_name(raw),
{
    NameView { ty: tag_type(raw).unwrap(), key: to_upper(raw), raw }
}

/// The message of the error that refuses `raw`.
pub open spec fn invalid_name_message(raw: Seq<char>) -> Seq<char> {
    "Name is invalid: "@ + raw
}

/// Calls `Arc::clone`, which makes another pointer to the same allocation
/// and copies nothing: behind the result stands the value behind `a`.
#[verifier::external_body]
pub(crate) fn share<T>(a: &Arc<T>) -> (r: Arc<T>)
    ensures
        r == *a,
{
    Arc::clone(a)
}

impl Type {
    /// The place of the type in the order of refinement: a requirement is
    /// the highest, a test the lowest.
    pub open spec fn rank(self) -> nat {
        match self {
            Type::REQ => 2,
            Type::SPC => 1,
            Type::TST => 0,
        }
    }

    /// The tag as a canonical name spells it.
    pub open spec fn tag(self) -> Seq<char> {
        match self {
            Type::REQ => seq!['R', 'E', 'Q'],
            Type::SPC => seq!['S', 'P', 'C'],
            Type::TST => seq!['T', 'S', 'T'],
        }
    }

    /// The tag as a canonical name spells it.
    pub fn as_str(&self) -> (s: &'static str)
        ensures
            s@ == self.tag(),
    {
        match *self {
            Type::REQ => {
                proof {
                    reveal_strlit("REQ");
                }
                assert("REQ"@ =~= self.tag());
                "REQ"
            },
            Type::SPC => {
                proof {
                    reveal_strlit("SPC");
                }
                assert("SPC"@ =~= self.tag());
                "SPC"
            },
            Type::TST => {
                proof {
                    reveal_strlit("TST");
                }
                assert("TST"@ =~= self.tag());
                "TST"
            },
        }
    }
}

impl NameError {
    /// The message of the error.
    pub open spec fn text(&self) -> Seq<char> {
        match self {
            NameError::InvalidName { msg } => msg@,
        }
    }

    /// The error that refuses `raw`.
    pub(crate) fn invalid(raw: &str) -> (e: NameError)
        ensures
            e.text() == invalid_name_message(raw@),
    {
        let mut msg = "Name is invalid: ".to_owned();
        msg.append(raw);
        NameError::InvalidName { msg }
    }

    /// The message of the error.
    pub fn message(&self) -> (s: &str)
        ensures
            s@ == self.text(),
    {
        match self {
            NameError::InvalidName { msg } => msg.as_str(),
        }
    }
}

impl NameView {
    /// Whether this is a name as the grammar has it: the text is valid, the
    /// key is the text in upper case and the type is the one the tag spells.
    pub open spec fn is_name(self) -> bool {
        is_valid_name(self.raw) && self == name_of(self.raw)
    }

    /// Whether two names are equal: by type and key, not by the text they
    /// were written with.
    pub open spec fn same(self, other: NameView) -> bool {
        self.ty == other.ty && self.key == other.key
    }

    /// How this name compares with another: the type decides, a requirement
    /// above a specification above a test; within one type the keys do.
    pub open spec fn order(self, other: NameView) -> Ordering {
        if self.ty.rank() > other.ty.rank() {
            Ordering::Greater
        } else if self.ty.rank() < other.ty.rank() {
            Ordering::Less
        } else {
            text_order(self.key, other.key)
        }
    }
}

impl View for InternalName {
    type V = NameView;

    open spec fn view(&self) -> NameView {
        NameView { ty: self.ty, key: self.key@, raw: self.raw@ }
    }
}

impl InternalName {
    /// The text as it was written.
    pub fn as_str(&self) -> (s: &str)
        ensures
            s@ == self@.raw,
    {
        self.raw.as_str()
    }

    /// The canonical key, such as `"TST-FOO-BAR"`.
    pub fn key_str(&self) -> (s: &str)
        ensures
            s@ == self@.key,
    {
        self.key.as_str()
    }

    /// Compares by type first, then by key.
    pub fn cmp(&self, other: &InternalName) -> (o: Ordering)
        ensures
            o == self@.order(other@),
    {
        match (self.ty, other.ty) {
            (Type::REQ, Type::REQ) | (Type::SPC, Type::SPC) | (Type::TST, Type::TST) => {
                compare_text(self.key.as_str(), other.key.as_str())
            },
            (Type::REQ, _) => Ordering::Greater,
            (_, Type::REQ) => Ordering::Less,
            (Type::SPC, Type::TST) => Ordering::Greater,
            (Type::TST, Type::SPC) => Ordering::Less,
        }
    }
}

impl Clone for InternalName {
    fn clone(&self) -> (r: Self)
        ensures
            r == *self,
    {
        InternalName { ty: self.ty, key: share(&self.key), raw: self.raw.clone() }
    }
}

impl PartialEq for InternalName {
    fn eq(&self, other: &InternalName) -> (r: bool) {
        self.ty == other.ty && *self.key == *other.key
    }
}

impl vstd::std_specs::cmp::PartialEqSpecImpl for InternalName {
    open spec fn obeys_eq_spec() -> bool {
        true
    }

    open spec fn eq_spec(&self, other: &InternalName) -> bool {
        self@.same(other@)
    }
}

impl Eq for InternalName {

}

impl PartialOrd for InternalName {
    fn partial_cmp(&self, other: &InternalName) -> (r: Option<Ordering>) {
        Some(self.cmp(other))
    }
}

impl vstd::std_specs::cmp::PartialOrdSpecImpl for InternalName {
    open spec fn obeys_partial_cmp_spec() -> bool {
        true
    }

    open spec fn partial_cmp_spec(&self, other: &InternalName) -> Option<Ordering> {
        Some(self@.order(other@))
    }
}

impl Hash for InternalName {
    /// Feeds the type and the key to the hasher, and not the text: names
    /// that are equal hash alike. Nothing is stated of what the hasher
    /// makes of them.
    #[verifier::external_body]
    fn hash<H: Hasher>(&self, state: &mut H) {
        self.ty.hash(state);
        self.key.hash(state);
    }
}

impl View for Name {
    type V = NameView;

    closed spec fn view(&self) -> NameView {
        self.internal_name@
    }
}

impl Name {
    /// Every name is one that the grammar has.
    #[verifier::type_invariant]
    pub closed spec fn well_formed(self) -> bool {
        self@.is_name()
    }

    /// Makes the name of the text `raw` from its parts.
    pub(crate) fn new(ty: Type, key: Arc<String>, raw: String) -> (n: Name)
        requires
            is_valid_name(raw@),
            tag_type(raw@) == Some(ty),
            key@ == to_upper(raw@),
        ensures
            n@ == name_of(raw@),
    {
        Name { internal_name: Arc::new(InternalName { ty, key, raw }) }
    }
}

impl Deref for Name {
    type Target = InternalName;

    fn deref(&self) -> (r: &InternalName)
        ensures
            r@ == self@,
            self@.is_name(),
    {
        proof {
            use_type_invariant(self);
        }
        &self.internal_name
    }
}

impl Clone for Name {
    /// Another holder of the same name; nothing is copied.
    fn clone(&self) -> (r: Self)
        ensures
            r@ == self@,
    {
        proof {
            use_type_invariant(self);
        }
        Name { internal_name: share(&self.internal_name) }
    }
}

impl PartialEq for Name {
    fn eq(&self, other: &Name) -> (r: bool) {
        *self.internal_name == *other.internal_name
    }
}

impl vstd::std_specs::cmp::PartialEqSpecImpl for Name {
    open spec fn obeys_eq_spec() -> bool {
        true
    }

    open spec fn eq_spec(&self, other: &Name) -> bool {
        self@.same(other@)
    }
}

impl Eq for Name {

}

} // verus!
