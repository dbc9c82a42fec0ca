//! The family of a name: its parent, and the name it is linked to by
//! itself. Both are read off the text and made by the cache.
//!
//! [`parent_text`] and [`partof_text`] say which texts these are, over the
//! characters; [`lemma_parent_spelled`] and [`lemma_partof_spelled`] say the
//! same over the segments, and with it that each is a name.

use vstd::prelude::*;
use vstd::slice::group_slice_axioms;
use vstd::string::is_ascii_spec_bytes;
use vstd::string::StringSliceAdditionalSpecFns;
use crate::cache::NameCache;
use crate::grammar::all_segments;
use crate::grammar::dashed;
use crate::grammar::is_segment;
use crate::grammar::is_valid_name;
use crate::grammar::last_dash;
use crate::grammar::lemma_dashed_is_separated;
use crate::grammar::lemma_last_dash;
use crate::grammar::lemma_last_dash_is;
use crate::grammar::lemma_name_char_no_dash;
use crate::grammar::lemma_valid_is_ascii;
use crate::grammar::spells;
use crate::grammar::tag_type;
use crate::grammar::TYPE_SPLIT_LOC;
use crate::name::name_of;
use crate::name::Name;
use crate::name::Type;

verus! {

/// The text of the parent of the name `s`: `s` up to its last dash. A name
/// of one segment, whose last dash is the one after the tag, has none.
pub open spec fn parent_text(s: Seq<char>) -> Option<Seq<char>> {
    if last_dash(s) == TYPE_SPLIT_LOC as int {
        None
    } else {
        Some(s.take(last_dash(s)))
    }
}

/// The type that an artifact of type `ty` is linked to by itself: a
/// specification to a requirement, a test to a specification, a requirement
/// to nothing.
pub open spec fn linked_type(ty: Type) -> Option<Type> {
    match ty {
        Type::REQ => None,
        Type::SPC => Some(Type::REQ),
        Type::TST => Some(Type::SPC),
    }
}

/// The text of the name that the name `s` is linked to by itself: the tag
/// of the linked type, then `s` from the dash after its tag on, as written.
pub open spec fn partof_text(s: Seq<char>) -> Option<Seq<char>> {
    match tag_type(s) {
        Some(ty) => match linked_type(ty) {
            Some(to) => Some(to.tag() + s.skip(TYPE_SPLIT_LOC as int)),
            None => None,
        },
        None => None,
    }
}

/// The parent of a name over its segments: a name of one segment has no
/// parent, and the parent of any other is spelt by the same tag and all of
/// the segments but the last.
pub proof fn lemma_parent_spelled(s: Seq<char>, tag: Seq<char>, segs: Seq<Seq<char>>)
    requires
        spells(s, tag, segs),
    ensures
        last_dash(s) == 3 + dashed(segs.drop_last()).len(),
        segs.len() == 1 ==> parent_text(s) is None,
        segs.len() > 1 ==> parent_text(s) == Some(tag + dashed(segs.drop_last())) && spells(
            parent_text(s).unwrap(),
            tag,
            segs.drop_last(),
        ),
{
    let front = segs.drop_last();
    let tail = segs.last();
    let p: int = 3 + dashed(front).len() as int;
    assert(all_segments(front)) by {
        assert forall|i: int| 0 <= i < front.len() implies is_segment(#[trigger] front[i]) by {
            assert(front[i] == segs[i]);
        }
    }
    lemma_dashed_is_separated(front);
    assert(is_segment(tail));
    assert(s =~= tag + dashed(front) + seq!['-'] + tail);
    assert(s[p] == '-');
    assert forall|i: int| p < i < s.len() implies s[i] != '-' by {
        assert(s[i] == tail[i - p - 1]);
        lemma_name_char_no_dash(tail[i - p - 1]);
    }
    lemma_last_dash_is(s, p);
    if segs.len() == 1 {
        assert(front.len() == 0);
        assert(dashed(front).len() == 0);
    } else {
        assert(s.take(p) =~= tag + dashed(front));
    }
}

/// The name that a name is linked to, over its segments: the tag of the
/// linked type and the same segments.
pub proof fn lemma_partof_spelled(s: Seq<char>, tag: Seq<char>, segs: Seq<Seq<char>>)
    requires
        spells(s, tag, segs),
    ensures
        tag_type(s) == tag_type(tag),
        match linked_type(tag_type(tag).unwrap()) {
            Some(to) => partof_text(s) == Some(to.tag() + dashed(segs)) && spells(
                partof_text(s).unwrap(),
                to.tag(),
                segs,
            ) && tag_type(partof_text(s).unwrap()) == Some(to),
            None => partof_text(s) is None,
        },
{
    assert(s[0] == tag[0] && s[1] == tag[1] && s[2] == tag[2]);
    assert(s.skip(3) =~= dashed(segs));
    match linked_type(tag_type(tag).unwrap()) {
        Some(to) => {
            let text = to.tag() + dashed(segs);
            assert(text[0] == to.tag()[0] && text[1] == to.tag()[1] && text[2] == to.tag()[2]);
        },
        None => {},
    }
}

/// The parent of a name is a name of the same type, and the last dash of a
/// name never stands before the end of its tag.
pub proof fn lemma_parent_valid(s: Seq<char>)
    requires
        is_valid_name(s),
    ensures
        TYPE_SPLIT_LOC <= last_dash(s) < s.len(),
        parent_text(s) matches Some(p) ==> is_valid_name(p) && tag_type(p) == tag_type(s),
{
    let (tag, segs) = choose|tag: Seq<char>, segs: Seq<Seq<char>>| #[trigger] spells(s, tag, segs);
    lemma_parent_spelled(s, tag, segs);
    lemma_last_dash(s);
    if segs.len() > 1 {
        let p = parent_text(s).unwrap();
        assert(p[0] == s[0] && p[1] == s[1] && p[2] == s[2]);
    }
}

/// The name that a name is linked to is a name, of the linked type.
pub proof fn lemma_partof_valid(s: Seq<char>)
    requires
        is_valid_name(s),
    ensures
        tag_type(s) is Some,
        partof_text(s) matches Some(p) ==> is_valid_name(p) && tag_type(p) == linked_type(
            tag_type(s).unwrap(),
        ),
{
    let (tag, segs) = choose|tag: Seq<char>, segs: Seq<Seq<char>>| #[trigger] spells(s, tag, segs);
    lemma_partof_spelled(s, tag, segs);
}

/// The dash as the byte that an ASCII text holds for it.
const DASH: u8 = 45;

/// Finds the last dash of an ASCII text that has one.
fn find_last_dash(s: &str) -> (loc: usize)
    requires
        s.is_ascii(),
        last_dash(s@) >= 0,
    ensures
        loc == last_dash(s@),
{
    broadcast use {is_ascii_spec_bytes, group_slice_axioms};

    let bytes = s.as_bytes();
    let mut i: usize = bytes.len();
    proof {
        lemma_last_dash(s@);
    }
    while i > 0 && bytes[i - 1] != DASH
        invariant
            s.is_ascii(),
            bytes@ == s.spec_bytes(),
            i <= bytes@.len(),
            bytes@.len() == s@.len(),
            0 <= last_dash(s@) < s@.len(),
            s@[last_dash(s@)] == '-',
            forall|j: int| i <= j < s@.len() ==> s@[j] != '-',
        decreases i,
    {
        assert(bytes@[i - 1] == s@[i - 1] as u8);
        i = i - 1;
    }
    assert(i > 0);
    assert(bytes@[i - 1] == s@[i - 1] as u8);
    assert(s@[i - 1] == '-');
    assert(last_dash(s@) == i - 1);
    i - 1
}

impl Name {
    /// The parent of the name: the name whose text is this one's without
    /// its last segment, made by `cache`. A name of one segment has none,
    /// and then the cache is not asked.
    pub fn parent(&self, cache: &mut NameCache) -> (res: Option<Name>)
        ensures
            match parent_text(self@.raw) {
                Some(text) => {
                    &&& is_valid_name(text)
                    &&& res matches Some(p) && p@ == name_of(text)
                    &&& final(cache)@ == old(cache)@.insert(text)
                },
                None => res is None && final(cache)@ == old(cache)@,
            },
    {
        let raw = self.as_str();
        proof {
            lemma_valid_is_ascii(raw@);
            lemma_parent_valid(raw@);
        }
        let loc = find_last_dash(raw);
        if loc == TYPE_SPLIT_LOC {
            None
        } else {
            Some(cache.get(raw.substring_ascii(0, loc)).unwrap())
        }
    }

    /// The name that an artifact of this name is linked to by itself, made
    /// by `cache`: for a specification the requirement of the same
    /// segments, for a test the specification of the same segments. A
    /// requirement is linked to nothing, and then the cache is not asked.
    pub fn auto_partof(&self, cache: &mut NameCache) -> (res: Option<Name>)
        ensures
            match partof_text(self@.raw) {
                Some(text) => {
                    &&& is_valid_name(text)
                    &&& res matches Some(p) && p@ == name_of(text)
                    &&& final(cache)@ == old(cache)@.insert(text)
                },
                None => res is None && final(cache)@ == old(cache)@,
            },
    {
        broadcast use {is_ascii_spec_bytes, group_slice_axioms};

        let raw = self.as_str();
        proof {
            lemma_valid_is_ascii(raw@);
            lemma_parent_valid(raw@);
            lemma_partof_valid(raw@);
        }
        let ty = match self.ty {
            Type::REQ => {
                return None;
            },
            Type::SPC => Type::REQ,
            Type::TST => Type::SPC,
        };
        let mut out = ty.as_str().to_owned();
        out.append(raw.substring_ascii(TYPE_SPLIT_LOC, raw.as_bytes().len()));
        Some(cache.get(out.as_str()).unwrap())
    }
}

} // verus!
