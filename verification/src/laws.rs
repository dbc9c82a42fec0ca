//! What holds of names, of the cache and of the family, across the
//! functions of this library. Each law is stated over what those functions
//! ensure: [`parse`] and [`held_after`] for `NameCache::get`, the views of
//! names for equality and order.

use std::cmp::Ordering;
use vstd::prelude::*;
use vstd::set_lib::lemma_map_size_bound;
use crate::cache::canonical_keys;
use crate::cache::held_after;
use crate::cache::parse;
use crate::grammar::all_segments;
use crate::grammar::dashed;
use crate::grammar::is_tag;
use crate::grammar::is_valid_name;
use crate::grammar::lemma_valid_case_invariant;
use crate::grammar::lemma_valid_iff_well_dashed;
use crate::grammar::spells;
use crate::grammar::tag_type;
use crate::name::name_of;
use crate::name::NameView;
use crate::name::Type;
use crate::order::lemma_text_order_equal;
use crate::order::lemma_text_order_prefix;
use crate::order::lemma_text_order_reverse;
use crate::order::lemma_text_order_transitive;
use crate::order::reverse;
use crate::order::text_order;
use crate::text::is_name_char;
use crate::text::lemma_to_upper_idempotent;
use crate::text::same_but_case;
use crate::text::to_upper;

verus! {

/// A tag followed by one segment or more, a dash before each, parses.
pub proof fn law_grammar_accepts(tag: Seq<char>, segs: Seq<Seq<char>>)
    requires
        is_tag(tag),
        segs.len() >= 1,
        all_segments(segs),
    ensures
        parse(tag + dashed(segs)) == Some(name_of(tag + dashed(segs))),
{
    assert(spells(tag + dashed(segs), tag, segs));
}

/// A text that no tag and segments spell is refused.
pub proof fn law_grammar_rejects(s: Seq<char>)
    requires
        forall|tag: Seq<char>, segs: Seq<Seq<char>>|
            !(is_tag(tag) && segs.len() >= 1 && all_segments(segs) && s == tag + dashed(segs)),
    ensures
        parse(s) is None,
{
    if is_valid_name(s) {
        let (tag, segs) = choose|tag: Seq<char>, segs: Seq<Seq<char>>| #[trigger]
            spells(s, tag, segs);
        assert(false);
    }
}

/// What is refused, by the look of the text: one that is too short to hold
/// a tag, a dash and a segment; one that starts with no type tag; one with
/// no dash after the tag; one that ends in a dash; one that has at `i` a
/// character that is neither a dash nor a segment character; one that has
/// at `i` two dashes in a row.
pub proof fn law_malformed_rejected(s: Seq<char>, i: int)
    requires
        ({
            ||| s.len() < 5
            ||| tag_type(s) is None
            ||| s[3] != '-'
            ||| s.last() == '-'
            ||| 3 <= i < s.len() && s[i] != '-' && !is_name_char(s[i])
            ||| 3 <= i < s.len() - 1 && s[i] == '-' && s[i + 1] == '-'
        }),
    ensures
        parse(s) is None,
{
    lemma_valid_iff_well_dashed(s);
    if is_valid_name(s) {
        let b = s.skip(3);
        assert(b[0] == s[3]);
        assert(b[1] == s[4]);
        assert(b[b.len() - 1] == s.last());
        if 3 <= i < s.len() {
            assert(b[i - 3] == s[i]);
            if i < s.len() - 1 {
                assert(b[i - 3 + 1] == s[i + 1]);
            }
        }
        assert(false);
    }
}

/// Names that differ in case alone are one name: where one text parses the
/// other does, the two names are equal, and each keeps its own text, so
/// that the texts of the two differ where the spellings did.
pub proof fn law_case_insensitive_identity(a: Seq<char>, b: Seq<char>)
    requires
        is_valid_name(a),
        same_but_case(a, b),
    ensures
        is_valid_name(b),
        name_of(a).same(name_of(b)),
        name_of(a).order(name_of(b)) == Ordering::Equal,
        name_of(a).raw == a,
        name_of(b).raw == b,
        a != b ==> name_of(a).raw != name_of(b).raw,
{
    lemma_valid_case_invariant(a, b);
    lemma_text_order_equal(to_upper(a), to_upper(b));
}

/// The canonical key of a name is a name itself, equal to the first and
/// with the same key.
pub proof fn law_key_is_name(a: Seq<char>)
    requires
        is_valid_name(a),
    ensures
        is_valid_name(to_upper(a)),
        name_of(to_upper(a)).same(name_of(a)),
        name_of(to_upper(a)).key == to_upper(a),
{
    lemma_to_upper_idempotent(a);
    lemma_valid_case_invariant(a, to_upper(a));
}

/// Asking a cache for a text it holds gives the name it gave before and
/// adds nothing: neither a text nor a key.
pub proof fn law_held_text_is_shared(held: Set<Seq<char>>, raw: Seq<char>)
    ensures
        held_after(held_after(held, raw), raw) == held_after(held, raw),
        held.contains(raw) ==> held_after(held, raw) == held && canonical_keys(
            held_after(held, raw),
        ) == canonical_keys(held),
{
    if is_valid_name(raw) {
        assert(held.insert(raw).insert(raw) =~= held.insert(raw));
    }
    if held.contains(raw) {
        assert(held.insert(raw) =~= held);
    }
}

/// Two spellings of one name share one key: a text whose key the cache
/// holds adds no key.
pub proof fn law_key_is_shared(held: Set<Seq<char>>, a: Seq<char>, b: Seq<char>)
    requires
        held.contains(a),
        is_valid_name(b),
        same_but_case(a, b),
    ensures
        canonical_keys(held_after(held, b)) == canonical_keys(held),
{
    let after = held.insert(b);
    assert forall|k: Seq<char>| canonical_keys(after).contains(k) <==> canonical_keys(
        held,
    ).contains(k) by {
        if canonical_keys(after).contains(k) {
            let r = choose|r: Seq<char>| after.contains(r) && #[trigger] to_upper(r) == k;
            if r == b {
                assert(held.contains(a) && to_upper(a) == k);
            } else {
                assert(held.contains(r) && to_upper(r) == k);
            }
        }
        if canonical_keys(held).contains(k) {
            let r = choose|r: Seq<char>| held.contains(r) && #[trigger] to_upper(r) == k;
            assert(after.contains(r) && to_upper(r) == k);
        }
    }
    assert(canonical_keys(after) =~= canonical_keys(held));
}

/// A cache holds no more keys than texts: what it keeps of keys grows with
/// the names that differ in more than case, not with their spellings.
pub proof fn law_keys_bounded(held: Set<Seq<char>>)
    requires
        held.finite(),
    ensures
        canonical_keys(held).finite(),
        canonical_keys(held).len() <= held.len(),
{
    let fold = |r: Seq<char>| to_upper(r);
    assert forall|k: Seq<char>| held.map(fold).contains(k) <==> canonical_keys(held).contains(
        k,
    ) by {
        if held.map(fold).contains(k) {
            let r = choose|r: Seq<char>| held.contains(r) && k == fold(r);
            assert(held.contains(r) && to_upper(r) == k);
        }
        if canonical_keys(held).contains(k) {
            let r = choose|r: Seq<char>| held.contains(r) && #[trigger] to_upper(r) == k;
            assert(held.contains(r) && k == fold(r));
        }
    }
    assert(held.map(fold) =~= canonical_keys(held));
    lemma_map_size_bound(held, canonical_keys(held), fold);
}

/// The type decides the order: a requirement is greater than any
/// specification or test, and a specification greater than any test,
/// whatever their segments.
pub proof fn law_type_dominates(a: NameView, b: NameView)
    requires
        (a.ty == Type::REQ && b.ty != Type::REQ) || (a.ty == Type::SPC && b.ty == Type::TST),
    ensures
        a.order(b) == Ordering::Greater,
        b.order(a) == Ordering::Less,
{
}

/// Within one type the order is that of the segment text in upper case.
pub proof fn law_same_type_by_segments(a: Seq<char>, b: Seq<char>)
    requires
        is_valid_name(a),
        is_valid_name(b),
        tag_type(a) == tag_type(b),
    ensures
        name_of(a).order(name_of(b)) == text_order(to_upper(a.skip(4)), to_upper(b.skip(4))),
{
    lemma_valid_iff_well_dashed(a);
    lemma_valid_iff_well_dashed(b);
    let ka = to_upper(a);
    let kb = to_upper(b);
    let p = ka.take(4);
    assert(a.skip(3)[0] == a[3] && b.skip(3)[0] == b[3]);
    assert(p =~= kb.take(4));
    assert(ka =~= p + to_upper(a.skip(4)));
    assert(kb =~= p + to_upper(b.skip(4)));
    lemma_text_order_prefix(p, to_upper(a.skip(4)), to_upper(b.skip(4)));
}

/// Two names compare as equal exactly when they are equal.
pub proof fn law_order_equal_iff_same(a: NameView, b: NameView)
    ensures
        a.order(b) == Ordering::Equal <==> a.same(b),
{
    lemma_text_order_equal(a.key, b.key);
}

/// Comparing the other way round gives the reverse.
pub proof fn law_order_reverse(a: NameView, b: NameView)
    ensures
        b.order(a) == reverse(a.order(b)),
{
    lemma_text_order_reverse(a.key, b.key);
}

/// The order of names is transitive.
pub proof fn law_order_transitive(a: NameView, b: NameView, c: NameView)
    requires
        a.order(b) != Ordering::Greater,
        b.order(c) != Ordering::Greater,
    ensures
        a.order(c) != Ordering::Greater,
{
    if a.ty == b.ty && b.ty == c.ty {
        lemma_text_order_transitive(a.key, b.key, c.key);
    }
}

/// A name is written as its text and read back by parsing: the text of a
/// parsed name is the text that was parsed, and parsing the text of a name
/// gives that name.
pub proof fn law_text_round_trip(raw: Seq<char>, name: NameView)
    ensures
        is_valid_name(raw) ==> parse(raw) is Some && parse(raw).unwrap().raw == raw,
        name.is_name() ==> parse(name.raw) == Some(name),
{
}

/// A list of names written as texts and read back is the same list, in the
/// same order.
pub proof fn law_list_round_trip(raws: Seq<Seq<char>>)
    requires
        forall|i: int| 0 <= i < raws.len() ==> is_valid_name(#[trigger] raws[i]),
    ensures
        raws.map_values(|r: Seq<char>| parse(r).unwrap().raw) == raws,
{
    assert(raws.map_values(|r: Seq<char>| parse(r).unwrap().raw) =~= raws);
}

/// What a name is does not hang on any cache. Parsing its text gives the
/// same name whatever a cache holds, and so after a reset as before; and
/// that name is equal to, and compares with, any other name as the first
/// did.
pub proof fn law_reset_keeps_names(name: NameView, other: NameView)
    requires
        name.is_name(),
    ensures
        parse(name.raw) == Some(name),
        held_after(Set::<Seq<char>>::empty(), name.raw) == Set::<Seq<char>>::empty().insert(
            name.raw,
        ),
        parse(name.raw).unwrap().same(other) == name.same(other),
        parse(name.raw).unwrap().order(other) == name.order(other),
{
}

} // verus!
