//! The grammar of names: `TYPE-SEGMENT[-SEGMENT...]`.
//!
//! What a name is, is said over its segments ([`is_valid_name`]). What the
//! validator reads is the text, character by character ([`is_well_dashed`]);
//! [`lemma_valid_iff_well_dashed`] shows the two to agree.

use vstd::prelude::*;
use vstd::std_specs::iter::IteratorSpec;
use vstd::utf8::is_ascii_chars;
use crate::name::Type;
use crate::text::is_name_char;
use crate::text::lemma_upper_char;
use crate::text::name_char;
use crate::text::to_upper;
use crate::text::upper_char;

verus! {

/// Where the type tag ends and the dash before the first segment stands.
pub const TYPE_SPLIT_LOC: usize = 3;

/// The type that the first three characters of `s` spell, whatever their
/// case; `None` where they spell none, or where `s` is shorter.
pub open spec fn tag_type(s: Seq<char>) -> Option<Type> {
    if s.len() < 3 {
        None
    } else {
        letters_type(s[0], s[1], s[2])
    }
}

/// The type that three letters spell, whatever their case.
pub open spec fn letters_type(a: char, b: char, c: char) -> Option<Type> {
    let (a, b, c) = (upper_char(a), upper_char(b), upper_char(c));
    if a == 'R' && b == 'E' && c == 'Q' {
        Some(Type::REQ)
    } else if a == 'S' && b == 'P' && c == 'C' {
        Some(Type::SPC)
    } else if a == 'T' && b == 'S' && c == 'T' {
        Some(Type::TST)
    } else {
        None
    }
}

/// Whether `t` is a type tag: three letters that spell a type.
pub open spec fn is_tag(t: Seq<char>) -> bool {
    t.len() == 3 && tag_type(t) is Some
}

/// Whether `s` is a segment: one character or more, each a letter, a digit
/// or an underscore.
pub open spec fn is_segment(s: Seq<char>) -> bool {
    s.len() > 0 && forall|i: int| 0 <= i < s.len() ==> is_name_char(#[trigger] s[i])
}

/// Whether each member of `segs` is a segment.
pub open spec fn all_segments(segs: Seq<Seq<char>>) -> bool {
    forall|i: int| 0 <= i < segs.len() ==> is_segment(#[trigger] segs[i])
}

/// The segments written one after the other, a dash before each.
pub open spec fn dashed(segs: Seq<Seq<char>>) -> Seq<char>
    decreases segs.len(),
{
    if segs.len() == 0 {
        Seq::empty()
    } else {
        dashed(segs.drop_last()) + seq!['-'] + segs.last()
    }
}

/// Whether `s` is the tag `tag` followed by the segments `segs`, of which
/// there is at least one.
pub open spec fn spells(s: Seq<char>, tag: Seq<char>, segs: Seq<Seq<char>>) -> bool {
    &&& is_tag(tag)
    &&& segs.len() >= 1
    &&& all_segments(segs)
    &&& s == tag + dashed(segs)
}

/// Whether `s` is a name: a type tag in any case, then one segment or more,
/// with a dash before each.
pub open spec fn is_valid_name(s: Seq<char>) -> bool {
    exists|tag: Seq<char>, segs: Seq<Seq<char>>| #[trigger] spells(s, tag, segs)
}

/// Whether `b` is made of dashes and segment characters, begins with a dash
/// unless it is empty, and has a segment character after each dash.
pub open spec fn is_dash_separated(b: Seq<char>) -> bool {
    &&& forall|i: int| 0 <= i < b.len() ==> (#[trigger] b[i]) == '-' || is_name_char(b[i])
    &&& b.len() > 0 ==> b[0] == '-'
    &&& forall|i: int|
        0 <= i < b.len() && (#[trigger] b[i]) == '-' ==> i + 1 < b.len() && b[i + 1] != '-'
}

/// Whether `s` reads as a name, character by character: a tag, and after it
/// a text that is not empty and in which dashes separate segments.
pub open spec fn is_well_dashed(s: Seq<char>) -> bool {
    &&& s.len() > 3
    &&& tag_type(s) is Some
    &&& is_dash_separated(s.skip(3))
}

/// The place of the last dash in `s`, or -1 where `s` has none.
pub open spec fn last_dash(s: Seq<char>) -> int
    decreases s.len(),
{
    if s.len() == 0 {
        -1
    } else if s.last() == '-' {
        s.len() - 1
    } else {
        last_dash(s.drop_last())
    }
}

/// `last_dash` gives the place of a dash after which no dash stands.
pub proof fn lemma_last_dash(s: Seq<char>)
    ensures
        -1 <= last_dash(s) < s.len(),
        last_dash(s) >= 0 ==> s[last_dash(s)] == '-',
        forall|i: int| last_dash(s) < i < s.len() ==> s[i] != '-',
    decreases s.len(),
{
    if s.len() > 0 && s.last() != '-' {
        let front = s.drop_last();
        lemma_last_dash(front);
        assert forall|i: int| last_dash(s) < i < s.len() implies s[i] != '-' by {
            if i < front.len() {
                assert(front[i] != '-');
            }
        }
    }
}

/// A dash after which no dash stands is the last one.
pub proof fn lemma_last_dash_is(s: Seq<char>, p: int)
    requires
        0 <= p < s.len(),
        s[p] == '-',
        forall|i: int| p < i < s.len() ==> s[i] != '-',
    ensures
        last_dash(s) == p,
{
    lemma_last_dash(s);
}

/// No character of a segment is a dash.
pub proof fn lemma_name_char_no_dash(c: char)
    ensures
        is_name_char(c) ==> c != '-',
{
}

/// Segments with a dash before each make a text in which dashes separate
/// segments, and which is empty only where there are no segments.
pub proof fn lemma_dashed_is_separated(segs: Seq<Seq<char>>)
    requires
        all_segments(segs),
    ensures
        is_dash_separated(dashed(segs)),
        dashed(segs).len() >= 2 * segs.len(),
    decreases segs.len(),
{
    if segs.len() > 0 {
        let front = dashed(segs.drop_last());
        let tail = segs.last();
        let b = dashed(segs);
        assert(all_segments(segs.drop_last())) by {
            assert forall|i: int| 0 <= i < segs.drop_last().len() implies is_segment(
                #[trigger] segs.drop_last()[i],
            ) by {
                assert(segs.drop_last()[i] == segs[i]);
            }
        }
        lemma_dashed_is_separated(segs.drop_last());
        assert(is_segment(tail));
        assert(b == front + seq!['-'] + tail);
        assert(b.len() == front.len() + 1 + tail.len());
        assert forall|i: int| 0 <= i < b.len() implies (#[trigger] b[i]) == '-' || is_name_char(
            b[i],
        ) by {
            if i < front.len() {
                assert(b[i] == front[i]);
            } else if i > front.len() {
                assert(b[i] == tail[i - front.len() - 1]);
            }
        }
        assert(b[0] == '-') by {
            if front.len() > 0 {
                assert(b[0] == front[0]);
            }
        }
        assert forall|i: int| 0 <= i < b.len() && (#[trigger] b[i]) == '-' implies i + 1 < b.len()
            && b[i + 1] != '-' by {
            if i < front.len() {
                assert(b[i] == front[i]);
                assert(b[i + 1] == front[i + 1]);
            } else if i == front.len() {
                assert(b[i + 1] == tail[0]);
                lemma_name_char_no_dash(tail[0]);
            } else {
                assert(b[i] == tail[i - front.len() - 1]);
                lemma_name_char_no_dash(tail[i - front.len() - 1]);
            }
        }
    }
}

/// A text in which dashes separate segments is made of segments with a dash
/// before each: the result is those segments.
pub proof fn lemma_separated_is_dashed(b: Seq<char>) -> (segs: Seq<Seq<char>>)
    requires
        is_dash_separated(b),
    ensures
        all_segments(segs),
        dashed(segs) == b,
        b.len() > 0 ==> segs.len() >= 1,
    decreases b.len(),
{
    if b.len() == 0 {
        let segs = Seq::<Seq<char>>::empty();
        assert(dashed(segs) =~= b);
        segs
    } else {
        lemma_last_dash(b);
        let p = last_dash(b);
        assert(p >= 0) by {
            if p < 0 {
                assert(b[0] != '-');
            }
        }
        let front = b.take(p);
        let tail = b.skip(p + 1);
        assert(b[p] == '-');
        assert(is_segment(tail)) by {
            assert forall|i: int| 0 <= i < tail.len() implies is_name_char(#[trigger] tail[i]) by {
                assert(tail[i] == b[p + 1 + i]);
            }
        }
        assert(is_dash_separated(front)) by {
            assert forall|i: int| 0 <= i < front.len() implies (#[trigger] front[i]) == '-'
                || is_name_char(front[i]) by {
                assert(front[i] == b[i]);
            }
            if front.len() > 0 {
                assert(front[0] == b[0]);
            }
            assert forall|i: int| 0 <= i < front.len() && (#[trigger] front[i]) == '-' implies i + 1
                < front.len() && front[i + 1] != '-' by {
                assert(front[i] == b[i]);
                assert(b[i + 1] != '-');
                assert(front[i + 1] == b[i + 1]);
            }
        }
        let rest = lemma_separated_is_dashed(front);
        let segs = rest.push(tail);
        assert(segs.drop_last() =~= rest);
        assert(segs.last() == tail);
        assert(dashed(segs) =~= b);
        assert forall|i: int| 0 <= i < segs.len() implies is_segment(#[trigger] segs[i]) by {
            if i < rest.len() {
                assert(segs[i] == rest[i]);
            }
        }
        segs
    }
}

/// The grammar read character by character: a text is a name exactly when
/// it starts with a type tag and goes on, not empty, with dashes that
/// separate segments. So a name has five characters at least, a dash after
/// its tag, no dash at its end and no two dashes in a row.
pub proof fn lemma_valid_iff_well_dashed(s: Seq<char>)
    ensures
        is_valid_name(s) <==> is_well_dashed(s),
{
    if is_valid_name(s) {
        let (tag, segs) = choose|tag: Seq<char>, segs: Seq<Seq<char>>| #[trigger]
            spells(s, tag, segs);
        lemma_dashed_is_separated(segs);
        assert(s.skip(3) =~= dashed(segs));
        assert(s[0] == tag[0] && s[1] == tag[1] && s[2] == tag[2]);
    }
    if is_well_dashed(s) {
        let segs = lemma_separated_is_dashed(s.skip(3));
        let tag = s.take(3);
        assert(s =~= tag + dashed(segs));
        assert(tag[0] == s[0] && tag[1] == s[1] && tag[2] == s[2]);
        assert(spells(s, tag, segs));
    }
}

/// `is_well_dashed` without the shift past the tag.
proof fn lemma_well_dashed_unshifted(s: Seq<char>)
    requires
        s.len() > 3,
    ensures
        is_dash_separated(s.skip(3)) <==> {
            &&& s[3] == '-'
            &&& forall|i: int| 3 <= i < s.len() ==> (#[trigger] s[i]) == '-' || is_name_char(s[i])
            &&& forall|i: int|
                3 <= i < s.len() && (#[trigger] s[i]) == '-' ==> i + 1 < s.len() && s[i + 1] != '-'
        },
{
    let b = s.skip(3);
    if is_dash_separated(b) {
        assert(b[0] == s[3]);
        assert forall|i: int| 3 <= i < s.len() implies (#[trigger] s[i]) == '-' || is_name_char(
            s[i],
        ) by {
            assert(b[i - 3] == s[i]);
        }
        assert forall|i: int| 3 <= i < s.len() && (#[trigger] s[i]) == '-' implies i + 1 < s.len()
            && s[i + 1] != '-' by {
            assert(b[i - 3] == s[i]);
            assert(b[i - 3 + 1] == s[i + 1]);
        }
    }
    if s[3] == '-' && (forall|i: int|
        3 <= i < s.len() ==> (#[trigger] s[i]) == '-' || is_name_char(s[i])) && (forall|i: int|
        3 <= i < s.len() && (#[trigger] s[i]) == '-' ==> i + 1 < s.len() && s[i + 1] != '-') {
        assert forall|i: int| 0 <= i < b.len() implies (#[trigger] b[i]) == '-' || is_name_char(
            b[i],
        ) by {
            assert(b[i] == s[i + 3]);
        }
        assert forall|i: int| 0 <= i < b.len() && (#[trigger] b[i]) == '-' implies i + 1 < b.len()
            && b[i + 1] != '-' by {
            assert(b[i] == s[i + 3]);
            assert(b[i + 1] == s[i + 3 + 1]);
        }
    }
}

/// Reads the type that three letters spell, whatever their case.
fn read_tag(a: char, b: char, c: char) -> (t: Option<Type>)
    ensures
        t == letters_type(a, b, c),
{
    if (a == 'R' || a == 'r') && (b == 'E' || b == 'e') && (c == 'Q' || c == 'q') {
        Some(Type::REQ)
    } else if (a == 'S' || a == 's') && (b == 'P' || b == 'p') && (c == 'C' || c == 'c') {
        Some(Type::SPC)
    } else if (a == 'T' || a == 't') && (b == 'S' || b == 's') && (c == 'T' || c == 't') {
        Some(Type::TST)
    } else {
        None
    }
}

/// Validates `raw` against the grammar and reads its type: the type that
/// the tag spells where `raw` is a name, `None` where it is not.
pub fn classify(raw: &str) -> (t: Option<Type>)
    ensures
        is_valid_name(raw@) ==> t is Some && t == tag_type(raw@),
        !is_valid_name(raw@) ==> t is None,
{
    proof {
        lemma_valid_iff_well_dashed(raw@);
        assert(raw@.skip(0) =~= raw@);
    }
    let mut it = raw.chars();
    let a = match it.next() {
        Some(c) => c,
        None => { return None; },
    };
    assert(it.remaining() =~= raw@.skip(1));
    let b = match it.next() {
        Some(c) => c,
        None => { return None; },
    };
    assert(it.remaining() =~= raw@.skip(2));
    let c = match it.next() {
        Some(c) => c,
        None => { return None; },
    };
    assert(it.remaining() =~= raw@.skip(3));
    let ty = match read_tag(a, b, c) {
        Some(ty) => ty,
        None => { return None; },
    };
    match it.next() {
        Some(d) => {
            if d != '-' {
                proof {
                    lemma_well_dashed_unshifted(raw@);
                }
                return None;
            }
        },
        None => { return None; },
    }
    assert(it.remaining() =~= raw@.skip(4));
    let mut after_dash = true;
    let ghost mut n: int = 4;
    loop
        invariant
            4 <= n <= raw@.len(),
            it.remaining() == raw@.skip(n),
            tag_type(raw@) == Some(ty),
            raw@[3] == '-',
            after_dash == (raw@[n - 1] == '-'),
            forall|i: int| 3 <= i < n ==> (#[trigger] raw@[i]) == '-' || is_name_char(raw@[i]),
            forall|i: int| 3 <= i < n - 1 && (#[trigger] raw@[i]) == '-' ==> raw@[i + 1] != '-',
            is_valid_name(raw@) <==> is_well_dashed(raw@),
        decreases raw@.len() - n,
    {
        match it.next() {
            None => {
                proof {
                    lemma_well_dashed_unshifted(raw@);
                }
                return if after_dash {
                    None
                } else {
                    Some(ty)
                };
            },
            Some(c) => {
                assert(c == raw@[n]);
                if c == '-' {
                    if after_dash {
                        proof {
                            lemma_well_dashed_unshifted(raw@);
                        }
                        return None;
                    }
                    after_dash = true;
                } else if name_char(c) {
                    after_dash = false;
                } else {
                    proof {
                        lemma_well_dashed_unshifted(raw@);
                    }
                    return None;
                }
                proof {
                    n = n + 1;
                    assert(it.remaining() =~= raw@.skip(n));
                }
            },
        }
    }
}

/// Tells whether `raw` is a name.
pub fn is_valid(raw: &str) -> (ok: bool)
    ensures
        ok == is_valid_name(raw@),
{
    classify(raw).is_some()
}

/// Every character of a name is an ASCII character.
pub proof fn lemma_valid_is_ascii(s: Seq<char>)
    requires
        is_valid_name(s),
    ensures
        is_ascii_chars(s),
{
    lemma_valid_iff_well_dashed(s);
    lemma_well_dashed_unshifted(s);
    assert forall|i: int| 0 <= i < s.len() implies '\0' <= #[trigger] s[i] <= '\u{7f}' by {
        if i >= 3 {
            assert(s[i] == '-' || is_name_char(s[i]));
        }
    }
}

/// One direction of `lemma_valid_case_invariant`.
proof fn lemma_well_dashed_case(a: Seq<char>, b: Seq<char>)
    requires
        to_upper(a) == to_upper(b),
        is_well_dashed(a),
    ensures
        is_well_dashed(b),
{
    assert(a.len() == to_upper(a).len() && b.len() == to_upper(b).len());
    assert forall|i: int| 0 <= i < a.len() implies upper_char(a[i]) == upper_char(b[i]) by {
        assert(to_upper(a)[i] == upper_char(a[i]));
        assert(to_upper(b)[i] == upper_char(b[i]));
    }
    lemma_well_dashed_unshifted(a);
    lemma_well_dashed_unshifted(b);
    assert(upper_char(a[3]) == upper_char(b[3]));
    lemma_upper_char(a[3]);
    lemma_upper_char(b[3]);
    assert forall|i: int| 3 <= i < b.len() implies (#[trigger] b[i]) == '-' || is_name_char(
        b[i],
    ) by {
        assert(a[i] == '-' || is_name_char(a[i]));
        lemma_upper_char(a[i]);
        lemma_upper_char(b[i]);
    }
    assert forall|i: int| 3 <= i < b.len() && (#[trigger] b[i]) == '-' implies i + 1 < b.len()
        && b[i + 1] != '-' by {
        lemma_upper_char(a[i]);
        lemma_upper_char(b[i]);
        assert(a[i] == '-');
        assert(a[i + 1] != '-');
        lemma_upper_char(a[i + 1]);
        lemma_upper_char(b[i + 1]);
    }
}

/// Case carries no meaning in the grammar: of two texts that differ in case
/// alone, both are names or neither is, and their tags spell one type.
pub proof fn lemma_valid_case_invariant(a: Seq<char>, b: Seq<char>)
    requires
        to_upper(a) == to_upper(b),
    ensures
        is_valid_name(a) == is_valid_name(b),
        tag_type(a) == tag_type(b),
{
    assert(a.len() == to_upper(a).len() && b.len() == to_upper(b).len());
    if a.len() >= 3 {
        assert(to_upper(a)[0] == upper_char(a[0]) && to_upper(b)[0] == upper_char(b[0]));
        assert(to_upper(a)[1] == upper_char(a[1]) && to_upper(b)[1] == upper_char(b[1]));
        assert(to_upper(a)[2] == upper_char(a[2]) && to_upper(b)[2] == upper_char(b[2]));
    }
    lemma_valid_iff_well_dashed(a);
    lemma_valid_iff_well_dashed(b);
    if is_well_dashed(a) {
        lemma_well_dashed_case(a, b);
    }
    if is_well_dashed(b) {
        lemma_well_dashed_case(b, a);
    }
}

} // verus!
