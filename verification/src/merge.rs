//! Merging of getters and setters into properties.

use crate::seq_facts::lemma_filter_map_same;
use crate::types::Accessor;
use crate::types::ClassMember;
use crate::types::ClassProperty;
use crate::types::Key;
use vstd::prelude::*;

verus! {

/// A member of a class body with its position in the declaration.
pub type Placed = (usize, ClassMember);

/// Whether the member is a property read through a getter.
pub open spec fn is_getter(member: ClassMember) -> bool {
    member is Property && member->Property_0.accessor.getter
}

/// Whether the member is a property written through a setter.
pub open spec fn is_setter(member: ClassMember) -> bool {
    member is Property && member->Property_0.accessor.setter
}

/// Whether no member is a getter and a setter at once.
pub open spec fn not_yet_combined(body: Seq<Placed>) -> bool {
    forall|k: int| 0 <= k < body.len() ==> !(is_getter(#[trigger] body[k].1) && is_setter(body[k].1))
}

/// Whether the body holds a getter with the key `key`.
pub open spec fn has_getter(body: Seq<Placed>, key: Key) -> bool {
    exists|k: int|
        0 <= k < body.len() && is_getter(#[trigger] body[k].1) && body[k].1->Property_0.key.type_eq(
            key,
        )
}

/// Whether the body holds a setter with the key `key`.
pub open spec fn has_setter(body: Seq<Placed>, key: Key) -> bool {
    exists|k: int|
        0 <= k < body.len() && is_setter(#[trigger] body[k].1) && body[k].1->Property_0.key.type_eq(
            key,
        )
}

/// What becomes of one member: a getter takes over the setter of its key,
/// a setter whose key has a getter goes, and every other member stays as
/// it is.
pub open spec fn combined_member(body: Seq<Placed>, entry: Placed) -> Option<Placed> {
    match entry.1 {
        ClassMember::Property(p) => if p.accessor.getter {
            Some(
                (
                    entry.0,
                    ClassMember::Property(
                        ClassProperty {
                            accessor: Accessor {
                                getter: true,
                                setter: p.accessor.setter || has_setter(body, p.key),
                            },
                            ..p
                        },
                    ),
                ),
            )
        } else if p.accessor.setter && has_getter(body, p.key) {
            None
        } else {
            Some(entry)
        },
        _ => Some(entry),
    }
}

/// The body with its getters and setters merged.
pub open spec fn combined(body: Seq<Placed>) -> Seq<Placed> {
    body.filter_map(|entry: Placed| combined_member(body, entry))
}

/// Tells whether the body holds a setter (or a getter) with the key `key`.
fn find_accessor(body: &Vec<Placed>, key: &Key, setter: bool) -> (found: bool)
    ensures
        found == if setter {
            has_setter(body@, *key)
        } else {
            has_getter(body@, *key)
        },
{
    let mut k: usize = 0;
    while k < body.len()
        invariant
            k <= body.len(),
            forall|i: int|
                0 <= i < k ==> !(if setter {
                    is_setter(#[trigger] body@[i].1)
                } else {
                    is_getter(body@[i].1)
                } && body@[i].1->Property_0.key.type_eq(*key)),
        decreases body.len() - k,
    {
        match &body[k].1 {
            ClassMember::Property(p) => {
                let wanted = if setter {
                    p.accessor.setter
                } else {
                    p.accessor.getter
                };
                if wanted && p.key.is_type_eq(key) {
                    return true;
                }
            },
            _ => {},
        }
        k += 1;
    }
    false
}

/// What is to be done with a member when accessors are merged.
#[derive(Clone, Copy, PartialEq, Eq, Structural)]
enum Verdict {
    Keep,
    Merge,
    Drop,
}

/// What is to be done with one member of `body`.
spec fn verdict_of(body: Seq<Placed>, entry: Placed) -> Verdict {
    match entry.1 {
        ClassMember::Property(p) => if p.accessor.getter {
            if has_setter(body, p.key) {
                Verdict::Merge
            } else {
                Verdict::Keep
            }
        } else if p.accessor.setter && has_getter(body, p.key) {
            Verdict::Drop
        } else {
            Verdict::Keep
        },
        _ => Verdict::Keep,
    }
}

/// Decides for each member what is to be done with it.
fn judge(body: &Vec<Placed>) -> (verdicts: Vec<Verdict>)
    ensures
        verdicts@.len() == body@.len(),
        forall|k: int| 0 <= k < body@.len() ==> verdicts@[k] == verdict_of(body@, body@[k]),
{
    let mut verdicts: Vec<Verdict> = Vec::new();
    let mut k: usize = 0;
    while k < body.len()
        invariant
            k <= body.len(),
            verdicts@.len() == k,
            forall|i: int| 0 <= i < k ==> verdicts@[i] == verdict_of(body@, body@[i]),
        decreases body.len() - k,
    {
        let verdict = match &body[k].1 {
            ClassMember::Property(p) => {
                if p.accessor.getter {
                    if find_accessor(body, &p.key, true) {
                        Verdict::Merge
                    } else {
                        Verdict::Keep
                    }
                } else if p.accessor.setter && find_accessor(body, &p.key, false) {
                    Verdict::Drop
                } else {
                    Verdict::Keep
                }
            },
            _ => Verdict::Keep,
        };
        verdicts.push(verdict);
        k += 1;
    }
    verdicts
}

/// Merges each getter with the setter of the same key.
///
/// A getter whose key also has a setter becomes a property that is both;
/// the setter is dropped. All other members stay as they are, in their
/// order. Keys are compared by how they are formed and by their text, not
/// by position.
pub fn combine_class_properties(body: Vec<Placed>) -> (merged: Vec<Placed>)
    requires
        not_yet_combined(body@),
    ensures
        merged@ == combined(body@),
{
    let verdicts = judge(&body);
    let ghost whole = body@;
    let ghost pick = |entry: Placed| combined_member(whole, entry);
    let mut merged: Vec<Placed> = Vec::new();
    let mut k: usize = 0;
    for entry in it: body.into_iter()
        invariant
            whole == it.seq(),
            k == it.index(),
            verdicts@.len() == whole.len(),
            forall|i: int| 0 <= i < whole.len() ==> verdicts@[i] == verdict_of(whole, whole[i]),
            not_yet_combined(whole),
            pick == |entry: Placed| combined_member(whole, entry),
            merged@ == whole.take(k as int).filter_map(pick),
    {
        proof {
            whole.lemma_filter_map_take_succ(pick, k as int);
        }
        assert(k < verdicts.len());
        let (idx, member) = entry;
        match verdicts[k] {
            Verdict::Drop => {},
            Verdict::Keep => {
                merged.push((idx, member));
            },
            Verdict::Merge => {
                match member {
                    ClassMember::Property(p) => {
                        let ClassProperty {
                            span,
                            key,
                            value,
                            is_static,
                            accessibility,
                            is_abstract,
                            is_optional,
                            readonly,
                            definite,
                            accessor,
                        } = p;
                        merged.push(
                            (
                                idx,
                                ClassMember::Property(
                                    ClassProperty {
                                        span,
                                        key,
                                        value,
                                        is_static,
                                        accessibility,
                                        is_abstract,
                                        is_optional,
                                        readonly,
                                        definite,
                                        accessor: Accessor { getter: true, setter: true },
                                    },
                                ),
                            ),
                        );
                    },
                    other => {
                        merged.push((idx, other));
                    },
                }
            },
        }
        k += 1;
    }
    assert(whole.take(k as int) =~= whole);
    merged
}

/// A property that is a getter and a setter, otherwise like `p`.
pub open spec fn as_both(p: ClassProperty) -> ClassProperty {
    ClassProperty { accessor: Accessor { getter: true, setter: true }, ..p }
}

/// A getter and a setter of one key become one property that is both.
///
/// A body of two members, a getter and a setter whose keys are the same,
/// merges into the getter alone, marked as getter and setter, whichever
/// of the two is declared first.
pub proof fn getter_and_setter_become_one(g: usize, getter: ClassProperty, s: usize, setter: ClassProperty)
    requires
        getter.accessor == (Accessor { getter: true, setter: false }),
        setter.accessor == (Accessor { getter: false, setter: true }),
        getter.key.type_eq(setter.key),
    ensures
        combined(seq![(g, ClassMember::Property(getter)), (s, ClassMember::Property(setter))])
            == seq![(g, ClassMember::Property(as_both(getter)))],
        combined(seq![(s, ClassMember::Property(setter)), (g, ClassMember::Property(getter))])
            == seq![(g, ClassMember::Property(as_both(getter)))],
{
    let first = (g, ClassMember::Property(getter));
    let second = (s, ClassMember::Property(setter));
    let merged = (g, ClassMember::Property(as_both(getter)));
    let body = seq![first, second];
    assert(is_setter(body[1].1) && is_getter(body[0].1));
    assert(has_setter(body, getter.key));
    assert(has_getter(body, setter.key));
    lemma_filter_two(body, first, second);
    assert(combined(body) =~= seq![merged]);
    let turned = seq![second, first];
    assert(is_setter(turned[0].1) && is_getter(turned[1].1));
    assert(has_setter(turned, getter.key));
    assert(has_getter(turned, setter.key));
    lemma_filter_two(turned, second, first);
    assert(combined(turned) =~= seq![merged]);
}

/// A getter without a setter stays a getter.
///
/// A body of one member, a getter, merges into itself.
pub proof fn lone_getter_stays(g: usize, getter: ClassProperty)
    requires
        getter.accessor == (Accessor { getter: true, setter: false }),
    ensures
        combined(seq![(g, ClassMember::Property(getter))]) == seq![
            (g, ClassMember::Property(getter)),
        ],
{
    let only = (g, ClassMember::Property(getter));
    let body = seq![only];
    assert(!has_setter(body, getter.key)) by {
        if has_setter(body, getter.key) {
            let k = choose|k: int|
                0 <= k < body.len() && is_setter(#[trigger] body[k].1)
                    && body[k].1->Property_0.key.type_eq(getter.key);
            assert(body[k] == only);
        }
    }
    let pick = |entry: Placed| combined_member(body, entry);
    assert(body.drop_last() =~= Seq::<Placed>::empty());
    assert(body.drop_last().filter_map(pick) =~= Seq::<Placed>::empty());
    assert(combined_member(body, only) == Some(only));
    assert(combined(body) =~= seq![only]);
}

/// Whether no getter of the body shares its key with a setter.
pub open spec fn has_no_pairs(body: Seq<Placed>) -> bool {
    forall|k: int|
        0 <= k < body.len() && is_getter(#[trigger] body[k].1) ==> !has_setter(
            body,
            body[k].1->Property_0.key,
        )
}

/// Without pairs there is nothing to merge.
///
/// A body in which no member is a getter and a setter at once, and in
/// which no getter shares its key with a setter, merges into itself.
pub proof fn bodies_without_pairs_stay(body: Seq<Placed>)
    requires
        not_yet_combined(body),
        has_no_pairs(body),
    ensures
        combined(body) == body,
{
    let pick = |entry: Placed| combined_member(body, entry);
    assert forall|k: int| 0 <= k < body.len() implies pick(#[trigger] body[k]) == Some(
        body[k],
    ) by {
        let entry = body[k];
        match entry.1 {
            ClassMember::Property(p) => {
                assert(!(is_getter(body[k].1) && is_setter(body[k].1)));
                if p.accessor.getter {
                    assert(!has_setter(body, p.key));
                    assert(entry.1 == ClassMember::Property(
                        ClassProperty {
                            accessor: Accessor { getter: true, setter: false },
                            ..p
                        },
                    ));
                } else if p.accessor.setter && has_getter(body, p.key) {
                    let g = choose|g: int|
                        0 <= g < body.len() && is_getter(#[trigger] body[g].1)
                            && body[g].1->Property_0.key.type_eq(p.key);
                    assert(is_setter(body[k].1) && body[k].1->Property_0.key.type_eq(
                        body[g].1->Property_0.key,
                    ));
                    assert(has_setter(body, body[g].1->Property_0.key));
                }
            },
            _ => {},
        }
    }
    lemma_filter_map_same(body, pick);
}

/// What the merge makes of a body of two members.
proof fn lemma_filter_two(body: Seq<Placed>, first: Placed, second: Placed)
    requires
        body == seq![first, second],
    ensures
        combined(body) == (match combined_member(body, first) {
            Some(e) => seq![e],
            None => Seq::<Placed>::empty(),
        }) + (match combined_member(body, second) {
            Some(e) => seq![e],
            None => Seq::<Placed>::empty(),
        }),
{
    let pick = |entry: Placed| combined_member(body, entry);
    body.lemma_filter_map_take_succ(pick, 0);
    body.lemma_filter_map_take_succ(pick, 1);
    assert(body.take(2) =~= body);
    assert(body.take(0).filter_map(pick) =~= Seq::<Placed>::empty());
}

} // verus!
