//! Ordinal order on names, and definitions sorted by name.
use crate::definition::{SubAgentDefinition, SubAgentDefinitionView};
use vstd::prelude::*;
use vstd::seq_lib::to_multiset_build;
use vstd::utf8::{encode_utf8, encode_utf8_decode_utf8};

verus! {

/// The definitions of a list, each by its view.
pub open spec fn definition_views(list: Seq<SubAgentDefinition>) -> Seq<SubAgentDefinitionView> {
    Seq::new(list.len(), |i: int| list[i]@)
}

/// Strict lexicographic order on byte sequences.
pub open spec fn bytes_before(a: Seq<u8>, b: Seq<u8>) -> bool
    decreases a.len(),
{
    if b.len() == 0 {
        false
    } else if a.len() == 0 {
        true
    } else if a[0] != b[0] {
        a[0] < b[0]
    } else {
        bytes_before(a.drop_first(), b.drop_first())
    }
}

/// Ordinal order on names: `a` sorts strictly before `b` by the bytes of
/// their UTF-8 encodings.
pub open spec fn name_before(a: Seq<char>, b: Seq<char>) -> bool {
    bytes_before(encode_utf8(a), encode_utf8(b))
}

/// `sorted` with `definition` placed after every element that it does not
/// sort strictly before.
pub open spec fn inserted(
    sorted: Seq<SubAgentDefinitionView>,
    definition: SubAgentDefinitionView,
) -> Seq<SubAgentDefinitionView>
    decreases sorted.len(),
{
    if sorted.len() > 0 && name_before(definition.name, sorted.last().name) {
        inserted(sorted.drop_last(), definition).push(sorted.last())
    } else {
        sorted.push(definition)
    }
}

/// `list` in ascending order of name; definitions of one name keep their
/// order.
pub open spec fn sorted_by_name(list: Seq<SubAgentDefinitionView>) -> Seq<SubAgentDefinitionView>
    decreases list.len(),
{
    if list.len() == 0 {
        Seq::empty()
    } else {
        inserted(sorted_by_name(list.drop_last()), list.last())
    }
}

/// Whether no definition of `list` sorts strictly before an earlier one.
pub open spec fn ascending(list: Seq<SubAgentDefinitionView>) -> bool {
    forall|i: int, j: int| 0 <= i < j < list.len() ==> !name_before(list[j].name, list[i].name)
}

/// Whether a definition of `list` bears `name`.
pub open spec fn has_name(list: Seq<SubAgentDefinitionView>, name: Seq<char>) -> bool {
    exists|i: int| 0 <= i < list.len() && list[i].name == name
}

/// The first definition of `list` that bears `name`.
pub open spec fn first_with_name(
    list: Seq<SubAgentDefinitionView>,
    name: Seq<char>,
) -> Option<SubAgentDefinitionView>
    decreases list.len(),
{
    if list.len() == 0 {
        None
    } else {
        match first_with_name(list.drop_last(), name) {
            Some(found) => Some(found),
            None => if list.last().name == name {
                Some(list.last())
            } else {
                None
            },
        }
    }
}

/// Two byte sequences do not sort before each other.
pub proof fn lemma_bytes_before_asymmetric(a: Seq<u8>, b: Seq<u8>)
    ensures
        !(bytes_before(a, b) && bytes_before(b, a)),
    decreases a.len(),
{
    if a.len() > 0 && b.len() > 0 && a[0] == b[0] {
        lemma_bytes_before_asymmetric(a.drop_first(), b.drop_first());
    }
}

/// What sorts before `c` sorts before any `b`, unless `b` sorts before `c`.
pub proof fn lemma_bytes_before_cotransitive(a: Seq<u8>, b: Seq<u8>, c: Seq<u8>)
    requires
        bytes_before(a, c),
    ensures
        bytes_before(a, b) || bytes_before(b, c),
    decreases a.len(),
{
    if a.len() > 0 && b.len() > 0 && a[0] == b[0] && b[0] == c[0] {
        lemma_bytes_before_cotransitive(a.drop_first(), b.drop_first(), c.drop_first());
    }
}

/// Of two different byte sequences one sorts before the other.
pub proof fn lemma_bytes_before_total(a: Seq<u8>, b: Seq<u8>)
    ensures
        bytes_before(a, b) || bytes_before(b, a) || a == b,
    decreases a.len(),
{
    if a.len() > 0 && b.len() > 0 {
        if a[0] == b[0] {
            lemma_bytes_before_total(a.drop_first(), b.drop_first());
            if a.drop_first() == b.drop_first() {
                assert(a =~= seq![a[0]] + a.drop_first());
                assert(b =~= seq![b[0]] + b.drop_first());
            }
        }
    } else if a.len() == 0 && b.len() == 0 {
        assert(a =~= b);
    }
}

/// The ordinal order on names is a strict total order: two names do not
/// sort before each other; what sorts before `c` sorts before any `b`,
/// unless `b` sorts before `c`; and of two different names one sorts before
/// the other.
pub proof fn lemma_name_order(a: Seq<char>, b: Seq<char>, c: Seq<char>)
    ensures
        !(name_before(a, b) && name_before(b, a)),
        name_before(a, c) ==> name_before(a, b) || name_before(b, c),
        name_before(a, b) || name_before(b, a) || a == b,
{
    lemma_bytes_before_asymmetric(encode_utf8(a), encode_utf8(b));
    if name_before(a, c) {
        lemma_bytes_before_cotransitive(encode_utf8(a), encode_utf8(b), encode_utf8(c));
    }
    lemma_bytes_before_total(encode_utf8(a), encode_utf8(b));
    encode_utf8_decode_utf8(a);
    encode_utf8_decode_utf8(b);
}

/// Where `inserted` places a definition: at an index `k` such that it sorts
/// strictly before every element from `k` on, and not before the one
/// at `k - 1`.
pub proof fn lemma_inserted_place(
    sorted: Seq<SubAgentDefinitionView>,
    definition: SubAgentDefinitionView,
) -> (k: int)
    ensures
        0 <= k <= sorted.len(),
        inserted(sorted, definition) == sorted.insert(k, definition),
        forall|i: int| k <= i < sorted.len() ==> name_before(definition.name, sorted[i].name),
        k > 0 ==> !name_before(definition.name, sorted[k - 1].name),
    decreases sorted.len(),
{
    if sorted.len() > 0 && name_before(definition.name, sorted.last().name) {
        let k = lemma_inserted_place(sorted.drop_last(), definition);
        assert(sorted.drop_last().insert(k, definition).push(sorted.last()) =~= sorted.insert(
            k,
            definition,
        ));
        assert forall|i: int| k <= i < sorted.len() implies name_before(
            definition.name,
            sorted[i].name,
        ) by {
            if i < sorted.len() - 1 {
                assert(sorted[i] == sorted.drop_last()[i]);
            }
        }
        if k > 0 {
            assert(sorted[k - 1] == sorted.drop_last()[k - 1]);
        }
        k
    } else {
        assert(sorted.push(definition) =~= sorted.insert(sorted.len() as int, definition));
        sorted.len() as int
    }
}

/// Inserting into an ascending list leaves it ascending.
pub proof fn lemma_inserted_ascending(
    sorted: Seq<SubAgentDefinitionView>,
    definition: SubAgentDefinitionView,
)
    requires
        ascending(sorted),
    ensures
        ascending(inserted(sorted, definition)),
{
    let k = lemma_inserted_place(sorted, definition);
    let result = sorted.insert(k, definition);
    assert forall|i: int, j: int| 0 <= i < j < result.len() implies !name_before(
        result[j].name,
        result[i].name,
    ) by {
        if j == k {
            // result[i] is sorted[i], which lies before index k
            if name_before(definition.name, sorted[i].name) {
                lemma_name_order(definition.name, sorted[k - 1].name, sorted[i].name);
            }
        } else if i == k {
            lemma_name_order(definition.name, sorted[j - 1].name, definition.name);
        } else {
            let from_i = if i < k { i } else { i - 1 };
            let from_j = if j < k { j } else { j - 1 };
            assert(result[i] == sorted[from_i] && result[j] == sorted[from_j]);
        }
    }
}

/// A list sorted by name is ascending.
pub proof fn lemma_sorted_by_name_ascending(list: Seq<SubAgentDefinitionView>)
    ensures
        ascending(sorted_by_name(list)),
    decreases list.len(),
{
    if list.len() > 0 {
        lemma_sorted_by_name_ascending(list.drop_last());
        lemma_inserted_ascending(sorted_by_name(list.drop_last()), list.last());
    }
}

/// Inserting adds the definition and nothing else.
pub proof fn lemma_inserted_permutes(
    sorted: Seq<SubAgentDefinitionView>,
    definition: SubAgentDefinitionView,
)
    ensures
        inserted(sorted, definition).to_multiset() == sorted.to_multiset().insert(definition),
    decreases sorted.len(),
{
    if sorted.len() > 0 && name_before(definition.name, sorted.last().name) {
        let init = sorted.drop_last();
        lemma_inserted_permutes(init, definition);
        to_multiset_build(inserted(init, definition), sorted.last());
        to_multiset_build(init, sorted.last());
        assert(init.push(sorted.last()) =~= sorted);
        assert(inserted(sorted, definition).to_multiset() =~= sorted.to_multiset().insert(
            definition,
        ));
    } else {
        to_multiset_build(sorted, definition);
    }
}

/// Sorting by name keeps every definition, as often as it occurs.
pub proof fn lemma_sorted_by_name_permutes(list: Seq<SubAgentDefinitionView>)
    ensures
        sorted_by_name(list).to_multiset() == list.to_multiset(),
        sorted_by_name(list).len() == list.len(),
    decreases list.len(),
{
    if list.len() > 0 {
        let init = list.drop_last();
        lemma_sorted_by_name_permutes(init);
        lemma_inserted_permutes(sorted_by_name(init), list.last());
        to_multiset_build(init, list.last());
        assert(init.push(list.last()) =~= list);
        let k = lemma_inserted_place(sorted_by_name(init), list.last());
    } else {
        assert(sorted_by_name(list) =~= list);
    }
}

/// A name is borne in a list exactly where a first bearer is found.
pub proof fn lemma_first_with_name(list: Seq<SubAgentDefinitionView>, name: Seq<char>)
    ensures
        has_name(list, name) <==> first_with_name(list, name) is Some,
        first_with_name(list, name) matches Some(found) ==> found.name == name && list.contains(
            found,
        ),
    decreases list.len(),
{
    if list.len() > 0 {
        let init = list.drop_last();
        lemma_first_with_name(init, name);
        if has_name(list, name) {
            let i = choose|i: int| 0 <= i < list.len() && list[i].name == name;
            if i < init.len() {
                assert(init[i].name == name);
            }
        }
        if has_name(init, name) {
            let i = choose|i: int| 0 <= i < init.len() && init[i].name == name;
            assert(list[i].name == name);
        }
        if list.last().name == name {
            assert(list[list.len() - 1].name == name);
        }
        if let Some(found) = first_with_name(init, name) {
            let i = choose|i: int| 0 <= i < init.len() && init[i] == found;
            assert(list[i] == found);
        } else if list.last().name == name {
            assert(list[list.len() - 1] == list.last());
        }
    }
}

/// The first bearer of a name in a list put together from two.
pub proof fn lemma_first_with_name_concat(
    front: Seq<SubAgentDefinitionView>,
    back: Seq<SubAgentDefinitionView>,
    name: Seq<char>,
)
    ensures
        first_with_name(front + back, name) == match first_with_name(front, name) {
            Some(found) => Some(found),
            None => first_with_name(back, name),
        },
    decreases back.len(),
{
    if back.len() == 0 {
        assert(front + back =~= front);
    } else {
        lemma_first_with_name_concat(front, back.drop_last(), name);
        assert((front + back).drop_last() =~= front + back.drop_last());
        assert((front + back).last() == back.last());
    }
}

/// Inserting keeps the first bearer of every name: the sort is stable.
pub proof fn lemma_inserted_keeps_first(
    sorted: Seq<SubAgentDefinitionView>,
    definition: SubAgentDefinitionView,
    name: Seq<char>,
)
    ensures
        first_with_name(inserted(sorted, definition), name) == first_with_name(
            sorted.push(definition),
            name,
        ),
    decreases sorted.len(),
{
    if sorted.len() > 0 && name_before(definition.name, sorted.last().name) {
        let init = sorted.drop_last();
        lemma_inserted_keeps_first(init, definition, name);
        lemma_name_order(definition.name, sorted.last().name, definition.name);
        assert(definition.name != sorted.last().name);
        let placed = inserted(init, definition).push(sorted.last());
        assert(placed.drop_last() =~= inserted(init, definition));
        assert(placed.last() == sorted.last());
        assert(sorted.push(definition).drop_last() =~= sorted);
        assert(sorted.push(definition).last() == definition);
        assert(init.push(definition).drop_last() =~= init);
        assert(init.push(definition).last() == definition);
        let in_init = first_with_name(init, name);
        let in_sorted = first_with_name(sorted, name);
        assert(in_sorted == match in_init {
            Some(found) => Some(found),
            None => if sorted.last().name == name {
                Some(sorted.last())
            } else {
                None
            },
        });
        assert(first_with_name(init.push(definition), name) == match in_init {
            Some(found) => Some(found),
            None => if definition.name == name {
                Some(definition)
            } else {
                None
            },
        });
        assert(first_with_name(sorted.push(definition), name) == match in_sorted {
            Some(found) => Some(found),
            None => if definition.name == name {
                Some(definition)
            } else {
                None
            },
        });
        assert(first_with_name(placed, name) == match first_with_name(
            inserted(init, definition),
            name,
        ) {
            Some(found) => Some(found),
            None => if sorted.last().name == name {
                Some(sorted.last())
            } else {
                None
            },
        });
    }
}

/// Sorting by name keeps the first bearer of every name.
pub proof fn lemma_sorted_by_name_keeps_first(list: Seq<SubAgentDefinitionView>, name: Seq<char>)
    ensures
        first_with_name(sorted_by_name(list), name) == first_with_name(list, name),
    decreases list.len(),
{
    if list.len() > 0 {
        let init = list.drop_last();
        lemma_sorted_by_name_keeps_first(init, name);
        lemma_inserted_keeps_first(sorted_by_name(init), list.last(), name);
        assert(sorted_by_name(init).push(list.last()).drop_last() =~= sorted_by_name(init));
    }
}

/// Whether every definition of `list` bears a name that is not empty.
pub open spec fn named(list: Seq<SubAgentDefinitionView>) -> bool {
    forall|i: int| 0 <= i < list.len() ==> (#[trigger] list[i]).name.len() > 0
}

/// Sorting by name leaves no name empty where none was.
pub proof fn lemma_sorted_by_name_named(list: Seq<SubAgentDefinitionView>)
    requires
        named(list),
    ensures
        named(sorted_by_name(list)),
    decreases list.len(),
{
    if list.len() > 0 {
        let init = list.drop_last();
        assert(named(init)) by {
            assert forall|i: int| 0 <= i < init.len() implies (#[trigger] init[i]).name.len()
                > 0 by {
                assert(init[i] == list[i]);
            }
        }
        lemma_sorted_by_name_named(init);
        let sorted = sorted_by_name(init);
        let k = lemma_inserted_place(sorted, list.last());
        let result = sorted.insert(k, list.last());
        assert(list.last() == list[list.len() - 1]);
        assert forall|i: int| 0 <= i < result.len() implies (#[trigger] result[i]).name.len()
            > 0 by {
            if i < k {
                assert(result[i] == sorted[i]);
            } else if i > k {
                assert(result[i] == sorted[i - 1]);
            }
        }
    }
}

/// Decides the strict lexicographic order on bytes.
fn bytes_less(a: &[u8], b: &[u8]) -> (less: bool)
    ensures
        less == bytes_before(a@, b@),
{
    let mut i: usize = 0;
    assert(a@.skip(0) =~= a@ && b@.skip(0) =~= b@);
    while i < a.len() && i < b.len() && a[i] == b[i]
        invariant
            i <= a.len(),
            i <= b.len(),
            bytes_before(a@, b@) == bytes_before(a@.skip(i as int), b@.skip(i as int)),
        decreases a.len() - i,
    {
        assert(a@.skip(i as int).drop_first() =~= a@.skip(i + 1));
        assert(b@.skip(i as int).drop_first() =~= b@.skip(i + 1));
        i += 1;
    }
    if i == b.len() {
        false
    } else if i == a.len() {
        true
    } else {
        a[i] < b[i]
    }
}

/// Decides the ordinal order on names.
pub fn name_less(a: &str, b: &str) -> (less: bool)
    ensures
        less == name_before(a@, b@),
{
    bytes_less(a.as_bytes(), b.as_bytes())
}

/// Places `definition` in a list sorted by name, after every element that it
/// does not sort strictly before.
fn insert_by_name(list: &mut Vec<SubAgentDefinition>, definition: SubAgentDefinition)
    ensures
        definition_views(final(list)@) == inserted(definition_views(old(list)@), definition@),
{
    let ghost before = definition_views(list@);
    let mut i: usize = list.len();
    assert(before.take(i as int) =~= before);
    assert(inserted(before, definition@) =~= inserted(before.take(i as int), definition@)
        + before.skip(i as int));
    while i > 0 && name_less(definition.name.as_str(), list[i - 1].name.as_str())
        invariant
            i <= list.len(),
            before == definition_views(list@),
            inserted(before, definition@) == inserted(before.take(i as int), definition@)
                + before.skip(i as int),
        decreases i,
    {
        assert(before.take(i as int).drop_last() =~= before.take(i - 1));
        assert(before.take(i as int).last() == before[i - 1]);
        assert(inserted(before.take(i - 1), definition@).push(before[i - 1]) + before.skip(
            i as int,
        ) =~= inserted(before.take(i - 1), definition@) + before.skip(i - 1));
        i -= 1;
    }
    assert(i > 0 ==> before.take(i as int).last() == before[i - 1]);
    list.insert(i, definition);
    assert(definition_views(list@) =~= before.take(i as int).push(definition@) + before.skip(
        i as int,
    ));
}

/// Sorts definitions by name, ascending in ordinal order; definitions of one
/// name keep their order.
pub fn sort_by_name(list: Vec<SubAgentDefinition>) -> (sorted: Vec<SubAgentDefinition>)
    ensures
        definition_views(sorted@) == sorted_by_name(definition_views(list@)),
        ascending(definition_views(sorted@)),
        definition_views(sorted@).to_multiset() == definition_views(list@).to_multiset(),
{
    let ghost all = definition_views(list@);
    let mut sorted: Vec<SubAgentDefinition> = Vec::new();
    assert(definition_views(sorted@) =~= sorted_by_name(all.take(0)));
    for definition in it: list
        invariant
            all == definition_views(it.seq()),
            definition_views(sorted@) == sorted_by_name(all.take(it.index())),
    {
        assert(all.take(it.index() + 1).drop_last() =~= all.take(it.index()));
        insert_by_name(&mut sorted, definition);
    }
    assert(all.take(all.len() as int) =~= all);
    proof {
        lemma_sorted_by_name_ascending(all);
        lemma_sorted_by_name_permutes(all);
    }
    sorted
}

} // verus!
