//! Ordering of named things by their names.
//!
//! Names are compared character by character; a name that is the beginning
//! of another comes first. Sorting is stable: things of one name stay in the
//! order in which they came.

use vstd::prelude::*;
use crate::text::{chars_of, texts};

verus! {

/// Whether `a` comes before `b`, or is the same text.
pub open spec fn text_le(a: Seq<char>, b: Seq<char>) -> bool
    decreases a.len(),
{
    if a.len() == 0 {
        true
    } else if b.len() == 0 {
        false
    } else if a[0] != b[0] {
        a[0] < b[0]
    } else {
        text_le(a.drop_first(), b.drop_first())
    }
}

/// Of two texts, one comes before the other or they are the same.
pub proof fn lemma_text_le_total(a: Seq<char>, b: Seq<char>)
    ensures
        text_le(a, b) || text_le(b, a),
    decreases a.len(),
{
    if a.len() > 0 && b.len() > 0 && a[0] == b[0] {
        lemma_text_le_total(a.drop_first(), b.drop_first());
    }
}

/// Every text comes before itself, in the wide sense.
pub proof fn lemma_text_le_reflexive(a: Seq<char>)
    ensures
        text_le(a, a),
{
    lemma_text_le_total(a, a);
}

/// Coming before is passed on: from `a` to `b` and from `b` to `c` makes from
/// `a` to `c`.
pub proof fn lemma_text_le_transitive(a: Seq<char>, b: Seq<char>, c: Seq<char>)
    requires
        text_le(a, b),
        text_le(b, c),
    ensures
        text_le(a, c),
    decreases a.len(),
{
    if a.len() > 0 && b.len() > 0 && c.len() > 0 && a[0] == b[0] && b[0] == c[0] {
        lemma_text_le_transitive(a.drop_first(), b.drop_first(), c.drop_first());
    }
}

/// Whether `a` comes before `b`, or is the same text.
pub fn chars_le(a: &[char], b: &[char]) -> (le: bool)
    ensures
        le == text_le(a@, b@),
{
    let mut i: usize = 0;
    assert(a@.skip(0) =~= a@ && b@.skip(0) =~= b@);
    while i < a.len() && i < b.len()
        invariant
            i <= a.len(),
            i <= b.len(),
            text_le(a@, b@) == text_le(a@.skip(i as int), b@.skip(i as int)),
        decreases a.len() - i,
    {
        proof {
            assert(a@.skip(i as int).drop_first() =~= a@.skip(i + 1));
            assert(b@.skip(i as int).drop_first() =~= b@.skip(i + 1));
        }
        if a[i] != b[i] {
            return a[i] < b[i];
        }
        i += 1;
    }
    a.len() <= b.len()
}

/// A thing that is known by a name.
pub trait NamedSpec {
    /// The name, as characters.
    spec fn name_view(&self) -> Seq<char>;
}

/// A thing that can tell its name.
pub trait Named: NamedSpec {
    /// The name.
    fn name(&self) -> (name: &str)
        ensures
            name@ == self.name_view(),
    ;
}

/// `sorted` with `item` put behind the last thing whose name does not come
/// after its own.
pub open spec fn insert_by_name<T: NamedSpec>(sorted: Seq<T>, item: T) -> Seq<T>
    decreases sorted.len(),
{
    if sorted.len() == 0 {
        seq![item]
    } else if text_le(sorted.last().name_view(), item.name_view()) {
        sorted.push(item)
    } else {
        insert_by_name(sorted.drop_last(), item).push(sorted.last())
    }
}

/// `items` in the order of their names, things of one name in the order in
/// which they stand in `items`.
pub open spec fn sorted_by_name<T: NamedSpec>(items: Seq<T>) -> Seq<T>
    decreases items.len(),
{
    if items.len() == 0 {
        Seq::empty()
    } else {
        insert_by_name(sorted_by_name(items.drop_last()), items.last())
    }
}

/// Whether no thing of `items` stands before one whose name comes first.
pub open spec fn ordered_by_name<T: NamedSpec>(items: Seq<T>) -> bool {
    forall|i: int, j: int|
        0 <= i < j < items.len() ==> text_le(
            (#[trigger] items[i]).name_view(),
            (#[trigger] items[j]).name_view(),
        )
}

/// Where `item` goes into `sorted`: at `at`, when everything from there on
/// has a name that comes after, and what stands just before has not.
pub proof fn lemma_insert_position<T: NamedSpec>(sorted: Seq<T>, item: T, at: int)
    requires
        0 <= at <= sorted.len(),
        forall|k: int|
            at <= k < sorted.len() ==> !text_le(
                (#[trigger] sorted[k]).name_view(),
                item.name_view(),
            ),
        at > 0 ==> text_le(sorted[at - 1].name_view(), item.name_view()),
    ensures
        insert_by_name(sorted, item) == sorted.insert(at, item),
    decreases sorted.len(),
{
    if sorted.len() == 0 {
        assert(seq![item] =~= sorted.insert(at, item));
    } else if at == sorted.len() {
        assert(sorted.push(item) =~= sorted.insert(at, item));
    } else {
        let front = sorted.drop_last();
        assert(!text_le(sorted[sorted.len() - 1].name_view(), item.name_view()));
        assert forall|k: int| at <= k < front.len() implies !text_le(
            (#[trigger] front[k]).name_view(),
            item.name_view(),
        ) by {
            assert(front[k] == sorted[k]);
        }
        lemma_insert_position(front, item, at);
        assert(front.insert(at, item).push(sorted.last()) =~= sorted.insert(at, item));
    }
}

/// Putting a thing into an ordered sequence leaves it ordered, and adds the
/// thing to what the sequence holds.
pub proof fn lemma_insert_by_name<T: NamedSpec>(sorted: Seq<T>, item: T)
    requires
        ordered_by_name(sorted),
    ensures
        ordered_by_name(insert_by_name(sorted, item)),
        insert_by_name(sorted, item).to_multiset() == sorted.to_multiset().insert(item),
        insert_by_name(sorted, item).len() == sorted.len() + 1,
    decreases sorted.len(),
{
    broadcast use vstd::seq_lib::to_multiset_build;

    let result = insert_by_name(sorted, item);
    if sorted.len() == 0 {
        assert(sorted =~= Seq::<T>::empty());
        assert(result =~= Seq::<T>::empty().push(item));
    } else if text_le(sorted.last().name_view(), item.name_view()) {
        assert forall|i: int, j: int| 0 <= i < j < result.len() implies text_le(
            (#[trigger] result[i]).name_view(),
            (#[trigger] result[j]).name_view(),
        ) by {
            if j == sorted.len() {
                if i < sorted.len() - 1 {
                    assert(text_le(sorted[i].name_view(), sorted[sorted.len() - 1].name_view()));
                    lemma_text_le_transitive(
                        sorted[i].name_view(),
                        sorted.last().name_view(),
                        item.name_view(),
                    );
                }
            } else {
                assert(text_le(sorted[i].name_view(), sorted[j].name_view()));
            }
        }
    } else {
        let front = sorted.drop_last();
        let last = sorted.last();
        assert forall|i: int, j: int| 0 <= i < j < front.len() implies text_le(
            (#[trigger] front[i]).name_view(),
            (#[trigger] front[j]).name_view(),
        ) by {
            assert(text_le(sorted[i].name_view(), sorted[j].name_view()));
        }
        lemma_insert_by_name(front, item);
        let inner = insert_by_name(front, item);
        assert(result == inner.push(last));
        lemma_text_le_total(last.name_view(), item.name_view());
        assert forall|i: int| 0 <= i < inner.len() implies text_le(
            (#[trigger] inner[i]).name_view(),
            last.name_view(),
        ) by {
            vstd::seq_lib::to_multiset_contains(inner, inner[i]);
            vstd::seq_lib::to_multiset_contains(front, inner[i]);
            assert(inner.to_multiset().count(inner[i]) > 0);
            if inner[i] != item {
                assert(front.to_multiset().count(inner[i]) > 0);
                let k = choose|k: int| 0 <= k < front.len() && front[k] == inner[i];
                assert(text_le(sorted[k].name_view(), sorted[sorted.len() - 1].name_view()));
            }
        }
        assert forall|i: int, j: int| 0 <= i < j < result.len() implies text_le(
            (#[trigger] result[i]).name_view(),
            (#[trigger] result[j]).name_view(),
        ) by {
            if j < inner.len() {
                assert(text_le(inner[i].name_view(), inner[j].name_view()));
            } else {
                assert(text_le(inner[i].name_view(), last.name_view()));
            }
        }
        assert(sorted =~= front.push(last));
        assert(result.to_multiset() =~= sorted.to_multiset().insert(item));
    }
}

/// Sorting orders the things by name, and neither adds a thing nor loses one.
pub proof fn lemma_sorted_by_name<T: NamedSpec>(items: Seq<T>)
    ensures
        ordered_by_name(sorted_by_name(items)),
        sorted_by_name(items).to_multiset() == items.to_multiset(),
        sorted_by_name(items).len() == items.len(),
    decreases items.len(),
{
    broadcast use vstd::seq_lib::to_multiset_build;

    if items.len() == 0 {
        assert(items =~= Seq::<T>::empty());
    } else {
        lemma_sorted_by_name(items.drop_last());
        lemma_insert_by_name(sorted_by_name(items.drop_last()), items.last());
        assert(items =~= items.drop_last().push(items.last()));
    }
}

/// Putting a thing into a sequence and then looking at every thing through
/// `f` is the same as looking first and putting then, where `f` keeps names.
pub proof fn lemma_insert_by_name_map<T: NamedSpec, U: NamedSpec>(
    sorted: Seq<T>,
    item: T,
    f: spec_fn(T) -> U,
)
    requires
        forall|t: T| (#[trigger] f(t)).name_view() == t.name_view(),
    ensures
        insert_by_name(sorted, item).map_values(f) == insert_by_name(
            sorted.map_values(f),
            f(item),
        ),
    decreases sorted.len(),
{
    let mapped = sorted.map_values(f);
    if sorted.len() == 0 {
        assert(insert_by_name(sorted, item).map_values(f) =~= seq![f(item)]);
    } else {
        assert(mapped.last() == f(sorted.last()));
        if text_le(sorted.last().name_view(), item.name_view()) {
            assert(sorted.push(item).map_values(f) =~= mapped.push(f(item)));
        } else {
            lemma_insert_by_name_map(sorted.drop_last(), item, f);
            assert(mapped.drop_last() =~= sorted.drop_last().map_values(f));
            assert(insert_by_name(sorted.drop_last(), item).push(sorted.last()).map_values(f)
                =~= insert_by_name(sorted.drop_last(), item).map_values(f).push(
                f(sorted.last()),
            ));
        }
    }
}

/// Sorting things and then looking at every thing through `f` is the same as
/// looking first and sorting then, where `f` keeps names.
pub proof fn lemma_sorted_by_name_map<T: NamedSpec, U: NamedSpec>(
    items: Seq<T>,
    f: spec_fn(T) -> U,
)
    requires
        forall|t: T| (#[trigger] f(t)).name_view() == t.name_view(),
    ensures
        sorted_by_name(items).map_values(f) == sorted_by_name(items.map_values(f)),
    decreases items.len(),
{
    let mapped = items.map_values(f);
    if items.len() == 0 {
        assert(sorted_by_name(items).map_values(f) =~= Seq::<U>::empty());
    } else {
        lemma_sorted_by_name_map(items.drop_last(), f);
        lemma_insert_by_name_map(sorted_by_name(items.drop_last()), items.last(), f);
        assert(mapped.drop_last() =~= items.drop_last().map_values(f));
        assert(mapped.last() == f(items.last()));
    }
}

/// Sorts `items` by name, keeping things of one name in their order.
pub fn sort_by_name<T: Named>(items: Vec<T>) -> (sorted: Vec<T>)
    ensures
        sorted@ == sorted_by_name(items@),
{
    let ghost all = items@;
    let mut sorted: Vec<T> = Vec::new();
    assert(all.take(0) =~= Seq::<T>::empty());
    for item in it: items
        invariant
            it.seq() == all,
            sorted@ == sorted_by_name(all.take(it.index() as int)),
    {
        let key = chars_of(item.name());
        let mut at = sorted.len();
        let mut searching = true;
        while searching && at > 0
            invariant
                at <= sorted.len(),
                key@ == item.name_view(),
                forall|k: int|
                    at <= k < sorted.len() ==> !text_le(
                        (#[trigger] sorted@[k]).name_view(),
                        item.name_view(),
                    ),
                !searching ==> at > 0 && text_le(sorted@[at - 1].name_view(), item.name_view()),
            decreases
                    at,
                    if searching {
                        1int
                    } else {
                        0int
                    },
        {
            let other = chars_of(sorted[at - 1].name());
            if chars_le(other.as_slice(), key.as_slice()) {
                searching = false;
            } else {
                at -= 1;
            }
        }
        proof {
            lemma_insert_position(sorted@, item, at as int);
            assert(all.take(it.index() + 1).drop_last() =~= all.take(it.index() as int));
            assert(all.take(it.index() + 1).last() == item);
        }
        sorted.insert(at, item);
    }
    assert(all.take(all.len() as int) =~= all);
    sorted
}

/// `sorted` with `name` put in its place, unless it stands there already.
pub open spec fn insert_unique(sorted: Seq<Seq<char>>, name: Seq<char>) -> Seq<Seq<char>>
    decreases sorted.len(),
{
    if sorted.len() == 0 {
        seq![name]
    } else if sorted.last() == name {
        sorted
    } else if text_le(sorted.last(), name) {
        sorted.push(name)
    } else {
        insert_unique(sorted.drop_last(), name).push(sorted.last())
    }
}

/// The names of `names` in their order, each of them once.
pub open spec fn unique_sorted(names: Seq<Seq<char>>) -> Seq<Seq<char>>
    decreases names.len(),
{
    if names.len() == 0 {
        Seq::empty()
    } else {
        insert_unique(unique_sorted(names.drop_last()), names.last())
    }
}

/// Whether every name of `names` comes before the next and differs from it.
pub open spec fn strictly_ordered(names: Seq<Seq<char>>) -> bool {
    forall|i: int, j: int|
        0 <= i < j < names.len() ==> text_le(#[trigger] names[i], #[trigger] names[j]) && names[i]
            != names[j]
}

/// Two texts of which each comes before the other are the same.
pub proof fn lemma_text_le_antisymmetric(a: Seq<char>, b: Seq<char>)
    requires
        text_le(a, b),
        text_le(b, a),
    ensures
        a == b,
    decreases a.len(),
{
    if a.len() > 0 && b.len() > 0 {
        lemma_text_le_antisymmetric(a.drop_first(), b.drop_first());
        assert(a =~= seq![a[0]] + a.drop_first());
        assert(b =~= seq![b[0]] + b.drop_first());
    } else {
        assert(a =~= b);
    }
}

/// Where `name` goes into `sorted`: nowhere when it stands at `at` already,
/// else to `at`, when everything from there on comes after it and what
/// stands just before comes first.
pub proof fn lemma_insert_unique_position(sorted: Seq<Seq<char>>, name: Seq<char>, at: int)
    requires
        strictly_ordered(sorted),
        0 <= at <= sorted.len(),
        forall|k: int| at <= k < sorted.len() ==> !text_le(#[trigger] sorted[k], name),
        at > 0 ==> text_le(sorted[at - 1], name),
    ensures
        at > 0 && sorted[at - 1] == name ==> insert_unique(sorted, name) == sorted,
        !(at > 0 && sorted[at - 1] == name) ==> insert_unique(sorted, name) == sorted.insert(
            at,
            name,
        ),
    decreases sorted.len(),
{
    if sorted.len() == 0 {
        assert(seq![name] =~= sorted.insert(at, name));
    } else if at == sorted.len() {
        assert(sorted.push(name) =~= sorted.insert(at, name));
    } else {
        let front = sorted.drop_last();
        assert(!text_le(sorted[sorted.len() - 1], name));
        assert(sorted.last() != name) by {
            lemma_text_le_reflexive(name);
        }
        assert forall|k: int| at <= k < front.len() implies !text_le(#[trigger] front[k], name) by {
            assert(front[k] == sorted[k]);
        }
        assert forall|i: int, j: int| 0 <= i < j < front.len() implies text_le(
            #[trigger] front[i],
            #[trigger] front[j],
        ) && front[i] != front[j] by {
            assert(text_le(sorted[i], sorted[j]) && sorted[i] != sorted[j]);
        }
        lemma_insert_unique_position(front, name, at);
        if at > 0 && sorted[at - 1] == name {
            assert(front.push(sorted.last()) =~= sorted);
        } else {
            assert(front.insert(at, name).push(sorted.last()) =~= sorted.insert(at, name));
        }
    }
}

/// Putting a name into strictly ordered names leaves them strictly ordered
/// and adds the name to them, if it was not among them.
pub proof fn lemma_insert_unique(sorted: Seq<Seq<char>>, name: Seq<char>)
    requires
        strictly_ordered(sorted),
    ensures
        strictly_ordered(insert_unique(sorted, name)),
        insert_unique(sorted, name).to_set() == sorted.to_set().insert(name),
    decreases sorted.len(),
{
    let result = insert_unique(sorted, name);
    if sorted.len() == 0 {
        assert(result.to_set() =~= sorted.to_set().insert(name)) by {
            assert forall|x: Seq<char>| result.to_set().contains(x) <==> sorted.to_set().insert(
                name,
            ).contains(x) by {
                if result.contains(x) {
                    let k = choose|k: int| 0 <= k < result.len() && result[k] == x;
                }
                if x == name {
                    assert(result[0] == x);
                }
            }
        }
    } else if sorted.last() == name {
        assert(sorted.contains(name));
        assert(result.to_set() =~= sorted.to_set().insert(name));
    } else if text_le(sorted.last(), name) {
        assert forall|i: int, j: int| 0 <= i < j < result.len() implies text_le(
            #[trigger] result[i],
            #[trigger] result[j],
        ) && result[i] != result[j] by {
            if j == sorted.len() {
                if i < sorted.len() - 1 {
                    assert(text_le(sorted[i], sorted[sorted.len() - 1]) && sorted[i]
                        != sorted[sorted.len() - 1]);
                    lemma_text_le_transitive(sorted[i], sorted.last(), name);
                    if sorted[i] == name {
                        lemma_text_le_antisymmetric(sorted.last(), name);
                    }
                }
            } else {
                assert(text_le(sorted[i], sorted[j]) && sorted[i] != sorted[j]);
            }
        }
        assert(result.to_set() =~= sorted.to_set().insert(name)) by {
            assert forall|x: Seq<char>| result.to_set().contains(x) <==> sorted.to_set().insert(
                name,
            ).contains(x) by {
                if result.contains(x) {
                    let k = choose|k: int| 0 <= k < result.len() && result[k] == x;
                    if k < sorted.len() {
                        assert(sorted[k] == x);
                    }
                }
                if sorted.contains(x) {
                    let k = choose|k: int| 0 <= k < sorted.len() && sorted[k] == x;
                    assert(result[k] == x);
                }
                if x == name {
                    assert(result[sorted.len() as int] == x);
                }
            }
        }
    } else {
        let front = sorted.drop_last();
        let last = sorted.last();
        assert forall|i: int, j: int| 0 <= i < j < front.len() implies text_le(
            #[trigger] front[i],
            #[trigger] front[j],
        ) && front[i] != front[j] by {
            assert(text_le(sorted[i], sorted[j]) && sorted[i] != sorted[j]);
        }
        lemma_insert_unique(front, name);
        let inner = insert_unique(front, name);
        lemma_text_le_total(last, name);
        assert forall|i: int| 0 <= i < inner.len() implies text_le(#[trigger] inner[i], last)
            && inner[i] != last by {
            assert(inner.to_set().contains(inner[i]));
            if inner[i] != name {
                assert(front.to_set().contains(inner[i]));
                let k = choose|k: int| 0 <= k < front.len() && front[k] == inner[i];
                assert(text_le(sorted[k], sorted[sorted.len() - 1]) && sorted[k]
                    != sorted[sorted.len() - 1]);
            }
        }
        assert forall|i: int, j: int| 0 <= i < j < result.len() implies text_le(
            #[trigger] result[i],
            #[trigger] result[j],
        ) && result[i] != result[j] by {
            if j < inner.len() {
                assert(text_le(inner[i], inner[j]) && inner[i] != inner[j]);
            } else {
                assert(text_le(inner[i], last) && inner[i] != last);
            }
        }
        assert(result.to_set() =~= sorted.to_set().insert(name)) by {
            assert forall|x: Seq<char>| result.to_set().contains(x) <==> sorted.to_set().insert(
                name,
            ).contains(x) by {
                if result.contains(x) {
                    let k = choose|k: int| 0 <= k < result.len() && result[k] == x;
                    if k < inner.len() {
                        assert(inner.to_set().contains(x));
                        if x != name {
                            assert(front.to_set().contains(x));
                            let m = choose|m: int| 0 <= m < front.len() && front[m] == x;
                            assert(sorted[m] == x);
                        }
                    } else {
                        assert(sorted[sorted.len() - 1] == x);
                    }
                }
                if sorted.contains(x) {
                    let k = choose|k: int| 0 <= k < sorted.len() && sorted[k] == x;
                    if k < front.len() {
                        assert(front[k] == x);
                        assert(front.to_set().contains(x));
                        assert(inner.to_set().contains(x));
                        let m = choose|m: int| 0 <= m < inner.len() && inner[m] == x;
                        assert(result[m] == x);
                    } else {
                        assert(result[inner.len() as int] == x);
                    }
                }
                if x == name {
                    assert(inner.to_set().contains(x));
                    let m = choose|m: int| 0 <= m < inner.len() && inner[m] == x;
                    assert(result[m] == x);
                }
            }
        }
    }
}

/// The unique sorted names of a list are strictly ordered and are the names
/// of the list.
pub proof fn lemma_unique_sorted(names: Seq<Seq<char>>)
    ensures
        strictly_ordered(unique_sorted(names)),
        unique_sorted(names).to_set() == names.to_set(),
    decreases names.len(),
{
    if names.len() == 0 {
        assert(unique_sorted(names).to_set() =~= names.to_set());
    } else {
        let front = names.drop_last();
        lemma_unique_sorted(front);
        lemma_insert_unique(unique_sorted(front), names.last());
        assert(names.to_set() =~= front.to_set().insert(names.last())) by {
            assert forall|x: Seq<char>| names.to_set().contains(x) <==> front.to_set().insert(
                names.last(),
            ).contains(x) by {
                if names.contains(x) {
                    let k = choose|k: int| 0 <= k < names.len() && names[k] == x;
                    if k < front.len() {
                        assert(front[k] == x);
                    }
                }
                if front.contains(x) {
                    let k = choose|k: int| 0 <= k < front.len() && front[k] == x;
                    assert(names[k] == x);
                }
                if x == names.last() {
                    assert(names[names.len() - 1] == x);
                }
            }
        }
    }
}

/// The place of `name` among strictly ordered `names`: `Ok` with its index
/// where it is among them, `Err` with the index at which it would go in.
pub fn search(names: &Vec<String>, name: &[char]) -> (place: Result<usize, usize>)
    requires
        strictly_ordered(texts(names@)),
    ensures
        match place {
            Ok(at) => at < names.len() && names@[at as int]@ == name@,
            Err(at) => {
                &&& at <= names.len()
                &&& !texts(names@).contains(name@)
                &&& forall|k: int|
                    at <= k < names.len() ==> !text_le(
                        #[trigger] texts(names@)[k],
                        name@,
                    )
                &&& at > 0 ==> text_le(texts(names@)[at - 1], name@)
            },
        },
{
    let ghost all = texts(names@);
    let mut at = names.len();
    while at > 0
        invariant
            at <= names.len(),
            all == texts(names@),
            strictly_ordered(all),
            forall|k: int| at <= k < names.len() ==> !text_le(#[trigger] all[k], name@),
        decreases at,
    {
        let other = chars_of(names[at - 1].as_str());
        assert(other@ == all[at - 1]);
        if chars_le(other.as_slice(), name) {
            if chars_le(name, other.as_slice()) {
                proof {
                    lemma_text_le_antisymmetric(other@, name@);
                }
                return Ok(at - 1);
            }
            proof {
                lemma_text_le_reflexive(name@);
                assert forall|k: int| 0 <= k < all.len() implies all[k] != name@ by {
                    if k < at - 1 {
                        assert(text_le(all[k], all[at - 1]));
                    }
                }
            }
            return Err(at);
        }
        at -= 1;
    }
    proof {
        lemma_text_le_reflexive(name@);
    }
    Err(0)
}

/// The index of the first of `names` that is `name`.
pub open spec fn owner(names: Seq<Seq<char>>, name: Seq<char>) -> Option<int>
    decreases names.len(),
{
    if names.len() == 0 {
        None
    } else {
        match owner(names.drop_last(), name) {
            Some(i) => Some(i),
            None => if names.last() == name {
                Some(names.len() - 1)
            } else {
                None
            },
        }
    }
}

/// The owner of a name is a place among the names, and the name stands
/// there.
pub proof fn lemma_owner_is_a_place(names: Seq<Seq<char>>, name: Seq<char>)
    ensures
        owner(names, name) matches Some(at) ==> 0 <= at < names.len() && names[at] == name,
    decreases names.len(),
{
    if names.len() > 0 {
        lemma_owner_is_a_place(names.drop_last(), name);
    }
}

/// Where one of the first `n` names is `name`, its first place among them is
/// its first place among all names.
pub proof fn lemma_owner_found(names: Seq<Seq<char>>, name: Seq<char>, n: int)
    requires
        0 <= n <= names.len(),
        owner(names.take(n), name) is Some,
    ensures
        owner(names, name) == owner(names.take(n), name),
    decreases names.len() - n,
{
    if n < names.len() {
        assert(names.take(n + 1).drop_last() =~= names.take(n));
        lemma_owner_found(names, name, n + 1);
    } else {
        assert(names.take(n) =~= names);
    }
}

/// The place of a name among names is its first place when no name before
/// it is the same.
pub proof fn lemma_owner_is_first(names: Seq<Seq<char>>, name: Seq<char>, at: int)
    requires
        0 <= at < names.len(),
        names[at] == name,
        forall|k: int| 0 <= k < at ==> names[k] != name,
    ensures
        owner(names, name) == Some(at),
    decreases names.len(),
{
    let front = names.drop_last();
    if at < names.len() - 1 {
        assert(front[at] == name);
        lemma_owner_is_first(front, name, at);
    } else {
        lemma_owner_absent(front, name);
    }
}

/// A name that is none of the names has no place among them.
pub proof fn lemma_owner_absent(names: Seq<Seq<char>>, name: Seq<char>)
    requires
        forall|k: int| 0 <= k < names.len() ==> names[k] != name,
    ensures
        owner(names, name) is None,
    decreases names.len(),
{
    if names.len() > 0 {
        let front = names.drop_last();
        assert forall|k: int| 0 <= k < front.len() implies front[k] != name by {
            assert(front[k] == names[k]);
        }
        lemma_owner_absent(front, name);
    }
}

/// The names of `names` in their order, each of them once.
pub fn sort_unique(names: Vec<String>) -> (sorted: Vec<String>)
    ensures
        strictly_ordered(texts(sorted@)),
        texts(sorted@) == unique_sorted(texts(names@)),
{
    let ghost all = texts(names@);
    let mut sorted: Vec<String> = Vec::new();
    assert(all.take(0) =~= Seq::<Seq<char>>::empty());
    assert(texts(sorted@) =~= Seq::<Seq<char>>::empty());
    for name in it: names
        invariant
            texts(it.seq()) == all,
            strictly_ordered(texts(sorted@)),
            texts(sorted@) == unique_sorted(all.take(it.index() as int)),
    {
        proof {
            assert(all.take(it.index() + 1).drop_last() =~= all.take(it.index() as int));
            assert(all.take(it.index() + 1).last() == name@);
        }
        let ghost held = texts(sorted@);
        let key = chars_of(name.as_str());
        match search(&sorted, key.as_slice()) {
            Ok(at) => {
                proof {
                    let after = at + 1;
                    assert forall|k: int| after <= k < held.len() implies !text_le(
                        #[trigger] held[k],
                        key@,
                    ) by {
                        assert(text_le(held[at as int], held[k]) && held[at as int] != held[k]);
                        if text_le(held[k], key@) {
                            lemma_text_le_antisymmetric(held[k], key@);
                        }
                    }
                    lemma_text_le_reflexive(key@);
                    lemma_insert_unique_position(held, key@, after as int);
                }
            },
            Err(at) => {
                proof {
                    lemma_insert_unique_position(held, key@, at as int);
                    lemma_insert_unique(held, key@);
                }
                sorted.insert(at, name);
                assert(texts(sorted@) =~= held.insert(at as int, key@));
            },
        }
    }
    assert(all.take(all.len() as int) =~= all);
    sorted
}

} // verus!
