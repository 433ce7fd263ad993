//! The topologies that include a component instance.

use crate::index::{GlobalState, Topology};
use crate::text::{self, is_less, same_text};
use vstd::prelude::*;

verus! {

/// Whether the topology includes the instance of the given qualified name.
pub open spec fn includes(topology: Topology, instance: Seq<char>) -> bool {
    exists|k: int|
        0 <= k < topology.instances@.len() && (#[trigger] topology.instances@[k])@ == instance
}

/// Whether topology `i` is listed before topology `j`: by name and, of equal names, by the
/// order of the table.
pub open spec fn is_listed_before(table: Seq<Topology>, i: int, j: int) -> bool {
    ||| text::text_less(table[i].name@, table[j].name@)
    ||| table[i].name@ == table[j].name@ && i < j
}

/// Whether `order` lists, among the first `n` topologies of the table, those that include
/// the instance: each once, in the order of their names.
pub open spec fn lists_first(
    table: Seq<Topology>,
    n: int,
    instance: Seq<char>,
    order: Seq<int>,
) -> bool {
    &&& forall|k: int|
        0 <= k < order.len() ==> 0 <= #[trigger] order[k] < n && includes(
            table[order[k]],
            instance,
        )
    &&& forall|j: int, k: int|
        0 <= j < k < order.len() ==> is_listed_before(
            table,
            #[trigger] order[j],
            #[trigger] order[k],
        )
    &&& forall|i: int|
        0 <= i < n && includes(#[trigger] table[i], instance) ==> order.contains(i)
}

/// Whether `order` lists the topologies of the table that include the instance: each once,
/// in the order of their names.
pub open spec fn lists(table: Seq<Topology>, instance: Seq<char>, order: Seq<int>) -> bool {
    lists_first(table, table.len() as int, instance, order)
}

/// The topologies that include the instance, as indices into the table, in the order of
/// their names.
pub open spec fn listing(table: Seq<Topology>, instance: Seq<char>) -> Seq<int> {
    choose|order: Seq<int>| lists(table, instance, order)
}

/// The topologies that include the instance, in the order of their names.
pub open spec fn listed(table: Seq<Topology>, instance: Seq<char>) -> Seq<Topology> {
    listing(table, instance).map_values(|i: int| table[i])
}

/// What is listed before a topology comes before all that is listed after it.
proof fn lemma_before_is_transitive(table: Seq<Topology>, i: int, j: int, k: int)
    requires
        is_listed_before(table, i, j),
        is_listed_before(table, j, k),
    ensures
        is_listed_before(table, i, k),
{
    let (a, b, c) = (table[i].name@, table[j].name@, table[k].name@);
    if text::text_less(a, b) && text::text_less(b, c) {
        text::law_text_order_is_transitive(a, b, c);
    }
}

/// Nothing is listed before itself.
proof fn lemma_before_is_irreflexive(table: Seq<Topology>, i: int)
    ensures
        !is_listed_before(table, i, i),
{
    text::law_text_order_is_irreflexive(table[i].name@);
}

/// A topology that is inserted behind all names that are not greater keeps the order.
proof fn lemma_insert(
    table: Seq<Topology>,
    n: int,
    instance: Seq<char>,
    order: Seq<int>,
    at: int,
)
    requires
        0 <= n < table.len(),
        lists_first(table, n, instance, order),
        includes(table[n], instance),
        0 <= at <= order.len(),
        forall|k: int|
            0 <= k < at ==> !text::text_less(table[n].name@, table[#[trigger] order[k]].name@),
        at < order.len() ==> text::text_less(table[n].name@, table[order[at]].name@),
    ensures
        lists_first(table, n + 1, instance, order.insert(at, n)),
{
    let now = order.insert(at, n);
    assert forall|j: int, k: int| 0 <= j < k < now.len() implies is_listed_before(
        table,
        #[trigger] now[j],
        #[trigger] now[k],
    ) by {
        if k == at {
            assert(now[j] == order[j]);
            text::law_text_order_is_total(table[n].name@, table[order[j]].name@);
        } else if j == at {
            assert(now[k] == order[k - 1]);
            assert(is_listed_before(table, n, order[at]));
            if k - 1 > at {
                lemma_before_is_transitive(table, n, order[at], order[k - 1]);
            }
        } else {
            let a = if j < at {
                j
            } else {
                j - 1
            };
            let b = if k < at {
                k
            } else {
                k - 1
            };
            assert(now[j] == order[a] && now[k] == order[b]);
        }
    }
    assert forall|i: int| 0 <= i < n + 1 && includes(#[trigger] table[i], instance) implies now.contains(
        i,
    ) by {
        if i == n {
            assert(now[at] == n);
        } else {
            let k = choose|k: int| 0 <= k < order.len() && order[k] == i;
            if k < at {
                assert(now[k] == i);
            } else {
                assert(now[k + 1] == i);
            }
        }
    }
}

/// The list does not change where the next topology lacks the instance.
proof fn lemma_skip(table: Seq<Topology>, n: int, instance: Seq<char>, order: Seq<int>)
    requires
        0 <= n < table.len(),
        lists_first(table, n, instance, order),
        !includes(table[n], instance),
    ensures
        lists_first(table, n + 1, instance, order),
{
}

/// There is one list only.
pub proof fn law_listing_is_unique(
    table: Seq<Topology>,
    instance: Seq<char>,
    a: Seq<int>,
    b: Seq<int>,
)
    requires
        lists(table, instance, a),
        lists(table, instance, b),
    ensures
        a == b,
{
    assert forall|i: int| a.contains(i) implies b.contains(i) by {
        let k = choose|k: int| 0 <= k < a.len() && a[k] == i;
        assert(includes(table[a[k]], instance));
    }
    assert forall|i: int| b.contains(i) implies a.contains(i) by {
        let k = choose|k: int| 0 <= k < b.len() && b[k] == i;
        assert(includes(table[b[k]], instance));
    }
    let before = |i: int, j: int| is_listed_before(table, i, j);
    assert forall|i: int| !#[trigger] before(i, i) by {
        lemma_before_is_irreflexive(table, i);
    }
    assert forall|i: int, j: int, k: int| #[trigger] before(i, j) && #[trigger] before(
        j,
        k,
    ) implies before(i, k) by {
        lemma_before_is_transitive(table, i, j, k);
    }
    lemma_ordered_same(a, b, before);
}

/// Whether each item of the list is before all that follow it.
spec fn is_ordered<T>(list: Seq<T>, before: spec_fn(T, T) -> bool) -> bool {
    forall|j: int, k: int|
        0 <= j < k < list.len() ==> before(#[trigger] list[j], #[trigger] list[k])
}

/// Whether nothing is before itself, and what is before an item is before all that the item
/// is before.
spec fn is_strict_order<T>(before: spec_fn(T, T) -> bool) -> bool {
    &&& forall|x: T| !#[trigger] before(x, x)
    &&& forall|x: T, y: T, z: T| #[trigger]
        before(x, y) && #[trigger] before(y, z) ==> before(x, z)
}

/// Two lists in strict order that hold the same items are the same.
proof fn lemma_ordered_same<T>(a: Seq<T>, b: Seq<T>, before: spec_fn(T, T) -> bool)
    requires
        is_strict_order(before),
        is_ordered(a, before),
        is_ordered(b, before),
        forall|x: T| a.contains(x) <==> b.contains(x),
    ensures
        a == b,
    decreases a.len(),
{
    if a.len() == 0 {
        if b.len() > 0 {
            assert(b.contains(b[0]));
        }
        assert(a =~= b);
    } else {
        assert(a.contains(a[0]));
        assert(b.contains(a[0]));
        let k = choose|k: int| 0 <= k < b.len() && b[k] == a[0];
        assert(b.contains(b[0]));
        assert(a.contains(b[0]));
        let j = choose|j: int| 0 <= j < a.len() && a[j] == b[0];
        if k > 0 {
            assert(before(b[0], b[k]));
            if j > 0 {
                assert(before(a[0], a[j]));
            }
            assert(!before(a[0], a[0]));
        }
        assert(a[0] == b[0]);
        let (x, y) = (a.drop_first(), b.drop_first());
        assert forall|t: T| x.contains(t) <==> y.contains(t) by {
            if x.contains(t) {
                lemma_tail_keeps(a, b, before, t);
            }
            if y.contains(t) {
                lemma_tail_keeps(b, a, before, t);
            }
        }
        assert forall|m: int, n: int| 0 <= m < n < x.len() implies before(
            #[trigger] x[m],
            #[trigger] x[n],
        ) by {
            assert(x[m] == a[m + 1] && x[n] == a[n + 1]);
        }
        assert forall|m: int, n: int| 0 <= m < n < y.len() implies before(
            #[trigger] y[m],
            #[trigger] y[n],
        ) by {
            assert(y[m] == b[m + 1] && y[n] == b[n + 1]);
        }
        lemma_ordered_same(x, y, before);
        assert(a =~= seq![a[0]] + x);
        assert(b =~= seq![b[0]] + y);
    }
}

/// What follows the first item of one list follows that of the other.
proof fn lemma_tail_keeps<T>(a: Seq<T>, b: Seq<T>, before: spec_fn(T, T) -> bool, t: T)
    requires
        is_strict_order(before),
        is_ordered(a, before),
        a.len() > 0,
        b.len() > 0,
        a[0] == b[0],
        forall|x: T| a.contains(x) <==> b.contains(x),
        a.drop_first().contains(t),
    ensures
        b.drop_first().contains(t),
{
    let x = a.drop_first();
    let k = choose|k: int| 0 <= k < x.len() && x[k] == t;
    assert(a[k + 1] == t);
    assert(before(a[0], a[k + 1]));
    assert(a.contains(t));
    let m = choose|m: int| 0 <= m < b.len() && b[m] == t;
    if m == 0 {
        assert(!before(t, t));
    }
    assert(b.drop_first()[m - 1] == t);
}

/// There is such a list: it holds exactly the topologies that include the instance, in
/// the order of their names.
pub proof fn law_listing_exists(table: Seq<Topology>, instance: Seq<char>)
    ensures
        lists(table, instance, listing(table, instance)),
{
    let order = lemma_list_first(table, table.len() as int, instance);
    assert(lists(table, instance, order));
}

proof fn lemma_list_first(table: Seq<Topology>, n: int, instance: Seq<char>) -> (order: Seq<int>)
    requires
        0 <= n <= table.len(),
    ensures
        lists_first(table, n, instance, order),
    decreases n,
{
    if n == 0 {
        Seq::empty()
    } else {
        let before = lemma_list_first(table, n - 1, instance);
        if includes(table[n - 1], instance) {
            let at = lemma_insertion_point(table, n - 1, before, 0);
            lemma_insert(table, n - 1, instance, before, at);
            before.insert(at, n - 1)
        } else {
            lemma_skip(table, n - 1, instance, before);
            before
        }
    }
}

proof fn lemma_insertion_point(table: Seq<Topology>, n: int, order: Seq<int>, from: int) -> (at:
    int)
    requires
        0 <= from <= order.len(),
        forall|k: int|
            0 <= k < from ==> !text::text_less(table[n].name@, table[#[trigger] order[k]].name@),
    ensures
        from <= at <= order.len(),
        forall|k: int|
            0 <= k < at ==> !text::text_less(table[n].name@, table[#[trigger] order[k]].name@),
        at < order.len() ==> text::text_less(table[n].name@, table[order[at]].name@),
    decreases order.len() - from,
{
    if from == order.len() || text::text_less(table[n].name@, table[order[from]].name@) {
        from
    } else {
        lemma_insertion_point(table, n, order, from + 1)
    }
}

/// A topology includes an instance if and only if the qualified name is, letter for letter, one
/// of the names of its instances.
pub proof fn law_included_by_the_whole_name(topology: Topology, instance: Seq<char>)
    ensures
        includes(topology, instance) <==> topology.instances@.map_values(
            |name: String| name@,
        ).contains(instance),
{
    let names = topology.instances@.map_values(|name: String| name@);
    if includes(topology, instance) {
        let k = choose|k: int|
            0 <= k < topology.instances@.len() && (#[trigger] topology.instances@[k])@ == instance;
        assert(names[k] == instance);
    }
    if names.contains(instance) {
        let k = choose|k: int| 0 <= k < names.len() && names[k] == instance;
        assert(topology.instances@[k]@ == instance);
    }
}

/// The list holds exactly the topologies of which one instance has the qualified name itself:
/// as many entries as there are such topologies in the table, each of them once, by name and,
/// of equal names, in the order of the table.
pub proof fn law_list_holds_whole_names_only(table: Seq<Topology>, instance: Seq<char>)
    ensures
        exists|order: Seq<int>|
            {
                &&& #[trigger] order.no_duplicates()
                &&& listed(table, instance).len() == order.len()
                &&& forall|k: int|
                    0 <= k < order.len() ==> listed(table, instance)[k] == table[
                    #[trigger] order[k]]
                &&& forall|i: int|
                    order.contains(i) <==> 0 <= i < table.len() && (
                    #[trigger] table[i]).instances@.map_values(
                        |name: String| name@,
                    ).contains(instance)
                &&& forall|j: int, k: int|
                    0 <= j < k < order.len() ==> text::text_less(
                        table[#[trigger] order[j]].name@,
                        table[#[trigger] order[k]].name@,
                    ) || table[order[j]].name@ == table[order[k]].name@ && order[j] < order[k]
            },
{
    law_listing_exists(table, instance);
    let order = listing(table, instance);
    assert(order.no_duplicates()) by {
        assert forall|j: int, k: int| 0 <= j < k < order.len() implies order[j] != order[k] by {
            assert(is_listed_before(table, order[j], order[k]));
            lemma_before_is_irreflexive(table, order[j]);
        }
    }
    assert forall|i: int|
        order.contains(i) <==> 0 <= i < table.len() && (#[trigger] table[i]).instances@.map_values(
            |name: String| name@,
        ).contains(instance) by {
        law_included_by_the_whole_name(table[i], instance);
        if order.contains(i) {
            let k = choose|k: int| 0 <= k < order.len() && order[k] == i;
            assert(includes(table[order[k]], instance));
        }
    }
    assert forall|j: int, k: int| 0 <= j < k < order.len() implies text::text_less(
        table[#[trigger] order[j]].name@,
        table[#[trigger] order[k]].name@,
    ) || table[order[j]].name@ == table[order[k]].name@ && order[j] < order[k] by {
        assert(is_listed_before(table, order[j], order[k]));
    }
}

/// Whether the topology includes the instance of the given qualified name.
fn has_instance(topology: &Topology, instance: &str) -> (r: bool)
    ensures
        r == includes(*topology, instance@),
{
    let mut k: usize = 0;
    while k < topology.instances.len()
        invariant
            k <= topology.instances@.len(),
            forall|j: int| 0 <= j < k ==> (#[trigger] topology.instances@[j])@ != instance@,
        decreases topology.instances@.len() - k,
    {
        if same_text(topology.instances[k].as_str(), instance) {
            return true;
        }
        k += 1;
    }
    false
}

/// The list holds what has the name among its instances, and nothing else, by name.
proof fn lemma_listed_is_right(table: Seq<Topology>, instance: Seq<char>)
    ensures
        forall|k: int|
            0 <= k < listed(table, instance).len() ==> (
            #[trigger] listed(table, instance)[k]).instances@.map_values(
                |name: String| name@,
            ).contains(instance),
        forall|i: int|
            0 <= i < table.len() && (#[trigger] table[i]).instances@.map_values(
                |name: String| name@,
            ).contains(instance) ==> exists|k: int|
                0 <= k < listed(table, instance).len() && #[trigger] listed(table, instance)[k]
                    == table[i],
        forall|j: int, k: int|
            0 <= j < k < listed(table, instance).len() ==> !text::text_less(
                (#[trigger] listed(table, instance)[k]).name@,
                (#[trigger] listed(table, instance)[j]).name@,
            ),
{
    law_listing_exists(table, instance);
    let order = listing(table, instance);
    let list = listed(table, instance);
    assert forall|k: int| 0 <= k < list.len() implies (#[trigger] list[k]).instances@.map_values(
        |name: String| name@,
    ).contains(instance) by {
        law_included_by_the_whole_name(table[order[k]], instance);
    }
    assert forall|i: int|
        0 <= i < table.len() && (#[trigger] table[i]).instances@.map_values(
            |name: String| name@,
        ).contains(instance) implies exists|k: int|
        0 <= k < list.len() && #[trigger] list[k] == table[i] by {
        law_included_by_the_whole_name(table[i], instance);
        let k = choose|k: int| 0 <= k < order.len() && order[k] == i;
        assert(list[k] == table[i]);
    }
    assert forall|j: int, k: int| 0 <= j < k < list.len() implies !text::text_less(
        (#[trigger] list[k]).name@,
        (#[trigger] list[j]).name@,
    ) by {
        let (x, y) = (list[j].name@, list[k].name@);
        assert(is_listed_before(table, order[j], order[k]));
        text::law_text_order_is_irreflexive(x);
        if text::text_less(x, y) && text::text_less(y, x) {
            text::law_text_order_is_transitive(x, y, x);
        }
    }
}

/// The topologies whose (transitive) instance set contains the instance, ordered by
/// name.
pub fn topologies_containing<'a>(state: &'a GlobalState, instance_qualified_name: &str) -> (r: Vec<
    &'a Topology,
>)
    ensures
        lists(
            state.analysis.topology_map@,
            instance_qualified_name@,
            listing(state.analysis.topology_map@, instance_qualified_name@),
        ),
        r@.len() == listed(state.analysis.topology_map@, instance_qualified_name@).len(),
        forall|k: int|
            0 <= k < r@.len() ==> *#[trigger] r@[k] == listed(
                state.analysis.topology_map@,
                instance_qualified_name@,
            )[k],
        forall|k: int|
            0 <= k < r@.len() ==> (#[trigger] r@[k]).instances@.map_values(
                |name: String| name@,
            ).contains(instance_qualified_name@),
        forall|i: int|
            0 <= i < state.analysis.topology_map@.len() && (
            #[trigger] state.analysis.topology_map@[i]).instances@.map_values(
                |name: String| name@,
            ).contains(instance_qualified_name@) ==> exists|k: int|
                0 <= k < r@.len() && *#[trigger] r@[k] == state.analysis.topology_map@[i],
        forall|j: int, k: int|
            0 <= j < k < r@.len() ==> !text::text_less(
                (#[trigger] r@[k]).name@,
                (#[trigger] r@[j]).name@,
            ),
{
    let table: &'a Vec<Topology> = &state.analysis.topology_map;
    let ghost instance = instance_qualified_name@;
    let mut order: Vec<usize> = Vec::new();
    let mut i: usize = 0;
    while i < table.len()
        invariant
            i <= table@.len(),
            instance == instance_qualified_name@,
            lists_first(table@, i as int, instance, text::indices(order@)),
        decreases table@.len() - i,
    {
        let ghost before = text::indices(order@);
        assert forall|k: int| 0 <= k < order@.len() implies #[trigger] order@[k] < i by {
            assert(before[k] == order@[k]);
        }
        if has_instance(&table[i], instance_qualified_name) {
            let mut at: usize = 0;
            while at < order.len() && !is_less(
                table[i].name.as_str(),
                table[order[at]].name.as_str(),
            )
                invariant
                    at <= order@.len(),
                    i < table@.len(),
                    before == text::indices(order@),
                    forall|k: int| 0 <= k < order@.len() ==> #[trigger] order@[k] < i,
                    forall|k: int|
                        0 <= k < at ==> !text::text_less(
                            table@[i as int].name@,
                            table@[#[trigger] before[k]].name@,
                        ),
                decreases order@.len() - at,
            {
                assert(before[at as int] == order@[at as int]);
                at += 1;
            }
            proof {
                if at < order@.len() {
                    assert(before[at as int] == order@[at as int]);
                }
                lemma_insert(table@, i as int, instance, before, at as int);
            }
            order.insert(at, i);
            assert(text::indices(order@) =~= before.insert(at as int, i as int));
        } else {
            proof {
                lemma_skip(table@, i as int, instance, before);
            }
        }
        i += 1;
    }
    proof {
        law_listing_exists(table@, instance);
        law_listing_is_unique(
            table@,
            instance,
            text::indices(order@),
            listing(table@, instance),
        );
        assert forall|m: int| 0 <= m < order@.len() implies #[trigger] order@[m] < table@.len() by {
            assert(text::indices(order@)[m] == order@[m]);
        }
    }
    let mut r: Vec<&'a Topology> = Vec::new();
    let mut k: usize = 0;
    while k < order.len()
        invariant
            k <= order@.len(),
            table@ == state.analysis.topology_map@,
            lists(table@, instance, listing(table@, instance)),
            text::indices(order@) == listing(table@, instance),
            forall|m: int| 0 <= m < order@.len() ==> #[trigger] order@[m] < table@.len(),
            r@.len() == k,
            forall|m: int| 0 <= m < k ==> *#[trigger] r@[m] == table@[order@[m] as int],
        decreases order@.len() - k,
    {
        r.push(&table[order[k]]);
        k += 1;
    }
    assert forall|m: int| 0 <= m < r@.len() implies *#[trigger] r@[m] == listed(
        table@,
        instance,
    )[m] by {
        assert(listing(table@, instance)[m] == order@[m]);
    }
    proof {
        lemma_listed_is_right(table@, instance);
        assert forall|i: int|
            0 <= i < table@.len() && (#[trigger] table@[i]).instances@.map_values(
                |name: String| name@,
            ).contains(instance) implies exists|k: int|
            0 <= k < r@.len() && *#[trigger] r@[k] == table@[i] by {
            let k = choose|k: int|
                0 <= k < listed(table@, instance).len() && #[trigger] listed(table@, instance)[k]
                    == table@[i];
            assert(*r@[k] == table@[i]);
        }
        assert forall|k: int| 0 <= k < r@.len() implies (#[trigger] r@[k]).instances@.map_values(
            |name: String| name@,
        ).contains(instance) by {
            assert(*r@[k] == listed(table@, instance)[k]);
        }
        assert forall|j: int, k: int| 0 <= j < k < r@.len() implies !text::text_less(
            (#[trigger] r@[k]).name@,
            (#[trigger] r@[j]).name@,
        ) by {
            assert(*r@[j] == listed(table@, instance)[j] && *r@[k] == listed(table@, instance)[k]);
        }
    }
    r
}

/// Whether no two topologies of the table have the same name.
pub open spec fn names_differ(table: Seq<Topology>) -> bool {
    forall|i: int, j: int|
        0 <= i < j < table.len() ==> (#[trigger] table[i]).name@ != (#[trigger] table[j]).name@
}

/// Where names differ, the list does not depend on the order of the table: two tables of
/// the same topologies are listed in the same way.
pub proof fn law_listing_ignores_table_order(
    a: Seq<Topology>,
    b: Seq<Topology>,
    instance: Seq<char>,
)
    requires
        names_differ(a),
        names_differ(b),
        forall|t: Topology| a.contains(t) <==> b.contains(t),
    ensures
        listed(a, instance) == listed(b, instance),
{
    law_listing_exists(a, instance);
    law_listing_exists(b, instance);
    lemma_listed(a, instance);
    lemma_listed(b, instance);
    assert forall|t: Topology| listed(a, instance).contains(t) <==> listed(b, instance).contains(
        t,
    ) by {
        assert(a.contains(t) <==> b.contains(t));
    }
    let before = |s: Topology, t: Topology| text::text_less(s.name@, t.name@);
    assert forall|t: Topology| !#[trigger] before(t, t) by {
        text::law_text_order_is_irreflexive(t.name@);
    }
    assert forall|s: Topology, t: Topology, u: Topology| #[trigger] before(s, t)
        && #[trigger] before(t, u) implies before(s, u) by {
        text::law_text_order_is_transitive(s.name@, t.name@, u.name@);
    }
    lemma_ordered_same(listed(a, instance), listed(b, instance), before);
}

/// Where names differ, the list holds what includes the instance, in strict order.
proof fn lemma_listed(table: Seq<Topology>, instance: Seq<char>)
    requires
        names_differ(table),
        lists(table, instance, listing(table, instance)),
    ensures
        forall|j: int, k: int|
            0 <= j < k < listed(table, instance).len() ==> text::text_less(
                (#[trigger] listed(table, instance)[j]).name@,
                (#[trigger] listed(table, instance)[k]).name@,
            ),
        forall|t: Topology| #[trigger]
            listed(table, instance).contains(t) <==> table.contains(t) && includes(t, instance),
{
    let order = listing(table, instance);
    let list = listed(table, instance);
    assert forall|j: int, k: int| 0 <= j < k < list.len() implies text::text_less(
        (#[trigger] list[j]).name@,
        (#[trigger] list[k]).name@,
    ) by {
        assert(list[j] == table[order[j]] && list[k] == table[order[k]]);
        assert(is_listed_before(table, order[j], order[k]));
        if table[order[j]].name@ == table[order[k]].name@ {
            assert(order[j] < order[k] || text::text_less(list[j].name@, list[k].name@));
            if order[j] < order[k] {
                assert(table[order[j]].name@ != table[order[k]].name@);
            }
        }
    }
    assert forall|t: Topology| #[trigger] list.contains(t) <==> table.contains(t) && includes(
        t,
        instance,
    ) by {
        if list.contains(t) {
            let k = choose|k: int| 0 <= k < list.len() && list[k] == t;
            assert(table[order[k]] == t);
        }
        if table.contains(t) && includes(t, instance) {
            let i = choose|i: int| 0 <= i < table.len() && table[i] == t;
            assert(includes(table[i], instance));
            let k = choose|k: int| 0 <= k < order.len() && order[k] == i;
            assert(list[k] == t);
        }
    }
}

} // verus!
