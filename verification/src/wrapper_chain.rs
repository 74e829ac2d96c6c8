//! Wrappers inside wrappers: why opening no more of them in a row than the
//! registry has types loses nothing.

use vstd::prelude::*;
use crate::assoc::{lemma_find_at, lemma_find_index};
use crate::component_value::{budget, first_of, rendered, strategy_of, Strategy};
use crate::json::JsonView;
use crate::map_value::coerced;
use crate::paths::object_path;
use crate::schema::{referenced_path, resolved, Schema, SchemaDescriptor, SchemaDescriptorView};

verus! {

/// The type that the type `d` wraps: for a wrapper whose first item
/// refers to a type of the registry, that type.
pub open spec fn wrapped(d: SchemaDescriptorView, schema: Schema) -> Option<SchemaDescriptorView> {
    if strategy_of(d) == Strategy::TupleStruct {
        match first_of(d.prefix_items) {
            Some(reference) => resolved(schema, reference),
            None => None,
        }
    } else {
        None
    }
}

/// The type that is reached from `d` by opening `n` wrappers, one inside
/// the other.
pub open spec fn opened(d: SchemaDescriptorView, schema: Schema, n: nat) -> Option<
    SchemaDescriptorView,
>
    decreases n,
{
    if n == 0 {
        Some(d)
    } else {
        match opened(d, schema, (n - 1) as nat) {
            Some(inner) => wrapped(inner, schema),
            None => None,
        }
    }
}

/// Opening one wrapper and then `n` more is opening `n` and then one.
pub proof fn lemma_opened_shift(d: SchemaDescriptorView, schema: Schema, n: nat)
    ensures
        opened(d, schema, n + 1) == (match wrapped(d, schema) {
            Some(inner) => opened(inner, schema, n),
            None => None,
        }),
    decreases n,
{
    if n > 0 {
        lemma_opened_shift(d, schema, (n - 1) as nat);
        assert(opened(d, schema, n + 1) == (match opened(d, schema, n) {
            Some(inner) => wrapped(inner, schema),
            None => None,
        }));
        match wrapped(d, schema) {
            Some(first) => {
                assert(opened(first, schema, n) == (match opened(first, schema, (n - 1) as nat) {
                    Some(inner) => wrapped(inner, schema),
                    None => None,
                }));
            },
            None => {},
        }
    } else {
        assert(opened(d, schema, 0) == Some(d));
        assert(opened(d, schema, 1) == (match opened(d, schema, 0) {
            Some(inner) => wrapped(inner, schema),
            None => None,
        }));
        match wrapped(d, schema) {
            Some(first) => {
                assert(opened(first, schema, 0) == Some(first));
            },
            None => {},
        }
    }
}

/// Where `n` wrappers can be opened, fewer can.
pub proof fn lemma_opened_prefix(d: SchemaDescriptorView, schema: Schema, n: nat, m: nat)
    requires
        m <= n,
        opened(d, schema, n) is Some,
    ensures
        opened(d, schema, m) is Some,
    decreases n,
{
    if m < n {
        lemma_opened_prefix(d, schema, (n - 1) as nat, m);
    }
}

/// A value is reported as wrapping itself only where more wrappers can be
/// opened in a row than the budget allows.
pub proof fn lemma_cyclic_exhausts_budget(
    value: JsonView,
    d: SchemaDescriptorView,
    schema: Schema,
    parent: Option<Seq<char>>,
    fuel: nat,
)
    requires
        rendered(value, d, schema, parent, fuel) is Cyclic,
    ensures
        opened(d, schema, fuel + 1) is Some,
    decreases fuel,
{
    let v = coerced(d.type_path, value);
    assert(strategy_of(d) == Strategy::TupleStruct);
    let reference = first_of(d.prefix_items).unwrap();
    let inner = resolved(schema, reference).unwrap();
    assert(wrapped(d, schema) == Some(inner));
    lemma_opened_shift(d, schema, fuel);
    if fuel > 0 {
        lemma_cyclic_exhausts_budget(
            v,
            inner,
            schema,
            Some(object_path(parent, "0"@)),
            (fuel - 1) as nat,
        );
    }
}

/// Among more numbers than `n`, all of them below `n`, two are the same.
pub proof fn lemma_two_are_the_same(s: Seq<int>, n: nat) -> (r: (int, int))
    requires
        s.len() > n,
        forall|i: int| 0 <= i < s.len() ==> 0 <= #[trigger] s[i] < n,
    ensures
        0 <= r.0 < r.1 < s.len(),
        s[r.0] == s[r.1],
    decreases n,
{
    if n == 0 {
        let first = s[0];
        assert(0 <= first && first < n);
        (0, 0)
    } else {
        let top = n - 1;
        if exists|i: int, j: int| 0 <= i < j < s.len() && s[i] == top && s[j] == top {
            let (i, j) = choose|i: int, j: int| 0 <= i < j < s.len() && s[i] == top && s[j] == top;
            (i, j)
        } else if exists|k: int| 0 <= k < s.len() && s[k] == top {
            let k = choose|k: int| 0 <= k < s.len() && s[k] == top;
            let t = s.remove(k);
            assert forall|i: int| 0 <= i < t.len() implies 0 <= #[trigger] t[i] < top by {
                let from = if i < k {
                    i
                } else {
                    i + 1
                };
                assert(t[i] == s[from]);
                if s[from] == top {
                    if from < k {
                        assert(0 <= from < k < s.len() && s[from] == top && s[k] == top);
                    } else {
                        assert(0 <= k < from < s.len() && s[k] == top && s[from] == top);
                    }
                }
            }
            let (i, j) = lemma_two_are_the_same(t, top as nat);
            let a = if i < k {
                i
            } else {
                i + 1
            };
            let b = if j < k {
                j
            } else {
                j + 1
            };
            assert(t[i] == s[a] && t[j] == s[b]);
            (a, b)
        } else {
            let t = s.take(n as int);
            assert forall|i: int| 0 <= i < t.len() implies 0 <= #[trigger] t[i] < top by {
                assert(t[i] == s[i]);
                if s[i] == top {
                    assert(0 <= i < s.len() && s[i] == top);
                }
            }
            let (i, j) = lemma_two_are_the_same(t, top as nat);
            assert(t[i] == s[i] && t[j] == s[j]);
            (i, j)
        }
    }
}

/// Whether `i` is the first place in `pairs` at which `path` stands.
pub open spec fn is_first_place(
    pairs: Seq<(Seq<char>, SchemaDescriptor)>,
    path: Seq<char>,
    i: int,
) -> bool {
    &&& 0 <= i < pairs.len()
    &&& pairs[i].0 == path
    &&& forall|j: int| 0 <= j < i ==> (#[trigger] pairs[j]).0 != path
}

/// The place in the registry of the type that `k + 1` opened wrappers lead
/// to.
pub open spec fn place_of(d: SchemaDescriptorView, schema: Schema, k: int) -> int {
    if k >= 0 && opened(d, schema, k as nat) is Some && wrapped(
        opened(d, schema, k as nat).unwrap(),
        schema,
    ) is Some {
        let outer = opened(d, schema, k as nat).unwrap();
        let path = referenced_path(first_of(outer.prefix_items).unwrap()).unwrap();
        choose|i: int| is_first_place(schema.pairs(), path, i)
    } else {
        0
    }
}

/// A chain of wrappers that is longer than the registry has types comes
/// back to a type it has passed, and so never ends: where more wrappers
/// can be opened in a row than the budget allows, any number can.
pub proof fn lemma_long_chain_never_ends(d: SchemaDescriptorView, schema: Schema, n: nat)
    requires
        opened(d, schema, budget(schema) + 1) is Some,
    ensures
        opened(d, schema, n) is Some,
    decreases n,
{
    let count = budget(schema);
    if n <= count + 1 {
        lemma_opened_prefix(d, schema, count + 1, n);
    } else {
        let pairs = schema.pairs();
        let places = Seq::new(count + 1, |k: int| place_of(d, schema, k));
        assert forall|k: int| 0 <= k < places.len() implies 0 <= #[trigger] places[k] < count by {
            lemma_place_of(d, schema, k);
        }
        let (i, j) = lemma_two_are_the_same(places, count);
        lemma_place_of(d, schema, i);
        lemma_place_of(d, schema, j);
        assert(places[i] == place_of(d, schema, i));
        assert(places[j] == place_of(d, schema, j));
        // After `i + 1` and after `j + 1` wrappers the same type is reached.
        assert(opened(d, schema, (i + 1) as nat) == opened(d, schema, (j + 1) as nat));
        let period = (j - i) as nat;
        lemma_long_chain_never_ends(d, schema, (n - period) as nat);
        lemma_opened_periodic(d, schema, (i + 1) as nat, period, (n - period - (i + 1)) as nat);
    }
}

/// Where the registry knows the type that `k + 1` opened wrappers lead to,
/// that type stands at its place in the registry.
pub proof fn lemma_place_of(d: SchemaDescriptorView, schema: Schema, k: int)
    requires
        0 <= k <= budget(schema),
        opened(d, schema, budget(schema) + 1) is Some,
    ensures
        0 <= place_of(d, schema, k) < budget(schema),
        opened(d, schema, (k + 1) as nat) == Some(
            schema.pairs()[place_of(d, schema, k)].1@,
        ),
{
    lemma_opened_prefix(d, schema, budget(schema) + 1, (k + 1) as nat);
    lemma_opened_prefix(d, schema, budget(schema) + 1, k as nat);
    let outer = opened(d, schema, k as nat).unwrap();
    assert(opened(d, schema, (k + 1) as nat) == wrapped(outer, schema));
    let reference = first_of(outer.prefix_items).unwrap();
    let path = referenced_path(reference).unwrap();
    assert(schema.lookup(path) is Some);
    let at = lemma_find_index(schema.pairs(), path);
    assert(is_first_place(schema.pairs(), path, at));
    let place = place_of(d, schema, k);
    assert(is_first_place(schema.pairs(), path, place));
    lemma_find_at(schema.pairs(), path, place);
}

/// A chain that reaches one type after `at` and after `at + period`
/// wrappers reaches the same types from there on, `period` wrappers apart.
pub proof fn lemma_opened_periodic(
    d: SchemaDescriptorView,
    schema: Schema,
    at: nat,
    period: nat,
    more: nat,
)
    requires
        opened(d, schema, at) == opened(d, schema, at + period),
    ensures
        opened(d, schema, at + more) == opened(d, schema, at + period + more),
    decreases more,
{
    if more > 0 {
        lemma_opened_periodic(d, schema, at, period, (more - 1) as nat);
    }
}

/// A value is reported as wrapping itself only where it does: where its
/// type is a wrapper of a wrapper of a wrapper, without end.
pub proof fn lemma_cyclic_means_endless(
    value: JsonView,
    d: SchemaDescriptorView,
    schema: Schema,
    parent: Option<Seq<char>>,
    n: nat,
)
    requires
        rendered(value, d, schema, parent, budget(schema)) is Cyclic,
    ensures
        opened(d, schema, n) is Some,
{
    lemma_cyclic_exhausts_budget(value, d, schema, parent, budget(schema));
    lemma_long_chain_never_ends(d, schema, n);
}

} // verus!
