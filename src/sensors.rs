//! Temperature sensors: grouped by sensor unit, ordered by label within a
//! unit.

use crate::grouping::{
    entry_index, keys_increasing, keys_of, lemma_text_less_total, lemma_text_less_transitive,
    text_less, text_less_than,
};
use vstd::prelude::*;

verus! {

/// A sensor as the grouping sees it: its unit and its label, if any
pub struct SensorLabel {
    pub unit: String,
    pub label: Option<String>,
}

/// The view of an optional label.
pub open spec fn label_view(label: Option<String>) -> Option<Seq<char>> {
    match label {
        Some(l) => Some(l@),
        None => None,
    }
}

/// Order of labels: no label first, then labels in text order.
pub open spec fn label_less(a: Option<Seq<char>>, b: Option<Seq<char>>) -> bool {
    match a {
        None => b is Some,
        Some(x) => match b {
            Some(y) => text_less(x, y),
            None => false,
        },
    }
}

/// Sensor `i` comes before sensor `j`: by label, then in the order in which
/// the sensors were listed.
pub open spec fn sensor_before(s: Seq<SensorLabel>, i: int, j: int) -> bool {
    label_less(label_view(s[i].label), label_view(s[j].label)) || (label_view(s[i].label)
        == label_view(s[j].label) && i < j)
}

/// The order of sensors is a strict total order.
proof fn lemma_sensor_order(s: Seq<SensorLabel>, i: int, j: int, k: int)
    ensures
        sensor_before(s, i, j) && sensor_before(s, j, k) ==> sensor_before(s, i, k),
        i != j ==> sensor_before(s, i, j) || sensor_before(s, j, i),
        !sensor_before(s, i, i),
        !(sensor_before(s, i, j) && sensor_before(s, j, i)),
{
    let (a, b, c) = (label_view(s[i].label), label_view(s[j].label), label_view(s[k].label));
    if let (Some(x), Some(y)) = (a, b) {
        lemma_text_less_total(x, y);
        if let Some(z) = c {
            if text_less(x, y) && text_less(y, z) {
                lemma_text_less_transitive(x, y, z);
            }
        }
    }
    if let Some(x) = a {
        lemma_text_less_total(x, x);
        if let Some(z) = c {
            if b == a && text_less(x, z) {
            }
        }
    }
    if let (Some(y), Some(z)) = (b, c) {
        lemma_text_less_total(y, z);
    }
}

/// Sensor indices strictly increase in the sensor order.
pub open spec fn in_sensor_order(s: Seq<SensorLabel>, v: Seq<usize>) -> bool {
    forall|p: int, q: int| 0 <= p < q < v.len() ==> sensor_before(s, v[p] as int, v[q] as int)
}

/// The grouping lists, for each unit in increasing order, the indices of its
/// sensors in the sensor order.
pub open spec fn describes_units(entries: Seq<(String, Vec<usize>)>, s: Seq<SensorLabel>, n: int) -> bool {
    &&& keys_increasing(keys_of(entries))
    &&& forall|u: Seq<char>| #[trigger]
        keys_of(entries).contains(u) <==> exists|i: int| 0 <= i < n && s[i].unit@ == u
    &&& forall|k: int|
        0 <= k < entries.len() ==> in_sensor_order(s, #[trigger] entries[k].1@) && forall|i: usize|
            entries[k].1@.contains(i) <==> (i < n && s[i as int].unit@ == entries[k].0@)
}

/// Whether sensor `i` comes before sensor `j`.
fn before(sensors: &Vec<SensorLabel>, i: usize, j: usize) -> (r: bool)
    requires
        i < sensors@.len(),
        j < sensors@.len(),
    ensures
        r == sensor_before(sensors@, i as int, j as int),
{
    let a = &sensors[i].label;
    let b = &sensors[j].label;
    match a {
        None => match b {
            None => i < j,
            Some(_) => true,
        },
        Some(x) => match b {
            None => false,
            Some(y) => {
                if text_less_than(x.as_str(), y.as_str()) {
                    true
                } else if *x == *y {
                    i < j
                } else {
                    false
                }
            },
        },
    }
}

/// Insert sensor index `x` in a list of indices in the sensor order.
fn insert_in_order(sensors: &Vec<SensorLabel>, v: &mut Vec<usize>, x: usize)
    requires
        x < sensors@.len(),
        forall|p: int| 0 <= p < old(v)@.len() ==> old(v)@[p] < sensors@.len() && old(v)@[p] != x,
        in_sensor_order(sensors@, old(v)@),
    ensures
        in_sensor_order(sensors@, final(v)@),
        forall|i: usize| final(v)@.contains(i) <==> (old(v)@.contains(i) || i == x),
        forall|p: int| 0 <= p < final(v)@.len() ==> final(v)@[p] < sensors@.len(),
{
    let ghost s = sensors@;
    let mut i: usize = 0;
    while i < v.len() && before(sensors, v[i], x)
        invariant
            s == sensors@,
            x < s.len(),
            i <= v@.len(),
            forall|p: int| 0 <= p < v@.len() ==> v@[p] < s.len() && v@[p] != x,
            forall|p: int| 0 <= p < i ==> sensor_before(s, #[trigger] v@[p] as int, x as int),
        decreases v.len() - i,
    {
        i = i + 1;
    }
    proof {
        assert forall|q: int| i <= q < v@.len() implies sensor_before(s, x as int, #[trigger] v@[q] as int) by {
            lemma_sensor_order(s, v@[i as int] as int, x as int, v@[q] as int);
            lemma_sensor_order(s, x as int, v@[i as int] as int, v@[q] as int);
        }
    }
    let ghost before_v = v@;
    v.insert(i, x);
    proof {
        assert forall|p: int, q: int| 0 <= p < q < v@.len() implies sensor_before(
            s,
            v@[p] as int,
            v@[q] as int,
        ) by {
            if p < i && q == i {
            } else if p < i && q > i {
                assert(v@[q] == before_v[q - 1]);
                lemma_sensor_order(s, v@[p] as int, x as int, v@[q] as int);
            } else if p == i {
                assert(v@[q] == before_v[q - 1]);
            } else if p > i {
                assert(v@[p] == before_v[p - 1]);
                assert(v@[q] == before_v[q - 1]);
            }
        }
        assert forall|y: usize| v@.contains(y) <==> (before_v.contains(y) || y == x) by {
            if v@.contains(y) {
                let p = choose|p: int| 0 <= p < v@.len() && v@[p] == y;
                if p < i {
                    assert(before_v[p] == y);
                } else if p > i {
                    assert(before_v[p - 1] == y);
                }
            }
            if before_v.contains(y) {
                let p = choose|p: int| 0 <= p < before_v.len() && before_v[p] == y;
                if p < i {
                    assert(v@[p] == y);
                } else {
                    assert(v@[p + 1] == y);
                }
            }
            if y == x {
                assert(v@[i as int] == x);
            }
        }
    }
}


/// Group sensors by unit, in increasing order of unit names, listing the
/// indices of each unit's sensors ordered by label (no label first), and in
/// the listing order for equal labels.
pub fn group_sensors(sensors: &Vec<SensorLabel>) -> (r: Vec<(String, Vec<usize>)>)
    ensures
        describes_units(r@, sensors@, sensors@.len() as int),
{
    let ghost s = sensors@;
    let mut entries: Vec<(String, Vec<usize>)> = Vec::new();
    assert(keys_of(entries@) =~= Seq::empty());
    for i in 0..sensors.len()
        invariant
            s == sensors@,
            describes_units(entries@, s, i as int),
            forall|k: int, p: int|
                0 <= k < entries@.len() && 0 <= p < entries@[k].1@.len() ==> #[trigger] entries@[k].1@[p]
                    < i,
    {
        let ghost e0 = entries@;
        let ghost unit = s[i as int].unit@;
        let empty: Vec<usize> = Vec::new();
        let ghost fresh = empty;
        let key = sensors[i].unit.clone();
        let ghost key_value = key;
        let idx = entry_index(&mut entries, key, empty);
        let ghost e1 = entries@;
        proof {
            if !keys_of(e0).contains(unit) {
                e0.insert_ensures(idx as int, (key_value, fresh));
                assert(e1[idx as int].1@.len() == 0);
            } else {
                assert(e1 == e0);
            }
            assert forall|p: int| 0 <= p < e1[idx as int].1@.len() implies e1[idx as int].1@[p] < s.len()
                && e1[idx as int].1@[p] != i by {
                if keys_of(e0).contains(unit) {
                    assert(e0[idx as int].1@[p] < i);
                }
            }
            assert(in_sensor_order(s, e1[idx as int].1@)) by {
                if keys_of(e0).contains(unit) {
                    assert(in_sensor_order(s, e0[idx as int].1@));
                }
            }
        }
        insert_in_order(sensors, &mut entries[idx].1, i);
        proof {
            let e2 = entries@;
            assert(keys_of(e2) =~= keys_of(e1));
            assert forall|k: int| 0 <= k < e2.len() && k != idx implies #[trigger] e2[k] == if keys_of(
                e0,
            ).contains(unit) || k < idx {
                e0[k]
            } else {
                e0[k - 1]
            } by {}
            assert forall|k: int| 0 <= k < e2.len() && k != idx implies #[trigger] keys_of(e2)[k] != unit by {
                lemma_text_less_total(keys_of(e2)[k], keys_of(e2)[k]);
                lemma_text_less_total(keys_of(e2)[idx as int], keys_of(e2)[idx as int]);
            }
            assert forall|k: int| 0 <= k < e2.len() implies in_sensor_order(s, #[trigger] e2[k].1@)
                && forall|j: usize| e2[k].1@.contains(j) <==> (j < i + 1 && s[j as int].unit@ == e2[k].0@) by {
                if k != idx {
                    let k0 = if keys_of(e0).contains(unit) || k < idx {
                        k
                    } else {
                        k - 1
                    };
                    assert(e2[k] == e0[k0]);
                    assert(keys_of(e2)[k] == e2[k].0@);
                    assert(in_sensor_order(s, e0[k0].1@));
                } else if keys_of(e0).contains(unit) {
                    assert(in_sensor_order(s, e0[idx as int].1@));
                }
            }
            assert forall|k: int, p: int|
                0 <= k < e2.len() && 0 <= p < e2[k].1@.len() implies #[trigger] e2[k].1@[p] < i + 1 by {
                assert(e2[k].1@.contains(e2[k].1@[p]));
            }
            assert forall|u: Seq<char>| #[trigger] keys_of(e2).contains(u) <==> exists|j: int|
                0 <= j < i + 1 && s[j].unit@ == u by {
                if keys_of(e2).contains(u) {
                    let k = choose|k: int| 0 <= k < keys_of(e2).len() && keys_of(e2)[k] == u;
                    if u != unit {
                        let k0 = if keys_of(e0).contains(unit) || k < idx {
                            k
                        } else {
                            k - 1
                        };
                        assert(keys_of(e0)[k0] == u);
                        assert(keys_of(e0).contains(u));
                    }
                }
                if exists|j: int| 0 <= j < i + 1 && s[j].unit@ == u {
                    let j = choose|j: int| 0 <= j < i + 1 && s[j].unit@ == u;
                    if j == i {
                        assert(keys_of(e2)[idx as int] == u);
                    } else {
                        assert(keys_of(e0).contains(u));
                        let k0 = choose|k0: int| 0 <= k0 < keys_of(e0).len() && keys_of(e0)[k0] == u;
                        if keys_of(e0).contains(unit) || k0 < idx {
                            assert(keys_of(e2)[k0] == u);
                        } else {
                            assert(keys_of(e2)[k0 + 1] == u);
                        }
                    }
                }
            }
        }
    }
    entries
}

} // verus!
