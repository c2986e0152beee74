//! Association lists keyed by text, kept in increasing key order: the
//! ordered maps of the host reports.

use vstd::prelude::*;
use vstd::string::StrSliceExecFns;

verus! {

/// Lexicographic order of texts by code point, the order of `str`.
pub open spec fn text_less(a: Seq<char>, b: Seq<char>) -> bool
    decreases a.len(),
{
    if a.len() == 0 {
        b.len() > 0
    } else if b.len() == 0 {
        false
    } else if a[0] != b[0] {
        a[0] < b[0]
    } else {
        text_less(a.drop_first(), b.drop_first())
    }
}

/// The order of texts is transitive.
pub proof fn lemma_text_less_transitive(a: Seq<char>, b: Seq<char>, c: Seq<char>)
    requires
        text_less(a, b),
        text_less(b, c),
    ensures
        text_less(a, c),
    decreases a.len(),
{
    if a.len() > 0 && b.len() > 0 && c.len() > 0 && a[0] == b[0] && b[0] == c[0] {
        lemma_text_less_transitive(a.drop_first(), b.drop_first(), c.drop_first());
    }
}

/// Two texts are equal or ordered one way or the other, and not both ways.
pub proof fn lemma_text_less_total(a: Seq<char>, b: Seq<char>)
    ensures
        a == b || text_less(a, b) || text_less(b, a),
        !(text_less(a, b) && text_less(b, a)),
        !text_less(a, a),
    decreases a.len(),
{
    if a.len() > 0 && b.len() > 0 {
        lemma_text_less_total(a.drop_first(), b.drop_first());
        if a[0] == b[0] && a.drop_first() == b.drop_first() {
            assert(a =~= seq![a[0]] + a.drop_first());
            assert(b =~= seq![b[0]] + b.drop_first());
        }
    } else if a.len() == 0 && b.len() == 0 {
        assert(a =~= b);
    }
    if a.len() > 0 {
        lemma_text_less_total(a.drop_first(), a.drop_first());
    }
}

/// Compare two texts in the order of `str`.
pub fn text_less_than(a: &str, b: &str) -> (r: bool)
    ensures
        r == text_less(a@, b@),
{
    let la = a.unicode_len();
    let lb = b.unicode_len();
    let mut i: usize = 0;
    assert(a@.skip(0) =~= a@);
    assert(b@.skip(0) =~= b@);
    while i < la && i < lb
        invariant
            la == a@.len(),
            lb == b@.len(),
            i <= la,
            i <= lb,
            text_less(a@, b@) == text_less(a@.skip(i as int), b@.skip(i as int)),
        decreases la - i,
    {
        let ca = a.get_char(i);
        let cb = b.get_char(i);
        assert(a@.skip(i as int)[0] == ca);
        assert(b@.skip(i as int)[0] == cb);
        if ca != cb {
            return ca < cb;
        }
        assert(a@.skip(i as int).drop_first() =~= a@.skip(i + 1));
        assert(b@.skip(i as int).drop_first() =~= b@.skip(i + 1));
        i = i + 1;
    }
    i == la && i < lb
}

/// The keys of an association list.
pub open spec fn keys_of<V>(entries: Seq<(String, V)>) -> Seq<Seq<char>> {
    entries.map_values(|e: (String, V)| e.0@)
}

/// Keys strictly increase along the list.
pub open spec fn keys_increasing(keys: Seq<Seq<char>>) -> bool {
    forall|i: int, j: int| 0 <= i < j < keys.len() ==> text_less(keys[i], keys[j])
}

/// Find the entry of `key` in an association list with increasing keys, or
/// insert one holding `fresh` where it keeps the keys increasing. Returns the
/// entry's index.
pub fn entry_index<V>(entries: &mut Vec<(String, V)>, key: String, fresh: V) -> (i: usize)
    requires
        keys_increasing(keys_of(old(entries)@)),
    ensures
        keys_increasing(keys_of(final(entries)@)),
        i < final(entries)@.len(),
        i <= old(entries)@.len(),
        final(entries)@[i as int].0@ == key@,
        keys_of(old(entries)@).contains(key@) ==> final(entries)@ == old(entries)@,
        !keys_of(old(entries)@).contains(key@) ==> final(entries)@ == old(entries)@.insert(
            i as int,
            (key, fresh),
        ),
{
    let ghost keys = keys_of(entries@);
    let mut i: usize = 0;
    while i < entries.len() && text_less_than(entries[i].0.as_str(), key.as_str())
        invariant
            i <= entries@.len(),
            keys == keys_of(entries@),
            keys_increasing(keys),
            forall|k: int| 0 <= k < i ==> text_less(#[trigger] keys[k], key@),
        decreases entries.len() - i,
    {
        assert(keys[i as int] == entries@[i as int].0@);
        i = i + 1;
    }
    if i < entries.len() {
        assert(keys[i as int] == entries@[i as int].0@);
        if entries[i].0 == key {
            return i;
        }
    }
    proof {
        assert forall|k: int| i <= k < keys.len() implies text_less(key@, #[trigger] keys[k]) by {
            lemma_text_less_total(keys[i as int], key@);
            if k > i {
                lemma_text_less_transitive(key@, keys[i as int], keys[k]);
            }
        }
        assert(!keys.contains(key@)) by {
            if keys.contains(key@) {
                let k = choose|k: int| 0 <= k < keys.len() && keys[k] == key@;
                lemma_text_less_total(key@, key@);
            }
        }
    }
    let ghost before = entries@;
    let ghost kv = key@;
    entries.insert(i, (key, fresh));
    proof {
        let nk = keys_of(entries@);
        assert(nk =~= keys.insert(i as int, kv));
        assert forall|a: int, b: int| 0 <= a < b < nk.len() implies text_less(nk[a], nk[b]) by {
            if a < i && b == i {
            } else if a < i && b > i {
                assert(nk[b] == keys[b - 1]);
            } else if a == i {
                assert(nk[b] == keys[b - 1]);
            } else if a > i {
                assert(nk[a] == keys[a - 1]);
                assert(nk[b] == keys[b - 1]);
            }
        }
    }
    i
}


/// The place of `key` in an association list with increasing keys: the
/// index of its entry, or else the index where an entry for it would keep
/// the keys increasing.
pub fn key_position<V>(entries: &Vec<(String, V)>, key: &str) -> (r: Result<usize, usize>)
    requires
        keys_increasing(keys_of(entries@)),
    ensures
        r matches Ok(i) ==> i < entries@.len() && entries@[i as int].0@ == key@,
        r matches Err(i) ==> i <= entries@.len() && !keys_of(entries@).contains(key@)
            && keys_increasing(keys_of(entries@).insert(i as int, key@)),
{
    let ghost keys = keys_of(entries@);
    let mut i: usize = 0;
    while i < entries.len() && text_less_than(entries[i].0.as_str(), key)
        invariant
            i <= entries@.len(),
            keys == keys_of(entries@),
            keys_increasing(keys),
            forall|k: int| 0 <= k < i ==> text_less(#[trigger] keys[k], key@),
        decreases entries.len() - i,
    {
        assert(keys[i as int] == entries@[i as int].0@);
        i = i + 1;
    }
    if i < entries.len() {
        assert(keys[i as int] == entries@[i as int].0@);
        if !text_less_than(key, entries[i].0.as_str()) {
            proof {
                lemma_text_less_total(keys[i as int], key@);
            }
            return Ok(i);
        }
    }
    proof {
        assert forall|k: int| i <= k < keys.len() implies text_less(key@, #[trigger] keys[k]) by {
            if k > i {
                lemma_text_less_transitive(key@, keys[i as int], keys[k]);
            }
        }
        assert(!keys.contains(key@)) by {
            if keys.contains(key@) {
                let k = choose|k: int| 0 <= k < keys.len() && keys[k] == key@;
                lemma_text_less_total(key@, key@);
            }
        }
        let nk = keys.insert(i as int, key@);
        assert forall|a: int, b: int| 0 <= a < b < nk.len() implies text_less(nk[a], nk[b]) by {
            if a < i && b > i {
                assert(nk[b] == keys[b - 1]);
            } else if a == i {
                assert(nk[b] == keys[b - 1]);
            } else if a > i {
                assert(nk[a] == keys[a - 1]);
                assert(nk[b] == keys[b - 1]);
            }
        }
    }
    Err(i)
}

} // verus!
