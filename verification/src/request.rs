//! What a POST sends: the pairs of the command line as the fields of one JSON
//! object.

use vstd::prelude::*;
use crate::kv::KVPair;

verus! {

/// A key with its value.
pub type Field = (Seq<char>, Seq<char>);

/// The pairs as the contracts see them.
pub open spec fn fields_of(pairs: Seq<KVPair>) -> Seq<Field> {
    pairs.map_values(|p: KVPair| p@)
}

/// The object that comes of setting each field in turn: a key that occurs
/// again takes the later value.
pub open spec fn object_of(fields: Seq<Field>) -> Map<Seq<char>, Seq<char>>
    decreases fields.len(),
{
    if fields.len() == 0 {
        Map::empty()
    } else {
        object_of(fields.drop_last()).insert(fields.last().0, fields.last().1)
    }
}

/// No key occurs twice.
pub open spec fn keys_distinct(fields: Seq<Field>) -> bool {
    forall|i: int, j: int|
        0 <= i < j < fields.len() ==> (#[trigger] fields[i]).0 != (#[trigger] fields[j]).0
}

/// `i` is the place where the key `k` occurs first.
pub open spec fn is_first_place(fields: Seq<Field>, k: Seq<char>, i: int) -> bool {
    &&& 0 <= i < fields.len()
    &&& fields[i].0 == k
    &&& forall|j: int| 0 <= j < i ==> (#[trigger] fields[j]).0 != k
}

/// The keys of `fields` stand in the order in which they occur first in
/// `pairs`.
pub open spec fn in_order_of(fields: Seq<Field>, pairs: Seq<Field>) -> bool {
    forall|a: int, b: int, p: int, q: int|
        0 <= a < b < fields.len() && #[trigger] is_first_place(pairs, fields[a].0, p)
            && #[trigger] is_first_place(pairs, fields[b].0, q) ==> p < q
}

/// A key is set in the object exactly if some field has it.
pub proof fn lemma_object_keys(fields: Seq<Field>, k: Seq<char>)
    ensures
        object_of(fields).dom().contains(k) <==> exists|i: int|
            0 <= i < fields.len() && (#[trigger] fields[i]).0 == k,
    decreases fields.len(),
{
    if fields.len() > 0 {
        let front = fields.drop_last();
        lemma_object_keys(front, k);
        if object_of(fields).dom().contains(k) {
            if fields.last().0 == k {
                assert(fields[fields.len() - 1].0 == k);
            } else {
                let i = choose|i: int| 0 <= i < front.len() && (#[trigger] front[i]).0 == k;
                assert(fields[i].0 == k);
            }
        }
        if exists|i: int| 0 <= i < fields.len() && (#[trigger] fields[i]).0 == k {
            let i = choose|i: int| 0 <= i < fields.len() && (#[trigger] fields[i]).0 == k;
            if i < front.len() {
                assert(front[i].0 == k);
            }
        }
    }
}

/// The object holds for each key the value of the last field that has it.
pub proof fn lemma_object_last_wins(fields: Seq<Field>, i: int)
    requires
        0 <= i < fields.len(),
        forall|j: int| i < j < fields.len() ==> (#[trigger] fields[j]).0 != fields[i].0,
    ensures
        object_of(fields).dom().contains(fields[i].0),
        object_of(fields)[fields[i].0] == fields[i].1,
    decreases fields.len(),
{
    if i < fields.len() - 1 {
        let front = fields.drop_last();
        assert(fields[fields.len() - 1].0 != fields[i].0);
        assert forall|j: int| i < j < front.len() implies (#[trigger] front[j]).0 != front[i].0 by {
            assert(fields[j].0 != fields[i].0);
        }
        lemma_object_last_wins(front, i);
    }
}

/// Where two lists of fields make the same object, each key of the one
/// occurs in the other.
proof fn lemma_keys_shared(fields: Seq<Field>, seen: Seq<Field>)
    requires
        object_of(fields) == object_of(seen),
    ensures
        forall|a: int|
            0 <= a < fields.len() ==> exists|p: int|
                0 <= p < seen.len() && (#[trigger] seen[p]).0 == (#[trigger] fields[a]).0,
{
    assert forall|a: int| 0 <= a < fields.len() implies exists|p: int|
        0 <= p < seen.len() && (#[trigger] seen[p]).0 == (#[trigger] fields[a]).0 by {
        lemma_object_keys(fields, fields[a].0);
        lemma_object_keys(seen, fields[a].0);
    }
}

/// Writing a new value at the one place of a key sets that key anew.
proof fn lemma_object_update(fields: Seq<Field>, i: int, v: Seq<char>)
    requires
        keys_distinct(fields),
        0 <= i < fields.len(),
    ensures
        object_of(fields.update(i, (fields[i].0, v))) == object_of(fields).insert(fields[i].0, v),
    decreases fields.len(),
{
    let k = fields[i].0;
    let changed = fields.update(i, (k, v));
    let front = fields.drop_last();
    if i == fields.len() - 1 {
        assert(changed.drop_last() =~= front);
        assert(object_of(changed) =~= object_of(fields).insert(k, v));
    } else {
        assert(changed.drop_last() =~= front.update(i, (k, v)));
        assert(front[i] == fields[i]);
        assert(keys_distinct(front)) by {
            assert forall|a: int, b: int| 0 <= a < b < front.len() implies (#[trigger] front[a]).0
                != (#[trigger] front[b]).0 by {
                assert(fields[a].0 != fields[b].0);
            }
        }
        lemma_object_update(front, i, v);
        assert(fields[i].0 != fields[fields.len() - 1].0);
        assert(object_of(changed) =~= object_of(fields).insert(k, v));
    }
}

/// The place of the key `k` among the fields, if one has it.
fn find_key(fields: &Vec<KVPair>, k: &String) -> (r: Option<usize>)
    ensures
        match r {
            Some(i) => i < fields.len() && fields@[i as int].k@ == k@,
            None => forall|j: int| 0 <= j < fields.len() ==> (#[trigger] fields@[j]).k@ != k@,
        },
{
    let mut i: usize = 0;
    while i < fields.len()
        invariant
            i <= fields.len(),
            forall|j: int| 0 <= j < i ==> (#[trigger] fields@[j]).k@ != k@,
        decreases fields.len() - i,
    {
        if fields[i].k == *k {
            return Some(i);
        }
        i += 1;
    }
    None
}

/// The fields of the JSON object that a POST with these pairs sends. Each key
/// is there once, with the value of the last pair that has it, and the keys
/// keep the order in which the pairs bring them up.
pub fn body_fields(pairs: &Vec<KVPair>) -> (r: Vec<KVPair>)
    ensures
        keys_distinct(fields_of(r@)),
        object_of(fields_of(r@)) == object_of(fields_of(pairs@)),
        in_order_of(fields_of(r@), fields_of(pairs@)),
{
    let mut fields: Vec<KVPair> = Vec::new();
    let mut i: usize = 0;
    while i < pairs.len()
        invariant
            i <= pairs.len(),
            keys_distinct(fields_of(fields@)),
            object_of(fields_of(fields@)) == object_of(fields_of(pairs@.take(i as int))),
            in_order_of(fields_of(fields@), fields_of(pairs@.take(i as int))),
        decreases pairs.len() - i,
    {
        let ghost old_fields = fields_of(fields@);
        let ghost seen = fields_of(pairs@.take(i as int));
        let ghost next = fields_of(pairs@.take(i + 1));
        let pair = &pairs[i];
        let ghost k = pair.k@;
        let ghost v = pair.v@;
        proof {
            assert(next.drop_last() =~= seen);
            assert(next.last() == (k, v));
            assert(next =~= seen.push((k, v)));
            lemma_object_keys(old_fields, k);
            lemma_object_keys(seen, k);
            lemma_keys_shared(old_fields, seen);
        }
        let fresh = KVPair { k: pair.k.clone(), v: pair.v.clone() };
        match find_key(&fields, &pair.k) {
            Some(j) => {
                fields.set(j, fresh);
                proof {
                    let new_fields = fields_of(fields@);
                    assert(new_fields =~= old_fields.update(j as int, (k, v)));
                    lemma_object_update(old_fields, j as int, v);
                    assert forall|a: int, b: int| 0 <= a < b < new_fields.len() implies (
                    #[trigger] new_fields[a]).0 != (#[trigger] new_fields[b]).0 by {
                        assert(old_fields[a].0 != old_fields[b].0);
                    }
                    lemma_order_kept(old_fields, new_fields, seen, k, v);
                }
            },
            None => {
                fields.push(fresh);
                proof {
                    let new_fields = fields_of(fields@);
                    assert(new_fields =~= old_fields.push((k, v)));
                    assert(new_fields.drop_last() =~= old_fields);
                    assert forall|a: int, b: int| 0 <= a < b < new_fields.len() implies (
                    #[trigger] new_fields[a]).0 != (#[trigger] new_fields[b]).0 by {
                        if b < old_fields.len() {
                            assert(old_fields[a].0 != old_fields[b].0);
                        } else {
                            assert(old_fields[a].0 != k);
                        }
                    }
                    lemma_order_grown(old_fields, seen, k, v);
                }
            },
        }
        i += 1;
    }
    proof {
        assert(pairs@.take(i as int) =~= pairs@);
    }
    fields
}

/// A field whose key was seen before leaves the order of the keys alone.
proof fn lemma_order_kept(
    fields: Seq<Field>,
    new_fields: Seq<Field>,
    seen: Seq<Field>,
    k: Seq<char>,
    v: Seq<char>,
)
    requires
        in_order_of(fields, seen),
        new_fields.len() == fields.len(),
        forall|a: int| 0 <= a < fields.len() ==> (#[trigger] new_fields[a]).0 == fields[a].0,
        forall|a: int|
            0 <= a < fields.len() ==> exists|p: int|
                0 <= p < seen.len() && (#[trigger] seen[p]).0 == (#[trigger] fields[a]).0,
    ensures
        in_order_of(new_fields, seen.push((k, v))),
{
    let next = seen.push((k, v));
    assert forall|a: int, b: int, p: int, q: int|
        0 <= a < b < new_fields.len() && #[trigger] is_first_place(next, new_fields[a].0, p)
            && #[trigger] is_first_place(next, new_fields[b].0, q) implies p < q by {
        lemma_first_place_stays(seen, (k, v), fields[a].0, p);
        lemma_first_place_stays(seen, (k, v), fields[b].0, q);
        assert(is_first_place(seen, fields[a].0, p));
        assert(is_first_place(seen, fields[b].0, q));
    }
}

/// A field with a key that was not seen before goes to the end, where it
/// belongs.
proof fn lemma_order_grown(fields: Seq<Field>, seen: Seq<Field>, k: Seq<char>, v: Seq<char>)
    requires
        in_order_of(fields, seen),
        forall|a: int|
            0 <= a < fields.len() ==> exists|p: int|
                0 <= p < seen.len() && (#[trigger] seen[p]).0 == (#[trigger] fields[a]).0,
        forall|p: int| 0 <= p < seen.len() ==> (#[trigger] seen[p]).0 != k,
    ensures
        in_order_of(fields.push((k, v)), seen.push((k, v))),
{
    let next = seen.push((k, v));
    let new_fields = fields.push((k, v));
    assert forall|a: int, b: int, p: int, q: int|
        0 <= a < b < new_fields.len() && #[trigger] is_first_place(next, new_fields[a].0, p)
            && #[trigger] is_first_place(next, new_fields[b].0, q) implies p < q by {
        lemma_first_place_stays(seen, (k, v), fields[a].0, p);
        if b < fields.len() {
            lemma_first_place_stays(seen, (k, v), fields[b].0, q);
            assert(is_first_place(seen, fields[a].0, p));
            assert(is_first_place(seen, fields[b].0, q));
        } else {
            if q < seen.len() {
                assert(seen[q].0 == k);
            }
        }
    }
}

/// The first place of a key that occurs in `seen` is the same once a field is
/// added at the end.
proof fn lemma_first_place_stays(seen: Seq<Field>, added: Field, key: Seq<char>, p: int)
    requires
        exists|i: int| 0 <= i < seen.len() && (#[trigger] seen[i]).0 == key,
        is_first_place(seen.push(added), key, p),
    ensures
        is_first_place(seen, key, p),
{
    let next = seen.push(added);
    let i = choose|i: int| 0 <= i < seen.len() && (#[trigger] seen[i]).0 == key;
    assert(next[i].0 == key);
    assert(p <= i);
    assert(seen[p] == next[p]);
    assert forall|j: int| 0 <= j < p implies (#[trigger] seen[j]).0 != key by {
        assert(next[j].0 != key);
    }
}

} // verus!
