//! Url parameters as a list of key/value pairs with ascending keys, and what
//! setting a key does to such a list.

use vstd::prelude::*;
use vstd::utf8::encode_utf8;
use crate::order::Rank;
use crate::order::lemma_lex_below_asymmetric;
use crate::order::lemma_lex_below_transitive;
use crate::order::lex_below;
use crate::order::rank_bytes;

verus! {

/// The keys ascend strictly in the lexicographic order of their UTF-8 bytes,
/// so no key occurs twice.
pub open spec fn keys_ascending(params: Seq<(Seq<char>, Seq<char>)>) -> bool {
    forall|i: int, j: int|
        0 <= i < j < params.len() ==> lex_below(
            encode_utf8(#[trigger] params[i].0),
            encode_utf8(#[trigger] params[j].0),
        )
}

/// The pairs read as a map from key to value.
pub open spec fn param_map(params: Seq<(Seq<char>, Seq<char>)>) -> Map<Seq<char>, Seq<char>> {
    Map::new(
        |key: Seq<char>| exists|i: int| 0 <= i < params.len() && params[i].0 == key,
        |key: Seq<char>| params[choose|i: int| 0 <= i < params.len() && params[i].0 == key].1,
    )
}

/// `after` is `before` with `value` under `key`: written over the old value
/// where the key was there, which moves no pair, and put in as a new pair
/// where it was not.
pub open spec fn is_upsert(
    before: Seq<(Seq<char>, Seq<char>)>,
    after: Seq<(Seq<char>, Seq<char>)>,
    key: Seq<char>,
    value: Seq<char>,
) -> bool {
    ||| exists|i: int|
        0 <= i < before.len() && (#[trigger] before[i]).0 == key && after == before.update(
            i,
            (key, value),
        )
    ||| {
        &&& forall|i: int| 0 <= i < before.len() ==> (#[trigger] before[i]).0 != key
        &&& exists|p: int| 0 <= p <= before.len() && after == #[trigger] before.insert(p, (key, value))
    }
}

/// The key stands in one pair of the list only, and that pair holds the
/// value.
pub open spec fn holds_once(
    params: Seq<(Seq<char>, Seq<char>)>,
    key: Seq<char>,
    value: Seq<char>,
) -> bool {
    exists|i: int|
        0 <= i < params.len() && #[trigger] params[i] == (key, value) && forall|j: int|
            0 <= j < params.len() && (#[trigger] params[j]).0 == key ==> j == i
}

/// The pairs that a vector of parameters holds, as plain values.
pub open spec fn pairs_view(params: Seq<(&'static str, String)>) -> Seq<(Seq<char>, Seq<char>)> {
    Seq::new(params.len(), |i: int| (params[i].0@, params[i].1@))
}

/// Strings with the same UTF-8 bytes are the same string.
pub proof fn lemma_utf8_injective(a: Seq<char>, b: Seq<char>)
    requires
        encode_utf8(a) == encode_utf8(b),
    ensures
        a == b,
{
    vstd::utf8::encode_utf8_decode_utf8(a);
    vstd::utf8::encode_utf8_decode_utf8(b);
}

/// In a list with ascending keys, a key stands at one index only.
pub proof fn lemma_key_index_unique(params: Seq<(Seq<char>, Seq<char>)>, i: int, j: int)
    requires
        keys_ascending(params),
        0 <= i < params.len(),
        0 <= j < params.len(),
        params[i].0 == params[j].0,
    ensures
        i == j,
{
    if i < j {
        lemma_lex_below_asymmetric(encode_utf8(params[i].0), encode_utf8(params[j].0));
    } else if j < i {
        lemma_lex_below_asymmetric(encode_utf8(params[j].0), encode_utf8(params[i].0));
    }
}

/// In a list with ascending keys, the map holds each pair's value under its
/// key.
pub proof fn lemma_param_map_at(params: Seq<(Seq<char>, Seq<char>)>, i: int)
    requires
        keys_ascending(params),
        0 <= i < params.len(),
    ensures
        param_map(params).dom().contains(params[i].0),
        param_map(params)[params[i].0] == params[i].1,
{
    let key = params[i].0;
    let j = choose|j: int| 0 <= j < params.len() && params[j].0 == key;
    lemma_key_index_unique(params, i, j);
}

/// An upsert between lists with ascending keys is an insertion into the map.
pub proof fn lemma_upsert_is_map_insert(
    before: Seq<(Seq<char>, Seq<char>)>,
    after: Seq<(Seq<char>, Seq<char>)>,
    key: Seq<char>,
    value: Seq<char>,
)
    requires
        keys_ascending(before),
        keys_ascending(after),
        is_upsert(before, after, key, value),
    ensures
        param_map(after) == param_map(before).insert(key, value),
{
    let target = param_map(before).insert(key, value);
    assert forall|q: Seq<char>| param_map(after).dom().contains(q) implies target.dom().contains(
        q,
    ) && param_map(after)[q] == target[q] by {
        let j = choose|j: int| 0 <= j < after.len() && after[j].0 == q;
        lemma_param_map_at(after, j);
        if q != key {
            if exists|i: int|
                0 <= i < before.len() && (#[trigger] before[i]).0 == key && after == before.update(
                    i,
                    (key, value),
                ) {
                assert(before[j] == after[j]);
                lemma_param_map_at(before, j);
            } else {
                let p = choose|p: int|
                    0 <= p <= before.len() && after == #[trigger] before.insert(p, (key, value));
                let k = if j < p { j } else { j - 1 };
                assert(before[k] == after[j]);
                lemma_param_map_at(before, k);
            }
        }
    }
    assert forall|q: Seq<char>| target.dom().contains(q) implies param_map(after).dom().contains(
        q,
    ) by {
        if exists|i: int|
            0 <= i < before.len() && (#[trigger] before[i]).0 == key && after == before.update(
                i,
                (key, value),
            ) {
            let i = choose|i: int|
                0 <= i < before.len() && (#[trigger] before[i]).0 == key && after == before.update(
                    i,
                    (key, value),
                );
            if q == key {
                assert(after[i].0 == q);
            } else {
                let j = choose|j: int| 0 <= j < before.len() && before[j].0 == q;
                assert(after[j].0 == q);
            }
        } else {
            let p = choose|p: int|
                0 <= p <= before.len() && after == #[trigger] before.insert(p, (key, value));
            if q == key {
                assert(after[p].0 == q);
            } else {
                let j = choose|j: int| 0 <= j < before.len() && before[j].0 == q;
                let k = if j < p { j } else { j + 1 };
                assert(after[k].0 == q);
            }
        }
    }
    assert(param_map(after) =~= target);
}

/// A list with ascending keys is determined by the map it reads as: two such
/// lists with the same map are the same list, in whatever order their pairs
/// were set.
pub proof fn lemma_ascending_list_determined(
    one: Seq<(Seq<char>, Seq<char>)>,
    other: Seq<(Seq<char>, Seq<char>)>,
)
    requires
        keys_ascending(one),
        keys_ascending(other),
        param_map(one) == param_map(other),
    ensures
        one == other,
    decreases one.len(),
{
    if one.len() == 0 {
        if other.len() > 0 {
            lemma_param_map_at(other, 0);
            assert(param_map(one).dom().contains(other[0].0));
        }
        assert(one =~= other);
    } else if other.len() == 0 {
        lemma_param_map_at(one, 0);
        assert(param_map(other).dom().contains(one[0].0));
    } else {
        let m = one.len() - 1;
        let n = other.len() - 1;
        lemma_param_map_at(one, m);
        lemma_param_map_at(other, n);
        let j = choose|j: int| 0 <= j < other.len() && other[j].0 == one[m].0;
        let i = choose|i: int| 0 <= i < one.len() && one[i].0 == other[n].0;
        assert(param_map(other).dom().contains(one[m].0));
        assert(param_map(one).dom().contains(other[n].0));
        if j < n {
            assert(lex_below(encode_utf8(other[j].0), encode_utf8(other[n].0)));
            if i < m {
                assert(lex_below(encode_utf8(one[i].0), encode_utf8(one[m].0)));
            }
            lemma_lex_below_asymmetric(encode_utf8(one[m].0), encode_utf8(one[i].0));
        }
        assert(one[m].0 == other[n].0);
        assert(one[m] == other[n]);
        let head = one.drop_last();
        let rest = other.drop_last();
        assert(keys_ascending(head)) by {
            assert forall|a: int, b: int| 0 <= a < b < head.len() implies lex_below(
                encode_utf8(#[trigger] head[a].0),
                encode_utf8(#[trigger] head[b].0),
            ) by {
                assert(head[a] == one[a]);
                assert(head[b] == one[b]);
            }
        }
        assert(keys_ascending(rest)) by {
            assert forall|a: int, b: int| 0 <= a < b < rest.len() implies lex_below(
                encode_utf8(#[trigger] rest[a].0),
                encode_utf8(#[trigger] rest[b].0),
            ) by {
                assert(rest[a] == other[a]);
                assert(rest[b] == other[b]);
            }
        }
        lemma_drop_last_map(one, other);
        lemma_drop_last_map(other, one);
        assert(param_map(head) =~= param_map(rest));
        lemma_ascending_list_determined(head, rest);
        assert(one =~= head.push(one[m]));
        assert(other =~= rest.push(other[n]));
    }
}

/// Between two lists with ascending keys, the same map and the same last
/// key, what the first holds before its last pair the second holds before
/// its last pair, with the same value.
proof fn lemma_drop_last_map(one: Seq<(Seq<char>, Seq<char>)>, other: Seq<(Seq<char>, Seq<char>)>)
    requires
        keys_ascending(one),
        keys_ascending(other),
        param_map(one) == param_map(other),
        one.len() > 0,
        other.len() > 0,
        one.last().0 == other.last().0,
    ensures
        forall|key: Seq<char>| #[trigger]
            param_map(one.drop_last()).dom().contains(key) ==> param_map(
                other.drop_last(),
            ).dom().contains(key) && param_map(one.drop_last())[key] == param_map(
                other.drop_last(),
            )[key],
{
    let head = one.drop_last();
    let rest = other.drop_last();
    assert(keys_ascending(head)) by {
        assert forall|a: int, b: int| 0 <= a < b < head.len() implies lex_below(
            encode_utf8(#[trigger] head[a].0),
            encode_utf8(#[trigger] head[b].0),
        ) by {
            assert(head[a] == one[a]);
            assert(head[b] == one[b]);
        }
    }
    assert(keys_ascending(rest)) by {
        assert forall|a: int, b: int| 0 <= a < b < rest.len() implies lex_below(
            encode_utf8(#[trigger] rest[a].0),
            encode_utf8(#[trigger] rest[b].0),
        ) by {
            assert(rest[a] == other[a]);
            assert(rest[b] == other[b]);
        }
    }
    assert forall|key: Seq<char>| #[trigger]
        param_map(head).dom().contains(key) implies param_map(rest).dom().contains(key)
        && param_map(head)[key] == param_map(rest)[key] by {
        let i = choose|i: int| 0 <= i < head.len() && head[i].0 == key;
        assert(one[i] == head[i]);
        lemma_param_map_at(head, i);
        lemma_param_map_at(one, i);
        assert(param_map(other).dom().contains(key));
        let j = choose|j: int| 0 <= j < other.len() && other[j].0 == key;
        lemma_param_map_at(other, j);
        if j == other.len() - 1 {
            lemma_key_index_unique(one, i, one.len() - 1);
        }
        assert(rest[j] == other[j]);
        lemma_param_map_at(rest, j);
    }
}

/// Ascending keys leave an upsert one result only.
pub proof fn lemma_upsert_determined(
    before: Seq<(Seq<char>, Seq<char>)>,
    one: Seq<(Seq<char>, Seq<char>)>,
    other: Seq<(Seq<char>, Seq<char>)>,
    key: Seq<char>,
    value: Seq<char>,
)
    requires
        keys_ascending(before),
        keys_ascending(one),
        keys_ascending(other),
        is_upsert(before, one, key, value),
        is_upsert(before, other, key, value),
    ensures
        one == other,
{
    if exists|i: int| 0 <= i < before.len() && (#[trigger] before[i]).0 == key {
        let i = choose|i: int|
            0 <= i < before.len() && (#[trigger] before[i]).0 == key && one == before.update(
                i,
                (key, value),
            );
        let j = choose|j: int|
            0 <= j < before.len() && (#[trigger] before[j]).0 == key && other == before.update(
                j,
                (key, value),
            );
        lemma_key_index_unique(before, i, j);
    } else {
        let p = choose|p: int|
            0 <= p <= before.len() && one == #[trigger] before.insert(p, (key, value));
        let q = choose|q: int|
            0 <= q <= before.len() && other == #[trigger] before.insert(q, (key, value));
        if p < q {
            assert(one[p].0 == key);
            assert(one[p + 1] == before[p]);
            assert(other[p] == before[p]);
            assert(other[q].0 == key);
            lemma_lex_below_asymmetric(encode_utf8(key), encode_utf8(before[p].0));
        } else if q < p {
            assert(other[q].0 == key);
            assert(other[q + 1] == before[q]);
            assert(one[q] == before[q]);
            assert(one[p].0 == key);
            lemma_lex_below_asymmetric(encode_utf8(key), encode_utf8(before[q].0));
        }
    }
}

/// After an upsert the key stands in one pair only, with the value.
pub proof fn lemma_upsert_holds_once(
    before: Seq<(Seq<char>, Seq<char>)>,
    after: Seq<(Seq<char>, Seq<char>)>,
    key: Seq<char>,
    value: Seq<char>,
)
    requires
        keys_ascending(after),
        is_upsert(before, after, key, value),
    ensures
        holds_once(after, key, value),
{
    let at = if exists|i: int|
        0 <= i < before.len() && (#[trigger] before[i]).0 == key && after == before.update(
            i,
            (key, value),
        ) {
        choose|i: int|
            0 <= i < before.len() && (#[trigger] before[i]).0 == key && after == before.update(
                i,
                (key, value),
            )
    } else {
        choose|p: int| 0 <= p <= before.len() && after == #[trigger] before.insert(p, (key, value))
    };
    assert(after[at] == (key, value));
    assert forall|j: int| 0 <= j < after.len() && (#[trigger] after[j]).0 == key implies j
        == at by {
        lemma_key_index_unique(after, at, j);
    }
}

/// Last write wins: setting a key and then setting it again leaves what
/// setting it once to the second value leaves, and the key stands in one
/// pair only, with the second value.
pub proof fn lemma_last_write_wins(
    start: Seq<(Seq<char>, Seq<char>)>,
    first: Seq<(Seq<char>, Seq<char>)>,
    second: Seq<(Seq<char>, Seq<char>)>,
    key: Seq<char>,
    early: Seq<char>,
    late: Seq<char>,
)
    requires
        keys_ascending(start),
        keys_ascending(first),
        keys_ascending(second),
        is_upsert(start, first, key, early),
        is_upsert(first, second, key, late),
    ensures
        is_upsert(start, second, key, late),
        second.len() == first.len(),
        param_map(second) == param_map(start).insert(key, late),
        holds_once(second, key, late),
{
    let at = choose|at: int| 0 <= at < first.len() && (#[trigger] first[at]).0 == key;
    assert(0 <= at < first.len() && first[at].0 == key) by {
        if exists|i: int|
            0 <= i < start.len() && (#[trigger] start[i]).0 == key && first == start.update(
                i,
                (key, early),
            ) {
            let i = choose|i: int|
                0 <= i < start.len() && (#[trigger] start[i]).0 == key && first == start.update(
                    i,
                    (key, early),
                );
            assert(first[i].0 == key);
        } else {
            let p = choose|p: int|
                0 <= p <= start.len() && first == #[trigger] start.insert(p, (key, early));
            assert(first[p].0 == key);
        }
    }
    let i2 = choose|i: int|
        0 <= i < first.len() && (#[trigger] first[i]).0 == key && second == first.update(
            i,
            (key, late),
        );
    lemma_key_index_unique(first, at, i2);
    assert(second == first.update(at, (key, late)));
    if exists|i: int|
        0 <= i < start.len() && (#[trigger] start[i]).0 == key && first == start.update(
            i,
            (key, early),
        ) {
        let i = choose|i: int|
            0 <= i < start.len() && (#[trigger] start[i]).0 == key && first == start.update(
                i,
                (key, early),
            );
        assert(first[i].0 == key);
        lemma_key_index_unique(first, at, i);
        assert(second =~= start.update(i, (key, late)));
    } else {
        let p = choose|p: int|
            0 <= p <= start.len() && first == #[trigger] start.insert(p, (key, early));
        assert(first[p].0 == key);
        lemma_key_index_unique(first, at, p);
        assert(second =~= start.insert(p, (key, late)));
    }
    lemma_upsert_is_map_insert(start, second, key, late);
    lemma_upsert_holds_once(first, second, key, late);
}

/// The stores that a run of `url_param` calls with one key goes through:
/// one store more than there are values, each with ascending keys, and each
/// step an upsert of the next value.
pub open spec fn is_upsert_run(
    stores: Seq<Seq<(Seq<char>, Seq<char>)>>,
    key: Seq<char>,
    values: Seq<Seq<char>>,
) -> bool {
    &&& stores.len() == values.len() + 1
    &&& forall|i: int| 0 <= i < stores.len() ==> keys_ascending(#[trigger] stores[i])
    &&& forall|i: int|
        0 <= i < values.len() ==> is_upsert(#[trigger] stores[i], stores[i + 1], key, values[i])
}

/// After any run of `url_param` calls with one key, only the last value is
/// retained: the store is what setting the key once to the last value makes
/// of the first store, and the key stands in one pair only.
pub proof fn lemma_run_keeps_last_value(
    stores: Seq<Seq<(Seq<char>, Seq<char>)>>,
    key: Seq<char>,
    values: Seq<Seq<char>>,
)
    requires
        is_upsert_run(stores, key, values),
        values.len() >= 1,
    ensures
        is_upsert(stores[0], stores.last(), key, values.last()),
        param_map(stores.last()) == param_map(stores[0]).insert(key, values.last()),
        holds_once(stores.last(), key, values.last()),
    decreases values.len(),
{
    let n = values.len() as int;
    assert(stores.last() == stores[n]);
    assert(values.last() == values[n - 1]);
    assert(is_upsert(stores[n - 1], stores[n - 1 + 1], key, values[n - 1]));
    if n == 1 {
        lemma_upsert_is_map_insert(stores[0], stores[1], key, values[0]);
        lemma_upsert_holds_once(stores[0], stores[1], key, values[0]);
    } else {
        let shorter = stores.drop_last();
        let fewer = values.drop_last();
        assert(is_upsert_run(shorter, key, fewer)) by {
            assert forall|i: int| 0 <= i < fewer.len() implies is_upsert(
                #[trigger] shorter[i],
                shorter[i + 1],
                key,
                fewer[i],
            ) by {
                assert(is_upsert(stores[i], stores[i + 1], key, values[i]));
            }
        }
        lemma_run_keeps_last_value(shorter, key, fewer);
        assert(shorter.last() == stores[n - 1]);
        lemma_last_write_wins(stores[0], stores[n - 1], stores[n], key, fewer.last(), values[n - 1]);
    }
}

/// Where `key` belongs among ascending parameters: the index of the first
/// pair whose key is not below it, and whether that pair has the key.
pub(crate) fn find_slot(params: &Vec<(&'static str, String)>, key: &str) -> (slot: (usize, bool))
    requires
        keys_ascending(pairs_view(params@)),
    ensures
        slot.0 <= params@.len(),
        forall|j: int|
            0 <= j < slot.0 ==> lex_below(
                encode_utf8(#[trigger] pairs_view(params@)[j].0),
                encode_utf8(key@),
            ),
        forall|j: int|
            slot.0 + (if slot.1 { 1int } else { 0int }) <= j < params@.len() ==> lex_below(
                encode_utf8(key@),
                encode_utf8(#[trigger] pairs_view(params@)[j].0),
            ),
        slot.1 ==> slot.0 < params@.len() && pairs_view(params@)[slot.0 as int].0 == key@,
{
    let ghost pairs = pairs_view(params@);
    let wanted = key.as_bytes();
    let mut i: usize = 0;
    while i < params.len()
        invariant
            i <= params@.len(),
            pairs == pairs_view(params@),
            keys_ascending(pairs),
            wanted@ == encode_utf8(key@),
            forall|j: int| 0 <= j < i ==> lex_below(encode_utf8(#[trigger] pairs[j].0), wanted@),
        decreases params@.len() - i,
    {
        let here = params[i].0.as_bytes();
        assert(here@ == encode_utf8(pairs[i as int].0));
        let rank = rank_bytes(here, wanted);
        match rank {
            Rank::Below => {
                i += 1;
            },
            Rank::Same => {
                proof {
                    lemma_utf8_injective(pairs[i as int].0, key@);
                    assert forall|j: int| i + 1 <= j < params@.len() implies lex_below(
                        encode_utf8(key@),
                        encode_utf8(#[trigger] pairs[j].0),
                    ) by {
                        assert(lex_below(encode_utf8(pairs[i as int].0), encode_utf8(pairs[j].0)));
                    }
                }
                return (i, true);
            },
            Rank::Above => {
                proof {
                    assert forall|j: int| i <= j < params@.len() implies lex_below(
                        encode_utf8(key@),
                        encode_utf8(#[trigger] pairs[j].0),
                    ) by {
                        if i < j {
                            assert(lex_below(
                                encode_utf8(pairs[i as int].0),
                                encode_utf8(pairs[j].0),
                            ));
                            lemma_lex_below_transitive(
                                wanted@,
                                encode_utf8(pairs[i as int].0),
                                encode_utf8(pairs[j].0),
                            );
                        }
                    }
                }
                return (i, false);
            },
        }
    }
    (i, false)
}
/// Sets `key` to `value` in a list with ascending keys: over the old value
/// where the key is there, at the key's place in the order where it is not.
pub(crate) fn set_pair(params: &mut Vec<(&'static str, String)>, key: &'static str, value: String)
    requires
        keys_ascending(pairs_view(old(params)@)),
    ensures
        keys_ascending(pairs_view(final(params)@)),
        is_upsert(pairs_view(old(params)@), pairs_view(final(params)@), key@, value@),
        param_map(pairs_view(final(params)@)) == param_map(pairs_view(old(params)@)).insert(
            key@,
            value@,
        ),
{
    let ghost before = pairs_view(params@);
    let (slot, found) = find_slot(params, key);
    if found {
        params.set(slot, (key, value));
        proof {
            let after = pairs_view(params@);
            assert(after =~= before.update(slot as int, (key@, value@)));
            assert(before[slot as int].0 == key@);
            assert(keys_ascending(after)) by {
                assert forall|i: int, j: int| 0 <= i < j < after.len() implies lex_below(
                    encode_utf8(#[trigger] after[i].0),
                    encode_utf8(#[trigger] after[j].0),
                ) by {
                    assert(after[i].0 == before[i].0);
                    assert(after[j].0 == before[j].0);
                }
            }
        }
    } else {
        params.insert(slot, (key, value));
        proof {
            let after = pairs_view(params@);
            assert(after =~= before.insert(slot as int, (key@, value@)));
            assert forall|i: int| 0 <= i < before.len() implies (#[trigger] before[i]).0
                != key@ by {
                if before[i].0 == key@ {
                    lemma_lex_below_asymmetric(
                        encode_utf8(key@),
                        encode_utf8(before[i].0),
                    );
                }
            }
            assert(keys_ascending(after)) by {
                assert forall|i: int, j: int| 0 <= i < j < after.len() implies lex_below(
                    encode_utf8(#[trigger] after[i].0),
                    encode_utf8(#[trigger] after[j].0),
                ) by {
                    let bi = if i < slot { i } else { i - 1 };
                    let bj = if j < slot { j } else { j - 1 };
                    if i != slot {
                        assert(after[i] == before[bi]);
                    }
                    if j != slot {
                        assert(after[j] == before[bj]);
                    }
                }
            }
        }
    }
    proof {
        lemma_upsert_is_map_insert(before, pairs_view(params@), key@, value@);
    }
}

} // verus!
