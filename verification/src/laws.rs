//! General laws of the engine, stated over its transition functions
//! and proved once for every store and every input.

use crate::engine::{
    cap, del_count, del_map, int_out, list_ok, sadd_count, sadd_seq, set_ok, srem_seq,
    step_out, step_store, stored_list, stored_set, CmdModel, MismatchModel,
};
use crate::models::{distinct_elems, value_wf, PrimModel, ValModel};
use vstd::prelude::*;

verus! {

/// GET on an absent key — one never written, or written and then
/// removed — returns `Nil` and leaves the store unchanged.
pub proof fn lemma_get_absent(m: Map<Seq<char>, ValModel>, key: Seq<char>)
    requires
        !m.contains_key(key),
    ensures
        step_out(m, (CmdModel::Get { key })) == Ok::<
            Option<ValModel>,
            MismatchModel,
        >(Some(ValModel::Prim(PrimModel::Nil))),
        step_store(m, (CmdModel::Get { key })) == m,
{
}

/// What DEL leaves present: exactly the keys present before and not
/// named, each with its old value.
pub proof fn lemma_del_map_spec(
    m: Map<Seq<char>, ValModel>,
    keys: Seq<Seq<char>>,
    k: Seq<char>,
)
    ensures
        del_map(m, keys).contains_key(k) <==> (m.contains_key(k) && !keys.contains(k)),
        del_map(m, keys).contains_key(k) ==> del_map(m, keys)[k] == m[k],
    decreases keys.len(),
{
    if keys.len() > 0 {
        lemma_del_map_spec(m, keys.drop_last(), k);
        assert(keys.contains(k) <==> (keys.drop_last().contains(k) || keys.last() == k)) by {
            if keys.contains(k) {
                let i = choose|i: int| 0 <= i < keys.len() && keys[i] == k;
                if i < keys.len() - 1 {
                    assert(keys.drop_last()[i] == k);
                }
            }
            if keys.drop_last().contains(k) {
                let i = choose|i: int|
                    0 <= i < keys.drop_last().len() && keys.drop_last()[i] == k;
                assert(keys[i] == k);
            }
        }
    }
}

/// A key named by DEL is afterwards absent, and GET on it returns
/// `Nil`.
pub proof fn lemma_del_then_get(
    m: Map<Seq<char>, ValModel>,
    keys: Seq<Seq<char>>,
    key: Seq<char>,
)
    requires
        keys.contains(key),
    ensures
        !step_store(m, (CmdModel::Del { keys })).contains_key(key),
        step_out(step_store(m, (CmdModel::Del { keys })), (CmdModel::Get { key })) == Ok::<
            Option<ValModel>,
            MismatchModel,
        >(Some(ValModel::Prim(PrimModel::Nil))),
{
    lemma_del_map_spec(m, keys, key);
}

/// SET followed by GET on the same key returns exactly the value set.
pub proof fn lemma_set_get_round_trip(
    m: Map<Seq<char>, ValModel>,
    key: Seq<char>,
    arg: PrimModel,
)
    ensures
        step_out(step_store(m, (CmdModel::Put { key, arg })), (CmdModel::Get { key })) == Ok::<
            Option<ValModel>,
            MismatchModel,
        >(Some(ValModel::Prim(arg))),
{
}

/// A second SET fully replaces the prior value's kind and contents:
/// the store ends as if the first SET had never happened.
pub proof fn lemma_set_replaces(
    m: Map<Seq<char>, ValModel>,
    key: Seq<char>,
    first: PrimModel,
    second: PrimModel,
)
    ensures
        step_store(
            step_store(m, (CmdModel::Put { key, arg: first })),
            (CmdModel::Put { key, arg: second }),
        ) == step_store(m, (CmdModel::Put { key, arg: second })),
{
    assert(m.insert(key, ValModel::Prim(first)).insert(key, ValModel::Prim(second)) =~= m.insert(
        key,
        ValModel::Prim(second),
    ));
}

/// How many of `keys` are present in `m`, counted one by one.
pub open spec fn present_count(m: Map<Seq<char>, ValModel>, keys: Seq<Seq<char>>) -> int
    decreases keys.len(),
{
    if keys.len() == 0 {
        0
    } else {
        present_count(m, keys.drop_last()) + if m.contains_key(keys.last()) {
            1int
        } else {
            0int
        }
    }
}

/// The count of present keys is bounded by the number of keys.
proof fn lemma_present_count_bounds(m: Map<Seq<char>, ValModel>, keys: Seq<Seq<char>>)
    ensures
        0 <= present_count(m, keys) <= keys.len(),
    decreases keys.len(),
{
    if keys.len() > 0 {
        lemma_present_count_bounds(m, keys.drop_last());
    }
}

/// DEL on pairwise-distinct keys reports exactly the number of them
/// that were present, and every named key becomes absent.
pub proof fn lemma_del_counts(m: Map<Seq<char>, ValModel>, keys: Seq<Seq<char>>)
    requires
        distinct_keys(keys),
        keys.len() <= i64::MAX,
    ensures
        step_out(m, (CmdModel::Del { keys })) == int_out(present_count(m, keys)),
        forall|k: Seq<char>|
            keys.contains(k) ==> !step_store(m, (CmdModel::Del { keys })).contains_key(k),
{
    lemma_del_count_distinct(m, keys);
    lemma_present_count_bounds(m, keys);
    assert(cap(del_count(m, keys)) == present_count(m, keys));
    assert forall|k: Seq<char>| keys.contains(k) implies !step_store(
        m,
        (CmdModel::Del { keys }),
    ).contains_key(k) by {
        lemma_del_map_spec(m, keys, k);
    }
}

/// Whether a key list names no key twice.
pub open spec fn distinct_keys(keys: Seq<Seq<char>>) -> bool {
    forall|i: int, j: int| 0 <= i < j < keys.len() ==> keys[i] != keys[j]
}

/// On distinct keys, the removal count is the presence count.
proof fn lemma_del_count_distinct(m: Map<Seq<char>, ValModel>, keys: Seq<Seq<char>>)
    requires
        distinct_keys(keys),
    ensures
        del_count(m, keys) == present_count(m, keys),
    decreases keys.len(),
{
    if keys.len() > 0 {
        let dl = keys.drop_last();
        assert(distinct_keys(dl)) by {
            assert(forall|i: int, j: int|
                0 <= i < j < dl.len() ==> dl[i] == keys[i] && dl[j] == keys[j]);
        }
        lemma_del_count_distinct(m, dl);
        assert(!dl.contains(keys.last())) by {
            if dl.contains(keys.last()) {
                let i = choose|i: int| 0 <= i < dl.len() && dl[i] == keys.last();
                assert(keys[i] == keys[keys.len() - 1]);
            }
        }
        lemma_del_map_spec(m, dl, keys.last());
    }
}

/// Each LPUSH argument lands at the front: the new list is the
/// arguments reversed, in front of the old list.
pub proof fn lemma_lpush_order(
    m: Map<Seq<char>, ValModel>,
    key: Seq<char>,
    args: Seq<PrimModel>,
)
    requires
        list_ok(m, key),
    ensures
        step_store(m, (CmdModel::LPush { key, args }))[key] == ValModel::List(
            args.reverse() + stored_list(m, key),
        ),
{
}

/// RPUSH appends its arguments in argument order behind the old list.
pub proof fn lemma_rpush_order(
    m: Map<Seq<char>, ValModel>,
    key: Seq<char>,
    args: Seq<PrimModel>,
)
    requires
        list_ok(m, key),
    ensures
        step_store(m, (CmdModel::RPush { key, args }))[key] == ValModel::List(
            stored_list(m, key) + args,
        ),
{
}

/// What SADD builds: the union of the old elements and the arguments,
/// still free of duplicates, and the count is exactly the number of
/// distinct new elements — a duplicate within one call counts once.
pub proof fn lemma_sadd_set(s: Seq<PrimModel>, args: Seq<PrimModel>)
    ensures
        sadd_seq(s, args).to_set() == s.to_set().union(args.to_set()),
        distinct_elems(s) ==> distinct_elems(sadd_seq(s, args)),
        sadd_count(s, args) == sadd_seq(s, args).len() - s.len(),
    decreases args.len(),
{
    if args.len() == 0 {
        assert(sadd_seq(s, args).to_set() =~= s.to_set().union(args.to_set())) by {
            assert(forall|x: PrimModel| !args.contains(x));
        }
    } else {
        let dl = args.drop_last();
        let x = args.last();
        lemma_sadd_set(s, dl);
        let p = sadd_seq(s, dl);
        assert(args.contains(x));
        assert(forall|y: PrimModel| dl.contains(y) ==> args.contains(y)) by {
            assert forall|y: PrimModel| dl.contains(y) implies args.contains(y) by {
                let i = choose|i: int| 0 <= i < dl.len() && dl[i] == y;
                assert(args[i] == y);
            }
        }
        assert(forall|y: PrimModel| args.contains(y) ==> dl.contains(y) || y == x) by {
            assert forall|y: PrimModel| args.contains(y) implies dl.contains(y) || y == x by {
                let i = choose|i: int| 0 <= i < args.len() && args[i] == y;
                if i < args.len() - 1 {
                    assert(dl[i] == y);
                }
            }
        }
        if p.contains(x) {
            assert(sadd_seq(s, args) == p);
            assert(p.to_set().contains(x));
            assert(sadd_seq(s, args).to_set() =~= s.to_set().union(args.to_set()));
        } else {
            assert(sadd_seq(s, args) == p.push(x));
            assert(p.push(x).to_set() =~= p.to_set().insert(x)) by {
                assert forall|y: PrimModel| p.push(x).contains(y) implies p.to_set().insert(
                    x,
                ).contains(y) by {
                    let i = choose|i: int| 0 <= i < p.push(x).len() && p.push(x)[i] == y;
                    if i < p.len() {
                        assert(p[i] == y);
                    }
                }
                assert forall|y: PrimModel| p.to_set().insert(x).contains(y) implies p.push(
                    x,
                ).contains(y) by {
                    if y == x {
                        assert(p.push(x)[p.len() as int] == x);
                    } else {
                        let i = choose|i: int| 0 <= i < p.len() && p[i] == y;
                        assert(p.push(x)[i] == y);
                    }
                }
            }
            assert(sadd_seq(s, args).to_set() =~= s.to_set().union(args.to_set()));
            if distinct_elems(s) {
                assert(distinct_elems(p.push(x))) by {
                    assert(forall|t: int| 0 <= t < p.len() ==> p.push(x)[t] == p[t]);
                    assert(forall|t: int| 0 <= t < p.len() ==> p[t] != x) by {
                        assert forall|t: int| 0 <= t < p.len() implies p[t] != x by {
                            if p[t] == x {
                                assert(p.contains(x));
                            }
                        }
                    }
                }
            }
        }
    }
}

/// Adding arguments that are all already present changes nothing and
/// counts zero.
pub proof fn lemma_sadd_all_present(s: Seq<PrimModel>, args: Seq<PrimModel>)
    requires
        forall|t: int| 0 <= t < args.len() ==> s.contains(#[trigger] args[t]),
    ensures
        sadd_seq(s, args) == s,
        sadd_count(s, args) == 0,
    decreases args.len(),
{
    if args.len() > 0 {
        let dl = args.drop_last();
        assert(forall|t: int| 0 <= t < dl.len() ==> dl[t] == args[t]);
        lemma_sadd_all_present(s, dl);
        assert(s.contains(args.last())) by {
            assert(args[args.len() - 1] == args.last());
        }
    }
}

/// A second SADD of the same arguments returns zero and leaves the set
/// as it was.
pub proof fn lemma_sadd_idempotent(s: Seq<PrimModel>, args: Seq<PrimModel>)
    ensures
        sadd_seq(sadd_seq(s, args), args) == sadd_seq(s, args),
        sadd_count(sadd_seq(s, args), args) == 0,
{
    lemma_sadd_set(s, args);
    let p = sadd_seq(s, args);
    assert(forall|t: int| 0 <= t < args.len() ==> p.contains(#[trigger] args[t])) by {
        assert forall|t: int| 0 <= t < args.len() implies p.contains(#[trigger] args[t]) by {
            assert(args.contains(args[t]));
            assert(args.to_set().contains(args[t]));
            assert(p.to_set().contains(args[t]));
        }
    }
    lemma_sadd_all_present(p, args);
}

/// SISMEMBER on an absent key reports false and does not create the
/// key.
pub proof fn lemma_sismember_absent(
    m: Map<Seq<char>, ValModel>,
    key: Seq<char>,
    arg: PrimModel,
)
    requires
        !m.contains_key(key),
    ensures
        step_out(m, (CmdModel::SIsMember { key, arg })) == int_out(0),
        step_store(m, (CmdModel::SIsMember { key, arg })) == m,
{
}

/// LLEN reports a list's length, a set's cardinality, and zero for an
/// absent key, all without changing the store.
pub proof fn lemma_llen(m: Map<Seq<char>, ValModel>, key: Seq<char>)
    requires
        m.contains_key(key) ==> !(m[key] is Prim),
    ensures
        !m.contains_key(key) ==> step_out(m, (CmdModel::LLen { key })) == int_out(0),
        m.contains_key(key) && m[key] is List ==> step_out(m, (CmdModel::LLen { key }))
            == int_out(cap(stored_list(m, key).len() as int)),
        m.contains_key(key) && m[key] is USet && distinct_elems(stored_set(m, key))
            ==> step_out(m, (CmdModel::LLen { key })) == int_out(
            cap(stored_set(m, key).to_set().len() as int),
        ),
        step_store(m, (CmdModel::LLen { key })) == m,
{
    if m.contains_key(key) && m[key] is USet && distinct_elems(stored_set(m, key)) {
        let s = stored_set(m, key);
        assert(s.no_duplicates());
        s.unique_seq_to_set();
    }
}

/// LLEN right after a push reports the pushed list's new length.
pub proof fn lemma_llen_after_lpush(
    m: Map<Seq<char>, ValModel>,
    key: Seq<char>,
    args: Seq<PrimModel>,
)
    requires
        list_ok(m, key),
    ensures
        step_out(step_store(m, (CmdModel::LPush { key, args })), (CmdModel::LLen { key }))
            == int_out(cap(args.len() + stored_list(m, key).len() as int)),
{
    let m2 = step_store(m, (CmdModel::LPush { key, args }));
    assert(m2[key] == ValModel::List(args.reverse() + stored_list(m, key)));
}

/// Well-formedness of a whole store: every set it holds is free of
/// duplicates.
pub open spec fn store_wf(m: Map<Seq<char>, ValModel>) -> bool {
    forall|k: Seq<char>| m.contains_key(k) ==> value_wf(#[trigger] m[k])
}

/// The set left by SREM keeps only elements of the old set, and stays
/// free of duplicates.
proof fn lemma_remove_first_keeps(s: Seq<PrimModel>, x: PrimModel)
    ensures
        forall|y: PrimModel|
            crate::engine::remove_first(s, x).contains(y) ==> s.contains(y),
        distinct_elems(s) ==> distinct_elems(crate::engine::remove_first(s, x)),
    decreases s.len(),
{
    let r = crate::engine::remove_first(s, x);
    if s.len() == 0 {
    } else if s[0] == x {
        assert forall|y: PrimModel| r.contains(y) implies s.contains(y) by {
            let i = choose|i: int| 0 <= i < r.len() && r[i] == y;
            assert(s[i + 1] == y);
        }
        assert(distinct_elems(s) ==> distinct_elems(r));
    } else {
        lemma_remove_first_keeps(s.skip(1), x);
        let rr = crate::engine::remove_first(s.skip(1), x);
        assert(r == seq![s[0]] + rr);
        assert forall|y: PrimModel| r.contains(y) implies s.contains(y) by {
            let i = choose|i: int| 0 <= i < r.len() && r[i] == y;
            if i == 0 {
                assert(s[0] == y);
            } else {
                assert(rr[i - 1] == y);
                assert(rr.contains(y));
                assert(s.skip(1).contains(y));
                let j = choose|j: int| 0 <= j < s.skip(1).len() && s.skip(1)[j] == y;
                assert(s[j + 1] == y);
            }
        }
        if distinct_elems(s) {
            assert(distinct_elems(s.skip(1)));
            assert(!s.skip(1).contains(s[0])) by {
                if s.skip(1).contains(s[0]) {
                    let j = choose|j: int| 0 <= j < s.skip(1).len() && s.skip(1)[j] == s[0];
                    assert(s[j + 1] == s[0]);
                }
            }
            assert(distinct_elems(r)) by {
                assert(forall|t: int| 0 <= t < rr.len() ==> r[t + 1] == rr[t]);
                assert(forall|t: int| 0 <= t < rr.len() ==> rr[t] != s[0]) by {
                    assert forall|t: int| 0 <= t < rr.len() implies rr[t] != s[0] by {
                        if rr[t] == s[0] {
                            assert(rr.contains(s[0]));
                            assert(s.skip(1).contains(s[0]));
                        }
                    }
                }
            }
        }
    }
}

/// SREM never introduces a duplicate.
proof fn lemma_srem_distinct(s: Seq<PrimModel>, args: Seq<PrimModel>)
    requires
        distinct_elems(s),
    ensures
        distinct_elems(srem_seq(s, args)),
    decreases args.len(),
{
    if args.len() > 0 {
        lemma_srem_distinct(s, args.drop_last());
        lemma_remove_first_keeps(srem_seq(s, args.drop_last()), args.last());
    }
}

/// Every command preserves store well-formedness: no set in the store
/// ever acquires a duplicate element.
pub proof fn lemma_step_preserves_wf(m: Map<Seq<char>, ValModel>, c: CmdModel)
    requires
        store_wf(m),
    ensures
        store_wf(step_store(m, c)),
{
    let m2 = step_store(m, c);
    match c {
        CmdModel::Del { keys } => {
            assert forall|k: Seq<char>| m2.contains_key(k) implies value_wf(m2[k]) by {
                lemma_del_map_spec(m, keys, k);
            }
        },
        CmdModel::SAdd { key, args } => {
            if set_ok(m, key) {
                lemma_sadd_set(stored_set(m, key), args);
            }
        },
        CmdModel::SRem { key, args } => {
            if m.contains_key(key) && m[key] is USet {
                lemma_srem_distinct(stored_set(m, key), args);
            }
        },
        _ => {},
    }
}

} // verus!
