//! The command-execution engine.
//!
//! One call of [`execute`] consumes one parsed command, dispatches on
//! its kind, reads or mutates the [`Store`], and yields an optional
//! result value, or a [`TypeMismatch`] when a collection command meets
//! a key holding a value of another kind.  The whole effect is pinned
//! by two spec functions: [`step_store`] gives the store after the
//! command, [`step_out`] gives its result.

use crate::models::{
    keys_model, kind_of, lemma_seq_model_cons, lemma_seq_model_push, lemma_seq_model_remove,
    lemma_seq_model_subrange, prim_dup, prim_eq, seq_model, value_kind, vec_contains_prim,
    Container, Kind, PrimModel, Primitive, ValModel, Value,
};
use crate::store::Store;
use std::collections::VecDeque;
use vstd::prelude::*;

verus! {

/// A parsed command, ready for execution.
///
/// Keys name store entries; `args` carry the typed literal arguments in
/// the order they were written.  A pop's `count` is optional and
/// defaults to one.
pub enum Command {
    Get { key: String },
    /// The SET command.
    Put { key: String, arg: Primitive },
    Del { keys: Vec<String> },
    LPush { key: String, args: Vec<Primitive> },
    RPush { key: String, args: Vec<Primitive> },
    LPop { key: String, count: Option<i64> },
    RPop { key: String, count: Option<i64> },
    LLen { key: String },
    SAdd { key: String, args: Vec<Primitive> },
    SRem { key: String, args: Vec<Primitive> },
    SIsMember { key: String, arg: Primitive },
    Clear,
    Eoi,
}

/// The mathematical view of a [`Command`]; a pop's count is resolved to
/// its default here.
pub enum CmdModel {
    Get { key: Seq<char> },
    Put { key: Seq<char>, arg: PrimModel },
    Del { keys: Seq<Seq<char>> },
    LPush { key: Seq<char>, args: Seq<PrimModel> },
    RPush { key: Seq<char>, args: Seq<PrimModel> },
    LPop { key: Seq<char>, count: int },
    RPop { key: Seq<char>, count: int },
    LLen { key: Seq<char> },
    SAdd { key: Seq<char>, args: Seq<PrimModel> },
    SRem { key: Seq<char>, args: Seq<PrimModel> },
    SIsMember { key: Seq<char>, arg: PrimModel },
    Clear,
    Eoi,
}

impl View for Command {
    type V = CmdModel;

    open spec fn view(&self) -> CmdModel {
        match self {
            Command::Get { key } => CmdModel::Get { key: key@ },
            Command::Put { key, arg } => CmdModel::Put { key: key@, arg: arg@ },
            Command::Del { keys } => CmdModel::Del { keys: keys_model(keys@) },
            Command::LPush { key, args } => CmdModel::LPush {
                key: key@,
                args: seq_model(args@),
            },
            Command::RPush { key, args } => CmdModel::RPush {
                key: key@,
                args: seq_model(args@),
            },
            Command::LPop { key, count } => CmdModel::LPop {
                key: key@,
                count: match count {
                    Some(c) => *c as int,
                    None => 1,
                },
            },
            Command::RPop { key, count } => CmdModel::RPop {
                key: key@,
                count: match count {
                    Some(c) => *c as int,
                    None => 1,
                },
            },
            Command::LLen { key } => CmdModel::LLen { key: key@ },
            Command::SAdd { key, args } => CmdModel::SAdd {
                key: key@,
                args: seq_model(args@),
            },
            Command::SRem { key, args } => CmdModel::SRem {
                key: key@,
                args: seq_model(args@),
            },
            Command::SIsMember { key, arg } => CmdModel::SIsMember {
                key: key@,
                arg: arg@,
            },
            Command::Clear => CmdModel::Clear,
            Command::Eoi => CmdModel::Eoi,
        }
    }
}

/// A collection command met a key holding a value of another kind.
///
/// The store is left untouched; the caller decides whether to go on.
#[derive(Debug, Clone, PartialEq, Eq)]
pub struct TypeMismatch {
    pub key: String,
    pub expected: Kind,
    pub actual: Kind,
}

/// The mathematical view of a [`TypeMismatch`].
pub struct MismatchModel {
    pub key: Seq<char>,
    pub expected: Kind,
    pub actual: Kind,
}

impl View for TypeMismatch {
    type V = MismatchModel;

    open spec fn view(&self) -> MismatchModel {
        MismatchModel { key: self.key@, expected: self.expected, actual: self.actual }
    }
}

/// Caps a count at the largest representable result.
///
/// Counts and lengths are reported as `Int`; a value beyond `i64::MAX`
/// (unreachable in practice, but not ruled out by the types) is capped
/// rather than demanded away from every caller.
pub open spec fn cap(n: int) -> int {
    if n > i64::MAX {
        i64::MAX as int
    } else {
        n
    }
}

/// How many elements a pop of `count` takes from a list of `len`:
/// clamped to what is available, and to zero for a negative request.
pub open spec fn pop_n(count: int, len: int) -> int {
    if count < 0 {
        0
    } else if count > len {
        len
    } else {
        count
    }
}

/// The store after removing each of `keys` in order.
pub open spec fn del_map(m: Map<Seq<char>, ValModel>, keys: Seq<Seq<char>>) -> Map<
    Seq<char>,
    ValModel,
>
    decreases keys.len(),
{
    if keys.len() == 0 {
        m
    } else {
        del_map(m, keys.drop_last()).remove(keys.last())
    }
}

/// How many of `keys`, taken in order, were present when removed.
pub open spec fn del_count(m: Map<Seq<char>, ValModel>, keys: Seq<Seq<char>>) -> int
    decreases keys.len(),
{
    if keys.len() == 0 {
        0
    } else {
        del_count(m, keys.drop_last()) + if del_map(m, keys.drop_last()).contains_key(
            keys.last(),
        ) {
            1int
        } else {
            0int
        }
    }
}

/// Whether `k` can be treated as a list: absent, or holding one.
pub open spec fn list_ok(m: Map<Seq<char>, ValModel>, k: Seq<char>) -> bool {
    !m.contains_key(k) || m[k] is List
}

/// The list stored under `k`; empty when `k` is absent.
pub open spec fn stored_list(m: Map<Seq<char>, ValModel>, k: Seq<char>) -> Seq<PrimModel> {
    if m.contains_key(k) {
        match m[k] {
            ValModel::List(l) => l,
            _ => Seq::empty(),
        }
    } else {
        Seq::empty()
    }
}

/// Whether `k` can be treated as a set: absent, or holding one.
pub open spec fn set_ok(m: Map<Seq<char>, ValModel>, k: Seq<char>) -> bool {
    !m.contains_key(k) || m[k] is USet
}

/// The set stored under `k`; empty when `k` is absent.
pub open spec fn stored_set(m: Map<Seq<char>, ValModel>, k: Seq<char>) -> Seq<PrimModel> {
    if m.contains_key(k) {
        match m[k] {
            ValModel::USet(s) => s,
            _ => Seq::empty(),
        }
    } else {
        Seq::empty()
    }
}

/// The set after inserting each of `args` in order; an element already
/// present, also by an earlier argument of the same call, is not added
/// again.
pub open spec fn sadd_seq(s: Seq<PrimModel>, args: Seq<PrimModel>) -> Seq<PrimModel>
    decreases args.len(),
{
    if args.len() == 0 {
        s
    } else {
        let p = sadd_seq(s, args.drop_last());
        if p.contains(args.last()) {
            p
        } else {
            p.push(args.last())
        }
    }
}

/// How many of `args` were newly inserted.
pub open spec fn sadd_count(s: Seq<PrimModel>, args: Seq<PrimModel>) -> int
    decreases args.len(),
{
    if args.len() == 0 {
        0
    } else {
        sadd_count(s, args.drop_last()) + if sadd_seq(s, args.drop_last()).contains(
            args.last(),
        ) {
            0int
        } else {
            1int
        }
    }
}

/// The sequence with the first occurrence of `x` taken out.
pub open spec fn remove_first(s: Seq<PrimModel>, x: PrimModel) -> Seq<PrimModel>
    decreases s.len(),
{
    if s.len() == 0 {
        s
    } else if s[0] == x {
        s.skip(1)
    } else {
        seq![s[0]] + remove_first(s.skip(1), x)
    }
}

/// The set after removing each of `args` in order.
pub open spec fn srem_seq(s: Seq<PrimModel>, args: Seq<PrimModel>) -> Seq<PrimModel>
    decreases args.len(),
{
    if args.len() == 0 {
        s
    } else {
        remove_first(srem_seq(s, args.drop_last()), args.last())
    }
}

/// How many of `args` were present and removed.
pub open spec fn srem_count(s: Seq<PrimModel>, args: Seq<PrimModel>) -> int
    decreases args.len(),
{
    if args.len() == 0 {
        0
    } else {
        srem_count(s, args.drop_last()) + if srem_seq(s, args.drop_last()).contains(
            args.last(),
        ) {
            1int
        } else {
            0int
        }
    }
}

/// The store after one command.
pub open spec fn step_store(m: Map<Seq<char>, ValModel>, c: CmdModel) -> Map<
    Seq<char>,
    ValModel,
> {
    match c {
        CmdModel::Get { .. } => m,
        CmdModel::Put { key, arg } => m.insert(key, ValModel::Prim(arg)),
        CmdModel::Del { keys } => del_map(m, keys),
        CmdModel::LPush { key, args } => if list_ok(m, key) {
            m.insert(key, ValModel::List(args.reverse() + stored_list(m, key)))
        } else {
            m
        },
        CmdModel::RPush { key, args } => if list_ok(m, key) {
            m.insert(key, ValModel::List(stored_list(m, key) + args))
        } else {
            m
        },
        CmdModel::LPop { key, count } => if !m.contains_key(key) {
            m
        } else if m[key] is List {
            let l = stored_list(m, key);
            m.insert(key, ValModel::List(l.skip(pop_n(count, l.len() as int))))
        } else {
            m
        },
        CmdModel::RPop { key, count } => if !m.contains_key(key) {
            m
        } else if m[key] is List {
            let l = stored_list(m, key);
            m.insert(key, ValModel::List(l.take(l.len() - pop_n(count, l.len() as int))))
        } else {
            m
        },
        CmdModel::LLen { .. } => m,
        CmdModel::SAdd { key, args } => if set_ok(m, key) {
            m.insert(key, ValModel::USet(sadd_seq(stored_set(m, key), args)))
        } else {
            m
        },
        CmdModel::SRem { key, args } => if !m.contains_key(key) {
            m
        } else if m[key] is USet {
            m.insert(key, ValModel::USet(srem_seq(stored_set(m, key), args)))
        } else {
            m
        },
        CmdModel::SIsMember { .. } => m,
        CmdModel::Clear => m,
        CmdModel::Eoi => m,
    }
}

/// A mismatch report at the model level.
pub open spec fn mismatch(key: Seq<char>, expected: Kind, actual: Kind) -> Result<
    Option<ValModel>,
    MismatchModel,
> {
    Err(MismatchModel { key, expected, actual })
}

/// The `Int` result carrying `n`.
pub open spec fn int_out(n: int) -> Result<Option<ValModel>, MismatchModel> {
    Ok(Some(ValModel::Prim(PrimModel::Int(n))))
}

/// The result of one command.
pub open spec fn step_out(m: Map<Seq<char>, ValModel>, c: CmdModel) -> Result<
    Option<ValModel>,
    MismatchModel,
> {
    match c {
        CmdModel::Get { key } => Ok(
            Some(
                if m.contains_key(key) {
                    m[key]
                } else {
                    ValModel::Prim(PrimModel::Nil)
                },
            ),
        ),
        CmdModel::Put { .. } => Ok(Some(ValModel::Prim(PrimModel::Okay))),
        CmdModel::Del { keys } => int_out(cap(del_count(m, keys))),
        CmdModel::LPush { key, args } => if list_ok(m, key) {
            int_out(cap(args.len() + stored_list(m, key).len() as int))
        } else {
            mismatch(key, Kind::List, kind_of(m[key]))
        },
        CmdModel::RPush { key, args } => if list_ok(m, key) {
            int_out(cap(args.len() + stored_list(m, key).len() as int))
        } else {
            mismatch(key, Kind::List, kind_of(m[key]))
        },
        CmdModel::LPop { key, count } => if !m.contains_key(key) {
            int_out(0)
        } else if m[key] is List {
            int_out(pop_n(count, stored_list(m, key).len() as int))
        } else {
            mismatch(key, Kind::List, kind_of(m[key]))
        },
        CmdModel::RPop { key, count } => if !m.contains_key(key) {
            int_out(0)
        } else if m[key] is List {
            int_out(pop_n(count, stored_list(m, key).len() as int))
        } else {
            mismatch(key, Kind::List, kind_of(m[key]))
        },
        CmdModel::LLen { key } => if !m.contains_key(key) {
            int_out(0)
        } else {
            match m[key] {
                ValModel::List(l) => int_out(cap(l.len() as int)),
                ValModel::USet(s) => int_out(cap(s.len() as int)),
                ValModel::Prim(_) => mismatch(key, Kind::List, Kind::Scalar),
            }
        },
        CmdModel::SAdd { key, args } => if set_ok(m, key) {
            int_out(cap(sadd_count(stored_set(m, key), args)))
        } else {
            mismatch(key, Kind::UnorderedSet, kind_of(m[key]))
        },
        CmdModel::SRem { key, args } => if !m.contains_key(key) {
            int_out(0)
        } else if m[key] is USet {
            int_out(cap(srem_count(stored_set(m, key), args)))
        } else {
            mismatch(key, Kind::UnorderedSet, kind_of(m[key]))
        },
        CmdModel::SIsMember { key, arg } => if !m.contains_key(key) {
            int_out(0)
        } else {
            match m[key] {
                ValModel::USet(s) => int_out(
                    if s.contains(arg) {
                        1
                    } else {
                        0
                    },
                ),
                v => mismatch(key, Kind::UnorderedSet, kind_of(v)),
            }
        },
        CmdModel::Clear => Ok(None),
        CmdModel::Eoi => Ok(None),
    }
}

/// The model of an execution result.
pub open spec fn out_model(r: Result<Option<Value>, TypeMismatch>) -> Result<
    Option<ValModel>,
    MismatchModel,
> {
    match r {
        Ok(Some(v)) => Ok(Some(v@)),
        Ok(None) => Ok(None),
        Err(e) => Err(e@),
    }
}


/// A prefix one longer splits into the shorter prefix and one element.
proof fn lemma_take_succ<A>(s: Seq<A>, i: int)
    requires
        0 <= i < s.len(),
    ensures
        s.take(i + 1).drop_last() == s.take(i),
        s.take(i + 1).last() == s[i],
{
    assert(s.take(i + 1).drop_last() =~= s.take(i));
}

/// Taking the first occurrence of `x` out at its index `j` is
/// [`remove_first`].
proof fn lemma_remove_first_at(s: Seq<PrimModel>, x: PrimModel, j: int)
    requires
        0 <= j < s.len(),
        s[j] == x,
        forall|t: int| 0 <= t < j ==> s[t] != x,
    ensures
        remove_first(s, x) == s.remove(j),
    decreases j,
{
    if j == 0 {
        assert(remove_first(s, x) == s.skip(1));
        assert(s.remove(0) =~= s.skip(1));
    } else {
        lemma_remove_first_at(s.skip(1), x, j - 1);
        assert(remove_first(s, x) == seq![s[0]] + s.skip(1).remove(j - 1));
        assert(seq![s[0]] + s.skip(1).remove(j - 1) =~= s.remove(j));
    }
}

/// [`remove_first`] of an absent element changes nothing.
proof fn lemma_remove_first_absent(s: Seq<PrimModel>, x: PrimModel)
    requires
        !s.contains(x),
    ensures
        remove_first(s, x) == s,
    decreases s.len(),
{
    if s.len() > 0 {
        assert(s[0] != x);
        assert(!s.skip(1).contains(x)) by {
            if s.skip(1).contains(x) {
                let t = choose|t: int| 0 <= t < s.skip(1).len() && s.skip(1)[t] == x;
                assert(s[t + 1] == x);
            }
        }
        lemma_remove_first_absent(s.skip(1), x);
        assert(seq![s[0]] + s.skip(1) =~= s);
    }
}

/// Caps a length for reporting as an `Int`.
fn cap_len(n: usize) -> (r: i64)
    ensures
        r as int == cap(n as int),
{
    if n as u64 > i64::MAX as u64 {
        i64::MAX
    } else {
        n as i64
    }
}

/// Caps a count for reporting as an `Int`.
fn cap_u64(n: u64) -> (r: i64)
    ensures
        r as int == cap(n as int),
{
    if n > i64::MAX as u64 {
        i64::MAX
    } else {
        n as i64
    }
}

/// Removes the first occurrence of `x` from `s`, reporting whether one
/// was there.
fn set_remove_prim(s: &mut Vec<Primitive>, x: &Primitive) -> (r: bool)
    ensures
        r == seq_model(old(s)@).contains(x@),
        seq_model(final(s)@) == remove_first(seq_model(old(s)@), x@),
{
    let ghost s0 = seq_model(s@);
    let mut j: usize = 0;
    while j < s.len()
        invariant
            j <= s@.len(),
            s0 == seq_model(old(s)@),
            seq_model(s@) == s0,
            forall|t: int| 0 <= t < j ==> s0[t] != x@,
        decreases s@.len() - j,
    {
        if prim_eq(&s[j], x) {
            assert(s0[j as int] == x@);
            assert(s0.contains(x@));
            let ghost spre = s@;
            s.remove(j);
            proof {
                lemma_seq_model_remove(spre, j as int);
                lemma_remove_first_at(s0, x@, j as int);
            }
            return true;
        }
        j = j + 1;
    }
    proof {
        assert(!s0.contains(x@)) by {
            if s0.contains(x@) {
                let t = choose|t: int| 0 <= t < s0.len() && s0[t] == x@;
            }
        }
        lemma_remove_first_absent(s0, x@);
    }
    false
}

/// Executes the DEL command: removes each key, counting the ones that
/// were present.
fn exec_del(store: &mut Store, keys: Vec<String>) -> (r: Result<Option<Value>, TypeMismatch>)
    ensures
        final(store)@ == step_store(old(store)@, (CmdModel::Del { keys: keys_model(keys@) })),
        out_model(r) == step_out(old(store)@, (CmdModel::Del { keys: keys_model(keys@) })),
{
    let ghost m0 = store@;
    let ghost km = keys_model(keys@);
    let mut cnt: u64 = 0;
    let mut i: usize = 0;
    while i < keys.len()
        invariant
            i <= keys@.len(),
            cnt <= i,
            km == keys_model(keys@),
            store@ == del_map(m0, km.take(i as int)),
            cnt as int == del_count(m0, km.take(i as int)),
        decreases keys@.len() - i,
    {
        proof {
            lemma_take_succ(km, i as int);
            assert(km[i as int] == keys@[i as int]@);
        }
        let removed = store.remove(&keys[i]);
        if removed {
            cnt = cnt + 1;
        }
        i = i + 1;
        assert(store@ == del_map(m0, km.take(i as int)));
        assert(cnt as int == del_count(m0, km.take(i as int)));
    }
    proof {
        assert(km.take(keys@.len() as int) =~= km);
    }
    Ok(Some(Value::Primitive(Primitive::Int(cap_u64(cnt)))))
}

/// Executes LPUSH or RPUSH; `front` picks the end pushed to.
fn exec_push(store: &mut Store, key: String, args: Vec<Primitive>, front: bool) -> (r: Result<
    Option<Value>,
    TypeMismatch,
>)
    ensures
        front ==> final(store)@ == step_store(
            old(store)@,
            (CmdModel::LPush { key: key@, args: seq_model(args@) }),
        ) && out_model(r) == step_out(
            old(store)@,
            (CmdModel::LPush { key: key@, args: seq_model(args@) }),
        ),
        !front ==> final(store)@ == step_store(
            old(store)@,
            (CmdModel::RPush { key: key@, args: seq_model(args@) }),
        ) && out_model(r) == step_out(
            old(store)@,
            (CmdModel::RPush { key: key@, args: seq_model(args@) }),
        ),
{
    let ghost m0 = store@;
    let ghost am = seq_model(args@);
    let cur = store.get(&key);
    let mut l: VecDeque<Primitive>;
    match cur {
        None => {
            l = VecDeque::new();
        },
        Some(Value::Container(Container::List(l2))) => {
            l = l2;
        },
        Some(v) => {
            return Err(TypeMismatch { key, expected: Kind::List, actual: value_kind(&v) });
        },
    }
    let ghost l0 = seq_model(l@);
    assert(l0 == stored_list(m0, key@));
    let mut i: usize = 0;
    while i < args.len()
        invariant
            i <= args@.len(),
            am == seq_model(args@),
            l0 == stored_list(m0, key@),
            front ==> seq_model(l@) == am.take(i as int).reverse() + l0,
            !front ==> seq_model(l@) == l0 + am.take(i as int),
        decreases args@.len() - i,
    {
        let p = prim_dup(&args[i]);
        proof {
            assert(am[i as int] == args@[i as int]@);
        }
        let ghost lpre = l@;
        if front {
            l.push_front(p);
            proof {
                lemma_seq_model_cons(p, lpre);
                assert(seq![p@] + (am.take(i as int).reverse() + l0) =~= (seq![p@] + am.take(
                    i as int,
                ).reverse()) + l0);
                assert(am.take(i + 1).reverse() =~= seq![am[i as int]] + am.take(
                    i as int,
                ).reverse());
            }
        } else {
            l.push_back(p);
            proof {
                lemma_seq_model_push(lpre, p);
                assert(l0 + am.take(i + 1) =~= (l0 + am.take(i as int)).push(am[i as int]));
            }
        }
        i = i + 1;
    }
    proof {
        assert(am.take(args@.len() as int) =~= am);
    }
    let n = l.len();
    store.set(key, Value::Container(Container::List(l)));
    Ok(Some(Value::Primitive(Primitive::Int(cap_len(n)))))
}

/// Executes LPOP or RPOP; `front` picks the end popped from.
///
/// A pop is clamped to what is available: it removes at most the list's
/// length, nothing for a negative count, and reports the number
/// actually removed.  An absent key holds nothing, so it loses nothing
/// and reports zero, without being created.
fn exec_pop(store: &mut Store, key: String, count: Option<i64>, front: bool) -> (r: Result<
    Option<Value>,
    TypeMismatch,
>)
    ensures
        front ==> final(store)@ == step_store(
            old(store)@,
            (CmdModel::LPop { key: key@, count: pop_arg(count) }),
        ) && out_model(r) == step_out(
            old(store)@,
            (CmdModel::LPop { key: key@, count: pop_arg(count) }),
        ),
        !front ==> final(store)@ == step_store(
            old(store)@,
            (CmdModel::RPop { key: key@, count: pop_arg(count) }),
        ) && out_model(r) == step_out(
            old(store)@,
            (CmdModel::RPop { key: key@, count: pop_arg(count) }),
        ),
{
    let ghost m0 = store@;
    let pc: i64 = match count {
        Some(c) => c,
        None => 1,
    };
    match store.get(&key) {
        None => Ok(Some(Value::Primitive(Primitive::Int(0)))),
        Some(Value::Container(Container::List(mut l))) => {
            let ghost l0 = seq_model(l@);
            let len = l.len();
            let n: usize = if pc <= 0 {
                0
            } else if pc as u64 >= len as u64 {
                len
            } else {
                pc as usize
            };
            assert(n as int == pop_n(pc as int, l0.len() as int));
            let mut j: usize = 0;
            while j < n
                invariant
                    j <= n,
                    n <= l0.len(),
                    l0 == stored_list(m0, key@),
                    front ==> seq_model(l@) == l0.skip(j as int),
                    !front ==> seq_model(l@) == l0.take(l0.len() - j),
                decreases n - j,
            {
                let ghost lpre = l@;
                if front {
                    l.pop_front();
                    proof {
                        lemma_seq_model_subrange(lpre, 1, lpre.len() as int);
                        assert(l0.skip(j as int).subrange(1, l0.skip(j as int).len() as int)
                            =~= l0.skip(j + 1));
                    }
                } else {
                    l.pop_back();
                    proof {
                        lemma_seq_model_subrange(lpre, 0, lpre.len() - 1);
                        assert(l0.take(l0.len() - j).subrange(0, l0.len() - j - 1) =~= l0.take(
                            l0.len() - (j + 1),
                        ));
                    }
                }
                j = j + 1;
            }
            store.set(key, Value::Container(Container::List(l)));
            Ok(Some(Value::Primitive(Primitive::Int(n as i64))))
        },
        Some(v) => Err(TypeMismatch { key, expected: Kind::List, actual: value_kind(&v) }),
    }
}

/// The pop count a command carries, with its default of one.
pub open spec fn pop_arg(count: Option<i64>) -> int {
    match count {
        Some(c) => c as int,
        None => 1,
    }
}

/// Executes the SADD command: inserts each argument not yet present,
/// counting the newly inserted ones.
fn exec_sadd(store: &mut Store, key: String, args: Vec<Primitive>) -> (r: Result<
    Option<Value>,
    TypeMismatch,
>)
    ensures
        final(store)@ == step_store(
            old(store)@,
            (CmdModel::SAdd { key: key@, args: seq_model(args@) }),
        ),
        out_model(r) == step_out(
            old(store)@,
            (CmdModel::SAdd { key: key@, args: seq_model(args@) }),
        ),
{
    let ghost m0 = store@;
    let ghost am = seq_model(args@);
    let cur = store.get(&key);
    let mut s: Vec<Primitive>;
    match cur {
        None => {
            s = Vec::new();
        },
        Some(Value::Container(Container::UnorderedSet(s2))) => {
            s = s2;
        },
        Some(v) => {
            return Err(
                TypeMismatch { key, expected: Kind::UnorderedSet, actual: value_kind(&v) },
            );
        },
    }
    let ghost s0 = seq_model(s@);
    assert(s0 == stored_set(m0, key@));
    let mut cnt: u64 = 0;
    let mut i: usize = 0;
    while i < args.len()
        invariant
            i <= args@.len(),
            cnt <= i,
            am == seq_model(args@),
            s0 == stored_set(m0, key@),
            seq_model(s@) == sadd_seq(s0, am.take(i as int)),
            cnt as int == sadd_count(s0, am.take(i as int)),
        decreases args@.len() - i,
    {
        proof {
            lemma_take_succ(am, i as int);
            assert(am[i as int] == args@[i as int]@);
        }
        let present = vec_contains_prim(&s, &args[i]);
        if !present {
            let ghost spre = s@;
            s.push(prim_dup(&args[i]));
            cnt = cnt + 1;
            proof {
                lemma_seq_model_push(spre, s@.last());
            }
        }
        i = i + 1;
        assert(seq_model(s@) == sadd_seq(s0, am.take(i as int)));
        assert(cnt as int == sadd_count(s0, am.take(i as int)));
    }
    proof {
        assert(am.take(args@.len() as int) =~= am);
    }
    let n = cap_u64(cnt);
    store.set(key, Value::Container(Container::UnorderedSet(s)));
    Ok(Some(Value::Primitive(Primitive::Int(n))))
}

/// Executes the SREM command: removes each argument that is present,
/// counting the removed ones.  An absent key is left absent and the
/// report is zero.
fn exec_srem(store: &mut Store, key: String, args: Vec<Primitive>) -> (r: Result<
    Option<Value>,
    TypeMismatch,
>)
    ensures
        final(store)@ == step_store(
            old(store)@,
            (CmdModel::SRem { key: key@, args: seq_model(args@) }),
        ),
        out_model(r) == step_out(
            old(store)@,
            (CmdModel::SRem { key: key@, args: seq_model(args@) }),
        ),
{
    let ghost m0 = store@;
    let ghost am = seq_model(args@);
    match store.get(&key) {
        None => Ok(Some(Value::Primitive(Primitive::Int(0)))),
        Some(Value::Container(Container::UnorderedSet(mut s))) => {
            let ghost s0 = seq_model(s@);
            assert(s0 == stored_set(m0, key@));
            let mut cnt: u64 = 0;
            let mut i: usize = 0;
            while i < args.len()
                invariant
                    i <= args@.len(),
                    cnt <= i,
                    am == seq_model(args@),
                    s0 == stored_set(m0, key@),
                    seq_model(s@) == srem_seq(s0, am.take(i as int)),
                    cnt as int == srem_count(s0, am.take(i as int)),
                decreases args@.len() - i,
            {
                proof {
                    lemma_take_succ(am, i as int);
                    assert(am[i as int] == args@[i as int]@);
                }
                let removed = set_remove_prim(&mut s, &args[i]);
                if removed {
                    cnt = cnt + 1;
                }
                i = i + 1;
                assert(seq_model(s@) == srem_seq(s0, am.take(i as int)));
                assert(cnt as int == srem_count(s0, am.take(i as int)));
            }
            proof {
                assert(am.take(args@.len() as int) =~= am);
            }
            let n = cap_u64(cnt);
            store.set(key, Value::Container(Container::UnorderedSet(s)));
            Ok(Some(Value::Primitive(Primitive::Int(n))))
        },
        Some(v) => Err(
            TypeMismatch { key, expected: Kind::UnorderedSet, actual: value_kind(&v) },
        ),
    }
}

/// Executes one command against the store.
///
/// The store afterwards is exactly [`step_store`] of the store before,
/// and the result is exactly [`step_out`]: every read, write, count and
/// error of every command is pinned by those two spec functions.
pub fn execute(store: &mut Store, cmd: Command) -> (r: Result<Option<Value>, TypeMismatch>)
    ensures
        final(store)@ == step_store(old(store)@, cmd@),
        out_model(r) == step_out(old(store)@, cmd@),
{
    match cmd {
        Command::Get { key } => {
            match store.get(&key) {
                Some(v) => Ok(Some(v)),
                None => Ok(Some(Value::Primitive(Primitive::Nil))),
            }
        },
        Command::Put { key, arg } => {
            store.set(key, Value::Primitive(arg));
            Ok(Some(Value::Primitive(Primitive::Okay)))
        },
        Command::Del { keys } => exec_del(store, keys),
        Command::LPush { key, args } => exec_push(store, key, args, true),
        Command::RPush { key, args } => exec_push(store, key, args, false),
        Command::LPop { key, count } => exec_pop(store, key, count, true),
        Command::RPop { key, count } => exec_pop(store, key, count, false),
        Command::LLen { key } => {
            match store.get(&key) {
                None => Ok(Some(Value::Primitive(Primitive::Int(0)))),
                Some(Value::Container(Container::List(l))) => Ok(
                    Some(Value::Primitive(Primitive::Int(cap_len(l.len())))),
                ),
                Some(Value::Container(Container::UnorderedSet(s))) => Ok(
                    Some(Value::Primitive(Primitive::Int(cap_len(s.len())))),
                ),
                Some(Value::Primitive(_)) => Err(
                    TypeMismatch { key, expected: Kind::List, actual: Kind::Scalar },
                ),
            }
        },
        Command::SAdd { key, args } => exec_sadd(store, key, args),
        Command::SRem { key, args } => exec_srem(store, key, args),
        Command::SIsMember { key, arg } => {
            match store.get(&key) {
                None => Ok(Some(Value::Primitive(Primitive::Int(0)))),
                Some(Value::Container(Container::UnorderedSet(s))) => {
                    let present = vec_contains_prim(&s, &arg);
                    Ok(
                        Some(
                            Value::Primitive(
                                Primitive::Int(
                                    if present {
                                        1
                                    } else {
                                        0
                                    },
                                ),
                            ),
                        ),
                    )
                },
                Some(v) => Err(
                    TypeMismatch { key, expected: Kind::UnorderedSet, actual: value_kind(&v) },
                ),
            }
        },
        Command::Clear => Ok(None),
        Command::Eoi => Ok(None),
    }
}

} // verus!
