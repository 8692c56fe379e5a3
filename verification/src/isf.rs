//! Internal representation of a profile: assembling it from the type graph
//! and checking that it defines the types that it refers to.

use crate::btf;
use crate::btf::Btf;
use crate::btf::Category;
use crate::btf::Entry;
use crate::btf::Id;
use crate::btf::TypeEx;
use crate::btf::Typedefs;
use crate::names::NameIndex;
use crate::names::NameMap;
use crate::names::Named;
use crate::v_types;
use crate::v_types::Base;
use crate::v_types::Descr;
use crate::v_types::Enum;
use crate::v_types::TypeError;
use crate::metadata::built_from;
use crate::metadata::Metadata;
use crate::names::as_map;
use crate::names::ascending;
use crate::names::lemma_position;
use crate::v_symbols::symbol_descr;
use crate::v_symbols::symbol_of;
use crate::GenerationContext;
use crate::v_symbols::Symbol;
use crate::v_types::TypeDescr;
use crate::v_types::User;
use crate::v_types::UserKind;
use vstd::prelude::*;
use vstd::string::*;

verus! {

/// The names under which the node at position `n` of `ids` is entered.
pub open spec fn names_at(g: Seq<Entry>, aliases: bool, ids: Seq<Id>, n: int) -> Seq<Seq<char>> {
    btf::names_for(g, ids[n].0 as int, aliases)
}

/// The position in `ids`, among the first `n`, of the node whose entry
/// stands under the name `k`: the last one that has this name.
pub open spec fn owner(g: Seq<Entry>, aliases: bool, ids: Seq<Id>, n: int, k: Seq<char>) -> Option<
    int,
>
    decreases n,
{
    if n <= 0 {
        None
    } else if names_at(g, aliases, ids, n - 1).contains(k) {
        Some(n - 1)
    } else {
        owner(g, aliases, ids, n - 1, k)
    }
}

/// The owner of the name `k` once the first `n` nodes and the first `x`
/// names of the next one are entered.
pub open spec fn owner_upto(
    g: Seq<Entry>,
    aliases: bool,
    ids: Seq<Id>,
    n: int,
    x: int,
    k: Seq<char>,
) -> Option<int> {
    if names_at(g, aliases, ids, n).take(x).contains(k) {
        Some(n)
    } else {
        owner(g, aliases, ids, n, k)
    }
}

proof fn lemma_owner_start(g: Seq<Entry>, aliases: bool, ids: Seq<Id>, n: int, k: Seq<char>)
    ensures
        owner_upto(g, aliases, ids, n, 0, k) == owner(g, aliases, ids, n, k),
{
}

proof fn lemma_owner_step(
    g: Seq<Entry>,
    aliases: bool,
    ids: Seq<Id>,
    n: int,
    x: int,
    k: Seq<char>,
)
    requires
        0 <= x < names_at(g, aliases, ids, n).len(),
    ensures
        owner_upto(g, aliases, ids, n, x + 1, k) == (if names_at(g, aliases, ids, n)[x] == k {
            Some(n)
        } else {
            owner_upto(g, aliases, ids, n, x, k)
        }),
{
    let names = names_at(g, aliases, ids, n);
    let shorter = names.take(x);
    let longer = names.take(x + 1);
    if shorter.contains(k) {
        let i = choose|i: int| 0 <= i < shorter.len() && shorter[i] == k;
        assert(longer[i] == k);
    }
    if names[x] == k {
        assert(longer[x] == k);
    }
    if longer.contains(k) {
        let i = choose|i: int| 0 <= i < longer.len() && longer[i] == k;
        if i < x {
            assert(shorter[i] == k);
        }
    }
}

proof fn lemma_owner_end(g: Seq<Entry>, aliases: bool, ids: Seq<Id>, n: int, k: Seq<char>)
    requires
        0 <= n,
    ensures
        owner_upto(g, aliases, ids, n, names_at(g, aliases, ids, n).len() as int, k) == owner(
            g,
            aliases,
            ids,
            n + 1,
            k,
        ),
{
    let names = names_at(g, aliases, ids, n);
    assert(names.take(names.len() as int) =~= names);
}

/// The owner of a name is a position below `n` whose node has the name, and
/// no later position below `n` has it: of several nodes of one name the last
/// one owns the name.
pub proof fn lemma_owner_is_last(
    g: Seq<Entry>,
    aliases: bool,
    ids: Seq<Id>,
    n: int,
    k: Seq<char>,
)
    ensures
        match owner(g, aliases, ids, n, k) {
            Some(p) => 0 <= p < n && names_at(g, aliases, ids, p).contains(k) && forall|q: int|
                p < q < n ==> !(#[trigger] names_at(g, aliases, ids, q)).contains(k),
            None => forall|q: int|
                0 <= q < n ==> !(#[trigger] names_at(g, aliases, ids, q)).contains(k),
        },
    decreases n,
{
    if n > 0 {
        lemma_owner_is_last(g, aliases, ids, n - 1, k);
    }
}

/// Whether the ids ascend, each id once.
pub open spec fn ascending_ids(ids: Seq<Id>) -> bool {
    forall|i: int, j: int| 0 <= i < j < ids.len() ==> (#[trigger] ids[i]).0 < (#[trigger] ids[j]).0
}

/// Whether the node at position `p` has the highest id of the nodes of `ids`
/// that have the name `k`.
pub open spec fn highest(g: Seq<Entry>, aliases: bool, ids: Seq<Id>, p: int, k: Seq<char>) -> bool {
    &&& 0 <= p < ids.len()
    &&& names_at(g, aliases, ids, p).contains(k)
    &&& forall|q: int|
        0 <= q < ids.len() && (#[trigger] names_at(g, aliases, ids, q)).contains(k) ==> ids[q].0
            <= ids[p].0
}

/// Where the ids ascend, the owner of a name is the node with the highest
/// id of those that have the name.
pub proof fn lemma_owner_is_highest(g: Seq<Entry>, aliases: bool, ids: Seq<Id>, k: Seq<char>)
    requires
        ascending_ids(ids),
    ensures
        owner(g, aliases, ids, ids.len() as int, k) matches Some(p) ==> highest(
            g,
            aliases,
            ids,
            p,
            k,
        ),
{
    lemma_owner_is_last(g, aliases, ids, ids.len() as int, k);
}

/// Whether the ids are ids of nodes of the category `c`.
pub open spec fn ids_in(g: Seq<Entry>, ids: Seq<Id>, c: Category) -> bool {
    forall|i: int|
        0 <= i < ids.len() ==> (#[trigger] ids[i]).0 < g.len() && btf::category(
            g[ids[i].0 as int].t,
        ) == c
}

/// The ids of a category that a scan of the graph gives are ids of nodes of
/// that category, and they ascend.
pub proof fn lemma_ids_of(g: Seq<Entry>, n: int, c: Category)
    requires
        n <= g.len() <= u32::MAX,
    ensures
        ids_in(g, btf::ids_of(g, n, c), c),
        forall|i: int| 0 <= i < btf::ids_of(g, n, c).len() ==> (#[trigger] btf::ids_of(g, n, c)[i]).0 < n,
        ascending_ids(btf::ids_of(g, n, c)),
    decreases n,
{
    if n > 0 {
        lemma_ids_of(g, n - 1, c);
    }
}

/// Whether `m` holds the base types of the first `n` of the nodes `ids` and
/// of the first `x` names of the next one.
pub open spec fn bases_upto(
    m: Map<Seq<char>, Base>,
    g: Seq<Entry>,
    e: btf::Endian,
    ids: Seq<Id>,
    n: int,
    x: int,
) -> bool {
    forall|k: Seq<char>|
        (#[trigger] m.contains_key(k) <==> owner_upto(g, false, ids, n, x, k) is Some) && (
        m.contains_key(k) ==> m[k] == v_types::base_of(
            g[ids[owner_upto(g, false, ids, n, x, k).unwrap()].0 as int].t,
            e,
        ))
}

/// Whether `m` holds the base types that the nodes `ids` give: under each
/// name of each node an entry, built from the last node of that name.
pub open spec fn bases_of(
    m: Map<Seq<char>, Base>,
    g: Seq<Entry>,
    e: btf::Endian,
    ids: Seq<Id>,
) -> bool {
    forall|k: Seq<char>|
        (#[trigger] m.contains_key(k) <==> owner(g, false, ids, ids.len() as int, k) is Some) && (
        m.contains_key(k) ==> m[k] == v_types::base_of(
            g[ids[owner(g, false, ids, ids.len() as int, k).unwrap()].0 as int].t,
            e,
        ))
}

/// Builds the base types of the profile: one entry under each name of each
/// of the nodes `ids`, taken in their order; a later entry replaces an
/// earlier one of the same name.
pub fn base_types_from(btf: &Btf, ids: &Vec<Id>) -> (r: NameMap<Base>)
    requires
        btf.wf(),
        ids_in(btf@, ids@, Category::Base),
        ascending_ids(ids@),
    ensures
        r.wf(),
        bases_of(r@, btf@, btf.byte_order(), ids@),
        forall|k: Seq<char>| #[trigger]
            r@.contains_key(k) ==> highest(
                btf@,
                false,
                ids@,
                owner(btf@, false, ids@, ids@.len() as int, k).unwrap(),
                k,
            ),
{
    let ghost g = btf@;
    let ghost e = btf.byte_order();
    let mut map: NameIndex<Base> = NameIndex::new();
    let mut n: usize = 0;
    proof {
        assert forall|k: Seq<char>| owner_upto(g, false, ids@, 0, 0, k) is None by {
            lemma_owner_start(g, false, ids@, 0, k);
        }
    }
    while n < ids.len()
        invariant
            g == btf@,
            e == btf.byte_order(),
            btf.wf(),
            ids_in(g, ids@, Category::Base),
            n <= ids@.len(),
            map.wf(),
            bases_upto(map@, g, e, ids@, n as int, 0),
        decreases ids@.len() - n,
    {
        let id = ids[n];
        let names = btf.get_names_by_id(id, None).unwrap();
        let t = btf.entry(id).t;
        let mut x: usize = 0;
        while x < names.len()
            invariant
                g == btf@,
                e == btf.byte_order(),
                n < ids@.len(),
                id == ids@[n as int],
                id.0 < g.len(),
                t == g[id.0 as int].t,
                t.base(),
                btf::views(names@) == names_at(g, false, ids@, n as int),
                x <= names@.len(),
                map.wf(),
                bases_upto(map@, g, e, ids@, n as int, x as int),
            decreases names@.len() - x,
        {
            let ghost before = map@;
            let b = Base::from(v_types::BaseConstructionCtx { btf, tx: TypeEx { t, id } });
            map.put(names[x].clone(), b);
            proof {
                assert(btf::views(names@)[x as int] == names@[x as int]@);
                assert forall|k: Seq<char>|
                    (#[trigger] map@.contains_key(k) <==> owner_upto(
                        g,
                        false,
                        ids@,
                        n as int,
                        x + 1,
                        k,
                    ) is Some) && (map@.contains_key(k) ==> map@[k] == v_types::base_of(
                        g[ids@[owner_upto(g, false, ids@, n as int, x + 1, k).unwrap()].0 as int].t,
                        e,
                    )) by {
                    lemma_owner_step(g, false, ids@, n as int, x as int, k);
                    assert(before.contains_key(k) <==> owner_upto(
                        g,
                        false,
                        ids@,
                        n as int,
                        x as int,
                        k,
                    ) is Some);
                }
            }
            x = x + 1;
        }
        proof {
            assert forall|k: Seq<char>|
                owner_upto(g, false, ids@, n as int, x as int, k) == owner_upto(
                    g,
                    false,
                    ids@,
                    n + 1,
                    0,
                    k,
                ) by {
                lemma_owner_end(g, false, ids@, n as int, k);
                lemma_owner_start(g, false, ids@, n + 1, k);
            }
        }
        n = n + 1;
    }
    proof {
        assert forall|k: Seq<char>| #[trigger] map@.contains_key(k) implies highest(
            g,
            false,
            ids@,
            owner(g, false, ids@, ids@.len() as int, k).unwrap(),
            k,
        ) by {
            lemma_owner_is_highest(g, false, ids@, k);
        }
    }
    map.into_sorted()
}

/// Adds a base type named "pointer" with the appropriate size and
/// endianness, unless there is one of that name.
pub fn fixup_base(base_types: &mut NameMap<Base>, endian: &btf::Endian)
    requires
        old(base_types).wf(),
    ensures
        final(base_types).wf(),
        final(base_types)@ == (if old(base_types)@.contains_key("pointer"@) {
            old(base_types)@
        } else {
            old(base_types)@.insert("pointer"@, v_types::pointer_base(v_types::endian_of(*endian)))
        }),
{
    if !base_types.contains_key("pointer") {
        base_types.insert(
            String::from_str("pointer"),
            Base::new_pointer(v_types::Endian::from(endian)),
        );
    }
}


/// Whether `m` holds the user types of the first `n` of the nodes `ids` and
/// of the first `x` names of the next one.
pub open spec fn users_upto(
    m: Map<Seq<char>, User>,
    g: Seq<Entry>,
    ids: Seq<Id>,
    n: int,
    x: int,
) -> bool {
    forall|k: Seq<char>|
        (#[trigger] m.contains_key(k) <==> owner_upto(g, true, ids, n, x, k) is Some) && (
        m.contains_key(k) ==> v_types::user_of(
            m[k],
            g,
            ids[owner_upto(g, true, ids, n, x, k).unwrap()].0 as int,
        ))
}

/// Whether `m` holds the user types that the nodes `ids` give: under each
/// name of each node, typedef aliases included, an entry built from the last
/// node of that name.
pub open spec fn users_of(m: Map<Seq<char>, User>, g: Seq<Entry>, ids: Seq<Id>) -> bool {
    forall|k: Seq<char>|
        (#[trigger] m.contains_key(k) <==> owner(g, true, ids, ids.len() as int, k) is Some) && (
        m.contains_key(k) ==> v_types::user_of(
            m[k],
            g,
            ids[owner(g, true, ids, ids.len() as int, k).unwrap()].0 as int,
        ))
}

/// Builds the user types of the profile: one entry under each name of each
/// of the nodes `ids`, taken in their order; a later entry replaces an
/// earlier one of the same name.
pub fn user_types_from(btf: &Btf, typedefs: &Typedefs, ids: &Vec<Id>) -> (r: NameMap<User>)
    requires
        btf.wf(),
        typedefs.models(btf@),
        ids_in(btf@, ids@, Category::User),
        ascending_ids(ids@),
    ensures
        r.wf(),
        users_of(r@, btf@, ids@),
        forall|k: Seq<char>| #[trigger]
            r@.contains_key(k) ==> highest(
                btf@,
                true,
                ids@,
                owner(btf@, true, ids@, ids@.len() as int, k).unwrap(),
                k,
            ),
{
    let ghost g = btf@;
    let mut map: NameIndex<User> = NameIndex::new();
    let mut n: usize = 0;
    proof {
        assert forall|k: Seq<char>| owner_upto(g, true, ids@, 0, 0, k) is None by {
            lemma_owner_start(g, true, ids@, 0, k);
        }
    }
    while n < ids.len()
        invariant
            g == btf@,
            btf.wf(),
            typedefs.models(g),
            ids_in(g, ids@, Category::User),
            n <= ids@.len(),
            map.wf(),
            users_upto(map@, g, ids@, n as int, 0),
        decreases ids@.len() - n,
    {
        let id = ids[n];
        let names = btf.get_names_by_id(id, Some(typedefs)).unwrap();
        let t = btf.entry(id).t;
        let mut x: usize = 0;
        while x < names.len()
            invariant
                g == btf@,
                btf.wf(),
                n < ids@.len(),
                id == ids@[n as int],
                id.0 < g.len(),
                t == g[id.0 as int].t,
                t.user(),
                btf::views(names@) == names_at(g, true, ids@, n as int),
                x <= names@.len(),
                map.wf(),
                users_upto(map@, g, ids@, n as int, x as int),
            decreases names@.len() - x,
        {
            let ghost before = map@;
            let u = User::from(
                v_types::UserConstructionCtx {
                    basic_ctx: v_types::BaseConstructionCtx { btf, tx: TypeEx { t, id } },
                    typedefs,
                },
            );
            map.put(names[x].clone(), u);
            proof {
                assert(btf::views(names@)[x as int] == names@[x as int]@);
                assert forall|k: Seq<char>|
                    (#[trigger] map@.contains_key(k) <==> owner_upto(
                        g,
                        true,
                        ids@,
                        n as int,
                        x + 1,
                        k,
                    ) is Some) && (map@.contains_key(k) ==> v_types::user_of(
                        map@[k],
                        g,
                        ids@[owner_upto(g, true, ids@, n as int, x + 1, k).unwrap()].0 as int,
                    )) by {
                    lemma_owner_step(g, true, ids@, n as int, x as int, k);
                    assert(before.contains_key(k) <==> owner_upto(
                        g,
                        true,
                        ids@,
                        n as int,
                        x as int,
                        k,
                    ) is Some);
                }
            }
            x = x + 1;
        }
        proof {
            assert forall|k: Seq<char>|
                owner_upto(g, true, ids@, n as int, x as int, k) == owner_upto(
                    g,
                    true,
                    ids@,
                    n + 1,
                    0,
                    k,
                ) by {
                lemma_owner_end(g, true, ids@, n as int, k);
                lemma_owner_start(g, true, ids@, n + 1, k);
            }
        }
        n = n + 1;
    }
    proof {
        assert forall|k: Seq<char>| #[trigger] map@.contains_key(k) implies highest(
            g,
            true,
            ids@,
            owner(g, true, ids@, ids@.len() as int, k).unwrap(),
            k,
        ) by {
            lemma_owner_is_highest(g, true, ids@, k);
        }
    }
    map.into_sorted()
}

/// Whether `m` holds the enums of the first `n` of the nodes `ids` and of
/// the first `x` names of the next one.
pub open spec fn enums_upto(
    m: Map<Seq<char>, Enum>,
    g: Seq<Entry>,
    bases: Seq<Named<Base>>,
    ids: Seq<Id>,
    n: int,
    x: int,
) -> bool {
    forall|k: Seq<char>|
        (#[trigger] m.contains_key(k) <==> owner_upto(g, true, ids, n, x, k) is Some) && (
        m.contains_key(k) ==> v_types::enum_of(
            m[k],
            g,
            ids[owner_upto(g, true, ids, n, x, k).unwrap()].0 as int,
            bases,
        ))
}

/// Whether `m` holds the enums that the nodes `ids` give: under each name of
/// each node, typedef aliases included, an entry built from the last node of
/// that name.
pub open spec fn enums_of(
    m: Map<Seq<char>, Enum>,
    g: Seq<Entry>,
    bases: Seq<Named<Base>>,
    ids: Seq<Id>,
) -> bool {
    forall|k: Seq<char>|
        (#[trigger] m.contains_key(k) <==> owner(g, true, ids, ids.len() as int, k) is Some) && (
        m.contains_key(k) ==> v_types::enum_of(
            m[k],
            g,
            ids[owner(g, true, ids, ids.len() as int, k).unwrap()].0 as int,
            bases,
        ))
}

/// Whether the enum at position `i` of `ids` finds a base type to stand on.
pub open spec fn carried(g: Seq<Entry>, bases: Seq<Named<Base>>, ids: Seq<Id>, i: int) -> bool {
    v_types::has_carrier(
        bases,
        v_types::enum_size(g[ids[i].0 as int].t),
        v_types::enum_signed(g[ids[i].0 as int].t),
    )
}

/// Builds the enums of the profile: one entry under each name of each of the
/// nodes `ids`, taken in their order; a later entry replaces an earlier one
/// of the same name. Fails if one of the enums has no integer base type of
/// its size and signedness among `base_types`.
pub fn enums_from(btf: &Btf, typedefs: &Typedefs, ids: &Vec<Id>, base_types: &NameMap<Base>) -> (r:
    Result<NameMap<Enum>, TypeError>)
    requires
        btf.wf(),
        typedefs.models(btf@),
        ids_in(btf@, ids@, Category::Enum),
        ascending_ids(ids@),
    ensures
        match r {
            Ok(m) => m.wf() && enums_of(m@, btf@, base_types.entries@, ids@) && (forall|
                k: Seq<char>,
            | #[trigger]
                m@.contains_key(k) ==> highest(
                    btf@,
                    true,
                    ids@,
                    owner(btf@, true, ids@, ids@.len() as int, k).unwrap(),
                    k,
                )) && forall|i: int|
                0 <= i < ids@.len() ==> #[trigger] carried(btf@, base_types.entries@, ids@, i),
            Err(e) => e == TypeError::NoEnumBase && exists|i: int|
                0 <= i < ids@.len() && !#[trigger] carried(btf@, base_types.entries@, ids@, i),
        },
{
    let ghost g = btf@;
    let ghost bases = base_types.entries@;
    let mut map: NameIndex<Enum> = NameIndex::new();
    let mut n: usize = 0;
    proof {
        assert forall|k: Seq<char>| owner_upto(g, true, ids@, 0, 0, k) is None by {
            lemma_owner_start(g, true, ids@, 0, k);
        }
    }
    while n < ids.len()
        invariant
            g == btf@,
            bases == base_types.entries@,
            btf.wf(),
            typedefs.models(g),
            ids_in(g, ids@, Category::Enum),
            n <= ids@.len(),
            map.wf(),
            enums_upto(map@, g, bases, ids@, n as int, 0),
            forall|i: int| 0 <= i < n ==> #[trigger] carried(g, bases, ids@, i),
        decreases ids@.len() - n,
    {
        let id = ids[n];
        let names = btf.get_names_by_id(id, Some(typedefs)).unwrap();
        let t = btf.entry(id).t;
        assert(names@.len() == names_at(g, true, ids@, n as int).len());
        assert(names@.len() > 0);
        let mut x: usize = 0;
        while x < names.len()
            invariant
                g == btf@,
                bases == base_types.entries@,
                n < ids@.len(),
                id == ids@[n as int],
                id.0 < g.len(),
                t == g[id.0 as int].t,
                t.enumeration(),
                btf::views(names@) == names_at(g, true, ids@, n as int),
                x <= names@.len(),
                map.wf(),
                enums_upto(map@, g, bases, ids@, n as int, x as int),
                x > 0 ==> carried(g, bases, ids@, n as int),
            decreases names@.len() - x,
        {
            let ghost before = map@;
            let made = Enum::from(
                v_types::EnumConstructionCtx {
                    basic_ctx: v_types::BaseConstructionCtx { btf, tx: TypeEx { t, id } },
                    base_types,
                },
            );
            let e = match made {
                Ok(e) => e,
                Err(err) => {
                    assert(!carried(g, bases, ids@, n as int));
                    return Err(err);
                },
            };
            proof {
                let w = choose|i: int| #[trigger]
                    v_types::first_carrier(
                        bases,
                        v_types::enum_size(g[id.0 as int].t),
                        v_types::enum_signed(g[id.0 as int].t),
                        i,
                    ) && e.base@ == bases[i].name@;
                assert(v_types::carries(
                    bases[w].value,
                    v_types::enum_size(g[id.0 as int].t),
                    v_types::enum_signed(g[id.0 as int].t),
                ));
                assert(carried(g, bases, ids@, n as int));
            }
            map.put(names[x].clone(), e);
            proof {
                assert(btf::views(names@)[x as int] == names@[x as int]@);
                assert forall|k: Seq<char>|
                    (#[trigger] map@.contains_key(k) <==> owner_upto(
                        g,
                        true,
                        ids@,
                        n as int,
                        x + 1,
                        k,
                    ) is Some) && (map@.contains_key(k) ==> v_types::enum_of(
                        map@[k],
                        g,
                        ids@[owner_upto(g, true, ids@, n as int, x + 1, k).unwrap()].0 as int,
                        bases,
                    )) by {
                    lemma_owner_step(g, true, ids@, n as int, x as int, k);
                    assert(before.contains_key(k) <==> owner_upto(
                        g,
                        true,
                        ids@,
                        n as int,
                        x as int,
                        k,
                    ) is Some);
                }
            }
            x = x + 1;
        }
        proof {
            assert forall|k: Seq<char>|
                owner_upto(g, true, ids@, n as int, x as int, k) == owner_upto(
                    g,
                    true,
                    ids@,
                    n + 1,
                    0,
                    k,
                ) by {
                lemma_owner_end(g, true, ids@, n as int, k);
                lemma_owner_start(g, true, ids@, n + 1, k);
            }
        }
        n = n + 1;
    }
    proof {
        assert forall|k: Seq<char>| #[trigger] map@.contains_key(k) implies highest(
            g,
            true,
            ids@,
            owner(g, true, ids@, ids@.len() as int, k).unwrap(),
            k,
        ) by {
            lemma_owner_is_highest(g, true, ids@, k);
        }
    }
    Ok(map.into_sorted())
}


/// Representation of a profile.
#[derive(Debug)]
pub struct Isf {
    pub metadata: Metadata,
    pub user_types: NameMap<User>,
    pub enums: NameMap<Enum>,
    pub base_types: NameMap<Base>,
    pub symbols: NameMap<Symbol>,
}

/// A symbol whose type the profile does not define.
#[derive(Debug)]
pub struct Dangling {
    /// Name of the symbol.
    pub name: String,
    /// The descriptor, inside all wrappers, of the type that is missing.
    pub t: TypeDescr,
}

/// What a repair of the symbols found and changed.
#[derive(Debug)]
pub struct SymbolRepair {
    /// The symbols whose type was set to void, in the order of their names.
    pub fixed: Vec<Dangling>,
    /// The descriptors of the types that are missing, each once, in the order
    /// in which they were met.
    pub missing: Vec<TypeDescr>,
}

/// The descriptors of `s`, each once, in the order in which they first
/// occur.
pub open spec fn each_once(s: Seq<Descr>) -> Seq<Descr>
    decreases s.len(),
{
    if s.len() == 0 {
        Seq::empty()
    } else {
        let before = each_once(s.drop_last());
        if before.contains(s.last()) {
            before
        } else {
            before.push(s.last())
        }
    }
}

/// The descriptors that the reported symbols miss.
pub open spec fn missed(v: Seq<Dangling>) -> Seq<Descr> {
    Seq::new(v.len(), |i: int| v[i].t@)
}

/// The descriptors as mathematical values.
pub open spec fn descr_views(v: Seq<TypeDescr>) -> Seq<Descr> {
    Seq::new(v.len(), |i: int| v[i]@)
}

fn holds(list: &Vec<TypeDescr>, t: &TypeDescr) -> (r: bool)
    ensures
        r == descr_views(list@).contains(t@),
{
    let mut i: usize = 0;
    while i < list.len()
        invariant
            i <= list@.len(),
            forall|j: int| 0 <= j < i ==> #[trigger] descr_views(list@)[j] != t@,
        decreases list@.len() - i,
    {
        if list[i].same(t) {
            assert(descr_views(list@)[i as int] == t@);
            return true;
        }
        i = i + 1;
    }
    false
}

fn missing_types(found: &Vec<Dangling>) -> (r: Vec<TypeDescr>)
    ensures
        descr_views(r@) == each_once(missed(found@)),
{
    let ghost all = missed(found@);
    let mut out: Vec<TypeDescr> = Vec::new();
    let mut i: usize = 0;
    assert(descr_views(out@) =~= each_once(all.take(0)));
    while i < found.len()
        invariant
            all == missed(found@),
            i <= found@.len(),
            descr_views(out@) == each_once(all.take(i as int)),
        decreases found@.len() - i,
    {
        proof {
            assert(all.take(i + 1).drop_last() =~= all.take(i as int));
            assert(all.take(i + 1).last() == found@[i as int].t@);
        }
        if !holds(&out, &found[i].t) {
            let ghost before = descr_views(out@);
            out.push(found[i].t.duplicate());
            assert(descr_views(out@) =~= before.push(found@[i as int].t@));
        }
        i = i + 1;
    }
    assert(all.take(found@.len() as int) =~= all);
    out
}

/// A field of a user type whose type the profile does not define.
#[derive(Debug)]
pub struct DanglingField {
    /// Kind of the user type that owns the field.
    pub kind: UserKind,
    /// Name of the user type that owns the field.
    pub owner: String,
    /// Name of the field.
    pub field: String,
    /// The descriptor, inside all wrappers, of the type that is missing.
    pub t: TypeDescr,
}

/// The positions, among the first `n` symbols, of those whose type the
/// profile does not define, ascending.
pub open spec fn dangling_upto(isf: Isf, syms: Seq<Named<Symbol>>, n: int) -> Seq<int>
    decreases n,
{
    if n <= 0 {
        Seq::empty()
    } else if isf.defines(syms[n - 1].value.t@) {
        dangling_upto(isf, syms, n - 1)
    } else {
        dangling_upto(isf, syms, n - 1).push(n - 1)
    }
}

/// Whether `v` reports the symbols at the positions `at`, in that order.
pub open spec fn reports_symbols(v: Seq<Dangling>, syms: Seq<Named<Symbol>>, at: Seq<int>) -> bool {
    &&& v.len() == at.len()
    &&& forall|j: int|
        0 <= j < v.len() ==> (#[trigger] v[j]).name@ == syms[at[j]].name@ && v[j].t@
            == syms[at[j]].value.t@.leaf()
}

/// Whether `x` reports field `j` of user type `i`.
pub open spec fn reports_field(x: DanglingField, users: Seq<Named<User>>, i: int, j: int) -> bool {
    &&& 0 <= i < users.len()
    &&& 0 <= j < users[i].value.fields.0.entries@.len()
    &&& x.kind == users[i].value.kind
    &&& x.owner@ == users[i].name@
    &&& x.field@ == users[i].value.fields.0.entries@[j].name@
    &&& x.t@ == users[i].value.fields.0.entries@[j].value.t@.leaf()
}

/// Whether `v` reports the fields `at`, given as pairs of the position of
/// the user type and the position of the field, in that order.
pub open spec fn reports_fields(
    v: Seq<DanglingField>,
    users: Seq<Named<User>>,
    at: Seq<(int, int)>,
) -> bool {
    &&& v.len() == at.len()
    &&& forall|x: int| 0 <= x < v.len() ==> reports_field(#[trigger] v[x], users, at[x].0, at[x].1)
}

/// The first `m` fields of user type `i` whose type the profile does not
/// define, as pairs of `i` and the position of the field, ascending.
pub open spec fn dangling_in(isf: Isf, i: int, m: int) -> Seq<(int, int)>
    decreases m,
{
    if m <= 0 {
        Seq::empty()
    } else if isf.field_dangles(i, m - 1) {
        dangling_in(isf, i, m - 1).push((i, m - 1))
    } else {
        dangling_in(isf, i, m - 1)
    }
}

/// Number of fields of user type `i`.
pub open spec fn fields_len(isf: Isf, i: int) -> int {
    isf.user_types.entries@[i].value.fields.0.entries@.len() as int
}

/// The fields of the first `n` user types whose type the profile does not
/// define: the user types in the order of their names, and the fields of
/// each in the order of theirs.
pub open spec fn dangling_before(isf: Isf, n: int) -> Seq<(int, int)>
    decreases n,
{
    if n <= 0 {
        Seq::empty()
    } else {
        dangling_before(isf, n - 1) + dangling_in(isf, n - 1, fields_len(isf, n - 1))
    }
}

/// No field is listed exactly if no field dangles.
pub proof fn lemma_nothing_dangles(isf: Isf, n: int)
    requires
        0 <= n <= isf.user_types.entries@.len(),
    ensures
        dangling_before(isf, n).len() == 0 <==> forall|i: int, j: int|
            i < n ==> !#[trigger] isf.field_dangles(i, j),
    decreases n,
{
    if n > 0 {
        lemma_nothing_dangles(isf, n - 1);
        lemma_nothing_dangles_in(isf, n - 1, fields_len(isf, n - 1));
    }
}

proof fn lemma_nothing_dangles_in(isf: Isf, i: int, m: int)
    requires
        0 <= m,
    ensures
        dangling_in(isf, i, m).len() == 0 <==> forall|j: int|
            j < m ==> !#[trigger] isf.field_dangles(i, j),
    decreases m,
{
    if m > 0 {
        lemma_nothing_dangles_in(isf, i, m - 1);
    }
}

impl Isf {
    /// Whether each of the four maps holds its entries in the order of the
    /// names, and so do the fields of each user type.
    pub open spec fn wf(&self) -> bool {
        &&& self.user_types.wf()
        &&& self.enums.wf()
        &&& self.base_types.wf()
        &&& self.symbols.wf()
    }

    /// Whether the profile defines the type that the descriptor names inside
    /// its wrappers: a function always is; a base type or an enum is if an
    /// entry of its category has its name; a struct or a union is if a user
    /// type has its name and is of its kind.
    pub open spec fn defines(&self, d: Descr) -> bool {
        match d.leaf() {
            Descr::Base { name } => self.base_types@.contains_key(name),
            Descr::Enum { name } => self.enums@.contains_key(name),
            Descr::Union { name } => self.user_types@.contains_key(name)
                && self.user_types@[name].kind == UserKind::Union,
            Descr::Struct { name } => self.user_types@.contains_key(name)
                && self.user_types@[name].kind == UserKind::Struct,
            Descr::Function => true,
            _ => false,
        }
    }

    /// Whether field `j` of user type `i` has a type that the profile does
    /// not define.
    pub open spec fn field_dangles(&self, i: int, j: int) -> bool {
        &&& 0 <= i < self.user_types.entries@.len()
        &&& 0 <= j < self.user_types.entries@[i].value.fields.0.entries@.len()
        &&& !self.defines(self.user_types.entries@[i].value.fields.0.entries@[j].value.t@)
    }

    /// Tests if a type is defined in the profile.
    pub fn is_defined(&self, t: &TypeDescr) -> (r: bool)
        requires
            self.wf(),
        ensures
            r == self.defines(t@),
    {
        let rt = t.resolve();
        match rt {
            TypeDescr::Base { name } => self.base_types.contains_key(name.as_str()),
            TypeDescr::Enum { name } => self.enums.contains_key(name.as_str()),
            TypeDescr::Union { name } => match self.user_types.get(name.as_str()) {
                Some(u) => matches!(u.kind, UserKind::Union),
                None => false,
            },
            TypeDescr::Struct { name } => match self.user_types.get(name.as_str()) {
                Some(u) => matches!(u.kind, UserKind::Struct),
                None => false,
            },
            TypeDescr::Function => true,
            _ => false,
        }
    }

    /// Removes undefined types from symbols.
    ///
    /// The types of symbols come from a table of their own, so some may name
    /// types that the type graph did not define. The type of such a symbol
    /// is set to "void". All symbols are gone through; the result lists the
    /// symbols that were changed, in the order of their names, with what was
    /// missing.
    pub fn fix_symbol_types(&mut self) -> (r: Result<(), SymbolRepair>)
        requires
            old(self).wf(),
        ensures
            final(self).wf(),
            final(self).metadata == old(self).metadata,
            final(self).user_types == old(self).user_types,
            final(self).enums == old(self).enums,
            final(self).base_types == old(self).base_types,
            final(self).symbols.entries@.len() == old(self).symbols.entries@.len(),
            forall|i: int|
                0 <= i < old(self).symbols.entries@.len() ==> {
                    let was = old(self).symbols.entries@[i];
                    let is = #[trigger] final(self).symbols.entries@[i];
                    &&& is.name@ == was.name@
                    &&& is.value.address == was.value.address
                    &&& is.value.linkage == was.value.linkage
                    &&& is.value.constant_data == was.value.constant_data
                    &&& is.value.t@ == (if old(self).defines(was.value.t@) {
                        was.value.t@
                    } else {
                        Descr::Base { name: "void"@ }
                    })
                },
            match r {
                Ok(_) => dangling_upto(
                    *old(self),
                    old(self).symbols.entries@,
                    old(self).symbols.entries@.len() as int,
                ).len() == 0,
                Err(rep) => rep.fixed@.len() > 0 && reports_symbols(
                    rep.fixed@,
                    old(self).symbols.entries@,
                    dangling_upto(
                        *old(self),
                        old(self).symbols.entries@,
                        old(self).symbols.entries@.len() as int,
                    ),
                ) && descr_views(rep.missing@) == each_once(missed(rep.fixed@)),
            },
            old(self).base_types@.contains_key("void"@) ==> forall|i: int|
                0 <= i < final(self).symbols.entries@.len() ==> final(self).defines(
                    (#[trigger] final(self).symbols.entries@[i]).value.t@,
                ),
    {
        let ghost start = *self;
        let ghost syms = self.symbols.entries@;
        let mut found: Vec<Dangling> = Vec::new();
        let n = self.symbols.len();
        let mut i: usize = 0;
        while i < n
            invariant
                start.wf(),
                syms == start.symbols.entries@,
                self.wf(),
                self.metadata == start.metadata,
                self.user_types == start.user_types,
                self.enums == start.enums,
                self.base_types == start.base_types,
                n == syms.len(),
                self.symbols.entries@.len() == n,
                i <= n,
                forall|j: int| i <= j < n ==> (#[trigger] self.symbols.entries@[j]).value == syms[j].value,
                forall|j: int| 0 <= j < n ==> (#[trigger] self.symbols.entries@[j]).name@ == syms[j].name@,
                forall|j: int|
                    0 <= j < i ==> {
                        let was = syms[j];
                        let is = #[trigger] self.symbols.entries@[j];
                        &&& is.value.address == was.value.address
                        &&& is.value.linkage == was.value.linkage
                        &&& is.value.constant_data == was.value.constant_data
                        &&& is.value.t@ == (if start.defines(was.value.t@) {
                            was.value.t@
                        } else {
                            Descr::Base { name: "void"@ }
                        })
                    },
                reports_symbols(found@, syms, dangling_upto(start, syms, i as int)),
            decreases n - i,
        {
            assert(self.symbols.entries@[i as int].value == syms[i as int].value);
            assert(forall|d: Descr| self.defines(d) == start.defines(d));
            if !self.is_defined(&self.symbols.entries[i].value.t) {
                let name = self.symbols.entries[i].name.clone();
                let sym = self.symbols.swap_value(
                    i,
                    Symbol {
                        address: 0,
                        t: TypeDescr::Function,
                        linkage: None,
                        constant_data: None,
                    },
                );
                let missing = sym.t.resolve().duplicate();
                let ghost before = found@;
                found.push(Dangling { name, t: missing });
                let fixed = Symbol {
                    address: sym.address,
                    t: TypeDescr::new_void(),
                    linkage: sym.linkage,
                    constant_data: sym.constant_data,
                };
                self.symbols.swap_value(i, fixed);
                proof {
                    let at = dangling_upto(start, syms, i + 1);
                    assert(at == dangling_upto(start, syms, i as int).push(i as int));
                    assert forall|j: int| 0 <= j < found@.len() implies (#[trigger] found@[j]).name@
                        == syms[at[j]].name@ && found@[j].t@ == syms[at[j]].value.t@.leaf() by {
                        if j < before.len() {
                            assert(found@[j] == before[j]);
                        }
                    }
                }
            }
            i = i + 1;
        }
        proof {
            assert(forall|d: Descr| self.defines(d) == start.defines(d));
        }
        if found.len() == 0 {
            Ok(())
        } else {
            let missing = missing_types(&found);
            Err(SymbolRepair { fixed: found, missing })
        }
    }

    /// Verifies that all types referenced by fields of user types are
    /// defined. Changes nothing; the result lists the fields whose type is
    /// missing: the user types in the order of their names, and the fields
    /// of each in the order of theirs.
    pub fn check_user_types(&self) -> (r: Result<(), Vec<DanglingField>>)
        requires
            self.wf(),
        ensures
            match r {
                Ok(_) => dangling_before(*self, self.user_types.entries@.len() as int).len() == 0,
                Err(v) => v@.len() > 0 && reports_fields(
                    v@,
                    self.user_types.entries@,
                    dangling_before(*self, self.user_types.entries@.len() as int),
                ),
            },
    {
        let ghost users = self.user_types.entries@;
        let mut found: Vec<DanglingField> = Vec::new();
        let mut i: usize = 0;
        while i < self.user_types.entries.len()
            invariant
                self.wf(),
                users == self.user_types.entries@,
                i <= users.len(),
                reports_fields(found@, users, dangling_before(*self, i as int)),
            decreases users.len() - i,
        {
            let ut = &self.user_types.entries[i];
            let fields = ut.value.fields.iter();
            let ghost done = dangling_before(*self, i as int);
            let mut j: usize = 0;
            assert(done + dangling_in(*self, i as int, 0) =~= done);
            while j < fields.len()
                invariant
                    self.wf(),
                    users == self.user_types.entries@,
                    i < users.len(),
                    *ut == users[i as int],
                    fields@ == ut.value.fields.0.entries@,
                    j <= fields@.len(),
                    done == dangling_before(*self, i as int),
                    reports_fields(found@, users, done + dangling_in(*self, i as int, j as int)),
                decreases fields@.len() - j,
            {
                let f = &fields[j];
                let ghost at = done + dangling_in(*self, i as int, j as int);
                if !self.is_defined(&f.value.t) {
                    let ghost before = found@;
                    found.push(
                        DanglingField {
                            kind: ut.value.kind,
                            owner: ut.name.clone(),
                            field: f.name.clone(),
                            t: f.value.t.resolve().duplicate(),
                        },
                    );
                    proof {
                        assert(self.field_dangles(i as int, j as int));
                        let next = done + dangling_in(*self, i as int, j + 1);
                        assert(next =~= at.push((i as int, j as int)));
                        assert forall|x: int| 0 <= x < found@.len() implies reports_field(
                            #[trigger] found@[x],
                            users,
                            next[x].0,
                            next[x].1,
                        ) by {
                            if x < before.len() {
                                assert(found@[x] == before[x]);
                            }
                        }
                    }
                } else {
                    assert(!self.field_dangles(i as int, j as int));
                }
                j = j + 1;
            }
            i = i + 1;
        }
        if found.len() == 0 {
            Ok(())
        } else {
            Err(found)
        }
    }
}

/// Why a profile could not be assembled.
#[derive(Clone, Copy, Debug, PartialEq, Eq, Structural)]
pub enum IsfError {
    /// An enum has no integer base type of its size and signedness.
    EnumBase,
    /// The type of a symbol is not the JSON of a type descriptor.
    SymbolType,
}

/// The base types of a profile: under each name of each node of `ids` the
/// base type that the last node of that name gives; and under "pointer",
/// unless a node has that name, the pointer type.
pub open spec fn base_map(g: Seq<Entry>, e: btf::Endian, ids: Seq<Id>) -> Map<Seq<char>, Base> {
    Map::new(
        |k: Seq<char>| owner(g, false, ids, ids.len() as int, k) is Some || k == "pointer"@,
        |k: Seq<char>|
            match owner(g, false, ids, ids.len() as int, k) {
                Some(p) => v_types::base_of(g[ids[p].0 as int].t, e),
                None => v_types::pointer_base(v_types::endian_of(e)),
            },
    )
}

/// Whether some base type of the map can stand under an enum of the given
/// size and signedness.
pub open spec fn map_has_carrier(m: Map<Seq<char>, Base>, size: u8, signed: bool) -> bool {
    exists|k: Seq<char>| #[trigger] m.contains_key(k) && v_types::carries(m[k], size, signed)
}

/// Whether the enum at position `i` of `ids` finds a base type to stand on
/// among those of the map.
pub open spec fn enum_carried(g: Seq<Entry>, m: Map<Seq<char>, Base>, ids: Seq<Id>, i: int) -> bool {
    map_has_carrier(
        m,
        v_types::enum_size(g[ids[i].0 as int].t),
        v_types::enum_signed(g[ids[i].0 as int].t),
    )
}

proof fn lemma_carrier(s: Seq<Named<Base>>, size: u8, signed: bool)
    requires
        ascending(s),
    ensures
        v_types::has_carrier(s, size, signed) == map_has_carrier(as_map(s), size, signed),
{
    if v_types::has_carrier(s, size, signed) {
        let i = choose|i: int| 0 <= i < s.len() && v_types::carries(#[trigger] s[i].value, size, signed);
        lemma_position(s, i);
        assert(as_map(s).contains_key(s[i].name@));
    }
    if map_has_carrier(as_map(s), size, signed) {
        let k = choose|k: Seq<char>| #[trigger]
            as_map(s).contains_key(k) && v_types::carries(as_map(s)[k], size, signed);
        let i = crate::names::position(s, k);
        lemma_position(s, i);
        assert(v_types::carries(s[i].value, size, signed));
    }
}

/// Whether the symbols `out` are the profile's symbols for the symbols
/// `from`, name by name.
pub open spec fn symbols_of(out: Seq<Named<Symbol>>, from: Seq<Named<crate::symbols::Symbol>>) -> bool {
    &&& out.len() == from.len()
    &&& forall|i: int|
        0 <= i < from.len() ==> (#[trigger] out[i]).name@ == from[i].name@ && symbol_of(
            out[i].value,
            from[i].value,
        )
}

/// Whether `isf` is the profile that the context gives.
pub open spec fn assembled(isf: Isf, ctx: GenerationContext) -> bool {
    &&& isf.wf()
    &&& built_from(isf.metadata, ctx.mbuilder.unwrap())
    &&& isf.base_types@ == base_map(ctx.btf@, ctx.btf.byte_order(), ctx.basic_ids@)
    &&& users_of(isf.user_types@, ctx.btf@, ctx.user_ids@)
    &&& enums_of(isf.enums@, ctx.btf@, isf.base_types.entries@, ctx.enum_ids@)
    &&& symbols_of(isf.symbols.entries@, ctx.symbols.symbols.entries@)
}

/// Whether every enum of the context finds a base type to stand on.
pub open spec fn enums_carried(ctx: GenerationContext) -> bool {
    forall|i: int|
        0 <= i < ctx.enum_ids@.len() ==> #[trigger] enum_carried(
            ctx.btf@,
            base_map(ctx.btf@, ctx.btf.byte_order(), ctx.basic_ids@),
            ctx.enum_ids@,
            i,
        )
}

/// Whether every symbol of the context has a type that can be read.
pub open spec fn symbols_readable(ctx: GenerationContext) -> bool {
    forall|i: int|
        0 <= i < ctx.symbols.symbols.entries@.len() ==> symbol_descr(
            (#[trigger] ctx.symbols.symbols.entries@[i]).value.t,
        ) is Some
}

fn symbols_from(syms: Vec<Named<crate::symbols::Symbol>>) -> (r: Option<NameMap<Symbol>>)
    requires
        ascending(syms@),
    ensures
        match r {
            Some(m) => m.wf() && symbols_of(m.entries@, syms@),
            None => exists|i: int|
                0 <= i < syms@.len() && symbol_descr((#[trigger] syms@[i]).value.t) is None,
        },
{
    let ghost from = syms@;
    let mut rest = syms;
    let mut out: Vec<Named<Symbol>> = Vec::new();
    // The symbols are taken from the end, and the result is turned round.
    while rest.len() > 0
        invariant
            from == syms@,
            rest@.len() <= from.len(),
            rest@ == from.take(rest@.len() as int),
            out@.len() == from.len() - rest@.len(),
            forall|j: int|
                0 <= j < out@.len() ==> (#[trigger] out@[j]).name@ == from[from.len() - 1 - j].name@
                    && symbol_of(out@[j].value, from[from.len() - 1 - j].value),
        decreases rest@.len(),
    {
        let ghost n = rest@.len() as int;
        let e = match rest.pop() {
            Some(e) => e,
            None => {
                return None;
            },
        };
        assert(e == from[n - 1]);
        let s = match Symbol::from(e.value) {
            Some(s) => s,
            None => {
                assert(symbol_descr(from[n - 1].value.t) is None);
                return None;
            },
        };
        out.push(Named { name: e.name, value: s });
        assert(rest@ =~= from.take(n - 1));
    }
    let mut turned: Vec<Named<Symbol>> = Vec::new();
    while out.len() > 0
        invariant
            out@.len() <= from.len(),
            turned@.len() == from.len() - out@.len(),
            forall|j: int|
                0 <= j < out@.len() ==> (#[trigger] out@[j]).name@ == from[from.len() - 1 - j].name@
                    && symbol_of(out@[j].value, from[from.len() - 1 - j].value),
            forall|j: int|
                0 <= j < turned@.len() ==> (#[trigger] turned@[j]).name@ == from[j].name@
                    && symbol_of(turned@[j].value, from[j].value),
        decreases out@.len(),
    {
        match out.pop() {
            Some(e) => turned.push(e),
            None => {},
        }
    }
    let m = NameMap { entries: turned };
    assert(m.wf()) by {
        assert forall|i: int, j: int| 0 <= i < j < m.entries@.len() implies crate::names::key_less(
            #[trigger] m.entries@[i].name@,
            #[trigger] m.entries@[j].name@,
        ) by {
            assert(crate::names::key_less(from[i].name@, from[j].name@));
        }
    }
    Some(m)
}

impl Isf {
    /// Try to construct a profile from gathered information.
    ///
    /// Fails if an enum has no integer base type of its size and signedness
    /// among the base types, or else if the type of a symbol cannot be read.
    pub fn try_from(ctx: GenerationContext) -> (r: Result<Isf, IsfError>)
        requires
            ctx.wf(),
        ensures
            match r {
                Ok(isf) => enums_carried(ctx) && symbols_readable(ctx) && assembled(isf, ctx)
                    && isf.base_types@.contains_key("void"@),
                Err(e) => if e == IsfError::EnumBase {
                    !enums_carried(ctx)
                } else {
                    enums_carried(ctx) && !symbols_readable(ctx)
                },
            },
    {
        let ghost g = ctx.btf@;
        let ghost e = ctx.btf.byte_order();
        let GenerationContext { mbuilder, btf, user_ids, enum_ids, basic_ids, symbols, typedefs } =
            ctx;
        proof {
            lemma_ids_of(g, g.len() as int, Category::User);
            lemma_ids_of(g, g.len() as int, Category::Enum);
            lemma_ids_of(g, g.len() as int, Category::Base);
            lemma_void_has_a_base_type(g, e);
        }
        let mut base_types = base_types_from(&btf, &basic_ids);
        fixup_base(&mut base_types, &btf.endian());
        assert(base_types@ =~= base_map(g, e, basic_ids@));
        let metadata = mbuilder.unwrap().build();
        let user_types = user_types_from(&btf, &typedefs, &user_ids);
        proof {
            assert forall|i: int| 0 <= i < enum_ids@.len() implies carried(
                g,
                base_types.entries@,
                enum_ids@,
                i,
            ) == #[trigger] enum_carried(g, base_types@, enum_ids@, i) by {
                lemma_carrier(
                    base_types.entries@,
                    v_types::enum_size(g[enum_ids@[i].0 as int].t),
                    v_types::enum_signed(g[enum_ids@[i].0 as int].t),
                );
            }
        }
        let enums = match enums_from(&btf, &typedefs, &enum_ids, &base_types) {
            Ok(m) => m,
            Err(_) => {
                proof {
                    let i = choose|i: int|
                        0 <= i < enum_ids@.len() && !#[trigger] carried(
                            g,
                            base_types.entries@,
                            enum_ids@,
                            i,
                        );
                    assert(!enum_carried(g, base_types@, enum_ids@, i));
                }
                return Err(IsfError::EnumBase);
            },
        };
        proof {
            assert forall|i: int| 0 <= i < enum_ids@.len() implies #[trigger] enum_carried(
                g,
                base_types@,
                enum_ids@,
                i,
            ) by {
                assert(carried(g, base_types.entries@, enum_ids@, i));
            }
        }
        let symbols = match symbols_from(symbols.into_iter()) {
            Some(m) => m,
            None => {
                return Err(IsfError::SymbolType);
            },
        };
        let isf = Isf { metadata, user_types, enums, base_types, symbols };
        proof {
            assert forall|i: int| 0 <= i < ctx.symbols.symbols.entries@.len() implies symbol_descr(
                (#[trigger] ctx.symbols.symbols.entries@[i]).value.t,
            ) is Some by {
                assert(symbol_of(isf.symbols.entries@[i].value, ctx.symbols.symbols.entries@[i].value));
            }
        }
        Ok(isf)
    }
}


/// In a graph whose node 0 is void the base types hold "void".
pub proof fn lemma_void_has_a_base_type(g: Seq<Entry>, e: btf::Endian)
    requires
        0 < g.len() <= u32::MAX,
        g[0].t.t is Void,
    ensures
        base_map(g, e, btf::ids_of(g, g.len() as int, Category::Base)).contains_key("void"@),
{
    let ids = btf::ids_of(g, g.len() as int, Category::Base);
    btf::lemma_partition(g, g.len() as int, Category::Base, 0);
    let q = choose|q: int| 0 <= q < ids.len() && ids[q] == Id(0);
    assert(names_at(g, false, ids, q)[0] == "void"@);
    lemma_owner_is_last(g, false, ids, ids.len() as int, "void"@);
}

/// Name collisions are settled by the ids: among the nodes of category `c`
/// that have the name `k`, the one with the highest id, `b`, owns the name,
/// whatever else the graph holds.
pub proof fn lemma_highest_id_owns(
    g: Seq<Entry>,
    aliases: bool,
    c: Category,
    b: int,
    k: Seq<char>,
)
    requires
        g.len() <= u32::MAX,
        0 <= b < g.len(),
        btf::category(g[b].t) == c,
        btf::names_for(g, b, aliases).contains(k),
        forall|x: int|
            b < x < g.len() && btf::category(g[x].t) == c ==> !(#[trigger] btf::names_for(
                g,
                x,
                aliases,
            )).contains(k),
    ensures
        owner(
            g,
            aliases,
            btf::ids_of(g, g.len() as int, c),
            btf::ids_of(g, g.len() as int, c).len() as int,
            k,
        ) matches Some(p) && btf::ids_of(g, g.len() as int, c)[p].0 == b,
{
    let n = g.len() as int;
    let ids = btf::ids_of(g, n, c);
    btf::lemma_partition(g, n, c, b);
    lemma_ids_of(g, n, c);
    let p = choose|p: int| 0 <= p < ids.len() && ids[p] == Id(b as u32);
    assert(names_at(g, aliases, ids, p).contains(k));
    assert forall|q: int| p < q < ids.len() implies !(#[trigger] names_at(
        g,
        aliases,
        ids,
        q,
    )).contains(k) by {
        assert(ids[p].0 < ids[q].0);
        assert(!btf::names_for(g, ids[q].0 as int, aliases).contains(k));
    }
    lemma_owner_is_last(g, aliases, ids, ids.len() as int, k);
}

/// Given two structs or unions `a` and `b` of one name, `a` below `b`, and
/// none of a higher id with that name: the user type under the name is the
/// one that `b` gives.
pub proof fn lemma_higher_id_wins(isf: Isf, ctx: GenerationContext, a: int, b: int, k: Seq<char>)
    requires
        ctx.wf(),
        assembled(isf, ctx),
        0 <= a < b < ctx.btf@.len(),
        ctx.btf@[a].t.user(),
        ctx.btf@[b].t.user(),
        btf::names_for(ctx.btf@, a, true).contains(k),
        btf::names_for(ctx.btf@, b, true).contains(k),
        forall|x: int|
            b < x < ctx.btf@.len() && ctx.btf@[x].t.user() ==> !(#[trigger] btf::names_for(
                ctx.btf@,
                x,
                true,
            )).contains(k),
    ensures
        isf.user_types@.contains_key(k),
        v_types::user_of(isf.user_types@[k], ctx.btf@, b),
{
    lemma_highest_id_owns(ctx.btf@, true, Category::User, b, k);
    assert(isf.user_types@.contains_key(k) <==> owner(
        ctx.btf@,
        true,
        ctx.user_ids@,
        ctx.user_ids@.len() as int,
        k,
    ) is Some);
}

/// The same for enums: the enum under a name is the one that the enum of the
/// highest id with that name gives.
pub proof fn lemma_higher_enum_wins(isf: Isf, ctx: GenerationContext, b: int, k: Seq<char>)
    requires
        ctx.wf(),
        assembled(isf, ctx),
        0 <= b < ctx.btf@.len(),
        ctx.btf@[b].t.enumeration(),
        btf::names_for(ctx.btf@, b, true).contains(k),
        forall|x: int|
            b < x < ctx.btf@.len() && ctx.btf@[x].t.enumeration() ==> !(
            #[trigger] btf::names_for(ctx.btf@, x, true)).contains(k),
    ensures
        isf.enums@.contains_key(k),
        v_types::enum_of(isf.enums@[k], ctx.btf@, b, isf.base_types.entries@),
{
    lemma_highest_id_owns(ctx.btf@, true, Category::Enum, b, k);
    assert(isf.enums@.contains_key(k) <==> owner(
        ctx.btf@,
        true,
        ctx.enum_ids@,
        ctx.enum_ids@.len() as int,
        k,
    ) is Some);
}

/// The same for base types: the base type under a name is the one that the
/// base type node of the highest id with that name gives.
pub proof fn lemma_higher_base_wins(isf: Isf, ctx: GenerationContext, b: int, k: Seq<char>)
    requires
        ctx.wf(),
        assembled(isf, ctx),
        0 <= b < ctx.btf@.len(),
        ctx.btf@[b].t.base(),
        btf::names_for(ctx.btf@, b, false).contains(k),
        forall|x: int|
            b < x < ctx.btf@.len() && ctx.btf@[x].t.base() ==> !(#[trigger] btf::names_for(
                ctx.btf@,
                x,
                false,
            )).contains(k),
    ensures
        isf.base_types@.contains_key(k),
        isf.base_types@[k] == v_types::base_of(ctx.btf@[b].t, ctx.btf.byte_order()),
{
    lemma_highest_id_owns(ctx.btf@, false, Category::Base, b, k);
}

/// The ids of the category of a node in a context, and whether the entries
/// of that category are made with typedef aliases.
pub open spec fn ids_for(ctx: GenerationContext, c: Category) -> Seq<Id> {
    match c {
        Category::Base => ctx.basic_ids@,
        Category::Enum => ctx.enum_ids@,
        _ => ctx.user_ids@,
    }
}

/// Round trip: the type of a member is resolved, its descriptor is built,
/// and the profile is asked whether it defines the descriptor. It does if
/// the terminal node is a base type, an enum, a struct or a union and the
/// entry under the name that the descriptor uses is the one which that node
/// gave.
pub proof fn lemma_round_trip(isf: Isf, ctx: GenerationContext, m: btf::Member)
    requires
        ctx.wf(),
        assembled(isf, ctx),
        m.type_id < ctx.btf@.len(),
        ({
            let g = ctx.btf@;
            let id = btf::root(g, m.type_id as int);
            let c = btf::category(g[id].t);
            let ids = ids_for(ctx, c);
            let name = btf::shown_name(g, btf::route(g, m.type_id as int), id);
            &&& c == Category::Base || c == Category::Enum || c == Category::User
            &&& owner(g, c != Category::Base, ids, ids.len() as int, name) matches Some(q)
                && 0 <= q < ids.len() && ids[q].0 == id
        }),
    ensures
        isf.defines(v_types::member_descr(ctx.btf@, m)),
{
    let g = ctx.btf@;
    let id = btf::root(g, m.type_id as int);
    let name = btf::shown_name(g, btf::route(g, m.type_id as int), id);
    v_types::lemma_one_bitfield(g, m);
    let c = btf::category(g[id].t);
    if c == Category::Base {
        assert(isf.base_types@.contains_key(name));
    } else if c == Category::Enum {
        assert(isf.enums@.contains_key(name));
    } else {
        assert(isf.user_types@.contains_key(name));
    }
}

/// A profile that is made of a context has a base type "void": the type
/// that the repair of symbols falls back on is defined.
pub proof fn lemma_void_is_defined(isf: Isf, ctx: GenerationContext)
    requires
        ctx.wf(),
        assembled(isf, ctx),
    ensures
        isf.base_types@.contains_key("void"@),
        isf.defines(Descr::Base { name: "void"@ }),
{
    lemma_void_has_a_base_type(ctx.btf@, ctx.btf.byte_order());
}

} // verus!
