use vstd::prelude::*;

use crate::plan::{lemma_plan_spec_props, plan_spec, staging_name};

verus! {

// ---------------------------------------------------------------------------
// A model of the whole operation.
//
// A directory is a map from entry names to entry identities.  An identity
// stands for an entry's entire content; a move carries it along unchanged,
// so a subdirectory travels as one unit and is never descended into.  The
// model follows a successful run: by relocation time the target directory
// has been removed (its entries sit in staging, whose reserved name is
// still occupied), and each staged entry is then inserted at its planned
// destination in the parent.
// ---------------------------------------------------------------------------

/// The names occupied in the parent while destinations are resolved: the
/// parent's entries without the removed target, plus the staging directory
/// itself.
pub open spec fn flatten_occupied(parent: Map<Seq<char>, nat>, dir_name: Seq<char>) -> Set<
    Seq<char>,
> {
    parent.dom().remove(dir_name).insert(staging_name())
}

/// The destination names a successful flatten gives the target's entries.
pub open spec fn flatten_dests(
    parent: Map<Seq<char>, nat>,
    dir_name: Seq<char>,
    child_names: Seq<Seq<char>>,
) -> Seq<Seq<char>> {
    plan_spec(child_names, flatten_occupied(parent, dir_name))
}

/// Entries inserted one after another, each at its destination name.
pub open spec fn insert_all(m: Map<Seq<char>, nat>, ks: Seq<Seq<char>>, vs: Seq<nat>) -> Map<
    Seq<char>,
    nat,
>
    decreases ks.len(),
{
    if ks.len() == 0 {
        m
    } else {
        insert_all(m.insert(ks[0], vs[0]), ks.drop_first(), vs.drop_first())
    }
}

/// The parent directory after a successful flatten: the target is gone and
/// each of its entries sits at its destination name.
pub open spec fn flatten_final(
    parent: Map<Seq<char>, nat>,
    dir_name: Seq<char>,
    child_names: Seq<Seq<char>>,
    child_ids: Seq<nat>,
) -> Map<Seq<char>, nat> {
    insert_all(parent.remove(dir_name), flatten_dests(parent, dir_name, child_names), child_ids)
}

proof fn lemma_insert_all(m: Map<Seq<char>, nat>, ks: Seq<Seq<char>>, vs: Seq<nat>)
    requires
        vs.len() == ks.len(),
        ks.no_duplicates(),
        forall|i: int| 0 <= i < ks.len() ==> !m.dom().contains(#[trigger] ks[i]),
        m.dom().finite(),
    ensures
        insert_all(m, ks, vs).dom() == m.dom().union(ks.to_set()),
        forall|i: int| 0 <= i < ks.len() ==> insert_all(m, ks, vs)[#[trigger] ks[i]] == vs[i],
        forall|x: Seq<char>| m.dom().contains(x) ==> insert_all(m, ks, vs)[x] == m[x],
        insert_all(m, ks, vs).dom().finite(),
        insert_all(m, ks, vs).dom().len() == m.dom().len() + ks.len(),
    decreases ks.len(),
{
    if ks.len() == 0 {
        assert(ks.to_set() =~= Set::<Seq<char>>::empty());
        assert(m.dom().union(ks.to_set()) =~= m.dom());
    } else {
        let m1 = m.insert(ks[0], vs[0]);
        let kt = ks.drop_first();
        let vt = vs.drop_first();
        assert forall|i: int, j: int|
            0 <= i < kt.len() && 0 <= j < kt.len() && i != j implies kt[i] != kt[j] by {
            assert(kt[i] == ks[i + 1]);
            assert(kt[j] == ks[j + 1]);
        }
        assert forall|i: int| 0 <= i < kt.len() implies !m1.dom().contains(#[trigger] kt[i]) by {
            assert(kt[i] == ks[i + 1]);
            assert(ks[i + 1] != ks[0]);
            assert(!m.dom().contains(ks[i + 1]));
        }
        assert(m1.dom() =~= m.dom().insert(ks[0]));
        lemma_insert_all(m1, kt, vt);
        assert(ks.to_set() =~= kt.to_set().insert(ks[0])) by {
            assert forall|x: Seq<char>| ks.to_set().contains(x) implies kt.to_set().insert(
                ks[0],
            ).contains(x) by {
                let i = choose|i: int| 0 <= i < ks.len() && ks[i] == x;
                if i > 0 {
                    assert(kt[i - 1] == x);
                    assert(kt.contains(x));
                }
            }
            assert forall|x: Seq<char>| kt.to_set().insert(ks[0]).contains(x) implies ks.to_set()
                .contains(x) by {
                if kt.to_set().contains(x) {
                    let i = choose|i: int| 0 <= i < kt.len() && kt[i] == x;
                    assert(ks[i + 1] == x);
                    assert(ks.contains(x));
                } else {
                    assert(ks.contains(ks[0]));
                }
            }
        }
        assert(insert_all(m, ks, vs).dom() =~= m.dom().union(ks.to_set()));
        assert forall|x: Seq<char>| m.dom().contains(x) implies insert_all(m, ks, vs)[x]
            == m[x] by {
            assert(x != ks[0]);
            assert(m1.dom().contains(x));
            assert(insert_all(m1, kt, vt)[x] == m1[x]);
        }
        assert forall|i: int| 0 <= i < ks.len() implies insert_all(m, ks, vs)[#[trigger] ks[i]]
            == vs[i] by {
            if i == 0 {
                assert(m1.dom().contains(ks[0]));
                assert(insert_all(m1, kt, vt)[ks[0]] == m1[ks[0]]);
            } else {
                assert(kt[i - 1] == ks[i]);
                assert(vt[i - 1] == vs[i]);
            }
        }
    }
}

/// Completeness: a successful flatten assigns every entry of the target a
/// destination, and every one of them is present in the parent afterwards.
/// The final parent holds exactly its own previous entries (less the
/// removed target) together with the relocated ones; in particular the
/// target directory is gone — its name occurs afterwards only if a
/// relocated entry claimed it as a destination.
pub proof fn lemma_flatten_completeness(
    parent: Map<Seq<char>, nat>,
    dir_name: Seq<char>,
    child_names: Seq<Seq<char>>,
    child_ids: Seq<nat>,
)
    requires
        parent.dom().finite(),
        child_ids.len() == child_names.len(),
    ensures
        flatten_dests(parent, dir_name, child_names).len() == child_names.len(),
        forall|i: int|
            0 <= i < child_names.len() ==> flatten_final(
                parent,
                dir_name,
                child_names,
                child_ids,
            ).dom().contains(#[trigger] flatten_dests(parent, dir_name, child_names)[i]),
        flatten_final(parent, dir_name, child_names, child_ids).dom() == parent.dom().remove(
            dir_name,
        ).union(flatten_dests(parent, dir_name, child_names).to_set()),
        flatten_final(parent, dir_name, child_names, child_ids).dom().contains(dir_name)
            ==> flatten_dests(parent, dir_name, child_names).contains(dir_name),
{
    lemma_flatten_model(parent, dir_name, child_names, child_ids);
    let ds = flatten_dests(parent, dir_name, child_names);
    if flatten_final(parent, dir_name, child_names, child_ids).dom().contains(dir_name) {
        assert(!parent.dom().remove(dir_name).contains(dir_name));
        assert(ds.to_set().contains(dir_name));
    }
}

/// No loss: each relocated entry keeps its identity — a subdirectory moves
/// as one unit, content intact — every pre-existing entry of the parent
/// other than the target keeps its own, and the counts add up, so nothing
/// is deleted or duplicated.
pub proof fn lemma_flatten_preserves_entries(
    parent: Map<Seq<char>, nat>,
    dir_name: Seq<char>,
    child_names: Seq<Seq<char>>,
    child_ids: Seq<nat>,
)
    requires
        parent.dom().finite(),
        child_ids.len() == child_names.len(),
    ensures
        forall|i: int|
            0 <= i < child_names.len() ==> flatten_final(parent, dir_name, child_names, child_ids)[
                #[trigger] flatten_dests(parent, dir_name, child_names)[i]
            ] == child_ids[i],
        forall|x: Seq<char>|
            parent.dom().contains(x) && x != dir_name ==> flatten_final(
                parent,
                dir_name,
                child_names,
                child_ids,
            )[x] == parent[x],
        flatten_final(parent, dir_name, child_names, child_ids).dom().len() == parent.dom().remove(
            dir_name,
        ).len() + child_names.len(),
{
    lemma_flatten_model(parent, dir_name, child_names, child_ids);
}

/// Uniqueness: no two relocated entries share a destination, none lands on
/// a name that was already occupied in the parent, and none claims the
/// staging directory's reserved name.
pub proof fn lemma_flatten_no_collisions(
    parent: Map<Seq<char>, nat>,
    dir_name: Seq<char>,
    child_names: Seq<Seq<char>>,
    child_ids: Seq<nat>,
)
    requires
        parent.dom().finite(),
        child_ids.len() == child_names.len(),
    ensures
        forall|i: int, j: int|
            0 <= i < j < child_names.len() ==> flatten_dests(parent, dir_name, child_names)[i]
                != flatten_dests(parent, dir_name, child_names)[j],
        forall|i: int|
            0 <= i < child_names.len() ==> !parent.dom().remove(dir_name).contains(
                #[trigger] flatten_dests(parent, dir_name, child_names)[i],
            ),
        forall|i: int|
            0 <= i < child_names.len() ==> #[trigger] flatten_dests(parent, dir_name, child_names)[i]
                != staging_name(),
{
    lemma_flatten_model(parent, dir_name, child_names, child_ids);
}

proof fn lemma_flatten_model(
    parent: Map<Seq<char>, nat>,
    dir_name: Seq<char>,
    child_names: Seq<Seq<char>>,
    child_ids: Seq<nat>,
)
    requires
        parent.dom().finite(),
        child_ids.len() == child_names.len(),
    ensures
        flatten_dests(parent, dir_name, child_names).len() == child_names.len(),
        forall|i: int, j: int|
            0 <= i < j < child_names.len() ==> flatten_dests(parent, dir_name, child_names)[i]
                != flatten_dests(parent, dir_name, child_names)[j],
        forall|i: int|
            0 <= i < child_names.len() ==> !flatten_occupied(parent, dir_name).contains(
                #[trigger] flatten_dests(parent, dir_name, child_names)[i],
            ),
        forall|i: int|
            0 <= i < child_names.len() ==> !parent.dom().remove(dir_name).contains(
                #[trigger] flatten_dests(parent, dir_name, child_names)[i],
            ),
        forall|i: int|
            0 <= i < child_names.len() ==> #[trigger] flatten_dests(parent, dir_name, child_names)[i]
                != staging_name(),
        flatten_final(parent, dir_name, child_names, child_ids).dom() == parent.dom().remove(
            dir_name,
        ).union(flatten_dests(parent, dir_name, child_names).to_set()),
        forall|i: int|
            0 <= i < child_names.len() ==> flatten_final(parent, dir_name, child_names, child_ids)[
                #[trigger] flatten_dests(parent, dir_name, child_names)[i]
            ] == child_ids[i],
        forall|i: int|
            0 <= i < child_names.len() ==> flatten_final(
                parent,
                dir_name,
                child_names,
                child_ids,
            ).dom().contains(#[trigger] flatten_dests(parent, dir_name, child_names)[i]),
        forall|x: Seq<char>|
            parent.dom().contains(x) && x != dir_name ==> flatten_final(
                parent,
                dir_name,
                child_names,
                child_ids,
            )[x] == parent[x],
        flatten_final(parent, dir_name, child_names, child_ids).dom().len() == parent.dom().remove(
            dir_name,
        ).len() + child_names.len(),
        flatten_final(parent, dir_name, child_names, child_ids).dom().finite(),
{
    let occ = flatten_occupied(parent, dir_name);
    let ds = flatten_dests(parent, dir_name, child_names);
    let base = parent.remove(dir_name);
    assert(occ.finite());
    lemma_plan_spec_props(child_names, occ);
    assert(base.dom() =~= parent.dom().remove(dir_name));
    assert forall|i: int| 0 <= i < ds.len() implies !base.dom().contains(#[trigger] ds[i]) by {
        assert(!occ.contains(ds[i]));
        assert(occ.contains(staging_name()));
        if base.dom().contains(ds[i]) {
            assert(occ.contains(ds[i]));
        }
    }
    assert forall|i: int| 0 <= i < ds.len() implies #[trigger] ds[i] != staging_name() by {
        assert(occ.contains(staging_name()));
        assert(!occ.contains(ds[i]));
    }
    assert(ds.no_duplicates());
    lemma_insert_all(base, ds, child_ids);
    assert forall|x: Seq<char>|
        parent.dom().contains(x) && x != dir_name implies flatten_final(
        parent,
        dir_name,
        child_names,
        child_ids,
    )[x] == parent[x] by {
        assert(base.dom().contains(x));
        assert(base[x] == parent[x]);
    }
}

} // verus!
