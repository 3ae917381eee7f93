use vstd::prelude::*;

use crate::errors::FlattenError;
use crate::names::{lemma_first_free_exists, occ_view, resolve_unique_name, resolved_name};

verus! {

// ---------------------------------------------------------------------------
// Planning the relocation.
//
// Once the target directory's entries sit in the staging directory and the
// target itself is gone, each entry needs a destination name in the parent.
// Entries are handled one after another; every entry runs the unique-name
// probe against the names occupied at that moment, so later entries see the
// names earlier entries have claimed.
// ---------------------------------------------------------------------------

/// The views of a listing of names, in order.
pub open spec fn seq_names(vs: Seq<String>) -> Seq<Seq<char>> {
    vs.map_values(|s: String| s@)
}

/// The destination names the relocation assigns, entry by entry: each is
/// the first free candidate against the names occupied so far.
pub open spec fn plan_spec(names: Seq<Seq<char>>, occ: Set<Seq<char>>) -> Seq<Seq<char>>
    decreases names.len(),
{
    if names.len() == 0 {
        Seq::empty()
    } else {
        let d = resolved_name(names[0], occ);
        seq![d] + plan_spec(names.drop_first(), occ.insert(d))
    }
}

proof fn lemma_occ_view_push(vs: Seq<String>, s: String)
    ensures
        occ_view(vs.push(s)) == occ_view(vs).insert(s@),
{
    assert forall|x: Seq<char>| occ_view(vs.push(s)).contains(x) implies occ_view(vs).insert(
        s@,
    ).contains(x) by {
        let i = choose|i: int| 0 <= i < vs.push(s).len() && vs.push(s)[i]@ == x;
        if i < vs.len() {
            assert(vs[i]@ == x);
        }
    }
    assert forall|x: Seq<char>| occ_view(vs).insert(s@).contains(x) implies occ_view(
        vs.push(s),
    ).contains(x) by {
        if occ_view(vs).contains(x) {
            let i = choose|i: int| 0 <= i < vs.len() && vs[i]@ == x;
            assert(vs.push(s)[i]@ == x);
        } else {
            assert(vs.push(s)[vs.len() as int]@ == x);
        }
    }
    assert(occ_view(vs.push(s)) =~= occ_view(vs).insert(s@));
}

/// Assigns a destination name in the parent to every staged entry, in
/// order, each the first free candidate given the occupied names and the
/// destinations already assigned.
pub fn plan_destinations(children: &Vec<String>, occupied: &Vec<String>) -> (dests: Vec<String>)
    ensures
        dests@.len() == children@.len(),
        seq_names(dests@) == plan_spec(seq_names(children@), occ_view(occupied@)),
{
    let ghost occ0 = occ_view(occupied@);
    let ghost all = seq_names(children@);
    let mut occ_acc: Vec<String> = Vec::new();
    let mut i: usize = 0;
    while i < occupied.len()
        invariant
            i <= occupied@.len(),
            occ_acc@.len() == i,
            forall|j: int| 0 <= j < i ==> occ_acc@[j] == occupied@[j],
        decreases occupied@.len() - i,
    {
        occ_acc.push(occupied[i].clone());
        i = i + 1;
    }
    proof {
        assert(occ_acc@ =~= occupied@);
    }
    let mut dests: Vec<String> = Vec::new();
    proof {
        assert(seq_names(dests@) =~= Seq::<Seq<char>>::empty());
        assert(all.skip(0) =~= all);
        assert(seq_names(dests@) + plan_spec(all, occ_view(occ_acc@)) =~= plan_spec(
            all,
            occ_view(occ_acc@),
        ));
    }
    let mut idx: usize = 0;
    while idx < children.len()
        invariant
            idx <= children@.len(),
            all == seq_names(children@),
            occ0 == occ_view(occupied@),
            dests@.len() == idx,
            plan_spec(all, occ0) == seq_names(dests@) + plan_spec(
                all.skip(idx as int),
                occ_view(occ_acc@),
            ),
        decreases children@.len() - idx,
    {
        let d = resolve_unique_name(children[idx].as_str(), &occ_acc);
        proof {
            let rest = all.skip(idx as int);
            assert(rest[0] == all[idx as int]);
            assert(all[idx as int] == children@[idx as int]@);
            assert(d@ == resolved_name(rest[0], occ_view(occ_acc@)));
            assert(rest.drop_first() =~= all.skip(idx as int + 1));
        }
        let ghost occ_before = occ_acc@;
        let ghost dests_before = dests@;
        let d2 = d.clone();
        dests.push(d);
        occ_acc.push(d2);
        proof {
            lemma_occ_view_push(occ_before, occ_acc@.last());
            assert(occ_acc@ =~= occ_before.push(occ_acc@.last()));
            assert(seq_names(dests@) =~= seq_names(dests_before).push(dests@.last()@));
            assert(seq_names(dests@) + plan_spec(all.skip(idx as int + 1), occ_view(occ_acc@))
                =~= seq_names(dests_before) + plan_spec(all.skip(idx as int), occ_view(occ_before)));
        }
        idx = idx + 1;
    }
    proof {
        assert(all.skip(children@.len() as int) =~= Seq::<Seq<char>>::empty());
        assert(seq_names(dests@) + Seq::<Seq<char>>::empty() =~= seq_names(dests@));
    }
    dests
}

/// The destinations cover every entry, avoid every occupied name, and are
/// pairwise distinct.
pub proof fn lemma_plan_spec_props(names: Seq<Seq<char>>, occ: Set<Seq<char>>)
    requires
        occ.finite(),
    ensures
        plan_spec(names, occ).len() == names.len(),
        forall|i: int|
            0 <= i < names.len() ==> !occ.contains(#[trigger] plan_spec(names, occ)[i]),
        forall|i: int, j: int|
            0 <= i < j < names.len() ==> plan_spec(names, occ)[i] != plan_spec(names, occ)[j],
    decreases names.len(),
{
    if names.len() > 0 {
        let d = resolved_name(names[0], occ);
        lemma_first_free_exists(names[0], occ);
        assert(!occ.contains(d));
        lemma_plan_spec_props(names.drop_first(), occ.insert(d));
        let tail = plan_spec(names.drop_first(), occ.insert(d));
        let ds = plan_spec(names, occ);
        assert forall|i: int| 0 <= i < names.len() implies !occ.contains(#[trigger] ds[i]) by {
            if i > 0 {
                assert(ds[i] == tail[i - 1]);
                assert(!occ.insert(d).contains(tail[i - 1]));
            }
        }
        assert forall|i: int, j: int| 0 <= i < j < names.len() implies ds[i] != ds[j] by {
            if i == 0 {
                assert(ds[j] == tail[j - 1]);
                assert(!occ.insert(d).contains(tail[j - 1]));
            } else {
                assert(ds[i] == tail[i - 1]);
                assert(ds[j] == tail[j - 1]);
            }
        }
    }
}

// ---------------------------------------------------------------------------
// The checks that precede any filesystem change.
// ---------------------------------------------------------------------------

/// The reserved name of the staging directory, as a sequence of characters.
pub open spec fn staging_name() -> Seq<char> {
    "__temp_flatten_folder"@
}

/// The reserved name of the staging directory, created beside the target
/// to shield in-flight entries from colliding with same-named leftovers.
pub fn staging_dir_name() -> (r: &'static str)
    ensures
        r@ == staging_name(),
{
    "__temp_flatten_folder"
}

/// The checks that must pass before the operation touches the filesystem:
/// the target needs a parent, and the staging directory must not already
/// exist there.  A pre-existing staging directory signals a crashed prior
/// run or a concurrent invocation, and the operation refuses to proceed.
pub fn flatten_preflight(has_parent: bool, staging_exists: bool) -> (r: Result<(), FlattenError>)
    ensures
        !has_parent ==> r == Err::<(), FlattenError>(FlattenError::NoParentDirectory),
        has_parent && staging_exists ==> r == Err::<(), FlattenError>(
            FlattenError::StagingAlreadyExists,
        ),
        has_parent && !staging_exists ==> r == Ok::<(), FlattenError>(()),
{
    if !has_parent {
        Err(FlattenError::NoParentDirectory)
    } else if staging_exists {
        Err(FlattenError::StagingAlreadyExists)
    } else {
        Ok(())
    }
}

/// Accepts the snapshot of the target's children exactly when every child
/// has a usable base name, and hands the names back in listing order.
pub fn check_entry_names(raw: &Vec<Option<String>>) -> (r: Result<Vec<String>, FlattenError>)
    ensures
        r is Ok <==> (forall|i: int| 0 <= i < raw@.len() ==> raw@[i] is Some),
        r matches Ok(v) ==> {
            &&& v@.len() == raw@.len()
            &&& forall|i: int| 0 <= i < raw@.len() ==> raw@[i] == Some(#[trigger] v@[i])
        },
        r is Err ==> r == Err::<Vec<String>, FlattenError>(FlattenError::InvalidEntryName),
{
    let mut names: Vec<String> = Vec::new();
    let mut i: usize = 0;
    while i < raw.len()
        invariant
            i <= raw@.len(),
            names@.len() == i,
            forall|j: int| 0 <= j < i ==> raw@[j] == Some(#[trigger] names@[j]),
        decreases raw@.len() - i,
    {
        match &raw[i] {
            Some(s) => {
                names.push(s.clone());
            },
            None => {
                return Err(FlattenError::InvalidEntryName);
            },
        }
        i = i + 1;
    }
    proof {
        assert forall|j: int| 0 <= j < raw@.len() implies raw@[j] is Some by {
            assert(raw@[j] == Some(names@[j]));
        }
    }
    Ok(names)
}

} // verus!
