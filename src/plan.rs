use vstd::prelude::*;
use crate::archive::ArchiveEntry;
use crate::policy::{decide, decision_of, exec_mode_entry, Decision, Policy};
use crate::policy::pass_skipped;
use crate::tree::{
    apply_entries, apply_entry, backend_marker, frontend_marker, interpreter_marker, materialize,
    present, with_ancestors, EntryView, Node, Tree,
};

verus! {

/// One filesystem operation, on a path relative to the installation root.
pub enum FsAction {
    /// Create the directory and every missing ancestor; an existing one is fine.
    CreateDir(String),
    /// Create the missing ancestors, then create or truncate the file and
    /// fill it with these bytes.
    WriteFile(String, Vec<u8>),
    /// Set the mode to 0755 where the platform has such modes.
    SetExecMode(String),
}

pub open spec fn apply_action(t: Tree, a: FsAction) -> Tree {
    match a {
        FsAction::CreateDir(p) => Tree {
            nodes: with_ancestors(t.nodes, p@).insert(p@, Node::Dir),
            ..t
        },
        FsAction::WriteFile(p, d) => Tree {
            nodes: with_ancestors(t.nodes, p@).insert(p@, Node::File(d@)),
            ..t
        },
        FsAction::SetExecMode(p) => Tree { executable: t.executable.insert(p@), ..t },
    }
}

pub open spec fn apply_actions(t: Tree, acts: Seq<FsAction>) -> Tree
    decreases acts.len(),
{
    if acts.len() == 0 {
        t
    } else {
        apply_action(apply_actions(t, acts.drop_last()), acts.last())
    }
}

/// The operations `acts` carry out entry `e` on every tree where the
/// presence of its destination is `exists`.
pub open spec fn realizes(policy: Policy, e: EntryView, exists: bool, acts: Seq<FsAction>) -> bool {
    forall|t: Tree|
        present(t, e.name) == exists ==> #[trigger] apply_actions(t, acts) == apply_entry(policy, t, e)
}

/// Each entry's operations carried out in turn.
pub open spec fn apply_plans(t: Tree, plans: Seq<Seq<FsAction>>) -> Tree
    decreases plans.len(),
{
    if plans.len() == 0 {
        t
    } else {
        apply_actions(apply_plans(t, plans.drop_last()), plans.last())
    }
}

/// Planning each entry against the presence of its destination at the moment
/// it comes, and carrying the plans out in archive order, is the pass itself.
pub proof fn lemma_plans_make_pass(
    policy: Policy,
    t: Tree,
    es: Seq<EntryView>,
    plans: Seq<Seq<FsAction>>,
)
    requires
        plans.len() == es.len(),
        forall|i: int|
            0 <= i < es.len() ==> realizes(
                policy,
                es[i],
                present(apply_entries(policy, t, es.take(i)), es[i].name),
                #[trigger] plans[i],
            ),
    ensures
        apply_plans(t, plans) == apply_entries(policy, t, es),
        !pass_skipped(
            policy,
            present(t, frontend_marker()),
            present(t, backend_marker()),
            present(t, interpreter_marker()),
        ) ==> apply_plans(t, plans) == materialize(policy, t, es),
    decreases es.len(),
{
    if es.len() > 0 {
        let n = es.len() - 1;
        let init = es.drop_last();
        assert forall|i: int| 0 <= i < init.len() implies realizes(
            policy,
            init[i],
            present(apply_entries(policy, t, init.take(i)), init[i].name),
            #[trigger] plans.drop_last()[i],
        ) by {
            assert(init.take(i) =~= es.take(i));
            assert(plans.drop_last()[i] == plans[i]);
        }
        lemma_plans_make_pass(policy, t, init, plans.drop_last());
        assert(es.take(n) =~= init);
        let before = apply_entries(policy, t, init);
        assert(realizes(policy, es[n], present(before, es[n].name), plans[n]));
        assert(apply_actions(before, plans[n]) == apply_entry(policy, before, es[n]));
    }
}

/// The operations that realise one entry, given whether something already
/// stands at its destination. A skipped entry gives no operation at all.
pub fn plan_entry(policy: Policy, entry: ArchiveEntry, exists: bool) -> (r: Vec<FsAction>)
    ensures
        (r@.len() == 0) == (decision_of(policy, entry@.name, exists) == Decision::Skip),
        realizes(policy, entry@, exists, r@),
{
    let ghost e = entry@;
    let mut acts: Vec<FsAction> = Vec::new();
    if decide(policy, entry.name.as_str(), exists) == Decision::Skip {
        return acts;
    }
    let wants_mode = exec_mode_entry(entry.name.as_str());
    let ArchiveEntry { name, is_dir, data } = entry;
    let mode_path = name.clone();
    if is_dir {
        acts.push(FsAction::CreateDir(name));
    } else {
        acts.push(FsAction::WriteFile(name, data));
    }
    if wants_mode {
        acts.push(FsAction::SetExecMode(mode_path));
    }
    assert forall|t: Tree| present(t, e.name) == exists implies #[trigger] apply_actions(t, acts@)
        == apply_entry(policy, t, e) by {
        let s = acts@;
        let first = apply_action(t, s[0]);
        assert(s.subrange(0, 1).drop_last() =~= s.subrange(0, 0));
        assert(s.subrange(0, 0).len() == 0);
        assert(apply_actions(t, s.subrange(0, 0)) == t);
        assert(s.subrange(0, 1).last() == s[0]);
        assert(apply_actions(t, s.subrange(0, 1)) == first);
        if wants_mode {
            assert(s.len() == 2);
            assert(s.drop_last() =~= s.subrange(0, 1));
            assert(apply_actions(t, s) == apply_action(first, s[1]));
        } else {
            assert(s =~= s.subrange(0, 1));
        }
        assert(apply_actions(t, acts@).nodes =~= apply_entry(policy, t, e).nodes);
        assert(apply_actions(t, acts@).executable =~= apply_entry(policy, t, e).executable);
    }
    acts
}

} // verus!
