use vstd::prelude::*;
use crate::policy::{decision_of, is_runtime_entry, pass_skipped, wants_exec_mode, Decision, Policy};

verus! {

/// What an archive entry holds: its archive-relative name, whether it is a
/// directory, and its decompressed content.
pub struct EntryView {
    pub name: Seq<char>,
    pub is_dir: bool,
    pub data: Seq<u8>,
}

/// What stands at one path of the installation tree.
pub enum Node {
    Dir,
    File(Seq<u8>),
}

/// The installation tree, path by path (paths as the archive names them),
/// with the set of paths whose mode was set to 0755.
pub struct Tree {
    pub nodes: Map<Seq<char>, Node>,
    pub executable: Set<Seq<char>>,
}

pub open spec fn node_of(e: EntryView) -> Node {
    if e.is_dir {
        Node::Dir
    } else {
        Node::File(e.data)
    }
}

pub open spec fn present(t: Tree, p: Seq<char>) -> bool {
    t.nodes.contains_key(p)
}

/// `q` names a directory that contains `n`: a proper prefix of `n` that ends
/// with the separator.
pub open spec fn is_ancestor(q: Seq<char>, n: Seq<char>) -> bool {
    0 < q.len() < n.len() && q.last() == '/' && n.subrange(0, q.len() as int) == q
}

/// The tree with a directory at every ancestor of `n` that was missing.
pub open spec fn with_ancestors(m: Map<Seq<char>, Node>, n: Seq<char>) -> Map<Seq<char>, Node> {
    Map::new(
        |q: Seq<char>| m.contains_key(q) || is_ancestor(q, n),
        |q: Seq<char>|
            if m.contains_key(q) {
                m[q]
            } else {
                Node::Dir
            },
    )
}

/// Every ancestor of a present path is present.
pub open spec fn well_formed(t: Tree) -> bool {
    forall|q: Seq<char>, n: Seq<char>|
        #[trigger] present(t, n) && #[trigger] is_ancestor(q, n) ==> present(t, q)
}

/// Writing an entry: its missing ancestors become directories; the directory
/// is created, or the file is created or truncated and filled; then the mode
/// is restored where the name asks for it.
pub open spec fn write_entry(t: Tree, e: EntryView) -> Tree {
    Tree {
        nodes: with_ancestors(t.nodes, e.name).insert(e.name, node_of(e)),
        executable: if wants_exec_mode(e.name) {
            t.executable.insert(e.name)
        } else {
            t.executable
        },
    }
}

pub open spec fn apply_entry(policy: Policy, t: Tree, e: EntryView) -> Tree {
    if decision_of(policy, e.name, present(t, e.name)) == Decision::Skip {
        t
    } else {
        write_entry(t, e)
    }
}

/// The entries applied one after another, in archive order.
pub open spec fn apply_entries(policy: Policy, t: Tree, es: Seq<EntryView>) -> Tree
    decreases es.len(),
{
    if es.len() == 0 {
        t
    } else {
        apply_entry(policy, apply_entries(policy, t, es.drop_last()), es.last())
    }
}

pub open spec fn frontend_marker() -> Seq<char> {
    seq!['M', 'i', 'n', 'd', 'M', 'o', 'd', 'e', 'l', '.', 'e', 'x', 'e']
}

pub open spec fn backend_marker() -> Seq<char> {
    seq!['b', 'a', 'c', 'k', 'e', 'n', 'd', '/']
}

pub open spec fn interpreter_marker() -> Seq<char> {
    seq!['n', 'o', 'd', 'e', '/', 'n', 'o', 'd', 'e', '.', 'e', 'x', 'e']
}

/// One extraction pass: the whole-tree gate, then every entry.
pub open spec fn materialize(policy: Policy, t: Tree, es: Seq<EntryView>) -> Tree {
    if pass_skipped(
        policy,
        present(t, frontend_marker()),
        present(t, backend_marker()),
        present(t, interpreter_marker()),
    ) {
        t
    } else {
        apply_entries(policy, t, es)
    }
}

/// What the tree holds at one path: the node, if any, and the mode flag.
pub open spec fn slot(t: Tree, p: Seq<char>) -> (Option<Node>, bool) {
    (if t.nodes.contains_key(p) {
        Some(t.nodes[p])
    } else {
        None
    }, t.executable.contains(p))
}

pub open spec fn slot_step(policy: Policy, x: (Option<Node>, bool), e: EntryView, p: Seq<char>) -> (
    Option<Node>,
    bool,
) {
    if e.name == p {
        if decision_of(policy, p, x.0 is Some) == Decision::Skip {
            x
        } else {
            (Some(node_of(e)), x.1 || wants_exec_mode(p))
        }
    } else if is_ancestor(p, e.name) && x.0 is None {
        (Some(Node::Dir), x.1)
    } else {
        x
    }
}

pub open spec fn slot_run(policy: Policy, x: (Option<Node>, bool), es: Seq<EntryView>, p: Seq<char>) -> (
    Option<Node>,
    bool,
)
    decreases es.len(),
{
    if es.len() == 0 {
        x
    } else {
        slot_step(policy, slot_run(policy, x, es.drop_last(), p), es.last(), p)
    }
}

pub open spec fn names_path(es: Seq<EntryView>, p: Seq<char>) -> bool {
    exists|i: int| 0 <= i < es.len() && es[i].name == p
}

pub open spec fn contains_under(es: Seq<EntryView>, p: Seq<char>) -> bool {
    exists|i: int| 0 <= i < es.len() && is_ancestor(p, es[i].name)
}

proof fn lemma_ancestor_transitive(q: Seq<char>, a: Seq<char>, n: Seq<char>)
    requires
        is_ancestor(q, a),
        is_ancestor(a, n),
    ensures
        is_ancestor(q, n),
{
    assert forall|k: int| 0 <= k < q.len() implies n[k] == q[k] by {
        assert(n.subrange(0, a.len() as int)[k] == a[k]);
        assert(a.subrange(0, q.len() as int)[k] == q[k]);
    }
    assert(n.subrange(0, q.len() as int) =~= q);
}

proof fn lemma_write_well_formed(t: Tree, e: EntryView)
    requires
        well_formed(t),
    ensures
        well_formed(write_entry(t, e)),
{
    let w = write_entry(t, e);
    assert forall|q: Seq<char>, n: Seq<char>|
        #[trigger] present(w, n) && #[trigger] is_ancestor(q, n) implies present(w, q) by {
        if present(t, n) {
            assert(present(t, q));
        } else if n != e.name {
            lemma_ancestor_transitive(q, n, e.name);
        }
    }
}

/// Laying out entries keeps every ancestor of a present path present.
pub proof fn lemma_entries_well_formed(policy: Policy, t: Tree, es: Seq<EntryView>)
    requires
        well_formed(t),
    ensures
        well_formed(apply_entries(policy, t, es)),
    decreases es.len(),
{
    if es.len() > 0 {
        lemma_entries_well_formed(policy, t, es.drop_last());
        lemma_write_well_formed(apply_entries(policy, t, es.drop_last()), es.last());
    }
}

/// The node of the last entry named `p`.
pub open spec fn last_node(es: Seq<EntryView>, p: Seq<char>) -> Node
    decreases es.len(),
{
    if es.len() == 0 {
        Node::Dir
    } else if es.last().name == p {
        node_of(es.last())
    } else {
        last_node(es.drop_last(), p)
    }
}

/// Each path evolves on its own: only the entries of that name touch it.
pub proof fn lemma_slot_projection(policy: Policy, t: Tree, es: Seq<EntryView>, p: Seq<char>)
    requires
        well_formed(t),
    ensures
        slot(apply_entries(policy, t, es), p) == slot_run(policy, slot(t, p), es, p),
    decreases es.len(),
{
    if es.len() > 0 {
        let init = es.drop_last();
        let e = es.last();
        lemma_slot_projection(policy, t, init, p);
        lemma_entries_well_formed(policy, t, init);
        let before = apply_entries(policy, t, init);
        if e.name != p && is_ancestor(p, e.name) && present(before, e.name) {
            assert(present(before, p));
        }
    }
}

proof fn lemma_runtime_slot_kept(x: (Option<Node>, bool), es: Seq<EntryView>, p: Seq<char>)
    requires
        is_runtime_entry(p),
        x.0 is Some,
    ensures
        slot_run(Policy::UpdateAware, x, es, p) == x,
    decreases es.len(),
{
    if es.len() > 0 {
        lemma_runtime_slot_kept(x, es.drop_last(), p);
    }
}

proof fn lemma_runtime_slot_filled(x: (Option<Node>, bool), es: Seq<EntryView>, p: Seq<char>)
    ensures
        slot_run(Policy::UpdateAware, x, es, p) == x || slot_run(
            Policy::UpdateAware,
            x,
            es,
            p,
        ).0 is Some,
    decreases es.len(),
{
    if es.len() > 0 {
        lemma_runtime_slot_filled(x, es.drop_last(), p);
    }
}

pub open spec fn plain_slot_result(x: (Option<Node>, bool), es: Seq<EntryView>, p: Seq<char>) -> (
    Option<Node>,
    bool,
) {
    if names_path(es, p) {
        (Some(last_node(es, p)), x.1 || wants_exec_mode(p))
    } else if contains_under(es, p) && x.0 is None {
        (Some(Node::Dir), x.1)
    } else {
        x
    }
}

proof fn lemma_plain_slot(x: (Option<Node>, bool), es: Seq<EntryView>, p: Seq<char>)
    requires
        !is_runtime_entry(p),
    ensures
        slot_run(Policy::UpdateAware, x, es, p) == plain_slot_result(x, es, p),
    decreases es.len(),
{
    if es.len() > 0 {
        let init = es.drop_last();
        let e = es.last();
        lemma_plain_slot(x, init, p);
        if names_path(init, p) {
            let i = choose|i: int| 0 <= i < init.len() && init[i].name == p;
            assert(es[i].name == p);
        }
        if contains_under(init, p) {
            let i = choose|i: int| 0 <= i < init.len() && is_ancestor(p, init[i].name);
            assert(is_ancestor(p, es[i].name));
        }
        if e.name == p {
            assert(es[es.len() - 1].name == p);
        }
        if is_ancestor(p, e.name) {
            assert(is_ancestor(p, es[es.len() - 1].name));
        }
        if names_path(es, p) && e.name != p {
            let i = choose|i: int| 0 <= i < es.len() && es[i].name == p;
            assert(init[i].name == p);
        }
        if contains_under(es, p) && !is_ancestor(p, e.name) {
            let i = choose|i: int| 0 <= i < es.len() && is_ancestor(p, es[i].name);
            assert(is_ancestor(p, init[i].name));
        }
    }
}

proof fn lemma_slot_idempotent(x: (Option<Node>, bool), es: Seq<EntryView>, p: Seq<char>)
    ensures
        slot_run(Policy::UpdateAware, slot_run(Policy::UpdateAware, x, es, p), es, p) == slot_run(
            Policy::UpdateAware,
            x,
            es,
            p,
        ),
{
    let y = slot_run(Policy::UpdateAware, x, es, p);
    if is_runtime_entry(p) {
        lemma_runtime_slot_filled(x, es, p);
        if y.0 is Some {
            lemma_runtime_slot_kept(y, es, p);
        }
    } else {
        lemma_plain_slot(x, es, p);
        lemma_plain_slot(y, es, p);
    }
}

proof fn lemma_slots_equal(a: Tree, b: Tree)
    requires
        forall|p: Seq<char>| slot(a, p) == slot(b, p),
    ensures
        a == b,
{
    assert forall|p: Seq<char>| a.nodes.contains_key(p) == b.nodes.contains_key(p) by {
        assert(slot(a, p) == slot(b, p));
    }
    assert forall|p: Seq<char>| a.nodes.contains_key(p) implies a.nodes[p] == b.nodes[p] by {
        assert(slot(a, p) == slot(b, p));
    }
    assert forall|p: Seq<char>| a.executable.contains(p) == b.executable.contains(p) by {
        assert(slot(a, p) == slot(b, p));
    }
    assert(a.nodes =~= b.nodes);
    assert(a.executable =~= b.executable);
}

proof fn lemma_slot_presence(x: (Option<Node>, bool), es: Seq<EntryView>, p: Seq<char>)
    ensures
        slot_run(Policy::UpdateAware, x, es, p).0 is Some <==> (x.0 is Some || names_path(es, p)
            || contains_under(es, p)),
    decreases es.len(),
{
    if es.len() > 0 {
        let init = es.drop_last();
        let e = es.last();
        lemma_slot_presence(x, init, p);
        if names_path(init, p) {
            let i = choose|i: int| 0 <= i < init.len() && init[i].name == p;
            assert(es[i].name == p);
        }
        if contains_under(init, p) {
            let i = choose|i: int| 0 <= i < init.len() && is_ancestor(p, init[i].name);
            assert(is_ancestor(p, es[i].name));
        }
        if e.name == p {
            assert(es[es.len() - 1].name == p);
        }
        if is_ancestor(p, e.name) {
            assert(is_ancestor(p, es[es.len() - 1].name));
        }
        if names_path(es, p) && e.name != p {
            let i = choose|i: int| 0 <= i < es.len() && es[i].name == p;
            assert(init[i].name == p);
        }
        if contains_under(es, p) && !is_ancestor(p, e.name) {
            let i = choose|i: int| 0 <= i < es.len() && is_ancestor(p, es[i].name);
            assert(is_ancestor(p, init[i].name));
        }
    }
}

/// Under `UpdateAware`, a pass over a well-formed tree leaves it well formed,
/// and afterwards exactly these paths are present: those present before, the
/// name of every entry, and every directory that contains an entry.
pub proof fn lemma_pass_lays_out(t: Tree, es: Seq<EntryView>)
    requires
        well_formed(t),
    ensures
        well_formed(materialize(Policy::UpdateAware, t, es)),
        forall|q: Seq<char>|
            #[trigger] present(materialize(Policy::UpdateAware, t, es), q) <==> (present(t, q)
                || names_path(es, q) || contains_under(es, q)),
{
    lemma_entries_well_formed(Policy::UpdateAware, t, es);
    assert forall|q: Seq<char>|
        #[trigger] present(materialize(Policy::UpdateAware, t, es), q) <==> (present(t, q)
            || names_path(es, q) || contains_under(es, q)) by {
        lemma_slot_projection(Policy::UpdateAware, t, es, q);
        lemma_slot_presence(slot(t, q), es, q);
    }
}

/// Under `UpdateAware`, a second pass of the same archive leaves the tree
/// exactly as the first pass left it: interpreter payload is not touched
/// again, and every other entry is rewritten with what it already holds.
pub proof fn lemma_update_aware_idempotent(t: Tree, es: Seq<EntryView>)
    requires
        well_formed(t),
    ensures
        materialize(Policy::UpdateAware, materialize(Policy::UpdateAware, t, es), es)
            == materialize(Policy::UpdateAware, t, es),
{
    let once = apply_entries(Policy::UpdateAware, t, es);
    let twice = apply_entries(Policy::UpdateAware, once, es);
    lemma_entries_well_formed(Policy::UpdateAware, t, es);
    assert forall|p: Seq<char>| slot(twice, p) == slot(once, p) by {
        lemma_slot_projection(Policy::UpdateAware, t, es, p);
        lemma_slot_projection(Policy::UpdateAware, once, es, p);
        lemma_slot_idempotent(slot(t, p), es, p);
    }
    lemma_slots_equal(twice, once);
}

/// Under `UpdateAware`, interpreter payload that is already present keeps its
/// content and its mode, whatever the archive holds at that path.
pub proof fn lemma_runtime_payload_kept(t: Tree, es: Seq<EntryView>, p: Seq<char>)
    requires
        well_formed(t),
        is_runtime_entry(p),
        present(t, p),
    ensures
        present(materialize(Policy::UpdateAware, t, es), p),
        materialize(Policy::UpdateAware, t, es).nodes[p] == t.nodes[p],
        materialize(Policy::UpdateAware, t, es).executable.contains(p) == t.executable.contains(p),
{
    lemma_slot_projection(Policy::UpdateAware, t, es, p);
    lemma_runtime_slot_kept(slot(t, p), es, p);
}

proof fn lemma_runtime_slot_filled_when_named(x: (Option<Node>, bool), es: Seq<EntryView>, p: Seq<char>)
    requires
        names_path(es, p),
    ensures
        slot_run(Policy::UpdateAware, x, es, p).0 is Some,
    decreases es.len(),
{
    let init = es.drop_last();
    if es.last().name != p {
        let i = choose|i: int| 0 <= i < es.len() && es[i].name == p;
        assert(i < init.len());
        assert(init[i].name == p);
        lemma_runtime_slot_filled_when_named(x, init, p);
    } else if init.len() > 0 {
        lemma_runtime_slot_filled(x, init, p);
    }
}

/// Under `UpdateAware`, after a first pass every entry of the interpreter
/// payload is present, and a second pass of the same archive leaves its
/// content and mode as the first pass left them.
pub proof fn lemma_runtime_untouched_on_rerun(t: Tree, es: Seq<EntryView>, i: int)
    requires
        well_formed(t),
        0 <= i < es.len(),
        is_runtime_entry(es[i].name),
    ensures
        present(materialize(Policy::UpdateAware, t, es), es[i].name),
        slot(
            materialize(Policy::UpdateAware, materialize(Policy::UpdateAware, t, es), es),
            es[i].name,
        ) == slot(materialize(Policy::UpdateAware, t, es), es[i].name),
{
    let p = es[i].name;
    let once = materialize(Policy::UpdateAware, t, es);
    lemma_slot_projection(Policy::UpdateAware, t, es, p);
    lemma_runtime_slot_filled_when_named(slot(t, p), es, p);
    lemma_entries_well_formed(Policy::UpdateAware, t, es);
    lemma_runtime_payload_kept(once, es, p);
}

/// Under `UpdateAware`, an entry outside the interpreter payload that no later
/// entry names again ends up on disk with exactly its own content, whatever
/// stood there before.
pub proof fn lemma_entry_overwrites(t: Tree, es: Seq<EntryView>, i: int)
    requires
        well_formed(t),
        0 <= i < es.len(),
        !is_runtime_entry(es[i].name),
        forall|j: int| i < j < es.len() ==> es[j].name != es[i].name,
    ensures
        present(materialize(Policy::UpdateAware, t, es), es[i].name),
        materialize(Policy::UpdateAware, t, es).nodes[es[i].name] == node_of(es[i]),
{
    let p = es[i].name;
    lemma_slot_projection(Policy::UpdateAware, t, es, p);
    lemma_plain_slot(slot(t, p), es, p);
    lemma_last_node(es, i);
}

proof fn lemma_last_node(es: Seq<EntryView>, i: int)
    requires
        0 <= i < es.len(),
        forall|j: int| i < j < es.len() ==> es[j].name != es[i].name,
    ensures
        last_node(es, es[i].name) == node_of(es[i]),
    decreases es.len(),
{
    if i < es.len() - 1 {
        assert(es.last().name != es[i].name);
        let init = es.drop_last();
        assert(init[i] == es[i]);
        assert forall|j: int| i < j < init.len() implies init[j].name != init[i].name by {
            assert(init[j] == es[j]);
        }
        lemma_last_node(init, i);
    }
}

/// Under `FirstRunOnly`, when the frontend executable, the backend directory
/// and the interpreter are all present, the pass writes nothing.
pub proof fn lemma_first_run_gate(t: Tree, es: Seq<EntryView>)
    requires
        present(t, frontend_marker()),
        present(t, backend_marker()),
        present(t, interpreter_marker()),
    ensures
        materialize(Policy::FirstRunOnly, t, es) == t,
{
}

/// Writing a directory entry where that directory already stands changes no
/// path of the tree, neither its own nor any other.
pub proof fn lemma_directory_rewrite(t: Tree, e: EntryView)
    requires
        well_formed(t),
        e.is_dir,
        present(t, e.name),
        t.nodes[e.name] == Node::Dir,
    ensures
        write_entry(t, e).nodes == t.nodes,
{
    assert(with_ancestors(t.nodes, e.name) =~= t.nodes);
    assert(t.nodes.insert(e.name, Node::Dir) =~= t.nodes);
}

} // verus!
