//! The per-stage scheduler: it records each system's declared accesses, builds
//! the conflict relation, and packs the systems into groups whose members may
//! run at the same time.

use vstd::prelude::*;
use vstd::string::*;
use crate::ecs::World;
use crate::error::Trace;
use crate::handle::named;
use crate::params::{Fetch, System};

verus! {
/// One declared access of a system: read or write, of a component or a resource.
#[derive(PartialEq, Eq, Structural, Clone, Copy, Debug)]
pub enum Accessor {
    /// Writes the resource with the given number.
    ResMut(u16),
    /// Reads the resource with the given number.
    ResRef(u16),
    /// Reads the component with the given number.
    Ref(u16),
    /// Writes the component with the given number.
    Mut(u16),
}

impl Accessor {
    /// Two accesses clash when they name the same component, or the same
    /// resource, and at least one of them writes.
    pub open spec fn clashes(self, other: Accessor) -> bool {
        match (self, other) {
            (Accessor::Mut(a), Accessor::Mut(b)) => a == b,
            (Accessor::Mut(a), Accessor::Ref(b)) => a == b,
            (Accessor::Ref(a), Accessor::Mut(b)) => a == b,
            (Accessor::ResMut(a), Accessor::ResMut(b)) => a == b,
            (Accessor::ResMut(a), Accessor::ResRef(b)) => a == b,
            (Accessor::ResRef(a), Accessor::ResMut(b)) => a == b,
            _ => false,
        }
    }
}

/// Two access lists conflict when some access of the first clashes with some
/// access of the second.
pub open spec fn conflicting(a: Seq<Accessor>, b: Seq<Accessor>) -> bool {
    exists|i: int, j: int|
        0 <= i < a.len() && 0 <= j < b.len() && (#[trigger] a[i]).clashes(#[trigger] b[j])
}

/// Whether the list holds the access.
fn list_has(list: &Vec<Accessor>, wanted: Accessor) -> (found: bool)
    ensures
        found == list@.contains(wanted),
{
    let mut k: usize = 0;
    while k < list.len()
        invariant
            k <= list.len(),
            forall|q: int| 0 <= q < k ==> list@[q] != wanted,
        decreases list.len() - k,
    {
        if list[k] == wanted {
            return true;
        }
        k += 1;
    }
    false
}

/// Whether the access clashes with some access of the list.
fn clashes_with_list(accessor: Accessor, list: &Vec<Accessor>) -> (found: bool)
    ensures
        found == exists|j: int| 0 <= j < list@.len() && accessor.clashes(#[trigger] list@[j]),
{
    let found = match accessor {
        Accessor::Ref(id) => list_has(list, Accessor::Mut(id)),
        Accessor::Mut(id) => list_has(list, Accessor::Mut(id)) || list_has(list, Accessor::Ref(id)),
        Accessor::ResRef(id) => list_has(list, Accessor::ResMut(id)),
        Accessor::ResMut(id) => list_has(list, Accessor::ResMut(id)) || list_has(
            list,
            Accessor::ResRef(id),
        ),
    };
    proof {
        assert forall|j: int| 0 <= j < list@.len() && accessor.clashes(#[trigger] list@[j]) implies found by {}
    }
    found
}

/// Whether two access lists conflict.
pub fn conflicts(a: &Vec<Accessor>, b: &Vec<Accessor>) -> (found: bool)
    ensures
        found == conflicting(a@, b@),
{
    let mut k: usize = 0;
    while k < a.len()
        invariant
            k <= a.len(),
            forall|i: int, j: int|
                0 <= i < k && 0 <= j < b@.len() ==> !(#[trigger] a@[i]).clashes(#[trigger] b@[j]),
        decreases a.len() - k,
    {
        if clashes_with_list(a[k], b) {
            return true;
        }
        k += 1;
    }
    false
}

/// A registered system: its name, its declared accesses, the positions of the
/// peers it can run beside, and the trace of a failed declaration, if any.
pub struct Node {
    pub id: usize,
    pub name: String,
    pub accessors: Vec<Accessor>,
    pub edges: Vec<usize>,
    pub failure: Option<String>,
}

/// What a node holds, as plain values.
pub struct NodeView {
    pub id: usize,
    pub name: Seq<char>,
    pub accessors: Seq<Accessor>,
    pub edges: Seq<usize>,
    pub failure: Option<Seq<char>>,
}

impl View for Node {
    type V = NodeView;

    open spec fn view(&self) -> NodeView {
        NodeView {
            id: self.id,
            name: self.name@,
            accessors: self.accessors@,
            edges: self.edges@,
            failure: match self.failure {
                Some(trace) => Some(trace@),
                None => None,
            },
        }
    }
}

/// The views of a list of nodes, in order.
pub open spec fn node_views(nodes: Seq<Node>) -> Seq<NodeView> {
    Seq::new(nodes.len(), |i: int| nodes[i]@)
}

/// Systems that may run at the same time.
pub struct Group {
    pub systems: Vec<Node>,
}

impl View for Group {
    type V = Seq<NodeView>;

    open spec fn view(&self) -> Seq<NodeView> {
        node_views(self.systems@)
    }
}

/// The views of a list of groups, in order.
pub open spec fn group_views(groups: Seq<Group>) -> Seq<Seq<NodeView>> {
    Seq::new(groups.len(), |g: int| groups[g]@)
}

/// The positions below `upto`, in ascending order, of the peers of system `i`
/// that do not conflict with it.
pub open spec fn peers(nodes: Seq<NodeView>, i: int, upto: int) -> Seq<usize>
    decreases upto,
{
    if upto <= 0 {
        Seq::empty()
    } else {
        let rest = peers(nodes, i, upto - 1);
        if upto - 1 != i && !conflicting(nodes[i].accessors, nodes[upto - 1].accessors) {
            rest.push((upto - 1) as usize)
        } else {
            rest
        }
    }
}

/// The nodes with their edges filled in: each lists all its compatible peers.
pub open spec fn linked(nodes: Seq<NodeView>) -> Seq<NodeView> {
    Seq::new(
        nodes.len(),
        |i: int|
            NodeView {
                id: nodes[i].id,
                name: nodes[i].name,
                accessors: nodes[i].accessors,
                edges: peers(nodes, i, nodes.len() as int),
                failure: nodes[i].failure,
            },
    )
}

/// The order in which nodes wait to be placed: more compatible peers first and,
/// among equals, the later registration first. Placement takes from the end, so
/// the least flexible system is placed first and, among equals, the one that
/// was registered first.
pub open spec fn goes_before(a: NodeView, b: NodeView) -> bool {
    a.edges.len() > b.edges.len() || (a.edges.len() == b.edges.len() && a.id > b.id)
}

/// The first position at or after `from` whose node does not go before `x`.
pub open spec fn slot_from(sorted: Seq<NodeView>, x: NodeView, from: int) -> int
    decreases sorted.len() - from,
{
    if from < 0 || from >= sorted.len() {
        sorted.len() as int
    } else if !goes_before(sorted[from], x) {
        from
    } else {
        slot_from(sorted, x, from + 1)
    }
}

/// The nodes in waiting order: each node in turn is inserted behind the nodes
/// that go before it.
pub open spec fn ranked(nodes: Seq<NodeView>) -> Seq<NodeView>
    decreases nodes.len(),
{
    if nodes.len() == 0 {
        Seq::empty()
    } else {
        let sorted = ranked(nodes.drop_last());
        sorted.insert(slot_from(sorted, nodes.last(), 0), nodes.last())
    }
}

/// A node fits a group when it conflicts with none of its members.
pub open spec fn compatible(group: Seq<NodeView>, node: NodeView) -> bool {
    forall|k: int|
        0 <= k < group.len() ==> !conflicting((#[trigger] group[k]).accessors, node.accessors)
}

/// The first group at or after `from` that the node fits, or the number of
/// groups when there is none.
pub open spec fn first_fit_from(groups: Seq<Seq<NodeView>>, node: NodeView, from: int) -> int
    decreases groups.len() - from,
{
    if from < 0 || from >= groups.len() {
        groups.len() as int
    } else if compatible(groups[from], node) {
        from
    } else {
        first_fit_from(groups, node, from + 1)
    }
}

/// The groups after one node is placed: it joins the first group it fits, or
/// starts a new group behind the others.
pub open spec fn place(groups: Seq<Seq<NodeView>>, node: NodeView) -> Seq<Seq<NodeView>> {
    let g = first_fit_from(groups, node, 0);
    if g < groups.len() {
        groups.update(g, groups[g].push(node))
    } else {
        groups.push(seq![node])
    }
}

/// The groups after every waiting node is placed, the last one first.
pub open spec fn place_all(waiting: Seq<NodeView>, groups: Seq<Seq<NodeView>>) -> Seq<
    Seq<NodeView>,
>
    decreases waiting.len(),
{
    if waiting.len() == 0 {
        groups
    } else {
        place_all(waiting.drop_last(), place(groups, waiting.last()))
    }
}

/// No two members of one group conflict.
pub open spec fn conflict_free(groups: Seq<Seq<NodeView>>) -> bool {
    forall|g: int, i: int, j: int|
        0 <= g < groups.len() && 0 <= i < j < groups[g].len() ==> !conflicting(
            (#[trigger] groups[g][i]).accessors,
            (#[trigger] groups[g][j]).accessors,
        )
}

/// The position of the first node whose declaration failed, at or after `from`.
pub open spec fn first_failure_from(nodes: Seq<NodeView>, from: int) -> Option<int>
    decreases nodes.len() - from,
{
    if from < 0 || from >= nodes.len() {
        None
    } else if nodes[from].failure is Some {
        Some(from)
    } else {
        first_failure_from(nodes, from + 1)
    }
}

/// The message with which a stage reports a failed system.
pub open spec fn failure_report(stage: Seq<char>, name: Seq<char>, trace: Seq<char>) -> Seq<char> {
    "System Scheduler for stage "@ + stage + " encountered error in system "@ + name
        + " with trace: \n "@ + trace
}

/// Builds the message with which a stage reports a failed system.
pub fn report_failure(stage: &str, name: &str, trace: &str) -> (message: String)
    ensures
        message@ == failure_report(stage@, name@, trace@),
{
    let mut message = String::from_str("System Scheduler for stage ");
    message.append(stage);
    message.append(" encountered error in system ");
    message.append(name);
    message.append(" with trace: \n ");
    message.append(trace);
    message
}

/// Fills in the edges of every node: the positions of all its compatible peers.
fn link(nodes: &mut Vec<Node>)
    requires
        forall|k: int| 0 <= k < old(nodes)@.len() ==> (#[trigger] old(nodes)@[k]).edges@.len() == 0,
    ensures
        node_views(final(nodes)@) == linked(node_views(old(nodes)@)),
{
    let ghost before = node_views(nodes@);
    let n = nodes.len();
    let mut i: usize = 0;
    while i < n
        invariant
            i <= n,
            nodes@.len() == n,
            before.len() == n,
            forall|k: int| 0 <= k < i ==> (#[trigger] nodes@[k])@ == linked(before)[k],
            forall|k: int| i <= k < n ==> (#[trigger] nodes@[k])@ == before[k],
            forall|k: int| 0 <= k < n ==> (#[trigger] before[k]).edges.len() == 0,
        decreases n - i,
    {
        let mut j: usize = 0;
        assert(nodes@[i as int]@.edges =~= peers(before, i as int, 0));
        while j < n
            invariant
                i < n,
                j <= n,
                nodes@.len() == n,
                before.len() == n,
                forall|k: int| 0 <= k < i ==> (#[trigger] nodes@[k])@ == linked(before)[k],
                forall|k: int| i < k < n ==> (#[trigger] nodes@[k])@ == before[k],
                nodes@[i as int]@ == (NodeView {
                    edges: peers(before, i as int, j as int),
                    ..before[i as int]
                }),
            decreases n - j,
        {
            if j != i && !conflicts(&nodes[i].accessors, &nodes[j].accessors) {
                nodes[i].edges.push(j);
            }
            j += 1;
        }
        i += 1;
    }
}

/// Puts the nodes in waiting order.
fn rank(nodes: Vec<Node>) -> (sorted: Vec<Node>)
    ensures
        node_views(sorted@) == ranked(node_views(nodes@)),
{
    let ghost all = node_views(nodes@);
    let mut rest = nodes;
    let mut sorted: Vec<Node> = Vec::new();
    let ghost mut done: int = 0;
    while rest.len() > 0
        invariant
            0 <= done <= all.len(),
            rest@.len() == all.len() - done,
            node_views(rest@) == all.subrange(done, all.len() as int),
            node_views(sorted@) == ranked(all.subrange(0, done)),
        decreases rest.len(),
    {
        let ghost prior_rest = rest@;
        let node = rest.remove(0);
        let ghost x = node@;
        let ghost placed = node_views(sorted@);
        assert(x == all[done]) by {
            assert(node_views(prior_rest)[0] == all.subrange(done, all.len() as int)[0]);
        }
        let mut p: usize = 0;
        while p < sorted.len() && sorts_before(&sorted[p], &node)
            invariant
                p <= sorted.len(),
                node_views(sorted@) == placed,
                node@ == x,
                slot_from(placed, x, 0) == slot_from(placed, x, p as int),
            decreases sorted.len() - p,
        {
            p += 1;
        }
        assert(slot_from(placed, x, 0) == p) by {}
        sorted.insert(p, node);
        proof {
            let next = all.subrange(0, done + 1);
            assert(next.drop_last() =~= all.subrange(0, done));
            assert(node_views(rest@) =~= all.subrange(done + 1, all.len() as int)) by {
                assert forall|k: int| 0 <= k < rest@.len() implies node_views(rest@)[k]
                    == all.subrange(done + 1, all.len() as int)[k] by {
                    assert(node_views(prior_rest)[k + 1] == all.subrange(
                        done,
                        all.len() as int,
                    )[k + 1]);
                }
            }
            done = done + 1;
        }
    }
    assert(all.subrange(0, all.len() as int) =~= all);
    sorted
}

/// Whether `a` waits before `b`.
fn sorts_before(a: &Node, b: &Node) -> (before: bool)
    ensures
        before == goes_before(a@, b@),
{
    a.edges.len() > b.edges.len() || (a.edges.len() == b.edges.len() && a.id > b.id)
}

/// Whether the node conflicts with no member of the group.
fn fits(group: &Group, node: &Node) -> (fit: bool)
    ensures
        fit == compatible(group@, node@),
{
    let mut k: usize = 0;
    while k < group.systems.len()
        invariant
            k <= group.systems.len(),
            forall|q: int| 0 <= q < k ==> !conflicting((#[trigger] group@[q]).accessors, node@.accessors),
        decreases group.systems.len() - k,
    {
        assert(group@[k as int] == group.systems@[k as int]@);
        if conflicts(&group.systems[k].accessors, &node.accessors) {
            return false;
        }
        k += 1;
    }
    true
}

/// Places one node: into the first group it fits, or into a new group.
fn place_node(groups: &mut Vec<Group>, node: Node)
    ensures
        group_views(final(groups)@) == place(group_views(old(groups)@), node@),
{
    let ghost before = group_views(groups@);
    let ghost x = node@;
    let mut g: usize = 0;
    while g < groups.len()
        invariant
            g <= groups.len(),
            groups@ == old(groups)@,
            before == group_views(groups@),
            node@ == x,
            first_fit_from(before, x, 0) == first_fit_from(before, x, g as int),
        decreases groups.len() - g,
    {
        if fits(&groups[g], &node) {
            groups[g].systems.push(node);
            assert(group_views(groups@) =~= before.update(g as int, before[g as int].push(x))) by {
                assert(groups@[g as int]@ =~= before[g as int].push(x));
            }
            return ;
        }
        g += 1;
    }
    let mut systems: Vec<Node> = Vec::new();
    systems.push(node);
    let group = Group { systems };
    assert(group@ =~= seq![x]);
    groups.push(group);
}

/// Where the first fit is found: at or after `from`, at most the number of
/// groups, and a group that the node fits whenever it is a group at all.
pub proof fn lemma_first_fit_from(groups: Seq<Seq<NodeView>>, node: NodeView, from: int)
    requires
        0 <= from <= groups.len(),
    ensures
        from <= first_fit_from(groups, node, from) <= groups.len(),
        first_fit_from(groups, node, from) < groups.len() ==> compatible(
            groups[first_fit_from(groups, node, from)],
            node,
        ),
        forall|g: int| from <= g < first_fit_from(groups, node, from) ==> !compatible(groups[g], node),
    decreases groups.len() - from,
{
    if from < groups.len() && !compatible(groups[from], node) {
        lemma_first_fit_from(groups, node, from + 1);
    }
}

/// Every group is non-empty and holds only systems registered below `bound`.
pub open spec fn groups_bounded(groups: Seq<Seq<NodeView>>, bound: int) -> bool {
    &&& forall|g: int| 0 <= g < groups.len() ==> (#[trigger] groups[g]).len() > 0
    &&& forall|g: int, i: int|
        0 <= g < groups.len() && 0 <= i < groups[g].len() ==> (#[trigger] groups[g][i]).id < bound
}

/// Placing a node keeps the groups free of conflicts.
pub proof fn lemma_place_keeps_groups_sound(groups: Seq<Seq<NodeView>>, node: NodeView, bound: int)
    requires
        conflict_free(groups),
        groups_bounded(groups, bound),
        node.id < bound,
    ensures
        conflict_free(place(groups, node)),
        groups_bounded(place(groups, node), bound),
{
    lemma_first_fit_from(groups, node, 0);
    let after = place(groups, node);
    assert forall|h: int| 0 <= h < after.len() implies (#[trigger] after[h]).len() > 0 by {}
}

/// Where a node is inserted: at or after `from`, at most the length.
pub proof fn lemma_slot_from(sorted: Seq<NodeView>, x: NodeView, from: int)
    requires
        0 <= from <= sorted.len(),
    ensures
        from <= slot_from(sorted, x, from) <= sorted.len(),
    decreases sorted.len() - from,
{
    if from < sorted.len() && goes_before(sorted[from], x) {
        lemma_slot_from(sorted, x, from + 1);
    }
}

/// The waiting order holds exactly the nodes it was made from.
pub proof fn lemma_ranked_is_permutation(nodes: Seq<NodeView>)
    ensures
        ranked(nodes).len() == nodes.len(),
        ranked(nodes).to_multiset() == nodes.to_multiset(),
    decreases nodes.len(),
{
    broadcast use vstd::seq_lib::group_to_multiset_ensures;

    if nodes.len() > 0 {
        let sorted = ranked(nodes.drop_last());
        lemma_ranked_is_permutation(nodes.drop_last());
        lemma_slot_from(sorted, nodes.last(), 0);
        let p = slot_from(sorted, nodes.last(), 0);
        vstd::seq_lib::to_multiset_insert(sorted, p, nodes.last());
        assert(nodes =~= nodes.drop_last().push(nodes.last()));
    }
}

/// The members of all groups.
pub open spec fn members(groups: Seq<Seq<NodeView>>) -> vstd::multiset::Multiset<NodeView>
    decreases groups.len(),
{
    if groups.len() == 0 {
        vstd::multiset::Multiset::empty()
    } else {
        members(groups.drop_last()).add(groups.last().to_multiset())
    }
}

/// A node that joins a group is one more member.
pub proof fn lemma_join_adds_member(groups: Seq<Seq<NodeView>>, g: int, node: NodeView)
    requires
        0 <= g < groups.len(),
    ensures
        members(groups.update(g, groups[g].push(node))) == members(groups).insert(node),
    decreases groups.len(),
{
    broadcast use vstd::seq_lib::group_to_multiset_ensures;

    let after = groups.update(g, groups[g].push(node));
    if g == groups.len() - 1 {
        assert(after.drop_last() =~= groups.drop_last());
    } else {
        lemma_join_adds_member(groups.drop_last(), g, node);
        assert(after.drop_last() =~= groups.drop_last().update(g, groups[g].push(node)));
    }
}

/// Placing a node makes it a member of one group, and of one only: the
/// members are those of before and the node.
pub proof fn lemma_place_adds_member(groups: Seq<Seq<NodeView>>, node: NodeView)
    ensures
        members(place(groups, node)) == members(groups).insert(node),
{
    broadcast use vstd::seq_lib::group_to_multiset_ensures;

    lemma_first_fit_from(groups, node, 0);
    let g = first_fit_from(groups, node, 0);
    if g < groups.len() {
        lemma_join_adds_member(groups, g, node);
    } else {
        let after = groups.push(seq![node]);
        assert(after.drop_last() =~= groups);
    }
}

/// Every waiting system is placed in exactly one group: the members after
/// all are placed are those of before and the systems that waited.
pub proof fn lemma_place_all_adds_members(waiting: Seq<NodeView>, groups: Seq<Seq<NodeView>>)
    ensures
        members(place_all(waiting, groups)) == members(groups).add(waiting.to_multiset()),
    decreases waiting.len(),
{
    broadcast use vstd::seq_lib::group_to_multiset_ensures;

    if waiting.len() == 0 {
    } else {
        lemma_place_adds_member(groups, waiting.last());
        lemma_place_all_adds_members(waiting.drop_last(), place(groups, waiting.last()));
        assert(waiting =~= waiting.drop_last().push(waiting.last()));
    }
}

/// How the members of one group are run.
#[derive(PartialEq, Eq, Structural, Clone, Copy, Debug)]
pub enum RunMode {
    /// One member: on the calling thread.
    Inline,
    /// Two members: as a fork-join pair.
    Pair,
    /// Three or more members: across the worker pool.
    Pool,
}

/// The way a group of the given size is run.
pub open spec fn mode_for(members: int) -> RunMode {
    if members <= 1 {
        RunMode::Inline
    } else if members == 2 {
        RunMode::Pair
    } else {
        RunMode::Pool
    }
}

/// One step of a stage: the systems to run together, by registration number,
/// and how to run them. The next step starts when all of them have finished.
pub struct Batch {
    pub mode: RunMode,
    pub systems: Vec<usize>,
}

/// The registration numbers of the members of a group, in order.
pub open spec fn member_ids(group: Seq<NodeView>) -> Seq<usize> {
    Seq::new(group.len(), |i: int| group[i].id)
}

/// What the registration of a system does to the scheduler of its stage: the
/// system waits behind the others, under the next registration number, with
/// its name, the accesses that its parameters listed, and the trace of their
/// declaration if that failed.
pub open spec fn joined(
    before: Scheduler,
    after: Scheduler,
    name: Seq<char>,
    listed: Seq<Accessor>,
    outcome: Trace<()>,
) -> bool {
    &&& after.registered() == before.registered() + 1
    &&& after.groups() == before.groups()
    &&& after.waiting() == before.waiting().push(
        NodeView {
            id: before.registered() as usize,
            name,
            accessors: listed,
            edges: Seq::empty(),
            failure: match outcome {
                Trace::Fail(trace) => Some(trace@),
                Trace::Pass(_) => None,
            },
        },
    )
}

/// The scheduler of one stage.
pub struct Scheduler {
    stage: String,
    temp: Vec<Node>,
    groups: Vec<Group>,
    registered: usize,
}

impl Scheduler {
    /// The name of the stage.
    pub closed spec fn stage(&self) -> Seq<char> {
        self.stage@
    }

    /// The systems registered since the last finalization, in registration order.
    pub closed spec fn waiting(&self) -> Seq<NodeView> {
        node_views(self.temp@)
    }

    /// The groups, in the order in which they run.
    pub closed spec fn groups(&self) -> Seq<Seq<NodeView>> {
        group_views(self.groups@)
    }

    /// How many systems were ever registered.
    pub closed spec fn registered(&self) -> int {
        self.registered as int
    }

    /// The scheduler's invariant: waiting systems are numbered in registration
    /// order and have no edges yet; no two members of a group conflict; no
    /// group is empty.
    pub open spec fn wf(&self) -> bool {
        &&& 0 <= self.registered() <= usize::MAX
        &&& self.waiting().len() <= self.registered()
        &&& forall|k: int|
            0 <= k < self.waiting().len() ==> {
                &&& (#[trigger] self.waiting()[k]).edges.len() == 0
                &&& self.waiting()[k].id == self.registered() - self.waiting().len() + k
            }
        &&& conflict_free(self.groups())
        &&& groups_bounded(self.groups(), self.registered())
    }

    /// A scheduler for the named stage, with no systems.
    pub fn new(stage: &str) -> (scheduler: Scheduler)
        ensures
            scheduler.wf(),
            scheduler.stage() == stage@,
            scheduler.waiting().len() == 0,
            scheduler.groups().len() == 0,
            scheduler.registered() == 0,
    {
        Scheduler {
            stage: String::from_str(stage),
            temp: Vec::new(),
            groups: Vec::new(),
            registered: 0,
        }
    }

    /// Registers a system under the next registration number, with the accesses
    /// it declared and the trace of the declaration, if that failed.
    pub fn register(
        &mut self,
        name: &str,
        accessors: Vec<Accessor>,
        failure: Option<String>,
    ) -> (id: usize)
        requires
            old(self).wf(),
            old(self).registered() < usize::MAX,
        ensures
            final(self).wf(),
            id == old(self).registered(),
            final(self).registered() == old(self).registered() + 1,
            final(self).stage() == old(self).stage(),
            final(self).groups() == old(self).groups(),
            final(self).waiting() == old(self).waiting().push(
                NodeView {
                    id,
                    name: name@,
                    accessors: accessors@,
                    edges: Seq::empty(),
                    failure: match failure {
                        Some(trace) => Some(trace@),
                        None => None,
                    },
                },
            ),
    {
        let id = self.registered;
        let node = Node { id, name: String::from_str(name), accessors, edges: Vec::new(), failure };
        let ghost before = self.waiting();
        self.temp.push(node);
        self.registered = id + 1;
        assert(self.waiting() =~= before.push(node@));
        id
    }

    /// Whether every registration number of the stage is taken.
    pub fn is_full(&self) -> (full: bool)
        ensures
            full == (self.registered() >= usize::MAX),
    {
        self.registered == usize::MAX
    }

    /// Registers a system type: its parameters declare their accesses, and
    /// register their queries with the world, now; a failed declaration is
    /// kept with the system and reported when the stage is finalized. The
    /// system is registered, as `register` does it, under the name of its type.
    pub fn add_system<'a, S: System + Fetch<'a>>(&mut self, world: &mut World) -> (id: usize)
        requires
            old(self).wf(),
            old(self).registered() < usize::MAX,
            old(world).wf(),
        ensures
            final(self).wf(),
            final(world).wf(),
            id == old(self).registered(),
            final(self).stage() == old(self).stage(),
            exists|name: Seq<char>, a: &mut Vec<Accessor>, w: &mut World, outcome: Trace<()>|
                #![trigger named::<S>(name), call_ensures(S::access, (a, w), outcome)]
                named::<S>(name) && (*a)@.len() == 0 && *w == *old(world) && *final(w) == *final(world)
                    && call_ensures(S::access, (a, w), outcome) && joined(
                    *old(self),
                    *final(self),
                    name,
                    (*final(a))@,
                    outcome,
                ),
    {
        let mut accessors: Vec<Accessor> = Vec::new();
        let outcome = S::access(&mut accessors, world);
        let ghost declared = outcome;
        let failure = match outcome {
            Trace::Pass(_) => None,
            Trace::Fail(trace) => Some(trace),
        };
        let name = S::name();
        assert(named::<S>(name@));
        let id = self.register(name, accessors, failure);
        assert(joined(*old(self), *self, name@, accessors@, declared));
        id
    }

    /// The position of the first waiting system whose declaration failed.
    fn first_failure(&self) -> (found: Option<usize>)
        ensures
            match found {
                Some(k) => first_failure_from(self.waiting(), 0) == Some(k as int) && k
                    < self.waiting().len() && self.waiting()[k as int].failure is Some,
                None => first_failure_from(self.waiting(), 0) is None,
            },
    {
        let mut k: usize = 0;
        while k < self.temp.len()
            invariant
                k <= self.temp.len(),
                first_failure_from(self.waiting(), 0) == first_failure_from(self.waiting(), k as int),
            decreases self.temp.len() - k,
        {
            if self.temp[k].failure.is_some() {
                return Some(k);
            }
            k += 1;
        }
        None
    }

    /// Closes registration for the systems that wait: reports the first failed
    /// declaration, or else links the systems to their compatible peers and
    /// packs them into groups by greedy first fit.
    ///
    /// On success no two members of any group conflict.
    pub fn finalize(&mut self) -> (outcome: Trace<()>)
        requires
            old(self).wf(),
        ensures
            final(self).wf(),
            final(self).stage() == old(self).stage(),
            final(self).registered() == old(self).registered(),
            match first_failure_from(old(self).waiting(), 0) {
                Some(k) => {
                    &&& outcome matches Trace::Fail(message)
                    &&& message@ == failure_report(
                        old(self).stage(),
                        old(self).waiting()[k].name,
                        old(self).waiting()[k].failure->0,
                    )
                    &&& final(self).waiting() == old(self).waiting()
                    &&& final(self).groups() == old(self).groups()
                },
                None => {
                    &&& outcome is Pass
                    &&& final(self).waiting().len() == 0
                    &&& final(self).groups() == place_all(
                        ranked(linked(old(self).waiting())),
                        old(self).groups(),
                    )
                    &&& conflict_free(final(self).groups())
                    &&& members(final(self).groups()) == members(old(self).groups()).add(
                        linked(old(self).waiting()).to_multiset(),
                    )
                },
            },
    {
        if let Some(k) = self.first_failure() {
            let message = match &self.temp[k].failure {
                Some(trace) => report_failure(
                    self.stage.as_str(),
                    self.temp[k].name.as_str(),
                    trace.as_str(),
                ),
                None => String::new(),
            };
            return Trace::Fail(message);
        }
        let ghost start = self.waiting();
        let ghost bound = self.registered();
        proof {
            lemma_ranked_is_permutation(linked(start));
            lemma_place_all_adds_members(ranked(linked(start)), self.groups());
        }
        let mut nodes: Vec<Node> = Vec::new();
        std::mem::swap(&mut nodes, &mut self.temp);
        assert forall|k: int| 0 <= k < nodes@.len() implies (#[trigger] nodes@[k]).edges@.len()
            == 0 by {
            assert(start[k] == nodes@[k]@);
        }
        link(&mut nodes);
        let mut waiting = rank(nodes);
        proof {
            broadcast use vstd::seq_lib::group_to_multiset_ensures;

            assert forall|k: int| 0 <= k < waiting@.len() implies (#[trigger] node_views(
                waiting@,
            )[k]).id < bound by {
                let x = node_views(waiting@)[k];
                assert(node_views(waiting@).to_multiset().count(x) > 0);
            }
        }
        while waiting.len() > 0
            invariant
                self.stage() == old(self).stage(),
                self.registered() == bound,
                0 <= bound <= usize::MAX,
                self.waiting().len() == 0,
                conflict_free(self.groups()),
                groups_bounded(self.groups(), bound),
                forall|k: int| 0 <= k < waiting@.len() ==> (#[trigger] node_views(waiting@)[k]).id < bound,
                place_all(node_views(waiting@), self.groups()) == place_all(
                    ranked(linked(start)),
                    old(self).groups(),
                ),
            decreases waiting.len(),
        {
            let ghost queue = node_views(waiting@);
            let ghost before = self.groups();
            let node = waiting.pop().unwrap();
            proof {
                assert(node_views(waiting@) =~= queue.drop_last());
                lemma_place_keeps_groups_sound(before, node@, bound);
            }
            place_node(&mut self.groups, node);
        }
        Trace::Pass(())
    }

    /// The steps in which the stage is executed: one batch for each group, in
    /// group order, with the registration numbers of its members and the way
    /// they are run. A batch starts when all members of the batch before it
    /// have finished.
    pub fn execute(&self) -> (plan: Vec<Batch>)
        ensures
            plan@.len() == self.groups().len(),
            forall|g: int|
                0 <= g < plan@.len() ==> {
                    &&& (#[trigger] plan@[g]).systems@ == member_ids(self.groups()[g])
                    &&& plan@[g].mode == mode_for(self.groups()[g].len() as int)
                },
    {
        let mut plan: Vec<Batch> = Vec::new();
        let mut g: usize = 0;
        while g < self.groups.len()
            invariant
                g <= self.groups.len(),
                plan@.len() == g,
                forall|h: int|
                    0 <= h < g ==> {
                        &&& (#[trigger] plan@[h]).systems@ == member_ids(self.groups()[h])
                        &&& plan@[h].mode == mode_for(self.groups()[h].len() as int)
                    },
            decreases self.groups.len() - g,
        {
            let group = &self.groups[g];
            let mut systems: Vec<usize> = Vec::new();
            let mut i: usize = 0;
            while i < group.systems.len()
                invariant
                    i <= group.systems.len(),
                    systems@ == member_ids(group@).subrange(0, i as int),
                decreases group.systems.len() - i,
            {
                systems.push(group.systems[i].id);
                i += 1;
            }
            let mode = run_mode(group.systems.len());
            plan.push(Batch { mode, systems });
            g += 1;
        }
        plan
    }
}

/// The way a group of the given size is run.
pub fn run_mode(members: usize) -> (mode: RunMode)
    ensures
        mode == mode_for(members as int),
{
    if members <= 1 {
        RunMode::Inline
    } else if members == 2 {
        RunMode::Pair
    } else {
        RunMode::Pool
    }
}
} // verus!
