//! Sequencing of library and contract deployment over a fixed dependency
//! graph: each artifact is linked against the already-recorded addresses of
//! its dependencies, handed out for deployment, and its own address recorded
//! before any dependent is reached.

use vstd::prelude::*;
use vstd::string::StrSliceExecFns;
use vstd::string::StringSliceAdditionalSpecFns;

use crate::errors::HarnessError;
use crate::linker::BytecodeArtifact;
use crate::linker::LinkDirective;
use crate::linker::apply_directive;
use crate::linker::artifact_wf;
use crate::linker::bytes_eq;
use crate::linker::copy_artifact;
use crate::linker::copy_bytes;
use crate::linker::has_symbol;
use crate::linker::linked_code;
use crate::linker::placeholders_model;

verus! {

/// One node of the dependency graph: an artifact name, the names of the
/// libraries linked into its bytecode, and, for a contract whose deployment
/// takes another contract's address as a constructor argument, that
/// contract's name.
pub struct GraphNode {
    pub name: Vec<u8>,
    pub deps: Vec<Vec<u8>>,
    pub ctor_dep: Option<Vec<u8>>,
}

/// A fixed, hand-specified directed acyclic graph over artifact names, in
/// its iteration order.
pub struct DependencyGraph {
    pub nodes: Vec<GraphNode>,
}

/// The dependency names of a node.
pub open spec fn deps_model(n: GraphNode) -> Seq<Seq<u8>> {
    n.deps@.map_values(|d: Vec<u8>| d@)
}

/// The constructor-argument dependency of a node, if any.
pub open spec fn ctor_model(n: GraphNode) -> Option<Seq<u8>> {
    match n.ctor_dep {
        Some(c) => Some(c@),
        None => None,
    }
}

/// The shape of one node: its name, its dependency names and its
/// constructor dependency.
pub open spec fn node_model(n: GraphNode) -> (Seq<u8>, Seq<Seq<u8>>, Option<Seq<u8>>) {
    (n.name@, deps_model(n), ctor_model(n))
}

/// The shapes of all nodes of a graph, in iteration order.
pub open spec fn graph_model(g: DependencyGraph) -> Seq<(Seq<u8>, Seq<Seq<u8>>, Option<Seq<u8>>)> {
    g.nodes@.map_values(|n: GraphNode| node_model(n))
}

/// Some node before position `i` bears the name `sym`.
pub open spec fn name_before(g: DependencyGraph, i: int, sym: Seq<u8>) -> bool {
    exists|j: int| 0 <= j < i && (#[trigger] g.nodes@[j]).name@ == sym
}

/// Every dependency of every node, constructor dependencies included, is
/// the name of an earlier node: the iteration order respects the edges.
pub open spec fn is_topological(g: DependencyGraph) -> bool {
    (forall|i: int, d: int|
        0 <= i < g.nodes@.len() && 0 <= d < deps_model(g.nodes@[i]).len() ==> name_before(
            g,
            i,
            #[trigger] deps_model(g.nodes@[i])[d],
        )) && (forall|i: int|
        0 <= i < g.nodes@.len() ==> match ctor_model(#[trigger] g.nodes@[i]) {
            Some(c) => name_before(g, i, c),
            None => true,
        })
}

/// The address recorded for `name`: the first matching entry of the table.
pub open spec fn table_lookup(t: Seq<(Vec<u8>, Vec<u8>)>, name: Seq<u8>) -> Option<Seq<u8>>
    decreases t.len(),
{
    if t.len() == 0 {
        None
    } else if t[0].0@ == name {
        Some(t[0].1@)
    } else {
        table_lookup(t.skip(1), name)
    }
}

/// Does the table record an address for `name`?
pub open spec fn table_contains(t: Seq<(Vec<u8>, Vec<u8>)>, name: Seq<u8>) -> bool {
    table_lookup(t, name) is Some
}

/// The recorded address of `name`, empty when there is none.
pub open spec fn table_addr(t: Seq<(Vec<u8>, Vec<u8>)>, name: Seq<u8>) -> Seq<u8> {
    match table_lookup(t, name) {
        Some(a) => a,
        None => Seq::empty(),
    }
}

/// A name standing in the table is found by lookup.
pub proof fn lemma_table_contains_of_entry(t: Seq<(Vec<u8>, Vec<u8>)>, j: int)
    requires
        0 <= j < t.len(),
    ensures
        table_contains(t, t[j].0@),
    decreases t.len(),
{
    if t[0].0@ != t[j].0@ {
        assert(t.skip(1)[j - 1] == t[j]);
        lemma_table_contains_of_entry(t.skip(1), j - 1);
    }
}

/// Looks up the address recorded for `name`.
pub fn lookup_address(table: &Vec<(Vec<u8>, Vec<u8>)>, name: &Vec<u8>) -> (r: Option<Vec<u8>>)
    ensures
        match r {
            Some(a) => table_lookup(table@, name@) == Some(a@),
            None => table_lookup(table@, name@) is None,
        },
{
    let mut i: usize = 0;
    proof {
        assert(table@.skip(0) =~= table@);
    }
    while i < table.len()
        invariant
            i <= table@.len(),
            table_lookup(table@, name@) == table_lookup(table@.skip(i as int), name@),
        decreases table@.len() - i,
    {
        let entry = &table[i];
        proof {
            assert(table@.skip(i as int)[0] == table@[i as int]);
            assert(table@.skip(i as int).skip(1) =~= table@.skip(i + 1));
        }
        if bytes_eq(&entry.0, name) {
            return Some(copy_bytes(&entry.1));
        }
        i = i + 1;
    }
    proof {
        assert(table@.skip(table@.len() as int) =~= Seq::<(Vec<u8>, Vec<u8>)>::empty());
    }
    None
}

/// The code after linking each named dependency in order, left to right,
/// against its address in the table.
pub open spec fn fold_links(
    code: Seq<u8>,
    pm: Seq<(Seq<u8>, int)>,
    deps: Seq<Seq<u8>>,
    t: Seq<(Vec<u8>, Vec<u8>)>,
) -> Seq<u8>
    decreases deps.len(),
{
    if deps.len() == 0 {
        code
    } else {
        fold_links(linked_code(code, pm, deps[0], table_addr(t, deps[0])), pm, deps.skip(1), t)
    }
}

/// Linking one more dependency extends the fold on the right.
proof fn lemma_fold_links_snoc(
    code: Seq<u8>,
    pm: Seq<(Seq<u8>, int)>,
    deps: Seq<Seq<u8>>,
    d: Seq<u8>,
    t: Seq<(Vec<u8>, Vec<u8>)>,
)
    ensures
        fold_links(code, pm, deps.push(d), t) == linked_code(
            fold_links(code, pm, deps, t),
            pm,
            d,
            table_addr(t, d),
        ),
    decreases deps.len(),
{
    if deps.len() == 0 {
        assert(deps.push(d)[0] == d);
        assert(deps.push(d).skip(1) =~= Seq::<Seq<u8>>::empty());
        assert(fold_links(code, pm, Seq::<Seq<u8>>::empty(), t) == code);
        assert(fold_links(linked_code(code, pm, d, table_addr(t, d)), pm, Seq::<Seq<u8>>::empty(), t)
            == linked_code(code, pm, d, table_addr(t, d)));
    } else {
        assert(deps.push(d)[0] == deps[0]);
        assert(deps.push(d).skip(1) =~= deps.skip(1).push(d));
        lemma_fold_links_snoc(linked_code(code, pm, deps[0], table_addr(t, deps[0])), pm, deps.skip(1), d, t);
    }
}

/// The constructor bytes appended for a node: the 32-byte word holding the
/// named contract's address, right-aligned, or nothing.
pub open spec fn ctor_tail(n: GraphNode, t: Seq<(Vec<u8>, Vec<u8>)>) -> Seq<u8> {
    match ctor_model(n) {
        Some(c) => Seq::new(12, |i: int| 0u8) + table_addr(t, c),
        None => Seq::empty(),
    }
}

/// The deployment pipeline: the graph, one loaded artifact per node, the
/// addresses recorded so far, and the position of the next node to deploy.
pub struct DeploymentPipeline {
    pub graph: DependencyGraph,
    pub artifacts: Vec<BytecodeArtifact>,
    pub deployed: Vec<(Vec<u8>, Vec<u8>)>,
    pub next: usize,
}

/// Well-formedness: one well-formed artifact per node, bearing the node's
/// name; one recorded 20-byte address per already-processed node, in graph
/// order.
pub open spec fn pipeline_wf(p: DeploymentPipeline) -> bool {
    &&& p.artifacts@.len() == p.graph.nodes@.len()
    &&& p.next <= p.graph.nodes@.len()
    &&& p.deployed@.len() == p.next
    &&& forall|i: int| 0 <= i < p.artifacts@.len() ==> artifact_wf(#[trigger] p.artifacts@[i])
    &&& forall|i: int|
        0 <= i < p.artifacts@.len() ==> (#[trigger] p.artifacts@[i]).name@ == p.graph.nodes@[i].name@
    &&& forall|i: int|
        0 <= i < p.deployed@.len() ==> (#[trigger] p.deployed@[i]).0@ == p.graph.nodes@[i].name@
    &&& forall|i: int|
        0 <= i < p.deployed@.len() ==> (#[trigger] p.deployed@[i]).1@.len()
            == crate::linker::spec_address_width()
}

impl DeploymentPipeline {
    /// Starts a pipeline over a graph and its loaded artifacts.
    pub fn begin(graph: DependencyGraph, artifacts: Vec<BytecodeArtifact>) -> (r: Self)
        ensures
            r.graph == graph,
            r.artifacts == artifacts,
            r.deployed@.len() == 0,
            r.next == 0,
    {
        DeploymentPipeline { graph, artifacts, deployed: Vec::new(), next: 0 }
    }

    /// Have all nodes been deployed?
    pub fn finished(&self) -> (r: bool)
        requires
            pipeline_wf(*self),
        ensures
            r == (self.next == self.graph.nodes@.len()),
    {
        self.next >= self.graph.nodes.len()
    }

    /// The address recorded for `name`, if that artifact was deployed.
    pub fn address_of(&self, name: &Vec<u8>) -> (r: Option<Vec<u8>>)
        ensures
            match r {
                Some(a) => table_lookup(self.deployed@, name@) == Some(a@),
                None => table_lookup(self.deployed@, name@) is None,
            },
    {
        lookup_address(&self.deployed, name)
    }

    /// Links the artifact at the current node against the recorded addresses
    /// of all of its dependencies and returns its name and its deployable
    /// bytecode, constructor bytes appended where the node takes them.
    ///
    /// Fails with `DependencyNotReady` exactly when some dependency has no
    /// recorded address — under a topological order this does not happen —
    /// and otherwise with `UnresolvedSymbol` exactly when a dependency has
    /// no placeholder in the artifact.
    pub fn next_artifact(&self) -> (r: Result<(Vec<u8>, Vec<u8>), HarnessError>)
        requires
            pipeline_wf(*self),
            self.next < self.graph.nodes@.len(),
        ensures
            ({
                let node = self.graph.nodes@[self.next as int];
                let art = self.artifacts@[self.next as int];
                let pm = placeholders_model(art.placeholders@);
                let ready = (forall|d: int|
                    0 <= d < deps_model(node).len() ==> table_contains(
                        self.deployed@,
                        #[trigger] deps_model(node)[d],
                    )) && (match ctor_model(node) {
                    Some(c) => table_contains(self.deployed@, c),
                    None => true,
                });
                match r {
                    Ok(out) => {
                        &&& ready
                        &&& forall|d: int|
                            0 <= d < deps_model(node).len() ==> has_symbol(
                                pm,
                                #[trigger] deps_model(node)[d],
                            )
                        &&& out.0@ == node.name@
                        &&& out.1@ == fold_links(art.code@, pm, deps_model(node), self.deployed@)
                            + ctor_tail(node, self.deployed@)
                    },
                    Err(e) => {
                        &&& (e == HarnessError::DependencyNotReady <==> !ready)
                        &&& (e == HarnessError::UnresolvedSymbol <==> ready && exists|d: int|
                            0 <= d < deps_model(node).len() && !has_symbol(
                                pm,
                                #[trigger] deps_model(node)[d],
                            ))
                        &&& (e == HarnessError::DependencyNotReady || e
                            == HarnessError::UnresolvedSymbol)
                    },
                }
            }),
    {
        let ghost gnode = self.graph.nodes@[self.next as int];
        let ghost pm = placeholders_model(self.artifacts@[self.next as int].placeholders@);

        let mut d: usize = 0;
        while d < self.graph.nodes[self.next].deps.len()
            invariant
                pipeline_wf(*self),
                self.next < self.graph.nodes@.len(),
                gnode == self.graph.nodes@[self.next as int],
                d <= gnode.deps@.len(),
                forall|k: int|
                    0 <= k < d ==> table_contains(self.deployed@, #[trigger] deps_model(gnode)[k]),
            decreases gnode.deps@.len() - d,
        {
            proof {
                assert(deps_model(gnode)[d as int] == gnode.deps@[d as int]@);
            }
            match lookup_address(&self.deployed, &self.graph.nodes[self.next].deps[d]) {
                Some(_) => (),
                None => {
                    return Err(HarnessError::DependencyNotReady);
                },
            }
            d = d + 1;
        }
        match &self.graph.nodes[self.next].ctor_dep {
            Some(c) => {
                proof {
                    assert(ctor_model(gnode) == Some(c@));
                }
                match lookup_address(&self.deployed, c) {
                    Some(_) => (),
                    None => {
                        return Err(HarnessError::DependencyNotReady);
                    },
                }
            },
            None => (),
        }

        let mut cur: BytecodeArtifact = copy_artifact(&self.artifacts[self.next]);
        let ghost art = self.artifacts@[self.next as int];
        let mut k: usize = 0;
        while k < self.graph.nodes[self.next].deps.len()
            invariant
                pipeline_wf(*self),
                self.next < self.graph.nodes@.len(),
                gnode == self.graph.nodes@[self.next as int],
                art == self.artifacts@[self.next as int],
                pm == placeholders_model(art.placeholders@),
                k <= gnode.deps@.len(),
                forall|j: int|
                    0 <= j < gnode.deps@.len() ==> table_contains(
                        self.deployed@,
                        #[trigger] deps_model(gnode)[j],
                    ),
                match ctor_model(gnode) {
                    Some(c) => table_contains(self.deployed@, c),
                    None => true,
                },
                forall|j: int| 0 <= j < k ==> has_symbol(pm, #[trigger] deps_model(gnode)[j]),
                placeholders_model(cur.placeholders@) == pm,
                artifact_wf(cur),
                cur.code@ == fold_links(
                    art.code@,
                    pm,
                    deps_model(gnode).take(k as int),
                    self.deployed@,
                ),
            decreases gnode.deps@.len() - k,
        {
            proof {
                assert(deps_model(gnode)[k as int] == gnode.deps@[k as int]@);
            }
            let addr = match lookup_address(&self.deployed, &self.graph.nodes[self.next].deps[k]) {
                Some(a) => a,
                None => {
                    proof {
                        assert(table_contains(self.deployed@, deps_model(gnode)[k as int]));
                    }
                    return Err(HarnessError::DependencyNotReady);
                },
            };
            let directive = LinkDirective {
                symbol: copy_bytes(&self.graph.nodes[self.next].deps[k]),
                address: addr,
            };
            proof {
                assert(directive.address@ == table_addr(
                    self.deployed@,
                    deps_model(gnode)[k as int],
                ));
                lemma_table_addr_width(self.deployed@, deps_model(gnode)[k as int]);
            }
            cur = match apply_directive(&cur, &directive) {
                Ok(next_art) => next_art,
                Err(e) => {
                    proof {
                        assert(e != HarnessError::AddressWidthMismatch);
                        assert(e == HarnessError::UnresolvedSymbol);
                        assert(!has_symbol(pm, deps_model(gnode)[k as int]));
                    }
                    return Err(HarnessError::UnresolvedSymbol);
                },
            };
            proof {
                assert(deps_model(gnode).take(k + 1) =~= deps_model(gnode).take(k as int).push(
                    deps_model(gnode)[k as int],
                ));
                lemma_fold_links_snoc(
                    art.code@,
                    pm,
                    deps_model(gnode).take(k as int),
                    deps_model(gnode)[k as int],
                    self.deployed@,
                );
            }
            k = k + 1;
        }
        proof {
            assert(deps_model(gnode).take(gnode.deps@.len() as int) =~= deps_model(gnode));
        }

        let mut out_code = cur.code;
        match &self.graph.nodes[self.next].ctor_dep {
            Some(c) => {
                proof {
                    assert(ctor_model(gnode) == Some(c@));
                }
                let addr = match lookup_address(&self.deployed, c) {
                    Some(a) => a,
                    None => {
                        return Err(HarnessError::DependencyNotReady);
                    },
                };
                proof {
                    lemma_table_addr_width(self.deployed@, c@);
                    assert(addr@ == table_addr(self.deployed@, c@));
                }
                let ghost before = out_code@;
                let mut z: usize = 0;
                while z < 12
                    invariant
                        z <= 12,
                        out_code@ == before + Seq::new(z as nat, |i: int| 0u8),
                    decreases 12 - z,
                {
                    out_code.push(0u8);
                    proof {
                        assert(out_code@ =~= before + Seq::new((z + 1) as nat, |i: int| 0u8));
                    }
                    z = z + 1;
                }
                let ghost with_pad = out_code@;
                let mut y: usize = 0;
                while y < addr.len()
                    invariant
                        y <= addr@.len(),
                        out_code@ == with_pad + addr@.take(y as int),
                    decreases addr@.len() - y,
                {
                    out_code.push(addr[y]);
                    proof {
                        assert(out_code@ =~= with_pad + addr@.take(y + 1));
                    }
                    y = y + 1;
                }
                proof {
                    assert(addr@.take(addr@.len() as int) =~= addr@);
                    assert(out_code@ =~= fold_links(art.code@, pm, deps_model(gnode), self.deployed@)
                        + ctor_tail(gnode, self.deployed@));
                }
            },
            None => {
                proof {
                    assert(out_code@ =~= fold_links(art.code@, pm, deps_model(gnode), self.deployed@)
                        + ctor_tail(gnode, self.deployed@));
                }
            },
        }
        Ok((copy_bytes(&self.graph.nodes[self.next].name), out_code))
    }

    /// Records the address the chain returned for the current node and moves
    /// to the next one.
    pub fn record_deployed(&mut self, address: Vec<u8>)
        requires
            pipeline_wf(*old(self)),
            old(self).next < old(self).graph.nodes@.len(),
            address@.len() == crate::linker::spec_address_width(),
        ensures
            pipeline_wf(*final(self)),
            final(self).graph == old(self).graph,
            final(self).artifacts == old(self).artifacts,
            final(self).next == old(self).next + 1,
            final(self).deployed@.len() == old(self).deployed@.len() + 1,
            forall|i: int|
                0 <= i < old(self).deployed@.len() ==> #[trigger] final(self).deployed@[i]
                    == old(self).deployed@[i],
            final(self).deployed@.last().0@ == old(self).graph.nodes@[old(self).next as int].name@,
            final(self).deployed@.last().1@ == address@,
    {
        let name = copy_bytes(&self.graph.nodes[self.next].name);
        let n = self.graph.nodes.len();
        self.deployed.push((name, address));
        self.next = self.next + 1;
        proof {
            assert(self.next <= n);
        }
    }
}

/// Every recorded address has the width of an account address.
proof fn lemma_table_addr_width(t: Seq<(Vec<u8>, Vec<u8>)>, name: Seq<u8>)
    requires
        forall|i: int|
            0 <= i < t.len() ==> (#[trigger] t[i]).1@.len() == crate::linker::spec_address_width(),
        table_contains(t, name),
    ensures
        table_addr(t, name).len() == crate::linker::spec_address_width(),
    decreases t.len(),
{
    if t.len() > 0 && t[0].0@ != name {
        assert(forall|i: int|
            0 <= i < t.skip(1).len() ==> #[trigger] t.skip(1)[i] == t[i + 1]);
        lemma_table_addr_width(t.skip(1), name);
    }
}

/// Under a topological order, every dependency of the node about to be
/// linked — constructor dependency included — already has a recorded
/// address. Together with `lemma_finished_covers_graph` this holds for any
/// iteration order that respects the edges: reordering the graph cannot
/// make the pipeline link an artifact before its dependencies, nor finish
/// with a name unaddressed.
pub proof fn lemma_topological_deps_ready(p: DeploymentPipeline)
    requires
        pipeline_wf(p),
        is_topological(p.graph),
        p.next < p.graph.nodes@.len(),
    ensures
        forall|d: int|
            0 <= d < deps_model(p.graph.nodes@[p.next as int]).len() ==> table_contains(
                p.deployed@,
                #[trigger] deps_model(p.graph.nodes@[p.next as int])[d],
            ),
        match ctor_model(p.graph.nodes@[p.next as int]) {
            Some(c) => table_contains(p.deployed@, c),
            None => true,
        },
{
    let node = p.graph.nodes@[p.next as int];
    assert forall|d: int|
        0 <= d < deps_model(node).len() implies table_contains(
        p.deployed@,
        #[trigger] deps_model(node)[d],
    ) by {
        assert(name_before(p.graph, p.next as int, deps_model(node)[d]));
        let j = choose|j: int|
            0 <= j < p.next && (#[trigger] p.graph.nodes@[j]).name@ == deps_model(node)[d];
        assert(p.deployed@[j].0@ == deps_model(node)[d]);
        lemma_table_contains_of_entry(p.deployed@, j);
    }
    match ctor_model(node) {
        Some(c) => {
            assert(name_before(p.graph, p.next as int, c));
            let j = choose|j: int|
                0 <= j < p.next && (#[trigger] p.graph.nodes@[j]).name@ == c;
            assert(p.deployed@[j].0@ == c);
            lemma_table_contains_of_entry(p.deployed@, j);
        },
        None => (),
    }
}

/// When the pipeline has processed every node, every artifact name of the
/// graph has a recorded address.
pub proof fn lemma_finished_covers_graph(p: DeploymentPipeline)
    requires
        pipeline_wf(p),
        p.next == p.graph.nodes@.len(),
    ensures
        forall|i: int|
            0 <= i < p.graph.nodes@.len() ==> table_contains(
                p.deployed@,
                (#[trigger] p.graph.nodes@[i]).name@,
            ),
{
    assert forall|i: int|
        0 <= i < p.graph.nodes@.len() implies table_contains(
        p.deployed@,
        (#[trigger] p.graph.nodes@[i]).name@,
    ) by {
        assert(p.deployed@[i].0@ == p.graph.nodes@[i].name@);
        lemma_table_contains_of_entry(p.deployed@, i);
    }
}

/// Checks at load time that a graph's iteration order respects its edges.
pub fn check_topological(g: &DependencyGraph) -> (r: bool)
    ensures
        r == is_topological(*g),
{
    let mut i: usize = 0;
    while i < g.nodes.len()
        invariant
            i <= g.nodes@.len(),
            forall|i2: int, d: int|
                0 <= i2 < i && 0 <= d < deps_model(g.nodes@[i2]).len() ==> name_before(
                    *g,
                    i2,
                    #[trigger] deps_model(g.nodes@[i2])[d],
                ),
            forall|i2: int|
                0 <= i2 < i ==> match ctor_model(#[trigger] g.nodes@[i2]) {
                    Some(c) => name_before(*g, i2, c),
                    None => true,
                },
        decreases g.nodes@.len() - i,
    {
        let ghost gnode = g.nodes@[i as int];
        let mut d: usize = 0;
        while d < g.nodes[i].deps.len()
            invariant
                i < g.nodes@.len(),
                gnode == g.nodes@[i as int],
                d <= gnode.deps@.len(),
                forall|d2: int|
                    0 <= d2 < d ==> name_before(*g, i as int, #[trigger] deps_model(gnode)[d2]),
            decreases gnode.deps@.len() - d,
        {
            proof {
                assert(deps_model(gnode)[d as int] == gnode.deps@[d as int]@);
            }
            if !name_found_before(g, i, &g.nodes[i].deps[d]) {
                proof {
                    assert(!is_topological(*g));
                }
                return false;
            }
            d = d + 1;
        }
        match &g.nodes[i].ctor_dep {
            Some(c) => {
                proof {
                    assert(ctor_model(gnode) == Some(c@));
                }
                if !name_found_before(g, i, c) {
                    proof {
                        assert(!is_topological(*g));
                    }
                    return false;
                }
            },
            None => (),
        }
        i = i + 1;
    }
    true
}

/// Does a node before position `i` bear the name `sym`?
fn name_found_before(g: &DependencyGraph, i: usize, sym: &Vec<u8>) -> (r: bool)
    requires
        i <= g.nodes@.len(),
    ensures
        r == name_before(*g, i as int, sym@),
{
    let mut j: usize = 0;
    while j < i
        invariant
            j <= i <= g.nodes@.len(),
            forall|k: int| 0 <= k < j ==> (#[trigger] g.nodes@[k]).name@ != sym@,
        decreases i - j,
    {
        if bytes_eq(&g.nodes[j].name, sym) {
            return true;
        }
        j = j + 1;
    }
    false
}

/// An artifact name as bytes.
fn nm(s: &str) -> (r: Vec<u8>)
    ensures
        r@ == s.spec_bytes(),
{
    s.as_bytes_vec()
}

/// The artifact name at position `k` of the RAM test's graph.
pub open spec fn ram_name(k: int) -> Seq<u8> {
    if k == 0 {
        ("BitsManipulationLibrary").spec_bytes()
    } else if k == 1 {
        ("Merkle").spec_bytes()
    } else if k == 2 {
        ("TestRamMMInstantiator").spec_bytes()
    } else if k == 3 {
        ("ShadowAddresses").spec_bytes()
    } else if k == 4 {
        ("RiscVConstants").spec_bytes()
    } else if k == 5 {
        ("RiscVDecoder").spec_bytes()
    } else if k == 6 {
        ("RealTimeClock").spec_bytes()
    } else if k == 7 {
        ("BranchInstructions").spec_bytes()
    } else if k == 8 {
        ("ArithmeticInstructions").spec_bytes()
    } else if k == 9 {
        ("ArithmeticImmediateInstructions").spec_bytes()
    } else if k == 10 {
        ("StandAloneInstructions").spec_bytes()
    } else if k == 11 {
        ("PMA").spec_bytes()
    } else if k == 12 {
        ("CSRReads").spec_bytes()
    } else if k == 13 {
        ("CLINT").spec_bytes()
    } else if k == 14 {
        ("HTIF").spec_bytes()
    } else if k == 15 {
        ("CSR").spec_bytes()
    } else if k == 16 {
        ("CSRExecute").spec_bytes()
    } else if k == 17 {
        ("Exceptions").spec_bytes()
    } else if k == 18 {
        ("EnvTrapIntInstructions").spec_bytes()
    } else if k == 19 {
        ("VirtualMemory").spec_bytes()
    } else if k == 20 {
        ("S_Instructions").spec_bytes()
    } else if k == 21 {
        ("AtomicInstructions").spec_bytes()
    } else if k == 22 {
        ("Fetch").spec_bytes()
    } else if k == 23 {
        ("Interrupts").spec_bytes()
    } else if k == 24 {
        ("Execute").spec_bytes()
    } else if k == 25 {
        ("MemoryInteractor").spec_bytes()
    } else if k == 26 {
        ("Step").spec_bytes()
    } else {
        Seq::empty()
    }
}

/// The dependencies of the node at position `k` of the RAM test's graph, as
/// positions of earlier nodes.
pub open spec fn ram_deps(k: int) -> Seq<int> {
    if k == 2 {
        seq![0]
    } else if k == 5 {
        seq![0]
    } else if k == 7 || k == 8 || k == 9 || k == 10 {
        seq![5, 4]
    } else if k == 12 {
        seq![5, 4, 6]
    } else if k == 13 || k == 14 {
        seq![6, 4]
    } else if k == 15 {
        seq![6, 4, 5, 12]
    } else if k == 16 {
        seq![6, 4, 5, 12, 15]
    } else if k == 17 {
        seq![4]
    } else if k == 18 {
        seq![4, 17]
    } else if k == 19 {
        seq![5, 3, 4, 11, 13, 14, 17]
    } else if k == 20 || k == 21 {
        seq![5, 19]
    } else if k == 22 {
        seq![5, 3, 4, 11, 19, 17]
    } else if k == 23 {
        seq![3, 4, 17]
    } else if k == 24 {
        seq![20, 0, 8, 9, 5, 3, 4, 7, 21, 18, 10, 16, 15, 17, 19]
    } else if k == 25 {
        seq![0, 14, 13, 4, 3]
    } else if k == 26 {
        seq![22, 23, 5, 4, 3, 24]
    } else {
        Seq::empty()
    }
}

/// The constructor dependency of the node at position `k` of the RAM test's
/// graph, as the position of an earlier node.
pub open spec fn ram_ctor(k: int) -> Option<int> {
    if k == 25 {
        Some(2)
    } else if k == 26 {
        Some(25)
    } else {
        None
    }
}

/// The dependency names of the node at position `k` of the RAM test's
/// graph.
pub open spec fn ram_dep_names(k: int) -> Seq<Seq<u8>> {
    ram_deps(k).map_values(|j: int| ram_name(j))
}

/// The constructor dependency name of the node at position `k` of the RAM
/// test's graph, if any.
pub open spec fn ram_ctor_name(k: int) -> Option<Seq<u8>> {
    match ram_ctor(k) {
        Some(j) => Some(ram_name(j)),
        None => None,
    }
}

/// The full shape of the RAM test's graph: 27 artifacts, each with its
/// dependency names and, for the memory interactor and the step contract,
/// its constructor dependency.
pub open spec fn ram_test_graph_model() -> Seq<(Seq<u8>, Seq<Seq<u8>>, Option<Seq<u8>>)> {
    Seq::new(27, |k: int| (ram_name(k), ram_dep_names(k), ram_ctor_name(k)))
}

/// Every dependency position of the RAM test's table — constructor
/// positions included — precedes the node that names it.
proof fn lemma_ram_deps_precede()
    ensures
        forall|k: int, d: int|
            0 <= k < 27 && 0 <= d < ram_deps(k).len() ==> 0 <= #[trigger] ram_deps(k)[d] < k,
        forall|k: int|
            0 <= k < 27 ==> match #[trigger] ram_ctor(k) {
                Some(j) => 0 <= j < k,
                None => true,
            },
{
    assert forall|k: int, d: int|
        0 <= k < 27 && 0 <= d < ram_deps(k).len() implies 0 <= #[trigger] ram_deps(k)[d] < k by {
        if k == 24 {
            assert(ram_deps(24)[d] < 24);
        } else if k == 26 {
            assert(ram_deps(26)[d] < 26);
        } else {
            assert(ram_deps(k)[d] < k);
        }
    }
}

/// A graph of the RAM test's shape is topological: the table's dependency
/// positions all precede their nodes.
pub proof fn lemma_ram_model_topological(g: DependencyGraph)
    requires
        graph_model(g) == ram_test_graph_model(),
    ensures
        is_topological(g),
{
    lemma_ram_deps_precede();
    let m = ram_test_graph_model();
    assert(graph_model(g).len() == g.nodes@.len());
    assert(g.nodes@.len() == 27);
    assert forall|i: int, d: int|
        0 <= i < g.nodes@.len() && 0 <= d < deps_model(g.nodes@[i]).len() implies name_before(
        g,
        i,
        deps_model(g.nodes@[i])[d],
    ) by {
        assert(graph_model(g)[i] == node_model(g.nodes@[i]));
        assert(deps_model(g.nodes@[i]) == m[i].1);
        assert(m[i].1 == ram_dep_names(i));
        let j = ram_deps(i)[d];
        assert(0 <= j < i);
        assert(deps_model(g.nodes@[i])[d] == ram_name(j));
        assert(graph_model(g)[j] == node_model(g.nodes@[j]));
        assert(g.nodes@[j].name@ == m[j].0);
        assert(m[j].0 == ram_name(j));
    }
    assert forall|i: int| 0 <= i < g.nodes@.len() implies match ctor_model(#[trigger] g.nodes@[i]) {
        Some(c) => name_before(g, i, c),
        None => true,
    } by {
        assert(graph_model(g)[i] == node_model(g.nodes@[i]));
        assert(ctor_model(g.nodes@[i]) == m[i].2);
        match ram_ctor(i) {
            Some(j) => {
                assert(0 <= j < i);
                assert(ctor_model(g.nodes@[i]) == Some(ram_name(j)));
                assert(graph_model(g)[j] == node_model(g.nodes@[j]));
                assert(g.nodes@[j].name@ == ram_name(j));
            },
            None => {
                assert(ctor_model(g.nodes@[i]) is None);
            },
        }
    }
}

/// The fixed, hand-specified dependency graph of the RAM test, in its
/// deployment order: the utility libraries come first, then the decoder and
/// the instruction modules, the executor, the memory interactor (whose
/// deployment takes the memory manager's address as a constructor
/// argument), and last the top-level step contract (constructed over the
/// interactor's address). It returns exactly the 27-node shape of
/// `ram_test_graph_model`, and its order respects every edge.
#[verifier::rlimit(100)]
pub fn ram_test_graph() -> (r: DependencyGraph)
    ensures
        r.nodes@.len() == 27,
        graph_model(r) == ram_test_graph_model(),
        is_topological(r),
{
    let mut nodes: Vec<GraphNode> = Vec::new();
    nodes.push(GraphNode { name: nm("BitsManipulationLibrary"), deps: Vec::new(), ctor_dep: None });
    nodes.push(GraphNode { name: nm("Merkle"), deps: Vec::new(), ctor_dep: None });
    let mut deps: Vec<Vec<u8>> = Vec::new();
    deps.push(nm("BitsManipulationLibrary"));
    nodes.push(GraphNode { name: nm("TestRamMMInstantiator"), deps, ctor_dep: None });
    nodes.push(GraphNode { name: nm("ShadowAddresses"), deps: Vec::new(), ctor_dep: None });
    nodes.push(GraphNode { name: nm("RiscVConstants"), deps: Vec::new(), ctor_dep: None });
    let mut deps: Vec<Vec<u8>> = Vec::new();
    deps.push(nm("BitsManipulationLibrary"));
    nodes.push(GraphNode { name: nm("RiscVDecoder"), deps, ctor_dep: None });
    nodes.push(GraphNode { name: nm("RealTimeClock"), deps: Vec::new(), ctor_dep: None });
    let mut deps: Vec<Vec<u8>> = Vec::new();
    deps.push(nm("RiscVDecoder"));
    deps.push(nm("RiscVConstants"));
    nodes.push(GraphNode { name: nm("BranchInstructions"), deps, ctor_dep: None });
    let mut deps: Vec<Vec<u8>> = Vec::new();
    deps.push(nm("RiscVDecoder"));
    deps.push(nm("RiscVConstants"));
    nodes.push(GraphNode { name: nm("ArithmeticInstructions"), deps, ctor_dep: None });
    let mut deps: Vec<Vec<u8>> = Vec::new();
    deps.push(nm("RiscVDecoder"));
    deps.push(nm("RiscVConstants"));
    nodes.push(GraphNode { name: nm("ArithmeticImmediateInstructions"), deps, ctor_dep: None });
    let mut deps: Vec<Vec<u8>> = Vec::new();
    deps.push(nm("RiscVDecoder"));
    deps.push(nm("RiscVConstants"));
    nodes.push(GraphNode { name: nm("StandAloneInstructions"), deps, ctor_dep: None });
    nodes.push(GraphNode { name: nm("PMA"), deps: Vec::new(), ctor_dep: None });
    let mut deps: Vec<Vec<u8>> = Vec::new();
    deps.push(nm("RiscVDecoder"));
    deps.push(nm("RiscVConstants"));
    deps.push(nm("RealTimeClock"));
    nodes.push(GraphNode { name: nm("CSRReads"), deps, ctor_dep: None });
    let mut deps: Vec<Vec<u8>> = Vec::new();
    deps.push(nm("RealTimeClock"));
    deps.push(nm("RiscVConstants"));
    nodes.push(GraphNode { name: nm("CLINT"), deps, ctor_dep: None });
    let mut deps: Vec<Vec<u8>> = Vec::new();
    deps.push(nm("RealTimeClock"));
    deps.push(nm("RiscVConstants"));
    nodes.push(GraphNode { name: nm("HTIF"), deps, ctor_dep: None });
    let mut deps: Vec<Vec<u8>> = Vec::new();
    deps.push(nm("RealTimeClock"));
    deps.push(nm("RiscVConstants"));
    deps.push(nm("RiscVDecoder"));
    deps.push(nm("CSRReads"));
    nodes.push(GraphNode { name: nm("CSR"), deps, ctor_dep: None });
    let mut deps: Vec<Vec<u8>> = Vec::new();
    deps.push(nm("RealTimeClock"));
    deps.push(nm("RiscVConstants"));
    deps.push(nm("RiscVDecoder"));
    deps.push(nm("CSRReads"));
    deps.push(nm("CSR"));
    nodes.push(GraphNode { name: nm("CSRExecute"), deps, ctor_dep: None });
    let mut deps: Vec<Vec<u8>> = Vec::new();
    deps.push(nm("RiscVConstants"));
    nodes.push(GraphNode { name: nm("Exceptions"), deps, ctor_dep: None });
    let mut deps: Vec<Vec<u8>> = Vec::new();
    deps.push(nm("RiscVConstants"));
    deps.push(nm("Exceptions"));
    nodes.push(GraphNode { name: nm("EnvTrapIntInstructions"), deps, ctor_dep: None });
    let mut deps: Vec<Vec<u8>> = Vec::new();
    deps.push(nm("RiscVDecoder"));
    deps.push(nm("ShadowAddresses"));
    deps.push(nm("RiscVConstants"));
    deps.push(nm("PMA"));
    deps.push(nm("CLINT"));
    deps.push(nm("HTIF"));
    deps.push(nm("Exceptions"));
    nodes.push(GraphNode { name: nm("VirtualMemory"), deps, ctor_dep: None });
    let mut deps: Vec<Vec<u8>> = Vec::new();
    deps.push(nm("RiscVDecoder"));
    deps.push(nm("VirtualMemory"));
    nodes.push(GraphNode { name: nm("S_Instructions"), deps, ctor_dep: None });
    let mut deps: Vec<Vec<u8>> = Vec::new();
    deps.push(nm("RiscVDecoder"));
    deps.push(nm("VirtualMemory"));
    nodes.push(GraphNode { name: nm("AtomicInstructions"), deps, ctor_dep: None });
    let mut deps: Vec<Vec<u8>> = Vec::new();
    deps.push(nm("RiscVDecoder"));
    deps.push(nm("ShadowAddresses"));
    deps.push(nm("RiscVConstants"));
    deps.push(nm("PMA"));
    deps.push(nm("VirtualMemory"));
    deps.push(nm("Exceptions"));
    nodes.push(GraphNode { name: nm("Fetch"), deps, ctor_dep: None });
    let mut deps: Vec<Vec<u8>> = Vec::new();
    deps.push(nm("ShadowAddresses"));
    deps.push(nm("RiscVConstants"));
    deps.push(nm("Exceptions"));
    nodes.push(GraphNode { name: nm("Interrupts"), deps, ctor_dep: None });
    let mut deps: Vec<Vec<u8>> = Vec::new();
    deps.push(nm("S_Instructions"));
    deps.push(nm("BitsManipulationLibrary"));
    deps.push(nm("ArithmeticInstructions"));
    deps.push(nm("ArithmeticImmediateInstructions"));
    deps.push(nm("RiscVDecoder"));
    deps.push(nm("ShadowAddresses"));
    deps.push(nm("RiscVConstants"));
    deps.push(nm("BranchInstructions"));
    deps.push(nm("AtomicInstructions"));
    deps.push(nm("EnvTrapIntInstructions"));
    deps.push(nm("StandAloneInstructions"));
    deps.push(nm("CSRExecute"));
    deps.push(nm("CSR"));
    deps.push(nm("Exceptions"));
    deps.push(nm("VirtualMemory"));
    nodes.push(GraphNode { name: nm("Execute"), deps, ctor_dep: None });
    let mut deps: Vec<Vec<u8>> = Vec::new();
    deps.push(nm("BitsManipulationLibrary"));
    deps.push(nm("HTIF"));
    deps.push(nm("CLINT"));
    deps.push(nm("RiscVConstants"));
    deps.push(nm("ShadowAddresses"));
    nodes.push(GraphNode {
        name: nm("MemoryInteractor"),
        deps,
        ctor_dep: Some(nm("TestRamMMInstantiator")),
    });
    let mut deps: Vec<Vec<u8>> = Vec::new();
    deps.push(nm("Fetch"));
    deps.push(nm("Interrupts"));
    deps.push(nm("RiscVDecoder"));
    deps.push(nm("RiscVConstants"));
    deps.push(nm("ShadowAddresses"));
    deps.push(nm("Execute"));
    nodes.push(GraphNode { name: nm("Step"), deps, ctor_dep: Some(nm("MemoryInteractor")) });
    let g = DependencyGraph { nodes };
    proof {
        let m = ram_test_graph_model();
        assert(g.nodes@.len() == 27);
        assert(deps_model(g.nodes@[0]) =~= ram_dep_names(0));
        assert(node_model(g.nodes@[0]) == m[0]);
        assert(deps_model(g.nodes@[1]) =~= ram_dep_names(1));
        assert(node_model(g.nodes@[1]) == m[1]);
        assert(deps_model(g.nodes@[2]) =~= ram_dep_names(2));
        assert(node_model(g.nodes@[2]) == m[2]);
        assert(deps_model(g.nodes@[3]) =~= ram_dep_names(3));
        assert(node_model(g.nodes@[3]) == m[3]);
        assert(deps_model(g.nodes@[4]) =~= ram_dep_names(4));
        assert(node_model(g.nodes@[4]) == m[4]);
        assert(deps_model(g.nodes@[5]) =~= ram_dep_names(5));
        assert(node_model(g.nodes@[5]) == m[5]);
        assert(deps_model(g.nodes@[6]) =~= ram_dep_names(6));
        assert(node_model(g.nodes@[6]) == m[6]);
        assert(deps_model(g.nodes@[7]) =~= ram_dep_names(7));
        assert(node_model(g.nodes@[7]) == m[7]);
        assert(deps_model(g.nodes@[8]) =~= ram_dep_names(8));
        assert(node_model(g.nodes@[8]) == m[8]);
        assert(deps_model(g.nodes@[9]) =~= ram_dep_names(9));
        assert(node_model(g.nodes@[9]) == m[9]);
        assert(deps_model(g.nodes@[10]) =~= ram_dep_names(10));
        assert(node_model(g.nodes@[10]) == m[10]);
        assert(deps_model(g.nodes@[11]) =~= ram_dep_names(11));
        assert(node_model(g.nodes@[11]) == m[11]);
        assert(deps_model(g.nodes@[12]) =~= ram_dep_names(12));
        assert(node_model(g.nodes@[12]) == m[12]);
        assert(deps_model(g.nodes@[13]) =~= ram_dep_names(13));
        assert(node_model(g.nodes@[13]) == m[13]);
        assert(deps_model(g.nodes@[14]) =~= ram_dep_names(14));
        assert(node_model(g.nodes@[14]) == m[14]);
        assert(deps_model(g.nodes@[15]) =~= ram_dep_names(15));
        assert(node_model(g.nodes@[15]) == m[15]);
        assert(deps_model(g.nodes@[16]) =~= ram_dep_names(16));
        assert(node_model(g.nodes@[16]) == m[16]);
        assert(deps_model(g.nodes@[17]) =~= ram_dep_names(17));
        assert(node_model(g.nodes@[17]) == m[17]);
        assert(deps_model(g.nodes@[18]) =~= ram_dep_names(18));
        assert(node_model(g.nodes@[18]) == m[18]);
        assert(deps_model(g.nodes@[19]) =~= ram_dep_names(19));
        assert(node_model(g.nodes@[19]) == m[19]);
        assert(deps_model(g.nodes@[20]) =~= ram_dep_names(20));
        assert(node_model(g.nodes@[20]) == m[20]);
        assert(deps_model(g.nodes@[21]) =~= ram_dep_names(21));
        assert(node_model(g.nodes@[21]) == m[21]);
        assert(deps_model(g.nodes@[22]) =~= ram_dep_names(22));
        assert(node_model(g.nodes@[22]) == m[22]);
        assert(deps_model(g.nodes@[23]) =~= ram_dep_names(23));
        assert(node_model(g.nodes@[23]) == m[23]);
        assert(deps_model(g.nodes@[24]) =~= ram_dep_names(24));
        assert(node_model(g.nodes@[24]) == m[24]);
        assert(deps_model(g.nodes@[25]) =~= ram_dep_names(25));
        assert(node_model(g.nodes@[25]) == m[25]);
        assert(deps_model(g.nodes@[26]) =~= ram_dep_names(26));
        assert(node_model(g.nodes@[26]) == m[26]);
        assert forall|k: int| 0 <= k < 27 implies #[trigger] graph_model(g)[k] == m[k] by {
            assert(graph_model(g)[k] == node_model(g.nodes@[k]));
        }
        assert(graph_model(g) =~= m);
        lemma_ram_model_topological(g);
    }
    g
}

/// Checks at load time that a pipeline is well formed: one well-formed
/// artifact per node, each bearing its node's name, nothing deployed yet.
pub fn check_pipeline_start(p: &DeploymentPipeline) -> (r: bool)
    ensures
        r == (pipeline_wf(*p) && p.next == 0),
{
    if p.next != 0 || p.deployed.len() != 0 {
        return false;
    }
    if p.artifacts.len() != p.graph.nodes.len() {
        return false;
    }
    let mut i: usize = 0;
    while i < p.artifacts.len()
        invariant
            i <= p.artifacts@.len(),
            p.artifacts@.len() == p.graph.nodes@.len(),
            forall|k: int| 0 <= k < i ==> artifact_wf(#[trigger] p.artifacts@[k]),
            forall|k: int|
                0 <= k < i ==> (#[trigger] p.artifacts@[k]).name@ == p.graph.nodes@[k].name@,
        decreases p.artifacts@.len() - i,
    {
        if !check_artifact(&p.artifacts[i]) {
            proof {
                assert(!artifact_wf(p.artifacts@[i as int]));
            }
            return false;
        }
        if !bytes_eq(&p.artifacts[i].name, &p.graph.nodes[i].name) {
            proof {
                assert(p.artifacts@[i as int].name@ != p.graph.nodes@[i as int].name@);
            }
            return false;
        }
        i = i + 1;
    }
    true
}

/// Checks at load time that an artifact's placeholder regions lie inside
/// its code and do not overlap.
pub fn check_artifact(a: &BytecodeArtifact) -> (r: bool)
    ensures
        r == artifact_wf(*a),
{
    let ghost pm = placeholders_model(a.placeholders@);
    let n = a.placeholders.len();
    let mut i: usize = 0;
    while i < n
        invariant
            n == a.placeholders@.len(),
            pm == placeholders_model(a.placeholders@),
            i <= n,
            forall|k: int|
                0 <= k < i ==> 0 <= (#[trigger] pm[k]).1 && pm[k].1
                    + crate::linker::spec_address_width() <= a.code@.len() as int,
        decreases n - i,
    {
        proof {
            assert(pm[i as int] == crate::linker::placeholder_model(a.placeholders@[i as int]));
        }
        let off = a.placeholders[i].offset;
        if !(off <= a.code.len() && a.code.len() - off >= 20) {
            return false;
        }
        i = i + 1;
    }
    let mut k1: usize = 0;
    while k1 < n
        invariant
            n == a.placeholders@.len(),
            pm == placeholders_model(a.placeholders@),
            k1 <= n,
            crate::linker::placeholders_in_bounds(pm, a.code@.len() as int),
            forall|x: int, y: int|
                0 <= x < y < n && x < k1 ==> (#[trigger] pm[x]).1
                    + crate::linker::spec_address_width() <= (#[trigger] pm[y]).1 || pm[y].1
                    + crate::linker::spec_address_width() <= pm[x].1,
        decreases n - k1,
    {
        let mut k2: usize = k1 + 1;
        while k2 < n
            invariant
                n == a.placeholders@.len(),
                pm == placeholders_model(a.placeholders@),
                k1 < k2 <= n,
                crate::linker::placeholders_in_bounds(pm, a.code@.len() as int),
                forall|y: int|
                    k1 < y < k2 ==> (#[trigger] pm[k1 as int]).1
                        + crate::linker::spec_address_width() <= (#[trigger] pm[y]).1 || pm[y].1
                        + crate::linker::spec_address_width() <= pm[k1 as int].1,
            decreases n - k2,
        {
            let code_len = a.code.len();
            let o1 = a.placeholders[k1].offset;
            let o2 = a.placeholders[k2].offset;
            proof {
                assert(pm[k1 as int] == crate::linker::placeholder_model(
                    a.placeholders@[k1 as int],
                ));
                assert(pm[k2 as int] == crate::linker::placeholder_model(
                    a.placeholders@[k2 as int],
                ));
                assert(o1 + 20 <= code_len);
                assert(o2 + 20 <= code_len);
            }
            if !(o1 + 20 <= o2 || o2 + 20 <= o1) {
                return false;
            }
            k2 = k2 + 1;
        }
        k1 = k1 + 1;
    }
    true
}


} // verus!
