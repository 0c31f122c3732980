//! The conversation threading engine: a forest of message nodes built
//! from `References` headers and merged by base subject, with a
//! disjoint-set structure over conversation groups.
//!
//! Nodes live in one arena, linked by parent indices. Well-formedness
//! carries a ghost ordering witness: every parent stands strictly below
//! its child, so every ancestor chain is finite and every walk up the
//! forest terminates.

use vstd::prelude::*;

verus! {

broadcast use {
    crate::sieve_lex::lemma_skip_ws_bounds,
};

use crate::sieve_lex::lower;

/// One message-shaped node of the thread forest. A node without an
/// envelope is a phantom: it holds the place of a message only known
/// from another message's `References`.
#[derive(Debug)]
pub struct ThreadNode {
    /// The `Message-ID` this node stands for.
    pub message_id: Vec<u8>,
    /// Index of the parent node, if any.
    pub parent: Option<usize>,
    /// Indices of the children, in insertion order.
    pub children: Vec<usize>,
    /// The envelope's stable hash, or `None` for a phantom.
    pub envelope: Option<u64>,
    /// Date of the message, unix seconds; 0 for a phantom.
    pub date: u64,
    /// Base subject of the message, for the subject-union pass.
    pub subject: Vec<u8>,
    /// The conversation group this node was placed in.
    pub group: usize,
}

/// The thread forest.
pub struct Threads {
    /// The node arena.
    pub thread_nodes: Vec<ThreadNode>,
    /// Union-find parent per group id; `group_links[g] == g` marks a
    /// canonical group. A link always points to an older (smaller) id.
    pub group_links: Vec<usize>,
    /// Ghost witness of acyclicity: parents have smaller order.
    pub order: Ghost<Seq<nat>>,
}

/// Canonical group of `g`: follow links while they descend.
pub open spec fn spec_find(gs: Seq<usize>, g: int) -> int
    decreases g,
{
    if !(0 <= g < gs.len()) {
        g
    } else if gs[g] < g {
        spec_find(gs, gs[g] as int)
    } else {
        g
    }
}

impl Threads {
    /// Number of nodes.
    pub open spec fn spec_len(&self) -> int {
        self.thread_nodes@.len() as int
    }

    /// The whole well-formedness invariant of the forest.
    pub open spec fn wf(&self) -> bool {
        let s = self.thread_nodes@;
        let gs = self.group_links@;
        let ord = self.order@;
        &&& ord.len() == s.len()
        &&& forall|i: int|
            0 <= i < s.len() ==> match #[trigger] s[i].parent {
                Some(p) => 0 <= p < s.len() && p != i && ord[p as int] < ord[i],
                None => true,
            }
        &&& forall|i: int| 0 <= i < s.len() ==> 0 <= #[trigger] s[i].group < gs.len()
        &&& forall|g: int| 0 <= g < gs.len() ==> #[trigger] gs[g] <= g
        &&& forall|i: int|
            0 <= i < s.len() ==> match #[trigger] s[i].parent {
                Some(p) => spec_find(gs, s[i].group as int) == spec_find(gs, s[p as int].group as int),
                None => true,
            }
        &&& forall|i: int, k: int|
            0 <= i < s.len() && 0 <= k < s[i].children@.len() ==> {
                let c = #[trigger] s[i].children@[k] as int;
                &&& 0 <= c < s.len()
                &&& s[c].parent is Some
                &&& s[c].parent->Some_0 as int == i
            }
        &&& forall|i: int, a: int, b: int|
            0 <= i < s.len() && 0 <= a < b < s[i].children@.len() ==> #[trigger] s[i].children@[a]
                != #[trigger] s[i].children@[b]
    }
}

/// Linking one canonical group under an older one renames exactly that
/// root in every `spec_find` value.
proof fn lemma_find_after_union(old_gs: Seq<usize>, new_gs: Seq<usize>, rmax: int, rmin: int, g: int)
    requires
        forall|h: int| 0 <= h < old_gs.len() ==> #[trigger] old_gs[h] <= h,
        0 <= rmin < rmax < old_gs.len(),
        old_gs[rmax] == rmax,
        old_gs[rmin] == rmin,
        new_gs == old_gs.update(rmax, rmin as usize),
    ensures
        spec_find(new_gs, g) == (if spec_find(old_gs, g) == rmax {
            rmin
        } else {
            spec_find(old_gs, g)
        }),
    decreases (if g >= 0 { g } else { 0 }),
{
    if !(0 <= g < old_gs.len()) {
    } else if g == rmax {
        assert(new_gs[g] == rmin);
        lemma_find_after_union(old_gs, new_gs, rmax, rmin, rmin);
    } else if old_gs[g] < g {
        lemma_find_after_union(old_gs, new_gs, rmax, rmin, old_gs[g] as int);
    } else {
    }
}

/// Walking a chain of group links lands on a canonical group.
proof fn lemma_find_is_root(gs: Seq<usize>, g: int)
    requires
        forall|h: int| 0 <= h < gs.len() ==> #[trigger] gs[h] <= h,
        0 <= g < gs.len(),
    ensures
        0 <= spec_find(gs, g) < gs.len(),
        gs[spec_find(gs, g)] == spec_find(gs, g),
    decreases g,
{
    if gs[g] < g {
        lemma_find_is_root(gs, gs[g] as int);
    }
}

/// Every ancestor chain ends at a node without a parent, within
/// finitely many steps: the forest has no cycles.
pub open spec fn spec_terminates(s: Seq<ThreadNode>, ord: Seq<nat>, x: int) -> bool
    decreases (if 0 <= x < ord.len() {
        ord[x]
    } else {
        0nat
    }),
{
    if !(0 <= x < s.len() && s.len() == ord.len()) {
        false
    } else {
        match s[x].parent {
            None => true,
            Some(p) => if 0 <= (p as int) < ord.len() && ord[p as int] < ord[x] {
                spec_terminates(s, ord, p as int)
            } else {
                false
            },
        }
    }
}

/// The root that the ancestor chain of `x` reaches.
pub open spec fn spec_chain_root(s: Seq<ThreadNode>, ord: Seq<nat>, x: int) -> int
    decreases (if 0 <= x < ord.len() {
        ord[x]
    } else {
        0nat
    }),
{
    if !(0 <= x < s.len() && s.len() == ord.len()) {
        x
    } else {
        match s[x].parent {
            None => x,
            Some(p) => if 0 <= (p as int) < ord.len() && ord[p as int] < ord[x] {
                spec_chain_root(s, ord, p as int)
            } else {
                x
            },
        }
    }
}

impl Threads {
    /// The canonical group of group `g`.
    #[verifier::loop_isolation(false)]
    pub fn find_group(&self, g: usize) -> (r: usize)
        requires
            self.wf(),
            g < self.group_links@.len(),
        ensures
            r as int == spec_find(self.group_links@, g as int),
            r < self.group_links@.len(),
            self.group_links@[r as int] == r,
    {
        proof {
            lemma_find_is_root(self.group_links@, g as int);
        }
        let mut cur = g;
        loop
            invariant
                cur < self.group_links@.len(),
                spec_find(self.group_links@, g as int) == spec_find(
                    self.group_links@,
                    cur as int,
                ),
            decreases cur,
        {
            let nxt = self.group_links[cur];
            if nxt == cur {
                return cur;
            }
            proof {
                assert(self.group_links@[cur as int] <= cur);
            }
            cur = nxt;
        }
    }

    /// Merge the groups of `a` and `b`: the younger canonical group is
    /// linked under the older one, which every `spec_find` then names.
    pub fn union_groups(&mut self, a: usize, b: usize)
        requires
            old(self).wf(),
            a < old(self).group_links@.len(),
            b < old(self).group_links@.len(),
        ensures
            final(self).wf(),
            final(self).thread_nodes == old(self).thread_nodes,
            final(self).order == old(self).order,
            final(self).group_links@.len() == old(self).group_links@.len(),
            ({
                let ra = spec_find(old(self).group_links@, a as int);
                let rb = spec_find(old(self).group_links@, b as int);
                let rmin = if ra < rb {
                    ra
                } else {
                    rb
                };
                let rmax = if ra < rb {
                    rb
                } else {
                    ra
                };
                forall|g: int|
                    #[trigger] spec_find(final(self).group_links@, g) == (if ra == rb {
                        spec_find(old(self).group_links@, g)
                    } else if spec_find(old(self).group_links@, g) == rmax {
                        rmin
                    } else {
                        spec_find(old(self).group_links@, g)
                    })
            }),
    {
        let ra = self.find_group(a);
        let rb = self.find_group(b);
        if ra == rb {
            return ;
        }
        let (rmin, rmax) = if ra < rb {
            (ra, rb)
        } else {
            (rb, ra)
        };
        let ghost old_gs = self.group_links@;
        self.group_links.set(rmax, rmin);
        proof {
            let new_gs = self.group_links@;
            assert forall|g: int|
                #[trigger] spec_find(new_gs, g) == (if spec_find(old_gs, g) == rmax {
                    rmin as int
                } else {
                    spec_find(old_gs, g)
                }) by {
                lemma_find_after_union(old_gs, new_gs, rmax as int, rmin as int, g);
            }
            assert(self.wf());
        }
    }

    /// Walk up to the root of the tree that holds `i`.
    #[verifier::loop_isolation(false)]
    pub fn find_root(&self, i: usize) -> (r: usize)
        requires
            self.wf(),
            i < self.thread_nodes@.len(),
        ensures
            r as int == spec_chain_root(self.thread_nodes@, self.order@, i as int),
            r < self.thread_nodes@.len(),
            self.thread_nodes@[r as int].parent is None,
    {
        let mut cur = i;
        loop
            invariant
                cur < self.thread_nodes@.len(),
                spec_chain_root(self.thread_nodes@, self.order@, i as int) == spec_chain_root(
                    self.thread_nodes@,
                    self.order@,
                    cur as int,
                ),
            decreases self.order@[cur as int],
        {
            match self.thread_nodes[cur].parent {
                None => {
                    return cur;
                },
                Some(p) => {
                    cur = p;
                },
            }
        }
    }
}

/// No cycles: under the invariant, the ancestor chain of every node is
/// finite and ends at a root.
pub proof fn lemma_no_cycles(t: &Threads, i: int)
    requires
        t.wf(),
        0 <= i < t.spec_len(),
    ensures
        spec_terminates(t.thread_nodes@, t.order@, i),
    decreases t.order@[i],
{
    match t.thread_nodes@[i].parent {
        Some(p) => {
            lemma_no_cycles(t, p as int);
        },
        None => {},
    }
}

/// Threading closure: every node lies in the same canonical group as
/// the root of its tree.
pub proof fn lemma_threading_closure(t: &Threads, i: int)
    requires
        t.wf(),
        0 <= i < t.spec_len(),
    ensures
        ({
            let r = spec_chain_root(t.thread_nodes@, t.order@, i);
            &&& 0 <= r < t.spec_len()
            &&& spec_find(t.group_links@, t.thread_nodes@[i].group as int) == spec_find(
                t.group_links@,
                t.thread_nodes@[r].group as int,
            )
        }),
    decreases t.order@[i],
{
    match t.thread_nodes@[i].parent {
        Some(p) => {
            lemma_threading_closure(t, p as int);
        },
        None => {},
    }
}

/// Whether `c` lies on the ancestor chain that starts at `x` (`x`
/// itself included).
pub open spec fn spec_in_chain(s: Seq<ThreadNode>, ord: Seq<nat>, x: int, c: int) -> bool
    decreases (if 0 <= x < ord.len() {
        ord[x]
    } else {
        0nat
    }),
{
    if x == c {
        true
    } else if !(0 <= x < s.len() && s.len() == ord.len()) {
        false
    } else {
        match s[x].parent {
            None => false,
            Some(p) => if 0 <= (p as int) < ord.len() && ord[p as int] < ord[x] {
                spec_in_chain(s, ord, p as int, c)
            } else {
                false
            },
        }
    }
}

/// The first node that carries this `Message-ID`, if one does.
pub open spec fn spec_first_mid(s: Seq<ThreadNode>, mid: Seq<u8>) -> Option<int>
    decreases s.len(),
{
    if s.len() == 0 {
        None
    } else if s[0].message_id@ == mid {
        Some(0int)
    } else {
        match spec_first_mid(s.subrange(1, s.len() as int), mid) {
            Some(i) => Some(i + 1),
            None => None,
        }
    }
}

/// What the first match is: a carrier of the id with none before it.
pub proof fn lemma_first_mid_props(s: Seq<ThreadNode>, mid: Seq<u8>)
    ensures
        match spec_first_mid(s, mid) {
            Some(i) => 0 <= i < s.len() && s[i].message_id@ == mid && forall|j: int|
                0 <= j < i ==> (#[trigger] s[j]).message_id@ != mid,
            None => forall|j: int| 0 <= j < s.len() ==> (#[trigger] s[j]).message_id@ != mid,
        },
    decreases s.len(),
{
    if s.len() > 0 && s[0].message_id@ != mid {
        lemma_first_mid_props(s.subrange(1, s.len() as int), mid);
        assert(forall|j: int|
            1 <= j < s.len() ==> (#[trigger] s[j]).message_id@ == s.subrange(1, s.len() as int)[j
                - 1].message_id@);
    }
}

/// Any carrier with none before it is the first match.
pub proof fn lemma_first_mid_at(s: Seq<ThreadNode>, mid: Seq<u8>, i: int)
    requires
        0 <= i < s.len(),
        s[i].message_id@ == mid,
        forall|j: int| 0 <= j < i ==> (#[trigger] s[j]).message_id@ != mid,
    ensures
        spec_first_mid(s, mid) == Some(i),
    decreases s.len(),
{
    if i == 0 {
    } else {
        assert(s[0].message_id@ != mid);
        let t = s.subrange(1, s.len() as int);
        assert(t[i - 1].message_id@ == mid);
        assert(forall|j: int| 0 <= j < i - 1 ==> (#[trigger] t[j]).message_id@ == s[j + 1].message_id@);
        lemma_first_mid_at(t, mid, i - 1);
    }
}

/// Two arenas whose nodes carry the same ids agree on first matches.
pub proof fn lemma_first_mid_same_mids(s1: Seq<ThreadNode>, s2: Seq<ThreadNode>, mid: Seq<u8>)
    requires
        s1.len() == s2.len(),
        forall|i: int| 0 <= i < s1.len() ==> (#[trigger] s1[i]).message_id == s2[i].message_id,
    ensures
        spec_first_mid(s1, mid) == spec_first_mid(s2, mid),
    decreases s1.len(),
{
    if s1.len() > 0 {
        let t1 = s1.subrange(1, s1.len() as int);
        let t2 = s2.subrange(1, s2.len() as int);
        assert(forall|i: int| 0 <= i < t1.len() ==> (#[trigger] t1[i]).message_id == t2[i].message_id);
        lemma_first_mid_same_mids(t1, t2, mid);
    }
}

/// Appending a node does not move an id's first match.
pub proof fn lemma_first_mid_push(s: Seq<ThreadNode>, x: ThreadNode, mid: Seq<u8>)
    requires
        spec_first_mid(s, mid) is Some,
    ensures
        spec_first_mid(s.push(x), mid) == spec_first_mid(s, mid),
{
    lemma_first_mid_props(s, mid);
    let i = spec_first_mid(s, mid)->Some_0;
    assert(s.push(x)[i] == s[i]);
    assert(forall|j: int| 0 <= j < i ==> (#[trigger] s.push(x)[j]).message_id@ == s[j].message_id@);
    lemma_first_mid_at(s.push(x), mid, i);
}

impl Threads {
    /// Fields of every node that linking never touches.
    pub open spec fn same_node_payload(&self, other: &Threads) -> bool {
        let s1 = self.thread_nodes@;
        let s2 = other.thread_nodes@;
        &&& s1.len() == s2.len()
        &&& forall|i: int|
            0 <= i < s1.len() ==> {
                &&& (#[trigger] s1[i]).message_id == s2[i].message_id
                &&& s1[i].envelope == s2[i].envelope
                &&& s1[i].date == s2[i].date
                &&& s1[i].subject == s2[i].subject
                &&& s1[i].group == s2[i].group
            }
    }

    /// Whether `c` lies on the ancestor chain that starts at `start`.
    #[verifier::loop_isolation(false)]
    fn chain_contains(&self, start: usize, c: usize) -> (r: bool)
        requires
            self.wf(),
            start < self.thread_nodes@.len(),
            c < self.thread_nodes@.len(),
        ensures
            r == spec_in_chain(self.thread_nodes@, self.order@, start as int, c as int),
    {
        let mut cur = start;
        loop
            invariant
                cur < self.thread_nodes@.len(),
                spec_in_chain(self.thread_nodes@, self.order@, start as int, c as int)
                    == spec_in_chain(self.thread_nodes@, self.order@, cur as int, c as int),
            decreases self.order@[cur as int],
        {
            if cur == c {
                return true;
            }
            match self.thread_nodes[cur].parent {
                None => {
                    return false;
                },
                Some(p) => {
                    cur = p;
                },
            }
        }
    }

    /// The node that carries this `Message-ID`, if one exists.
    #[verifier::loop_isolation(false)]
    pub fn find_node(&self, mid: &[u8]) -> (r: Option<usize>)
        ensures
            match r {
                Some(i) => spec_first_mid(self.thread_nodes@, mid@) == Some(i as int) && i
                    < self.thread_nodes@.len() && self.thread_nodes@[i as int].message_id@ == mid@,
                None => spec_first_mid(self.thread_nodes@, mid@) is None && forall|i: int|
                    0 <= i < self.thread_nodes@.len() ==> (#[trigger] self.thread_nodes@[i]).message_id@
                        != mid@,
            },
    {
        let n = self.thread_nodes.len();
        let mut i: usize = 0;
        while i < n
            invariant
                i <= n,
                forall|j: int|
                    0 <= j < i ==> (#[trigger] self.thread_nodes@[j]).message_id@ != mid@,
            decreases n - i,
        {
            if crate::sieve::bytes_eq(self.thread_nodes[i].message_id.as_slice(), mid) {
                proof {
                    lemma_first_mid_at(self.thread_nodes@, mid@, i as int);
                }
                return Some(i);
            }
            i = i + 1;
        }
        proof {
            lemma_first_mid_props(self.thread_nodes@, mid@);
            if spec_first_mid(self.thread_nodes@, mid@) is Some {
                let w = spec_first_mid(self.thread_nodes@, mid@)->Some_0;
                assert(self.thread_nodes@[w].message_id@ == mid@);
                assert(false);
            }
        }
        None
    }

    /// The node for this `Message-ID`, created as a phantom in a fresh
    /// group when none exists yet.
    pub fn ensure_node(&mut self, mid: &[u8]) -> (r: usize)
        requires
            old(self).wf(),
        ensures
            final(self).wf(),
            r < final(self).thread_nodes@.len(),
            final(self).thread_nodes@[r as int].message_id@ == mid@,
            old(self).thread_nodes@.len() <= final(self).thread_nodes@.len(),
            forall|i: int|
                0 <= i < old(self).thread_nodes@.len() ==> final(self).thread_nodes@[i] == old(
                    self,
                ).thread_nodes@[i],
            forall|g: int|
                spec_find(final(self).group_links@, g) == spec_find(old(self).group_links@, g)
                    || !(0 <= g < old(self).group_links@.len()),
            spec_first_mid(final(self).thread_nodes@, mid@) == Some(r as int),
            spec_first_mid(old(self).thread_nodes@, mid@) is Some ==> *final(self) == *old(self),
            spec_first_mid(old(self).thread_nodes@, mid@) is None ==> {
                &&& r as int == old(self).thread_nodes@.len()
                &&& final(self).thread_nodes@.len() == old(self).thread_nodes@.len() + 1
                &&& final(self).thread_nodes@[r as int].parent is None
                &&& final(self).thread_nodes@[r as int].children@.len() == 0
                &&& final(self).thread_nodes@[r as int].envelope is None
                &&& final(self).thread_nodes@[r as int].date == 0
                &&& final(self).thread_nodes@[r as int].subject@.len() == 0
            },
    {
        match self.find_node(mid) {
            Some(i) => i,
            None => {
                let idx = self.thread_nodes.len();
                let g = self.group_links.len();
                let ghost old_gs = self.group_links@;
                let mut mv: Vec<u8> = Vec::new();
                let mut k: usize = 0;
                while k < mid.len()
                    invariant
                        k <= mid@.len(),
                        mv@ == mid@.subrange(0, k as int),
                    decreases mid@.len() - k,
                {
                    mv.push(mid[k]);
                    proof {
                        assert(mv@ =~= mid@.subrange(0, (k + 1) as int));
                    }
                    k = k + 1;
                }
                proof {
                    assert(mv@ =~= mid@);
                }
                self.group_links.push(g);
                self.thread_nodes.push(
                    ThreadNode {
                        message_id: mv,
                        parent: None,
                        children: Vec::new(),
                        envelope: None,
                        date: 0,
                        subject: Vec::new(),
                        group: g,
                    },
                );
                let ghost new_ord = self.order@.push(0nat);
                proof {
                    self.order@ = new_ord;
                }
                proof {
                    assert forall|gg: int| #[trigger]
                        spec_find(self.group_links@, gg) == spec_find(old_gs, gg) || !(0 <= gg
                            < old_gs.len()) by {
                        lemma_find_push(old_gs, g, gg);
                    }
                    assert(self.wf());
                    assert(forall|j: int|
                        0 <= j < idx ==> (#[trigger] self.thread_nodes@[j]).message_id@ != mid@);
                    lemma_first_mid_at(self.thread_nodes@, mid@, idx as int);
                }
                idx
            },
        }
    }

    /// Make `parent` the parent of `child`, unless that is already so,
    /// the two are one node, or `child` stands on the ancestor chain of
    /// `parent` (which would close a cycle): then nothing changes. On a
    /// link the two groups are merged.
    #[verifier::rlimit(100)]
    #[verifier::spinoff_prover]
    pub fn link(&mut self, child: usize, parent: usize) -> (linked: bool)
        requires
            old(self).wf(),
            child < old(self).thread_nodes@.len(),
            parent < old(self).thread_nodes@.len(),
        ensures
            final(self).wf(),
            final(self).same_node_payload(old(self)),
            final(self).group_links@.len() == old(self).group_links@.len(),
            linked == (old(self).thread_nodes@[child as int].parent != Some(parent)
                && !spec_in_chain(
                old(self).thread_nodes@,
                old(self).order@,
                parent as int,
                child as int,
            )),
            linked ==> final(self).thread_nodes@[child as int].parent == Some(parent),
            linked ==> spec_find(
                final(self).group_links@,
                final(self).thread_nodes@[child as int].group as int,
            ) == spec_find(
                final(self).group_links@,
                final(self).thread_nodes@[parent as int].group as int,
            ),
            forall|i: int|
                0 <= i < old(self).thread_nodes@.len() && i != child
                    ==> (#[trigger] final(self).thread_nodes@[i]).parent == old(
                    self,
                ).thread_nodes@[i].parent,
            !linked ==> *final(self) == *old(self),
            forall|g1: int, g2: int|
                spec_find(old(self).group_links@, g1) == spec_find(old(self).group_links@, g2)
                    ==> #[trigger] spec_find(final(self).group_links@, g1) == #[trigger] spec_find(
                    final(self).group_links@,
                    g2,
                ),
    {
        if let Some(q) = self.thread_nodes[child].parent {
            if q == parent {
                return false;
            }
        }
        if self.chain_contains(parent, child) {
            return false;
        }
        let ghost s_old = self.thread_nodes@;
        let ghost ord_old = self.order@;
        // merge the groups first, while the invariant still holds
        let gc = self.thread_nodes[child].group;
        let gp = self.thread_nodes[parent].group;
        self.union_groups(gc, gp);
        // detach the child from its old parent's child list
        if let Some(q) = self.thread_nodes[child].parent {
            let m = self.thread_nodes[q].children.len();
            let mut k: usize = 0;
            let mut found: Option<usize> = None;
            while k < m
                invariant
                    k <= m,
                    m == self.thread_nodes@[q as int].children@.len(),
                    q < self.thread_nodes@.len(),
                    match found {
                        Some(f) => f < m && self.thread_nodes@[q as int].children@[f as int]
                            == child,
                        None => forall|j: int|
                            0 <= j < k ==> (#[trigger] self.thread_nodes@[q as int].children@[j])
                                != child,
                    },
                decreases m - k,
            {
                if found.is_none() && self.thread_nodes[q].children[k] == child {
                    found = Some(k);
                }
                k = k + 1;
            }
            if let Some(f) = found {
                let nq = &mut self.thread_nodes[q];
                nq.children.remove(f);
                proof {
                    let ch_old = s_old[q as int].children@;
                    let ch1 = self.thread_nodes@[q as int].children@;
                    assert(ch1 =~= ch_old.remove(f as int));
                    assert forall|kk: int| 0 <= kk < ch1.len() implies #[trigger] ch1[kk] != child
                        && (exists|jj: int|
                        0 <= jj < ch_old.len() && ch_old[jj] == ch1[kk] && jj != f) by {
                        if kk < f {
                            assert(ch1[kk] == ch_old[kk]);
                        } else {
                            assert(ch1[kk] == ch_old[kk + 1]);
                        }
                    }
                }
            }
        }
        // attach under the new parent and set the pointer
        let np = &mut self.thread_nodes[parent];
        np.children.push(child);
        let nc = &mut self.thread_nodes[child];
        nc.parent = Some(parent);
        // shift the acyclicity witness of the moved subtree
        let ghost shift = ord_old[parent as int] + 1;
        let ghost new_ord = Seq::new(
            ord_old.len(),
            |x: int|
                if spec_in_chain(s_old, ord_old, x, child as int) {
                    (ord_old[x] + shift) as nat
                } else {
                    ord_old[x]
                },
        );
        proof {
            self.order@ = new_ord;
            let s_new = self.thread_nodes@;
            let gs_new = self.group_links@;
            assert forall|i: int| 0 <= i < s_new.len() implies match (#[trigger] s_new[i]).parent {
                Some(p) => 0 <= (p as int) < s_new.len() && (p as int) != i && new_ord[p as int]
                    < new_ord[i],
                None => true,
            } by {
                if i == child {
                    assert(spec_in_chain(s_old, ord_old, child as int, child as int));
                } else {
                    match s_old[i].parent {
                        Some(q) => {
                            assert(spec_in_chain(s_old, ord_old, i, child as int)
                                == spec_in_chain(s_old, ord_old, q as int, child as int));
                        },
                        None => {},
                    }
                }
            }
            assert forall|i: int| 0 <= i < s_new.len() implies match (#[trigger] s_new[i]).parent {
                Some(p) => spec_find(gs_new, s_new[i].group as int) == spec_find(
                    gs_new,
                    s_new[p as int].group as int,
                ),
                None => true,
            } by {
                if i != child {
                    assert(s_new[i].parent == s_old[i].parent);
                }
            }
            assert(self.order@.len() == s_new.len());
            assert(forall|i: int| 0 <= i < s_new.len() ==> 0 <= (#[trigger] s_new[i]).group < gs_new.len());
            assert(forall|g: int| 0 <= g < gs_new.len() ==> #[trigger] gs_new[g] <= g);
            assert forall|i: int, kk: int|
                0 <= i < s_new.len() && 0 <= kk < s_new[i].children@.len() implies {
                    let c = #[trigger] s_new[i].children@[kk] as int;
                    &&& 0 <= c < s_new.len()
                    &&& s_new[c].parent is Some
                    &&& s_new[c].parent->Some_0 as int == i
                } by {
                    let c = s_new[i].children@[kk] as int;
                    if i == parent {
                        if kk < s_old[i].children@.len() {
                            assert(s_new[i].children@[kk] == s_old[i].children@[kk]);
                            assert(s_old[c].parent is Some && s_old[c].parent->Some_0 as int == i);
                            assert(c != child);
                        } else {
                            assert(s_new[i].children@[kk] == child);
                        }
                    } else {
                        assert(c != child);
                        assert(s_new[c].parent == s_old[c].parent);
                    }
                }
            assert forall|i: int, a: int, b: int|
                0 <= i < s_new.len() && 0 <= a < b < s_new[i].children@.len() implies #[trigger] s_new[i].children@[a] != #[trigger] s_new[i].children@[b] by {
                if i == parent {
                    if b == s_new[i].children@.len() - 1 {
                        assert(s_new[i].children@[b] == child);
                        assert(s_new[i].children@[a] == s_old[i].children@[a]);
                        assert(s_new[i].children@[a] != child);
                    } else {
                        assert(s_new[i].children@[a] == s_old[i].children@[a]);
                        assert(s_new[i].children@[b] == s_old[i].children@[b]);
                    }
                }
            }
            assert(self.wf());
        }
        true
    }
}

/// Pushing a fresh self-linked group changes no existing `spec_find`.
proof fn lemma_find_push(old_gs: Seq<usize>, g: usize, gg: int)
    requires
        g == old_gs.len(),
        forall|h: int| 0 <= h < old_gs.len() ==> #[trigger] old_gs[h] <= h,
    ensures
        0 <= gg < old_gs.len() ==> spec_find(old_gs.push(g), gg) == spec_find(old_gs, gg),
    decreases (if gg >= 0 {
        gg
    } else {
        0
    }),
{
    if 0 <= gg < old_gs.len() {
        if old_gs[gg] < gg {
            lemma_find_push(old_gs, g, old_gs[gg] as int);
        }
    }
}

/// Position of the first `]` at or after `pos`.
pub open spec fn spec_find_rbracket(s: Seq<u8>, pos: int) -> Option<int>
    decreases s.len() - pos,
{
    if !(0 <= pos < s.len()) {
        None
    } else if s[pos] == 93 {
        Some(pos)
    } else {
        spec_find_rbracket(s, pos + 1)
    }
}

/// Start of the base subject: the position after every leading run of
/// whitespace, `Re:`, `Fwd:` and `[tag]` markers.
pub open spec fn spec_subject_start(s: Seq<u8>, pos: int) -> int
    decreases s.len() - pos,
{
    let p = crate::sieve_lex::spec_skip_ws(s, pos);
    if crate::sieve_lex::spec_match_ci(s, p, seq![114u8, 101u8, 58u8]) {
        if pos < p + 3 && p + 3 <= s.len() {
            spec_subject_start(s, p + 3)
        } else {
            p + 3
        }
    } else if crate::sieve_lex::spec_match_ci(s, p, seq![102u8, 119u8, 100u8, 58u8]) {
        if pos < p + 4 && p + 4 <= s.len() {
            spec_subject_start(s, p + 4)
        } else {
            p + 4
        }
    } else if 0 <= p < s.len() && s[p] == 91 {
        match spec_find_rbracket(s, p + 1) {
            Some(j) => if pos < j + 1 && j + 1 <= s.len() {
                spec_subject_start(s, j + 1)
            } else {
                j + 1
            },
            None => p,
        }
    } else {
        p
    }
}

/// Strip leading reply, forward and list-tag markers from a subject.
#[verifier::loop_isolation(false)]
pub fn base_subject(s: &[u8]) -> (r: Vec<u8>)
    ensures
        0 <= spec_subject_start(s@, 0) <= s@.len(),
        r@ == s@.subrange(spec_subject_start(s@, 0), s@.len() as int),
{
    let n = s.len();
    let mut cur: usize = 0;
    loop
        invariant
            cur <= n,
            spec_subject_start(s@, 0) == spec_subject_start(s@, cur as int),
        decreases n - cur,
    {
        let mut p = cur;
        while p < n && (s[p] == 32 || s[p] == 9 || s[p] == 10 || s[p] == 13)
            invariant
                cur <= p <= n,
                crate::sieve_lex::spec_skip_ws(s@, cur as int) == crate::sieve_lex::spec_skip_ws(
                    s@,
                    p as int,
                ),
            decreases n - p,
        {
            p = p + 1;
        }
        proof {
            assert(crate::sieve_lex::spec_skip_ws(s@, p as int) == p as int);
        }
        let ghost lit_re = seq![114u8, 101u8, 58u8];
        let ghost lit_fwd = seq![102u8, 119u8, 100u8, 58u8];
        if n - p >= 3 && lower(s[p]) == 114 && lower(s[p + 1]) == 101 && s[p + 2] == 58 {
            proof {
                assert forall|k: int| 0 <= k < lit_re.len() implies crate::sieve_lex::spec_lower(
                    s@[p + k],
                ) == crate::sieve_lex::spec_lower(#[trigger] lit_re[k]) by {
                    if k == 0 {
                    } else if k == 1 {
                    } else {
                    }
                }
                assert(crate::sieve_lex::spec_match_ci(s@, p as int, lit_re));
            }
            cur = p + 3;
        } else if n - p >= 4 && lower(s[p]) == 102 && lower(s[p + 1]) == 119 && lower(s[p + 2])
            == 100 && s[p + 3] == 58 {
            proof {
                assert(!crate::sieve_lex::spec_match_ci(s@, p as int, lit_re));
                assert forall|k: int| 0 <= k < lit_fwd.len() implies crate::sieve_lex::spec_lower(
                    s@[p + k],
                ) == crate::sieve_lex::spec_lower(#[trigger] lit_fwd[k]) by {
                    if k == 0 {
                    } else if k == 1 {
                    } else if k == 2 {
                    } else {
                    }
                }
                assert(crate::sieve_lex::spec_match_ci(s@, p as int, lit_fwd));
            }
            cur = p + 4;
        } else if p < n && s[p] == 91 {
            proof {
                assert(!crate::sieve_lex::spec_match_ci(s@, p as int, lit_re));
                assert(!crate::sieve_lex::spec_match_ci(s@, p as int, lit_fwd));
            }
            let mut j = p + 1;
            while j < n && s[j] != 93
                invariant
                    p + 1 <= j <= n,
                    spec_find_rbracket(s@, (p + 1) as int) == spec_find_rbracket(s@, j as int),
                decreases n - j,
            {
                j = j + 1;
            }
            if j < n {
                proof {
                    assert(spec_find_rbracket(s@, (p + 1) as int) == Some(j as int));
                }
                cur = j + 1;
            } else {
                proof {
                    assert(spec_find_rbracket(s@, (p + 1) as int) is None);
                    assert(spec_subject_start(s@, cur as int) == p as int);
                }
                return copy_tail(s, p);
            }
        } else {
            proof {
                assert(!crate::sieve_lex::spec_match_ci(s@, p as int, lit_re));
                assert(!crate::sieve_lex::spec_match_ci(s@, p as int, lit_fwd));
                assert(spec_subject_start(s@, cur as int) == p as int);
            }
            return copy_tail(s, p);
        }
    }
}

/// Copy `s[from..]` into a fresh vector.
#[verifier::loop_isolation(false)]
fn copy_tail(s: &[u8], from: usize) -> (r: Vec<u8>)
    requires
        from <= s@.len(),
    ensures
        r@ == s@.subrange(from as int, s@.len() as int),
{
    let n = s.len();
    let mut out: Vec<u8> = Vec::new();
    let mut k = from;
    while k < n
        invariant
            from <= k <= n,
            out@ == s@.subrange(from as int, k as int),
        decreases n - k,
    {
        out.push(s[k]);
        proof {
            assert(out@ =~= s@.subrange(from as int, (k + 1) as int));
        }
        k = k + 1;
    }
    proof {
        assert(out@ =~= s@.subrange(from as int, s@.len() as int));
    }
    out
}

/// References that name pairwise different messages, none of them the
/// message itself: the common case, under which the insert contract
/// pins the whole chain.
pub open spec fn spec_refs_distinct(refs: Seq<Seq<u8>>, mid: Seq<u8>) -> bool {
    &&& forall|k1: int, k2: int|
        0 <= k1 < k2 < refs.len() ==> #[trigger] refs[k1] != #[trigger] refs[k2]
    &&& forall|k: int| 0 <= k < refs.len() ==> #[trigger] refs[k] != mid
}

/// Appending a node changes no ancestor chain among the old nodes.
pub proof fn lemma_in_chain_push(
    s: Seq<ThreadNode>,
    ord: Seq<nat>,
    x: ThreadNode,
    o: nat,
    a: int,
    b: int,
)
    requires
        s.len() == ord.len(),
        0 <= a < s.len(),
        forall|i: int|
            0 <= i < s.len() ==> ((#[trigger] s[i]).parent matches Some(p) ==> 0 <= (p as int)
                < s.len() && ord[p as int] < ord[i]),
    ensures
        spec_in_chain(s.push(x), ord.push(o), a, b) == spec_in_chain(s, ord, a, b),
    decreases ord[a],
{
    if a != b {
        assert(s.push(x)[a] == s[a]);
        match s[a].parent {
            None => {},
            Some(p) => {
                lemma_in_chain_push(s, ord, x, o, p as int, b);
            },
        }
    }
}

impl Threads {
    /// Walk the references oldest to newest: make sure each has a
    /// node, and link it under its predecessor where no cycle arises.
    /// Returns the last reference's node and, for the proofs, all of
    /// them in order.
    #[verifier::loop_isolation(false)]
    #[verifier::rlimit(100)]
    #[verifier::spinoff_prover]
    fn link_reference_chain(
        &mut self,
        references: &Vec<Vec<u8>>,
        Ghost(mid_me): Ghost<Seq<u8>>,
    ) -> (r: (Option<usize>, Ghost<Seq<int>>))
        requires
            old(self).wf(),
            spec_first_mid(old(self).thread_nodes@, mid_me) is Some,
        ensures
            final(self).wf(),
            old(self).thread_nodes@.len() <= final(self).thread_nodes@.len(),
            spec_first_mid(final(self).thread_nodes@, mid_me) == spec_first_mid(
                old(self).thread_nodes@,
                mid_me,
            ),
            (r.1@).len() == references@.len(),
            match r.0 {
                Some(pv) => references@.len() > 0 && pv as int == (r.1@)[references@.len() - 1],
                None => references@.len() == 0,
            },
            forall|k: int|
                0 <= k < references@.len() ==> spec_first_mid(
                    final(self).thread_nodes@,
                    #[trigger] references.deep_view()[k],
                ) == Some((r.1@)[k]) && 0 <= (r.1@)[k] < final(self).thread_nodes@.len(),
            forall|x: int|
                0 <= x < old(self).thread_nodes@.len() ==> {
                    &&& (#[trigger] final(self).thread_nodes@[x]).message_id
                        == old(self).thread_nodes@[x].message_id
                    &&& final(self).thread_nodes@[x].envelope == old(self).thread_nodes@[x].envelope
                    &&& final(self).thread_nodes@[x].date == old(self).thread_nodes@[x].date
                    &&& final(self).thread_nodes@[x].subject == old(self).thread_nodes@[x].subject
                },
            forall|x: int|
                old(self).thread_nodes@.len() <= x < final(self).thread_nodes@.len()
                    ==> (#[trigger] final(self).thread_nodes@[x]).envelope is None
                    && final(self).thread_nodes@[x].date == 0
                    && final(self).thread_nodes@[x].subject@.len() == 0,
            forall|x: int|
                0 <= x < final(self).thread_nodes@.len() && (forall|k: int|
                    0 <= k < references@.len()
                        ==> (#[trigger] final(self).thread_nodes@[x]).message_id@
                        != #[trigger] references.deep_view()[k]) ==> (if x < old(
                    self,
                ).thread_nodes@.len() {
                    final(self).thread_nodes@[x].parent == old(self).thread_nodes@[x].parent
                } else {
                    final(self).thread_nodes@[x].parent is None
                }),
            spec_refs_distinct(references.deep_view(), mid_me) ==> forall|k: int|
                1 <= k < references@.len() ==> {
                    ||| final(self).thread_nodes@[#[trigger] (r.1@)[k]].parent == Some(
                        (r.1@)[k - 1] as usize,
                    )
                    ||| ((r.1@)[k] < old(self).thread_nodes@.len()
                        && final(self).thread_nodes@[(r.1@)[k]].parent
                        == old(self).thread_nodes@[(r.1@)[k]].parent)
                    ||| ((r.1@)[k] >= old(self).thread_nodes@.len()
                        && final(self).thread_nodes@[(r.1@)[k]].parent is None)
                },
    {
        let ghost s_entry = old(self).thread_nodes@;
        let ghost old_len = old(self).thread_nodes@.len() as int;
        let ghost dv = references.deep_view();
        proof {
            assert(forall|k: int|
                0 <= k < references@.len() ==> dv[k] == (#[trigger] references@[k])@);
        }
        let mut prev: Option<usize> = None;
        let ghost mut ridxs: Seq<int> = Seq::empty();
        let mut k: usize = 0;
        while k < references.len()
            invariant
                self.wf(),
                k <= references@.len(),
                old_len <= self.thread_nodes@.len(),
                s_entry.len() == old_len,
                dv.len() == references@.len(),
                forall|k2: int| 0 <= k2 < references@.len() ==> dv[k2] == (#[trigger] references@[k2])@,
                spec_first_mid(self.thread_nodes@, mid_me) == spec_first_mid(s_entry, mid_me),
                spec_first_mid(s_entry, mid_me) is Some,
                ridxs.len() == k,
                match prev {
                    Some(pv) => k > 0 && pv as int == ridxs[k - 1],
                    None => k == 0,
                },
                forall|k2: int|
                    0 <= k2 < k ==> spec_first_mid(self.thread_nodes@, dv[k2]) == Some(
                        #[trigger] ridxs[k2],
                    ) && 0 <= ridxs[k2] < self.thread_nodes@.len(),
                forall|x: int|
                    0 <= x < old_len ==> {
                        &&& (#[trigger] self.thread_nodes@[x]).message_id == s_entry[x].message_id
                        &&& self.thread_nodes@[x].envelope == s_entry[x].envelope
                        &&& self.thread_nodes@[x].date == s_entry[x].date
                        &&& self.thread_nodes@[x].subject == s_entry[x].subject
                    },
                forall|x: int|
                    old_len <= x < self.thread_nodes@.len()
                        ==> (#[trigger] self.thread_nodes@[x]).envelope is None
                        && self.thread_nodes@[x].date == 0
                        && self.thread_nodes@[x].subject@.len() == 0,
                forall|x: int|
                    0 <= x < self.thread_nodes@.len() && (forall|k2: int|
                        0 <= k2 < k ==> (#[trigger] self.thread_nodes@[x]).message_id@ != #[trigger] dv[k2])
                        ==> (if x < old_len {
                        self.thread_nodes@[x].parent == s_entry[x].parent
                    } else {
                        self.thread_nodes@[x].parent is None
                    }),
                spec_refs_distinct(dv, mid_me) ==> forall|k2: int|
                    1 <= k2 < k ==> {
                        ||| self.thread_nodes@[#[trigger] ridxs[k2]].parent == Some(
                            ridxs[k2 - 1] as usize,
                        )
                        ||| (ridxs[k2] < old_len && self.thread_nodes@[ridxs[k2]].parent
                            == s_entry[ridxs[k2]].parent)
                        ||| (ridxs[k2] >= old_len && self.thread_nodes@[ridxs[k2]].parent is None)
                    },
            decreases references@.len() - k,
        {
            let ghost s_pre = self.thread_nodes@;
            let ridx = self.ensure_node(references[k].as_slice());
            proof {
                if spec_first_mid(s_pre, dv[k as int]) is Some {
                    assert(self.thread_nodes@ == s_pre);
                } else {
                    assert(self.thread_nodes@ == s_pre.push(self.thread_nodes@[ridx as int]));
                    lemma_first_mid_push(s_pre, self.thread_nodes@[ridx as int], mid_me);
                    assert forall|k2: int| 0 <= k2 < k implies spec_first_mid(
                        self.thread_nodes@,
                        dv[k2],
                    ) == Some(#[trigger] ridxs[k2]) by {
                        assert(spec_first_mid(s_pre, dv[k2]) == Some(ridxs[k2]));
                        lemma_first_mid_push(s_pre, self.thread_nodes@[ridx as int], dv[k2]);
                    }
                }
                ridxs = ridxs.push(ridx as int);
            }
            match prev {
                Some(pv) => {
                    let ghost s_mid = self.thread_nodes@;
                    let _ = self.link(ridx, pv);
                    proof {
                        assert(forall|i: int|
                            0 <= i < s_mid.len()
                                ==> (#[trigger] self.thread_nodes@[i]).message_id == s_mid[i].message_id);
                        lemma_first_mid_same_mids(s_mid, self.thread_nodes@, mid_me);
                        assert forall|k2: int| 0 <= k2 <= k implies spec_first_mid(
                            self.thread_nodes@,
                            dv[k2],
                        ) == Some(#[trigger] ridxs[k2]) by {
                            lemma_first_mid_same_mids(s_mid, self.thread_nodes@, dv[k2]);
                        }
                        if spec_refs_distinct(dv, mid_me) {
                            assert forall|k2: int| 1 <= k2 <= k implies {
                                ||| self.thread_nodes@[#[trigger] ridxs[k2]].parent == Some(
                                    ridxs[k2 - 1] as usize,
                                )
                                ||| (ridxs[k2] < old_len && self.thread_nodes@[ridxs[k2]].parent
                                    == s_entry[ridxs[k2]].parent)
                                ||| (ridxs[k2] >= old_len && self.thread_nodes@[ridxs[k2]].parent
                                    is None)
                            } by {
                                lemma_first_mid_props(s_mid, dv[k2]);
                                assert(s_mid[ridxs[k2]].message_id@ == dv[k2]);
                                if k2 < k {
                                    lemma_first_mid_props(s_mid, dv[k as int]);
                                    assert(s_mid[ridxs[k as int]].message_id@ == dv[k as int]);
                                    assert(ridxs[k2] != ridx as int);
                                }
                            }
                        }
                    }
                },
                None => {},
            }
            prev = Some(ridx);
            k = k + 1;
        }
        (prev, Ghost(ridxs))
    }

    /// Hang the message under its chosen parent: its last reference
    /// first, then the `In-Reply-To` node where that names another,
    /// safely linkable message. Touches no other node's parent.
    #[verifier::rlimit(100)]
    #[verifier::spinoff_prover]
    fn attach_message(&mut self, me: usize, prev: Option<usize>, irt_node: Option<usize>)
        requires
            old(self).wf(),
            me < old(self).thread_nodes@.len(),
            match prev {
                Some(pv) => pv < old(self).thread_nodes@.len(),
                None => true,
            },
            match irt_node {
                Some(rx) => rx < old(self).thread_nodes@.len(),
                None => true,
            },
        ensures
            final(self).wf(),
            final(self).thread_nodes@.len() == old(self).thread_nodes@.len(),
            final(self).same_node_payload(old(self)),
            forall|x: int|
                0 <= x < old(self).thread_nodes@.len() && x != me
                    ==> (#[trigger] final(self).thread_nodes@[x]).parent
                    == old(self).thread_nodes@[x].parent,
            forall|mid: Seq<u8>|
                #[trigger] spec_first_mid(final(self).thread_nodes@, mid) == spec_first_mid(
                    old(self).thread_nodes@,
                    mid,
                ),
            (match irt_node {
                None => true,
                Some(rx) => rx == me,
            }) ==> (match prev {
                None => final(self).thread_nodes@[me as int].parent
                    == old(self).thread_nodes@[me as int].parent,
                Some(pv) => {
                    ||| final(self).thread_nodes@[me as int].parent == Some(pv)
                    ||| spec_in_chain(
                        final(self).thread_nodes@,
                        final(self).order@,
                        pv as int,
                        me as int,
                    )
                },
            }),
            match irt_node {
                None => true,
                Some(rx) => rx != me ==> {
                    ||| final(self).thread_nodes@[me as int].parent == Some(rx)
                    ||| spec_in_chain(
                        final(self).thread_nodes@,
                        final(self).order@,
                        rx as int,
                        me as int,
                    )
                },
            },
    {
        match prev {
            Some(pv) => {
                let ghost s_mid = self.thread_nodes@;
                let _ = self.link(me, pv);
                proof {
                    assert(forall|i: int|
                        0 <= i < s_mid.len()
                            ==> (#[trigger] self.thread_nodes@[i]).message_id == s_mid[i].message_id);
                    assert forall|mid: Seq<u8>| true implies #[trigger] spec_first_mid(
                        self.thread_nodes@,
                        mid,
                    ) == spec_first_mid(s_mid, mid) by {
                        lemma_first_mid_same_mids(s_mid, self.thread_nodes@, mid);
                    }
                    assert(self.thread_nodes@[me as int].parent == Some(pv) || spec_in_chain(
                        self.thread_nodes@,
                        self.order@,
                        pv as int,
                        me as int,
                    ));
                }
            },
            None => {},
        }
        match irt_node {
            Some(rx) => {
                if rx != me {
                    let ghost s_mid = self.thread_nodes@;
                    let _ = self.link(me, rx);
                    proof {
                        assert(forall|i: int|
                            0 <= i < s_mid.len()
                                ==> (#[trigger] self.thread_nodes@[i]).message_id == s_mid[i].message_id);
                        assert forall|mid: Seq<u8>| true implies #[trigger] spec_first_mid(
                            self.thread_nodes@,
                            mid,
                        ) == spec_first_mid(s_mid, mid) by {
                            lemma_first_mid_same_mids(s_mid, self.thread_nodes@, mid);
                        }
                        assert(self.thread_nodes@[me as int].parent == Some(rx) || spec_in_chain(
                            self.thread_nodes@,
                            self.order@,
                            rx as int,
                            me as int,
                        ));
                    }
                }
            },
            None => {},
        }
    }

    /// Insert one envelope: make sure its node exists, record the
    /// envelope on it, walk the `References` chain oldest to newest and
    /// link each entry under its predecessor where no cycle arises,
    /// hang the message under its last reference, and prefer the
    /// `In-Reply-To` parent where that is safe. Returns the node index
    /// of the message. With pairwise distinct references that do not
    /// name the message itself, the contract pins every link: a
    /// reference keeps its old parent or gains its predecessor, and
    /// the message's final parent is the one chosen, unless that
    /// parent already stands below the message.
    #[verifier::loop_isolation(false)]
    #[verifier::rlimit(100)]
    #[verifier::spinoff_prover]
    pub fn insert(
        &mut self,
        envelope_hash: u64,
        date: u64,
        message_id: &[u8],
        references: &Vec<Vec<u8>>,
        in_reply_to: Option<&[u8]>,
        subject: &[u8],
    ) -> (idx: usize)
        requires
            old(self).wf(),
        ensures
            final(self).wf(),
            old(self).thread_nodes@.len() <= final(self).thread_nodes@.len(),
            idx < final(self).thread_nodes@.len(),
            final(self).thread_nodes@[idx as int].message_id@ == message_id@,
            final(self).thread_nodes@[idx as int].envelope == Some(envelope_hash),
            final(self).thread_nodes@[idx as int].date == date,
            final(self).thread_nodes@[idx as int].subject@ == subject@.subrange(
                spec_subject_start(subject@, 0),
                subject@.len() as int,
            ),
            spec_first_mid(final(self).thread_nodes@, message_id@) == Some(idx as int),
            forall|k: int|
                0 <= k < references@.len() ==> spec_first_mid(
                    final(self).thread_nodes@,
                    #[trigger] references.deep_view()[k],
                ) is Some,
            forall|x: int|
                0 <= x < old(self).thread_nodes@.len() && x != idx ==> {
                    &&& (#[trigger] final(self).thread_nodes@[x]).message_id
                        == old(self).thread_nodes@[x].message_id
                    &&& final(self).thread_nodes@[x].envelope == old(self).thread_nodes@[x].envelope
                    &&& final(self).thread_nodes@[x].date == old(self).thread_nodes@[x].date
                    &&& final(self).thread_nodes@[x].subject == old(self).thread_nodes@[x].subject
                },
            forall|x: int|
                old(self).thread_nodes@.len() <= x < final(self).thread_nodes@.len() && x != idx
                    ==> (#[trigger] final(self).thread_nodes@[x]).envelope is None
                    && final(self).thread_nodes@[x].date == 0
                    && final(self).thread_nodes@[x].subject@.len() == 0,
            forall|x: int|
                0 <= x < final(self).thread_nodes@.len() && x != idx && (forall|k: int|
                    0 <= k < references@.len()
                        ==> (#[trigger] final(self).thread_nodes@[x]).message_id@
                        != #[trigger] references.deep_view()[k]) && (match in_reply_to {
                    Some(m) => final(self).thread_nodes@[x].message_id@ != m@,
                    None => true,
                }) ==> (if x < old(self).thread_nodes@.len() {
                    final(self).thread_nodes@[x].parent == old(self).thread_nodes@[x].parent
                } else {
                    final(self).thread_nodes@[x].parent is None
                }),
            spec_refs_distinct(references.deep_view(), message_id@) ==> forall|k: int|
                1 <= k < references@.len() ==> ({
                    let b = spec_first_mid(
                        final(self).thread_nodes@,
                        #[trigger] references.deep_view()[k],
                    )->Some_0;
                    let a = spec_first_mid(
                        final(self).thread_nodes@,
                        references.deep_view()[k - 1],
                    )->Some_0;
                    ||| final(self).thread_nodes@[b].parent == Some(a as usize)
                    ||| (b < old(self).thread_nodes@.len()
                        && final(self).thread_nodes@[b].parent
                        == old(self).thread_nodes@[b].parent)
                    ||| (b >= old(self).thread_nodes@.len()
                        && final(self).thread_nodes@[b].parent is None)
                }),
            (spec_refs_distinct(references.deep_view(), message_id@) && references@.len() > 0
                && (match in_reply_to {
                None => true,
                Some(m) => spec_first_mid(final(self).thread_nodes@, m@) == Some(idx as int),
            })) ==> ({
                let r = spec_first_mid(
                    final(self).thread_nodes@,
                    references.deep_view()[references@.len() - 1],
                )->Some_0;
                ||| final(self).thread_nodes@[idx as int].parent == Some(r as usize)
                ||| spec_in_chain(final(self).thread_nodes@, final(self).order@, r, idx as int)
            }),
            (match in_reply_to {
                None => true,
                Some(m) => (match spec_first_mid(final(self).thread_nodes@, m@) {
                    Some(r) => r != idx ==> {
                        ||| final(self).thread_nodes@[idx as int].parent == Some(r as usize)
                        ||| spec_in_chain(
                            final(self).thread_nodes@,
                            final(self).order@,
                            r,
                            idx as int,
                        )
                    },
                    None => true,
                }),
            }),
    {
        let ghost s_entry = old(self).thread_nodes@;
        let ghost old_len = old(self).thread_nodes@.len() as int;
        let ghost dv = references.deep_view();
        proof {
            assert(forall|k: int|
                0 <= k < references@.len() ==> dv[k] == (#[trigger] references@[k])@);
        }
        let me = self.ensure_node(message_id);
        let bs = base_subject(subject);
        let ghost gbs = bs@;
        let ghost s_before = self.thread_nodes@;
        {
            let nm = &mut self.thread_nodes[me];
            nm.envelope = Some(envelope_hash);
            nm.date = date;
            nm.subject = bs;
        }
        proof {
            let s_new = self.thread_nodes@;
            assert(s_new.len() == s_before.len());
            assert(forall|i: int|
                0 <= i < s_new.len() && i != me ==> s_new[i] == #[trigger] s_before[i]);
            assert(s_new[me as int].parent == s_before[me as int].parent);
            assert(s_new[me as int].children == s_before[me as int].children);
            assert(s_new[me as int].group == s_before[me as int].group);
            assert(self.wf());
            assert(forall|i: int|
                0 <= i < s_new.len() ==> (#[trigger] s_new[i]).message_id == s_before[i].message_id);
            lemma_first_mid_same_mids(s_before, s_new, message_id@);
        }
        let (prev, ghost_ridxs) = self.link_reference_chain(references, Ghost(message_id@));
        let ghost ridxs = ghost_ridxs@;
        proof {
            assert(spec_first_mid(self.thread_nodes@, message_id@) == Some(me as int));
        }
        // resolve the In-Reply-To node before attaching
        let irt_node: Option<usize> = match in_reply_to {
            Some(irt) => {
                let ghost s_pre = self.thread_nodes@;
                let rx = self.ensure_node(irt);
                proof {
                    if spec_first_mid(s_pre, irt@) is Some {
                        assert(self.thread_nodes@ == s_pre);
                    } else {
                        assert(self.thread_nodes@ == s_pre.push(self.thread_nodes@[rx as int]));
                        lemma_first_mid_push(s_pre, self.thread_nodes@[rx as int], message_id@);
                        assert forall|k2: int| 0 <= k2 < references@.len() implies spec_first_mid(
                            self.thread_nodes@,
                            dv[k2],
                        ) == Some(#[trigger] ridxs[k2]) by {
                            assert(spec_first_mid(s_pre, dv[k2]) == Some(ridxs[k2]));
                            lemma_first_mid_push(s_pre, self.thread_nodes@[rx as int], dv[k2]);
                        }
                    }
                }
                Some(rx)
            },
            None => None,
        };
        let ghost s_le = self.thread_nodes@;
        self.attach_message(me, prev, irt_node);
        proof {
            // identity of the message node
            assert(spec_first_mid(self.thread_nodes@, message_id@) == Some(me as int));
            // the references still resolve to the same nodes
            assert forall|k2: int| 0 <= k2 < references@.len() implies spec_first_mid(
                self.thread_nodes@,
                dv[k2],
            ) == Some(#[trigger] ridxs[k2]) by {
                assert(spec_first_mid(s_le, dv[k2]) == Some(ridxs[k2]));
            }
            // the reference-chain links survive: the message node is none of
            // the reference nodes, and attaching touches only its parent
            if spec_refs_distinct(dv, message_id@) {
                assert forall|k2: int| 1 <= k2 < references@.len() implies {
                    ||| self.thread_nodes@[#[trigger] ridxs[k2]].parent == Some(
                        ridxs[k2 - 1] as usize,
                    )
                    ||| (ridxs[k2] < old_len && self.thread_nodes@[ridxs[k2]].parent
                        == s_entry[ridxs[k2]].parent)
                    ||| (ridxs[k2] >= old_len && self.thread_nodes@[ridxs[k2]].parent is None)
                } by {
                    lemma_first_mid_props(s_le, dv[k2]);
                    assert(s_le[ridxs[k2]].message_id@ == dv[k2]);
                    assert(ridxs[k2] != me as int);
                }
            }
            // and the final clauses under their own triggers
            assert forall|k: int| 0 <= k < references@.len() implies spec_first_mid(
                self.thread_nodes@,
                #[trigger] references.deep_view()[k],
            ) is Some by {
                assert(spec_first_mid(self.thread_nodes@, dv[k]) == Some(ridxs[k]));
            }
            if spec_refs_distinct(dv, message_id@) {
                assert forall|k: int| 1 <= k < references@.len() implies ({
                    let b = spec_first_mid(
                        self.thread_nodes@,
                        #[trigger] references.deep_view()[k],
                    )->Some_0;
                    let a = spec_first_mid(self.thread_nodes@, references.deep_view()[k - 1])->Some_0;
                    ||| self.thread_nodes@[b].parent == Some(a as usize)
                    ||| (b < old_len && self.thread_nodes@[b].parent == s_entry[b].parent)
                    ||| (b >= old_len && self.thread_nodes@[b].parent is None)
                }) by {
                    assert(spec_first_mid(self.thread_nodes@, dv[k]) == Some(ridxs[k]));
                    assert(spec_first_mid(self.thread_nodes@, dv[k - 1]) == Some(ridxs[k - 1]));
                }
            }
        }
        me
    }

    /// The subject-union pass: conversations whose roots carry the same
    /// non-empty base subject become one group. For every such pair the
    /// current roots of the two trees are found and the younger root is
    /// hung under the older one, so afterwards all of them share one
    /// canonical group; nodes that already had a parent keep it.
    #[verifier::loop_isolation(false)]
    #[verifier::rlimit(100)]
    #[verifier::spinoff_prover]
    pub fn subject_union(&mut self)
        requires
            old(self).wf(),
        ensures
            final(self).wf(),
            final(self).thread_nodes@.len() == old(self).thread_nodes@.len(),
            final(self).same_node_payload(old(self)),
            final(self).group_links@.len() == old(self).group_links@.len(),
            forall|x: int|
                0 <= x < old(self).thread_nodes@.len() && old(self).thread_nodes@[x].parent
                    is Some
                    ==> (#[trigger] final(self).thread_nodes@[x]).parent
                    == old(self).thread_nodes@[x].parent,
            forall|x: int|
                0 <= x < old(self).thread_nodes@.len() && old(self).thread_nodes@[x].parent
                    is None ==> ((#[trigger] final(self).thread_nodes@[x]).parent matches Some(p)
                    ==> final(self).thread_nodes@[p as int].date
                    <= final(self).thread_nodes@[x].date),
            forall|i: int, j: int|
                0 <= i < old(self).thread_nodes@.len() && 0 <= j < old(self).thread_nodes@.len()
                    && (#[trigger] old(self).thread_nodes@[i]).parent is None
                    && (#[trigger] old(self).thread_nodes@[j]).parent is None
                    && old(self).thread_nodes@[i].subject@.len() > 0
                    && old(self).thread_nodes@[i].subject@ == old(self).thread_nodes@[j].subject@
                    ==> spec_find(
                    final(self).group_links@,
                    final(self).thread_nodes@[i].group as int,
                ) == spec_find(
                    final(self).group_links@,
                    final(self).thread_nodes@[j].group as int,
                ),
    {
        let ghost s0 = self.thread_nodes@;
        let n = self.thread_nodes.len();
        let mut was_root: Vec<bool> = Vec::new();
        let mut t: usize = 0;
        while t < n
            invariant
                t <= n,
                was_root@.len() == t,
                forall|k: int| 0 <= k < t ==> was_root@[k] == (s0[k].parent is None),
            decreases n - t,
        {
            was_root.push(self.thread_nodes[t].parent.is_none());
            t = t + 1;
        }
        let ghost cond = |a: int, b: int|
            {
                &&& 0 <= a < s0.len()
                &&& 0 <= b < s0.len()
                &&& s0[a].parent is None
                &&& s0[b].parent is None
                &&& s0[a].subject@.len() > 0
                &&& s0[a].subject@ == s0[b].subject@
            };
        let mut i: usize = 0;
        while i < n
            invariant
                i <= n,
                self.wf(),
                n == s0.len(),
                self.thread_nodes@.len() == n,
                self.same_node_payload(old(self)),
                self.group_links@.len() == old(self).group_links@.len(),
                was_root@.len() == n,
                forall|k: int| 0 <= k < n ==> was_root@[k] == (s0[k].parent is None),
                forall|x: int|
                    0 <= x < n && s0[x].parent is Some
                        ==> (#[trigger] self.thread_nodes@[x]).parent == s0[x].parent,
                forall|x: int|
                    0 <= x < n && s0[x].parent is None ==> ((
                    #[trigger] self.thread_nodes@[x]).parent matches Some(p)
                        ==> self.thread_nodes@[p as int].date <= self.thread_nodes@[x].date),
                forall|a: int, b: int|
                    a < i && b < i && #[trigger] cond(a, b) ==> spec_find(
                        self.group_links@,
                        self.thread_nodes@[a].group as int,
                    ) == spec_find(self.group_links@, self.thread_nodes@[b].group as int),
            decreases n - i,
        {
            let mut j: usize = 0;
            while j < i
                invariant
                    j <= i < n,
                    self.wf(),
                    n == s0.len(),
                    self.thread_nodes@.len() == n,
                    self.same_node_payload(old(self)),
                    self.group_links@.len() == old(self).group_links@.len(),
                    was_root@.len() == n,
                    forall|k: int| 0 <= k < n ==> was_root@[k] == (s0[k].parent is None),
                    forall|x: int|
                        0 <= x < n && s0[x].parent is Some
                            ==> (#[trigger] self.thread_nodes@[x]).parent == s0[x].parent,
                    forall|x: int|
                        0 <= x < n && s0[x].parent is None ==> ((
                        #[trigger] self.thread_nodes@[x]).parent matches Some(p)
                            ==> self.thread_nodes@[p as int].date <= self.thread_nodes@[x].date),
                    forall|a: int, b: int|
                        a < i && b < i && #[trigger] cond(a, b) ==> spec_find(
                            self.group_links@,
                            self.thread_nodes@[a].group as int,
                        ) == spec_find(self.group_links@, self.thread_nodes@[b].group as int),
                    forall|a: int|
                        a < j && #[trigger] cond(a, i as int) ==> spec_find(
                            self.group_links@,
                            self.thread_nodes@[a].group as int,
                        ) == spec_find(
                            self.group_links@,
                            self.thread_nodes@[i as int].group as int,
                        ),
                decreases i - j,
            {
                let subjects_match = was_root[i] && was_root[j]
                    && self.thread_nodes[i].subject.len() > 0 && crate::sieve::bytes_eq(
                    self.thread_nodes[i].subject.as_slice(),
                    self.thread_nodes[j].subject.as_slice(),
                );
                if subjects_match {
                    proof {
                        lemma_threading_closure(self, i as int);
                        lemma_threading_closure(self, j as int);
                    }
                    let ri = self.find_root(i);
                    let rj = self.find_root(j);
                    if ri != rj {
                        let ghost gls_pre = self.group_links@;
                        let ghost s_pre = self.thread_nodes@;
                        let linked = if self.thread_nodes[rj].date <= self.thread_nodes[ri].date {
                            self.link(ri, rj)
                        } else {
                            self.link(rj, ri)
                        };
                        proof {
                            assert(linked);
                            assert(spec_find(
                                self.group_links@,
                                self.thread_nodes@[ri as int].group as int,
                            ) == spec_find(
                                self.group_links@,
                                self.thread_nodes@[rj as int].group as int,
                            ));
                            assert forall|g1: int, g2: int|
                                spec_find(gls_pre, g1) == spec_find(gls_pre, g2) implies spec_find(
                                self.group_links@,
                                g1,
                            ) == spec_find(self.group_links@, g2) by {}
                        }
                    }
                    proof {
                        assert(spec_find(
                            self.group_links@,
                            self.thread_nodes@[i as int].group as int,
                        ) == spec_find(
                            self.group_links@,
                            self.thread_nodes@[j as int].group as int,
                        ));
                    }
                }
                proof {
                    assert forall|a: int| a < j + 1 && #[trigger] cond(a, i as int) implies
                        spec_find(self.group_links@, self.thread_nodes@[a].group as int)
                        == spec_find(
                        self.group_links@,
                        self.thread_nodes@[i as int].group as int,
                    ) by {
                        if a == j {
                            assert(cond(j as int, i as int));
                        }
                    }
                }
                j = j + 1;
            }
            proof {
                assert forall|a: int, b: int| a < i + 1 && b < i + 1 && #[trigger] cond(a, b)
                    implies spec_find(self.group_links@, self.thread_nodes@[a].group as int)
                    == spec_find(self.group_links@, self.thread_nodes@[b].group as int) by {
                    if a == i && b == i {
                    } else if a == i {
                        assert(cond(b, i as int));
                    } else if b == i {
                        assert(cond(a, i as int));
                    }
                }
            }
            i = i + 1;
        }
        proof {
            assert forall|i2: int, j2: int|
                0 <= i2 < n && 0 <= j2 < n && (#[trigger] s0[i2]).parent is None
                    && (#[trigger] s0[j2]).parent is None && s0[i2].subject@.len() > 0
                    && s0[i2].subject@ == s0[j2].subject@ implies spec_find(
                self.group_links@,
                self.thread_nodes@[i2].group as int,
            ) == spec_find(self.group_links@, self.thread_nodes@[j2].group as int) by {
                assert(cond(i2, j2));
            }
        }
    }

    /// The indices of all roots, ascending.
    #[verifier::loop_isolation(false)]
    pub fn roots(&self) -> (r: Vec<usize>)
        ensures
            forall|k: int|
                0 <= k < r@.len() ==> (#[trigger] r@[k]) < self.thread_nodes@.len()
                    && self.thread_nodes@[r@[k] as int].parent is None,
            forall|k1: int, k2: int| 0 <= k1 < k2 < r@.len() ==> r@[k1] < r@[k2],
            forall|i: int|
                0 <= i < self.thread_nodes@.len() && (#[trigger] self.thread_nodes@[i]).parent
                    is None ==> r@.contains(i as usize),
    {
        let n = self.thread_nodes.len();
        let mut r: Vec<usize> = Vec::new();
        let mut i: usize = 0;
        while i < n
            invariant
                i <= n,
                n == self.thread_nodes@.len(),
                forall|k: int|
                    0 <= k < r@.len() ==> (#[trigger] r@[k]) < i
                        && self.thread_nodes@[r@[k] as int].parent is None,
                forall|k1: int, k2: int| 0 <= k1 < k2 < r@.len() ==> r@[k1] < r@[k2],
                forall|j: int|
                    0 <= j < i && (#[trigger] self.thread_nodes@[j]).parent is None ==> r@.contains(
                        j as usize,
                    ),
            decreases n - i,
        {
            if self.thread_nodes[i].parent.is_none() {
                let ghost rold = r@;
                r.push(i);
                proof {
                    assert(r@[r@.len() - 1] == i);
                    assert forall|j: int|
                        0 <= j < i + 1 && (#[trigger] self.thread_nodes@[j]).parent
                            is None implies r@.contains(j as usize) by {
                        if j < i {
                            let w = choose|w: int| 0 <= w < rold.len() && rold[w] == j as usize;
                            assert(r@[w] == j as usize);
                        }
                    }
                }
            }
            i = i + 1;
        }
        r
    }

    /// The envelope a node stands for, `None` for a phantom.
    pub fn thread_to_mail(&self, i: usize) -> (r: Option<u64>)
        requires
            i < self.thread_nodes@.len(),
        ensures
            r == self.thread_nodes@[i as int].envelope,
    {
        self.thread_nodes[i].envelope
    }
}

/// The fuel that covers a full walk of the forest.
pub open spec fn spec_forest_fuel(s: Seq<ThreadNode>) -> nat {
    if s.len() < usize::MAX {
        (s.len() + 1) as nat
    } else {
        s.len()
    }
}

/// Saturating one more depth level.
pub open spec fn spec_deeper(d: usize) -> usize {
    if d < usize::MAX {
        (d + 1) as usize
    } else {
        d
    }
}

/// The depth-first rendering walk from one node: the node's own entry,
/// then its children in order, one level deeper. `fuel` bounds the
/// walk; with the forest acyclic it never runs out in practice.
pub open spec fn spec_iter_node(
    s: Seq<ThreadNode>,
    x: usize,
    d: usize,
    sib: bool,
    fuel: nat,
) -> Seq<(usize, usize, bool)>
    decreases fuel, 0nat,
{
    if !((x as int) < s.len()) || fuel == 0 {
        seq![(d, x, sib)]
    } else {
        seq![(d, x, sib)] + spec_iter_kids(s, x, 0, spec_deeper(d), (fuel - 1) as nat)
    }
}

/// The walk over the children of `x` starting at child index `k`.
pub open spec fn spec_iter_kids(s: Seq<ThreadNode>, x: usize, k: int, d: usize, fuel: nat) -> Seq<
    (usize, usize, bool),
>
    decreases fuel, (if (x as int) < s.len() && k >= 0 {
        s[x as int].children@.len() - k
    } else {
        0
    }),
{
    if !((x as int) < s.len()) || k < 0 || k >= s[x as int].children@.len() || fuel == 0 {
        Seq::empty()
    } else {
        let c = s[x as int].children@[k];
        let sib = k + 1 < s[x as int].children@.len();
        spec_iter_node(s, c, d, sib, (fuel - 1) as nat) + spec_iter_kids(s, x, k + 1, d, fuel)
    }
}

/// The whole rendering walk over a list of roots.
pub open spec fn spec_group_iter(
    s: Seq<ThreadNode>,
    roots: Seq<usize>,
    k: int,
    fuel: nat,
) -> Seq<(usize, usize, bool)>
    decreases roots.len() - k,
{
    if !(0 <= k < roots.len()) {
        Seq::empty()
    } else {
        spec_iter_node(s, roots[k], 0, k + 1 < roots.len(), fuel) + spec_group_iter(
            s,
            roots,
            k + 1,
            fuel,
        )
    }
}

impl Threads {
    /// One node's part of the rendering walk.
    fn iter_node(&self, x: usize, d: usize, sib: bool, fuel: usize) -> (r: Vec<
        (usize, usize, bool),
    >)
        requires
            self.wf(),
        ensures
            r@ == spec_iter_node(self.thread_nodes@, x, d, sib, fuel as nat),
        decreases fuel, 0nat,
    {
        let mut out: Vec<(usize, usize, bool)> = Vec::new();
        out.push((d, x, sib));
        if x < self.thread_nodes.len() && fuel > 0 {
            let deeper = if d < usize::MAX {
                d + 1
            } else {
                d
            };
            let mut kids = self.iter_kids(x, 0, deeper, fuel - 1);
            let ghost gout = out@;
            let ghost gkids = kids@;
            out.append(&mut kids);
            proof {
                assert(out@ == gout + gkids);
                assert(gout =~= seq![(d, x, sib)]);
            }
        } else {
            proof {
                assert(out@ =~= seq![(d, x, sib)]);
            }
        }
        out
    }

    /// The children's part of the rendering walk, from child `k` on.
    fn iter_kids(&self, x: usize, k: usize, d: usize, fuel: usize) -> (r: Vec<
        (usize, usize, bool),
    >)
        requires
            self.wf(),
        ensures
            r@ == spec_iter_kids(self.thread_nodes@, x, k as int, d, fuel as nat),
        decreases fuel, (if (x as int) < self.thread_nodes@.len() {
            self.thread_nodes@[x as int].children@.len() - k
        } else {
            0
        }),
    {
        if x >= self.thread_nodes.len() || k >= self.thread_nodes[x].children.len() || fuel == 0 {
            let out: Vec<(usize, usize, bool)> = Vec::new();
            proof {
                assert(out@ =~= Seq::<(usize, usize, bool)>::empty());
            }
            return out;
        }
        let c = self.thread_nodes[x].children[k];
        let sib = k + 1 < self.thread_nodes[x].children.len();
        let mut out = self.iter_node(c, d, sib, fuel - 1);
        let mut rest = self.iter_kids(x, k + 1, d, fuel);
        let ghost gout = out@;
        let ghost grest = rest@;
        out.append(&mut rest);
        proof {
            assert(out@ == gout + grest);
        }
        out
    }

    /// The depth-first rendering walk: for every visited node one
    /// `(indentation, node index, has following sibling)` entry, roots
    /// first, children one level deeper, in stored order.
    pub fn threads_group_iter(&self, roots: &Vec<usize>) -> (r: Vec<(usize, usize, bool)>)
        requires
            self.wf(),
        ensures
            r@ == spec_group_iter(self.thread_nodes@, roots@, 0, spec_forest_fuel(self.thread_nodes@)),
    {
        let n0 = self.thread_nodes.len();
        let fuel = if n0 < usize::MAX {
            n0 + 1
        } else {
            n0
        };
        let n = roots.len();
        let mut out: Vec<(usize, usize, bool)> = Vec::new();
        let mut k: usize = 0;
        while k < n
            invariant
                self.wf(),
                k <= n,
                n == roots@.len(),
                fuel as nat == spec_forest_fuel(self.thread_nodes@),
                out@ + spec_group_iter(self.thread_nodes@, roots@, k as int, fuel as nat)
                    =~= spec_group_iter(self.thread_nodes@, roots@, 0, fuel as nat),
            decreases n - k,
        {
            let mut one = self.iter_node(roots[k], 0, k + 1 < n, fuel);
            let ghost gout = out@;
            let ghost gone = one@;
            out.append(&mut one);
            proof {
                assert(out@ == gout + gone);
                assert(out@ + spec_group_iter(self.thread_nodes@, roots@, k + 1, fuel as nat)
                    =~= gout + (gone + spec_group_iter(
                    self.thread_nodes@,
                    roots@,
                    k + 1,
                    fuel as nat,
                )));
            }
            k = k + 1;
        }
        proof {
            assert(out@ =~= out@ + spec_group_iter(
                self.thread_nodes@,
                roots@,
                n as int,
                fuel as nat,
            ));
        }
        out
    }

    /// A fresh, empty forest.
    pub fn new() -> (r: Threads)
        ensures
            r.wf(),
            r.thread_nodes@.len() == 0,
    {
        Threads { thread_nodes: Vec::new(), group_links: Vec::new(), order: Ghost(Seq::empty()) }
    }
}

} // verus!
