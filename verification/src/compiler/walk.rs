//! The local packages of a module: found breadth-first from the entry package, each once,
//! then built in dependency order (Kahn's algorithm), an import cycle refused.
use vstd::prelude::*;

use crate::text::{copy_string, str_eq, views};
use vstd::set_lib::*;

verus! {

/// The queue of package directories met so far, how far it has been taken, and the
/// directories already handed out.
pub struct PackageWalk {
    queue: Vec<String>,
    head: usize,
    visited: Vec<String>,
}

pub struct WalkView {
    pub queue: Seq<Seq<char>>,
    pub head: nat,
    pub visited: Seq<Seq<char>>,
}

impl View for PackageWalk {
    type V = WalkView;

    closed spec fn view(&self) -> WalkView {
        WalkView { queue: views(self.queue@), head: self.head as nat, visited: views(self.visited@) }
    }
}

/// The first directory of the queue from position `i` on that was not handed out yet, and
/// the position after it (the queue's end when there is none).
pub open spec fn first_new(queue: Seq<Seq<char>>, visited: Seq<Seq<char>>, i: int) -> (
    Option<Seq<char>>,
    int,
)
    decreases queue.len() - i,
{
    if i < 0 || i >= queue.len() {
        (None, queue.len() as int)
    } else if visited.contains(queue[i]) {
        first_new(queue, visited, i + 1)
    } else {
        (Some(queue[i]), i + 1)
    }
}

proof fn lemma_first_new(queue: Seq<Seq<char>>, visited: Seq<Seq<char>>, i: int)
    requires
        0 <= i <= queue.len(),
    ensures
        i <= first_new(queue, visited, i).1 <= queue.len(),
        first_new(queue, visited, i).0 matches Some(d) ==> !visited.contains(d),
    decreases queue.len() - i,
{
    if i < queue.len() && visited.contains(queue[i]) {
        lemma_first_new(queue, visited, i + 1);
    }
}

/// The directories of `dirs` not handed out yet, in their order.
pub open spec fn unvisited(dirs: Seq<Seq<char>>, visited: Seq<Seq<char>>) -> Seq<Seq<char>>
    decreases dirs.len(),
{
    if dirs.len() == 0 {
        Seq::empty()
    } else {
        unvisited(dirs.drop_last(), visited) + if visited.contains(dirs.last()) {
            Seq::empty()
        } else {
            seq![dirs.last()]
        }
    }
}

impl PackageWalk {
    pub closed spec fn wf(&self) -> bool {
        self.head <= self.queue@.len()
    }

    /// A walk that starts at the entry package.
    pub fn new(entry: &str) -> (w: PackageWalk)
        ensures
            w.wf(),
            w@.queue == seq![entry@],
            w@.head == 0,
            w@.visited == Seq::<Seq<char>>::empty(),
    {
        let mut queue: Vec<String> = Vec::new();
        queue.push(crate::text::str_to_string(entry));
        let w = PackageWalk { queue, head: 0, visited: Vec::new() };
        assert(views(w.queue@) =~= seq![entry@]);
        assert(views(w.visited@) =~= Seq::<Seq<char>>::empty());
        w
    }

    fn is_visited(&self, dir: &str) -> (r: bool)
        ensures
            r == views(self.visited@).contains(dir@),
    {
        let mut i: usize = 0;
        while i < self.visited.len()
            invariant
                0 <= i <= self.visited@.len(),
                forall|k: int| 0 <= k < i ==> views(self.visited@)[k] != dir@,
            decreases self.visited@.len() - i,
        {
            if str_eq(self.visited[i].as_str(), dir) {
                assert(views(self.visited@)[i as int] == dir@);
                return true;
            }
            i = i + 1;
        }
        false
    }

    /// The next package to emit: the first queued directory not handed out yet, which is
    /// then marked as handed out; `None` when the queue is used up.
    pub fn next_package(&mut self) -> (r: Option<String>)
        requires
            old(self).wf(),
        ensures
            final(self).wf(),
            ({
                let (d, j) = first_new(old(self)@.queue, old(self)@.visited, old(self)@.head as int);
                &&& final(self)@.queue == old(self)@.queue
                &&& final(self)@.head == j
                &&& match r {
                    Some(s) => d == Some(s@) && final(self)@.visited == old(self)@.visited.push(s@),
                    None => d is None && final(self)@.visited == old(self)@.visited,
                }
            }),
            r matches Some(s) ==> !old(self)@.visited.contains(s@),
    {
        proof {
            lemma_first_new(old(self)@.queue, old(self)@.visited, old(self)@.head as int);
        }
        while self.head < self.queue.len()
            invariant
                self.wf(),
                self@.queue == old(self)@.queue,
                self@.visited == old(self)@.visited,
                old(self)@.head <= self.head,
                first_new(old(self)@.queue, old(self)@.visited, old(self)@.head as int)
                    == first_new(self@.queue, self@.visited, self.head as int),
            decreases self.queue@.len() - self.head,
        {
            let i = self.head;
            self.head = self.head + 1;
            if !self.is_visited(self.queue[i].as_str()) {
                let d = copy_string(&self.queue[i]);
                let ghost v0 = self.visited@;
                self.visited.push(copy_string(&d));
                assert(views(self.visited@) =~= views(v0).push(d@));
                return Some(d);
            }
        }
        None
    }

    /// Queues the imported package directories that were not handed out yet.
    pub fn discovered(&mut self, dirs: &Vec<String>)
        requires
            old(self).wf(),
        ensures
            final(self).wf(),
            final(self)@.queue == old(self)@.queue + unvisited(views(dirs@), old(self)@.visited),
            final(self)@.head == old(self)@.head,
            final(self)@.visited == old(self)@.visited,
    {
        let mut i: usize = 0;
        assert(views(dirs@).take(0) =~= Seq::<Seq<char>>::empty());
        assert(self@.queue =~= old(self)@.queue + unvisited(views(dirs@).take(0), old(self)@.visited));
        while i < dirs.len()
            invariant
                self.wf(),
                0 <= i <= dirs@.len(),
                self@.queue == old(self)@.queue + unvisited(views(dirs@).take(i as int), old(self)@.visited),
                self@.head == old(self)@.head,
                self@.visited == old(self)@.visited,
            decreases dirs@.len() - i,
        {
            assert(views(dirs@).take(i + 1).drop_last() =~= views(dirs@).take(i as int));
            assert(views(dirs@).take(i + 1).last() == dirs@[i as int]@);
            let ghost q0 = self@.queue;
            if !self.is_visited(dirs[i].as_str()) {
                self.queue.push(copy_string(&dirs[i]));
                assert(self@.queue =~= q0.push(dirs@[i as int]@));
            }
            assert(self@.queue =~= old(self)@.queue + unvisited(
                views(dirs@).take(i + 1),
                old(self)@.visited,
            ));
            i = i + 1;
        }
        assert(views(dirs@).take(dirs@.len() as int) =~= views(dirs@));
    }
}

/// A directory is handed out at most once: what `next_package` returns was not handed out
/// before, and it is handed out from then on.
pub proof fn law_packages_handed_out_once(
    queue: Seq<Seq<char>>,
    visited: Seq<Seq<char>>,
    head: int,
)
    requires
        0 <= head <= queue.len(),
    ensures
        first_new(queue, visited, head).0 matches Some(d) ==> !visited.contains(d)
            && visited.push(d).contains(d),
{
    lemma_first_new(queue, visited, head);
    if let Some(d) = first_new(queue, visited, head).0 {
        assert(visited.push(d)[visited.len() as int] == d);
    }
}


/// A package found in the walk: its directory and the local package directories it imports.
pub struct PackageNode {
    pub dir: String,
    pub imports: Vec<String>,
}

/// Package `i` imports package `j`: one of its imports names `j`'s directory.
pub open spec fn imports_dir(nodes: Seq<PackageNode>, i: int, j: int) -> bool {
    &&& 0 <= i < nodes.len()
    &&& 0 <= j < nodes.len()
    &&& exists|k: int|
        0 <= k < nodes[i].imports@.len() && #[trigger] nodes[i].imports@[k]@ == nodes[j].dir@
}

/// Package `i` can be built once the packages of `built` are: it is not among them, and
/// every package it imports is.
pub open spec fn ready(nodes: Seq<PackageNode>, built: Seq<usize>, i: int) -> bool {
    &&& 0 <= i < nodes.len()
    &&& !built.contains(i as usize)
    &&& forall|j: int| #[trigger] imports_dir(nodes, i, j) ==> built.contains(j as usize)
}

/// Each package of `order` is, among those ready after the ones before it, the first.
pub open spec fn kahn_prefix(nodes: Seq<PackageNode>, order: Seq<usize>) -> bool {
    forall|a: int|
        0 <= a < order.len() ==> {
            &&& ready(nodes, order.take(a), #[trigger] order[a] as int)
            &&& forall|i: int| 0 <= i < order[a] ==> !ready(nodes, order.take(a), i)
        }
}

/// No package of `order` imports itself or one that comes after it.
pub open spec fn dependencies_first(nodes: Seq<PackageNode>, order: Seq<usize>) -> bool {
    forall|a: int, b: int|
        0 <= a <= b < order.len() ==> !imports_dir(
            nodes,
            #[trigger] order[a] as int,
            #[trigger] order[b] as int,
        )
}

/// Every package of `set` imports a package of `set`: a set that holds an import cycle.
pub open spec fn closed_under_imports(nodes: Seq<PackageNode>, set: Seq<usize>) -> bool {
    forall|x: usize|
        #[trigger] set.contains(x) ==> exists|y: usize|
            #[trigger] set.contains(y) && imports_dir(nodes, x as int, y as int)
}

proof fn lemma_kahn_dependencies_first(nodes: Seq<PackageNode>, order: Seq<usize>)
    requires
        kahn_prefix(nodes, order),
    ensures
        dependencies_first(nodes, order),
        order.no_duplicates(),
{
    assert forall|a: int, b: int| 0 <= a <= b < order.len() implies !imports_dir(
        nodes,
        #[trigger] order[a] as int,
        #[trigger] order[b] as int,
    ) by {
        assert(ready(nodes, order.take(a), order[a] as int));
        assert(ready(nodes, order.take(b), order[b] as int));
        if imports_dir(nodes, order[a] as int, order[b] as int) {
            assert(order.take(a).contains(order[b]));
            let c = choose|c: int| 0 <= c < order.take(a).len() && order.take(a)[c] == order[b];
            assert(order.take(b)[c] == order[b]);
        }
    }
    assert forall|a: int, b: int| 0 <= a < order.len() && 0 <= b < order.len() && a != b implies order[a]
        != order[b] by {
        if a < b {
            assert(ready(nodes, order.take(b), order[b] as int));
            assert(order.take(b)[a] == order[a]);
        } else {
            assert(ready(nodes, order.take(a), order[a] as int));
            assert(order.take(a)[b] == order[b]);
        }
    }
}

/// The number of packages not built yet.
spec fn unbuilt(built: Seq<bool>) -> nat
    decreases built.len(),
{
    if built.len() == 0 {
        0
    } else {
        unbuilt(built.drop_last()) + if built.last() {
            0nat
        } else {
            1nat
        }
    }
}

proof fn lemma_unbuilt_set(built: Seq<bool>, k: int)
    requires
        0 <= k < built.len(),
        !built[k],
    ensures
        unbuilt(built.update(k, true)) + 1 == unbuilt(built),
    decreases built.len(),
{
    let u = built.update(k, true);
    if k == built.len() - 1 {
        assert(u.drop_last() =~= built.drop_last());
    } else {
        assert(u.drop_last() =~= built.drop_last().update(k, true));
        lemma_unbuilt_set(built.drop_last(), k);
    }
}

/// Whether every package that package `i` imports is built.
fn imports_built(nodes: &Vec<PackageNode>, built: &Vec<bool>, i: usize) -> (r: bool)
    requires
        i < nodes@.len(),
        built@.len() == nodes@.len(),
    ensures
        r == forall|j: int| #[trigger] imports_dir(nodes@, i as int, j) ==> built@[j],
{
    let n = nodes.len();
    let imports = &nodes[i].imports;
    let mut k: usize = 0;
    while k < imports.len()
        invariant
            n == nodes@.len(),
            built@.len() == n,
            i < n,
            *imports == nodes@[i as int].imports,
            0 <= k <= imports@.len(),
            forall|k2: int, j: int|
                0 <= k2 < k && 0 <= j < n && #[trigger] imports@[k2]@ == #[trigger] nodes@[j].dir@
                    ==> built@[j],
        decreases imports@.len() - k,
    {
        let mut j: usize = 0;
        while j < n
            invariant
                n == nodes@.len(),
                built@.len() == n,
                i < n,
                *imports == nodes@[i as int].imports,
                0 <= k < imports@.len(),
                0 <= j <= n,
                forall|k2: int, j2: int|
                    0 <= k2 < k && 0 <= j2 < n && #[trigger] imports@[k2]@ == #[trigger] nodes@[j2].dir@
                        ==> built@[j2],
                forall|j2: int|
                    0 <= j2 < j && imports@[k as int]@ == #[trigger] nodes@[j2].dir@ ==> built@[j2],
            decreases n - j,
        {
            if !built[j] && str_eq(nodes[j].dir.as_str(), imports[k].as_str()) {
                assert(imports_dir(nodes@, i as int, j as int));
                return false;
            }
            j = j + 1;
        }
        k = k + 1;
    }
    assert forall|j: int| #[trigger] imports_dir(nodes@, i as int, j) implies built@[j] by {
        let k2 = choose|k2: int|
            0 <= k2 < nodes@[i as int].imports@.len() && #[trigger] nodes@[i as int].imports@[k2]@
                == nodes@[j].dir@;
        assert(imports@[k2]@ == nodes@[j].dir@);
    }
    true
}

/// `order` builds every package once, each as the first that can come next, and so each
/// after every package it imports.
pub open spec fn built_in_order(nodes: Seq<PackageNode>, order: Seq<usize>) -> bool {
    &&& kahn_prefix(nodes, order)
    &&& forall|i: usize| i < nodes.len() ==> #[trigger] order.contains(i)
    &&& order.len() == nodes.len()
    &&& dependencies_first(nodes, order)
}

/// `stuck` lists, in index order, the packages left when none of them can come next after
/// the packages built first, one by one, each as the first that could; every one of them
/// imports one of them.
pub open spec fn left_in_cycle(nodes: Seq<PackageNode>, stuck: Seq<usize>) -> bool {
    &&& stuck.len() > 0
    &&& exists|built: Seq<usize>|
        {
            &&& #[trigger] kahn_prefix(nodes, built)
            &&& forall|i: int| 0 <= i < nodes.len() ==> !ready(nodes, built, i)
            &&& forall|i: usize|
                #![trigger stuck.contains(i)]
                #![trigger built.contains(i)]
                i < nodes.len() ==> (stuck.contains(i) <==> !built.contains(i))
        }
    &&& forall|a: int, b: int| 0 <= a < b < stuck.len() ==> stuck[a] < stuck[b]
    &&& forall|a: int| 0 <= a < stuck.len() ==> stuck[a] < nodes.len()
    &&& closed_under_imports(nodes, stuck)
}

/// The first package (by index) that can be built after `order`, or the number of packages
/// when there is none, and whether any package is left unbuilt.
fn next_ready(nodes: &Vec<PackageNode>, built: &Vec<bool>, Ghost(order): Ghost<Seq<usize>>) -> (r: (
    usize,
    bool,
))
    requires
        built@.len() == nodes@.len(),
        forall|j: int| 0 <= j < nodes@.len() ==> (#[trigger] built@[j] <==> order.contains(j as usize)),
    ensures
        r.0 == nodes@.len() || (r.0 < nodes@.len() && ready(nodes@, order, r.0 as int)),
        forall|j: int| 0 <= j < r.0 && j < nodes@.len() ==> !ready(nodes@, order, j),
        r.1 <==> exists|j: int| 0 <= j < nodes@.len() && !#[trigger] built@[j],
{
    let n = nodes.len();
    let mut next: usize = n;
    let mut any_left = false;
    let mut i: usize = 0;
    while i < n
        invariant
            n == nodes@.len(),
            built@.len() == n,
            forall|j: int| 0 <= j < n ==> (#[trigger] built@[j] <==> order.contains(j as usize)),
            0 <= i <= n,
            next == n || (next < i && ready(nodes@, order, next as int)),
            forall|j: int| 0 <= j < i && j < next ==> !ready(nodes@, order, j),
            any_left <==> exists|j: int| 0 <= j < i && !#[trigger] built@[j],
        decreases n - i,
    {
        let ghost ii = i as int;
        if !built[i] {
            any_left = true;
            if next == n {
                let all_built = imports_built(nodes, built, i);
                if all_built {
                    assert forall|j: int| #[trigger] imports_dir(nodes@, ii, j) implies order.contains(
                        j as usize,
                    ) by {
                        assert(built@[j]);
                    }
                    next = i;
                } else {
                    assert(!ready(nodes@, order, ii)) by {
                        let j = choose|j: int| #[trigger] imports_dir(nodes@, ii, j) && !built@[j];
                    }
                }
            }
        } else {
            assert(order.contains(i as usize));
        }
        i = i + 1;
    }
    (next, any_left)
}

/// The packages not built yet, in index order.
fn unbuilt_indices(built: &Vec<bool>) -> (stuck: Vec<usize>)
    ensures
        forall|a: int, b: int| 0 <= a < b < stuck@.len() ==> stuck@[a] < stuck@[b],
        forall|a: int| 0 <= a < stuck@.len() ==> stuck@[a] < built@.len(),
        forall|x: usize|
            #![trigger stuck@.contains(x)]
            x < built@.len() ==> (stuck@.contains(x) <==> !built@[x as int]),
{
    let n = built.len();
    let mut stuck: Vec<usize> = Vec::new();
    let mut j: usize = 0;
    while j < n
        invariant
            n == built@.len(),
            0 <= j <= n,
            forall|a: int, b: int| 0 <= a < b < stuck@.len() ==> stuck@[a] < stuck@[b],
            forall|a: int| 0 <= a < stuck@.len() ==> stuck@[a] < j,
            forall|x: usize|
                #![trigger stuck@.contains(x)]
                x < j ==> (stuck@.contains(x) <==> !built@[x as int]),
        decreases n - j,
    {
        if !built[j] {
            let ghost s0 = stuck@;
            stuck.push(j);
            assert forall|x: usize| x < j + 1 implies (#[trigger] stuck@.contains(x) <==> !built@[
                x as int
            ]) by {
                if x < j {
                    if s0.contains(x) {
                        let c = choose|c: int| 0 <= c < s0.len() && s0[c] == x;
                        assert(stuck@[c] == x);
                    }
                    if stuck@.contains(x) {
                        let c = choose|c: int| 0 <= c < stuck@.len() && stuck@[c] == x;
                        if c < s0.len() {
                            assert(s0[c] == x);
                        }
                    }
                } else {
                    assert(stuck@[s0.len() as int] == j);
                }
            }
        } else {
            assert forall|x: usize| x < j + 1 implies (#[trigger] stuck@.contains(x) <==> !built@[
                x as int
            ]) by {
                if x == j && stuck@.contains(x) {
                    let c = choose|c: int| 0 <= c < stuck@.len() && stuck@[c] == x;
                }
            }
        }
        j = j + 1;
    }
    stuck
}

proof fn lemma_kahn_push(nodes: Seq<PackageNode>, order: Seq<usize>, next: usize)
    requires
        kahn_prefix(nodes, order),
        ready(nodes, order, next as int),
        forall|i: int| 0 <= i < next ==> !ready(nodes, order, i),
    ensures
        kahn_prefix(nodes, order.push(next)),
{
    let o = order.push(next);
    assert forall|a: int| 0 <= a < o.len() implies {
        &&& ready(nodes, o.take(a), #[trigger] o[a] as int)
        &&& forall|i: int| 0 <= i < o[a] ==> !ready(nodes, o.take(a), i)
    } by {
        if a < order.len() {
            assert(o.take(a) =~= order.take(a));
            assert(o[a] == order[a]);
        } else {
            assert(o.take(a) =~= order);
        }
    }
}

/// The order in which the packages are built: each package after every package it imports.
/// At each step the first package (by index) whose imports are all built comes next. When
/// packages are left and none of them can come next, they hold an import cycle: the error
/// lists them, in index order.
pub fn build_order(nodes: &Vec<PackageNode>) -> (r: Result<Vec<usize>, Vec<usize>>)
    ensures
        match r {
            Ok(order) => built_in_order(nodes@, order@),
            Err(stuck) => left_in_cycle(nodes@, stuck@),
        },
{
    let n = nodes.len();
    let mut built: Vec<bool> = Vec::new();
    while built.len() < n
        invariant
            built@.len() <= n,
            forall|j: int| 0 <= j < built@.len() ==> !built@[j],
        decreases n - built@.len(),
    {
        built.push(false);
    }
    let mut order: Vec<usize> = Vec::new();
    loop
        invariant
            n == nodes@.len(),
            built@.len() == n,
            kahn_prefix(nodes@, order@),
            flags_match(order@, built@),
            forall|a: int| 0 <= a < order@.len() ==> order@[a] < n,
        decreases unbuilt(built@),
    {
        let (next, any_left) = next_ready(nodes, &built, Ghost(order@));
        if !any_left {
            proof {
                lemma_all_built(nodes@, order@, built@);
            }
            return Ok(order);
        }
        if next == n {
            let stuck = unbuilt_indices(&built);
            proof {
                lemma_stuck_closed(nodes@, order@, built@, stuck@);
            }
            return Err(stuck);
        }
        proof {
            lemma_kahn_push(nodes@, order@, next);
            lemma_unbuilt_set(built@, next as int);
            lemma_built_push(order@, built@, next);
        }
        order.push(next);
        built.set(next, true);
    }
}

proof fn lemma_all_built(nodes: Seq<PackageNode>, order: Seq<usize>, built: Seq<bool>)
    requires
        built.len() == nodes.len(),
        nodes.len() <= usize::MAX,
        kahn_prefix(nodes, order),
        flags_match(order, built),
        forall|a: int| 0 <= a < order.len() ==> order[a] < nodes.len(),
        !exists|j: int| 0 <= j < nodes.len() && !#[trigger] built[j],
    ensures
        built_in_order(nodes, order),
{
    lemma_kahn_dependencies_first(nodes, order);
    assert forall|j: usize| j < nodes.len() implies #[trigger] order.contains(j) by {
        assert(built[j as int]);
    }
    order_is_permutation(order, nodes.len() as usize);
}

/// Built flags that match the packages of `order`.
spec fn flags_match(order: Seq<usize>, built: Seq<bool>) -> bool {
    forall|j: int| 0 <= j < built.len() ==> (#[trigger] built[j] <==> order.contains(j as usize))
}

proof fn lemma_built_push(order: Seq<usize>, built: Seq<bool>, next: usize)
    requires
        flags_match(order, built),
        next < built.len(),
        built.len() <= usize::MAX,
    ensures
        flags_match(order.push(next), built.update(next as int, true)),
{
    let o = order.push(next);
    let b = built.update(next as int, true);
    assert forall|j: int| 0 <= j < b.len() implies (#[trigger] b[j] <==> o.contains(j as usize)) by {
        if j == next {
            assert(o[order.len() as int] == next);
        } else {
            assert(b[j] == built[j]);
            if order.contains(j as usize) {
                let c = choose|c: int| 0 <= c < order.len() && order[c] == j as usize;
                assert(o[c] == j as usize);
            }
            if o.contains(j as usize) {
                let c = choose|c: int| 0 <= c < o.len() && o[c] == j as usize;
                assert(c < order.len());
                assert(order[c] == j as usize);
            }
        }
    }
}

proof fn lemma_stuck_closed(
    nodes: Seq<PackageNode>,
    order: Seq<usize>,
    built: Seq<bool>,
    stuck: Seq<usize>,
)
    requires
        built.len() == nodes.len(),
        nodes.len() <= usize::MAX,
        flags_match(order, built),
        exists|j: int| 0 <= j < nodes.len() && !#[trigger] built[j],
        forall|i: int| 0 <= i < nodes.len() ==> !ready(nodes, order, i),
        forall|x: usize|
            #![trigger stuck.contains(x)]
            x < built.len() ==> (stuck.contains(x) <==> !built[x as int]),
        forall|a: int| 0 <= a < stuck.len() ==> stuck[a] < built.len(),
        kahn_prefix(nodes, order),
        forall|a: int, b: int| 0 <= a < b < stuck.len() ==> stuck[a] < stuck[b],
    ensures
        left_in_cycle(nodes, stuck),
{
    let c = choose|c: int| 0 <= c < nodes.len() && !built[c];
    assert(stuck.contains(c as usize));
    assert forall|x: usize| #[trigger] stuck.contains(x) implies exists|y: usize|
        #[trigger] stuck.contains(y) && imports_dir(nodes, x as int, y as int) by {
        let a = choose|a: int| 0 <= a < stuck.len() && stuck[a] == x;
        assert(!built[x as int]);
        assert(!ready(nodes, order, x as int));
        let y = choose|y: int| #[trigger] imports_dir(nodes, x as int, y) && !order.contains(y as usize);
        assert(!built[y]);
        let yu = y as usize;
        assert(stuck.contains(yu));
        assert(imports_dir(nodes, x as int, yu as int));
    }
    assert forall|i: usize|
        #![trigger stuck.contains(i)]
        #![trigger order.contains(i)]
        i < nodes.len() implies (stuck.contains(i) <==> !order.contains(i)) by {
        assert(built[i as int] <==> order.contains(i));
    }
    assert({
        &&& kahn_prefix(nodes, order)
        &&& forall|i: int| 0 <= i < nodes.len() ==> !ready(nodes, order, i)
        &&& forall|i: usize|
            #![trigger stuck.contains(i)]
            #![trigger order.contains(i)]
            i < nodes.len() ==> (stuck.contains(i) <==> !order.contains(i))
    });
}

/// A sequence without repeats of numbers below `n` that holds each of them has length `n`.
proof fn order_is_permutation(order: Seq<usize>, n: usize)
    requires
        order.no_duplicates(),
        forall|a: int| 0 <= a < order.len() ==> order[a] < n,
        forall|i: usize| i < n ==> #[trigger] order.contains(i),
    ensures
        order.len() == n,
{
    let ints = order.map_values(|x: usize| x as int);
    assert forall|a: int, b: int| 0 <= a < ints.len() && 0 <= b < ints.len() && a != b implies ints[a]
        != ints[b] by {
        assert(order[a] != order[b]);
    }
    assert(ints.no_duplicates());
    ints.unique_seq_to_set();
    lemma_int_range(0, n as int);
    assert(ints.to_set() =~= set_int_range(0, n as int)) by {
        assert forall|x: int| set_int_range(0, n as int).contains(x) implies ints.to_set().contains(x) by {
            assert(order.contains(x as usize));
            let c = choose|c: int| 0 <= c < order.len() && order[c] == x as usize;
            assert(ints[c] == x);
        }
    }
}

/// A set of packages that each import one of the set can never all be built in an order
/// that puts every package after the packages it imports.
pub proof fn law_import_cycle_has_no_build_order(
    nodes: Seq<PackageNode>,
    cycle: Seq<usize>,
    order: Seq<usize>,
)
    requires
        cycle.len() > 0,
        closed_under_imports(nodes, cycle),
    ensures
        !(dependencies_first(nodes, order) && forall|x: usize| #[trigger] cycle.contains(x)
            ==> order.contains(x)),
{
    if dependencies_first(nodes, order) && forall|x: usize| #[trigger] cycle.contains(x)
        ==> order.contains(x) {
        lemma_cycle_avoids_prefix(nodes, cycle, order, order.len() as int);
        assert(cycle.contains(cycle[0]));
        assert(order.contains(cycle[0]));
        let c = choose|c: int| 0 <= c < order.len() && order[c] == cycle[0];
        assert(!cycle.contains(order[c]));
    }
}

proof fn lemma_cycle_avoids_prefix(
    nodes: Seq<PackageNode>,
    cycle: Seq<usize>,
    order: Seq<usize>,
    p: int,
)
    requires
        closed_under_imports(nodes, cycle),
        dependencies_first(nodes, order),
        forall|x: usize| #[trigger] cycle.contains(x) ==> order.contains(x),
        0 <= p <= order.len(),
    ensures
        forall|a: int| 0 <= a < p ==> !cycle.contains(#[trigger] order[a]),
    decreases p,
{
    if p > 0 {
        lemma_cycle_avoids_prefix(nodes, cycle, order, p - 1);
        let x = order[p - 1];
        if cycle.contains(x) {
            let y = choose|y: usize| #[trigger] cycle.contains(y) && imports_dir(nodes, x as int, y as int);
            assert(order.contains(y));
            let b = choose|b: int| 0 <= b < order.len() && order[b] == y;
            if b >= p - 1 {
                assert(!imports_dir(nodes, order[p - 1] as int, order[b] as int));
            } else {
                assert(!cycle.contains(order[b]));
            }
        }
    }
}

} // verus!
