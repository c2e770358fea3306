//! The module hierarchy as a tree of nodes, with an expanded and a selected
//! flag per module.
use std::collections::HashMap;
use vstd::prelude::*;

verus! {

broadcast use vstd::std_specs::hash::group_hash_axioms;

/// A module of the design: its index, its name and the indices of its
/// submodules in the module list.
pub struct ModuleItem {
    pub self_idx: usize,
    pub name: String,
    pub submodules: Vec<usize>,
}

/// The modules of a design and the indices of its top-level modules.
pub struct HierMap {
    pub module_list: Vec<ModuleItem>,
    pub roots: Vec<usize>,
}

/// Whether every root and every submodule index is in range.
pub open spec fn hier_in_range(map: HierMap) -> bool {
    &&& forall|r: int| 0 <= r < map.roots@.len() ==> #[trigger] map.roots@[r] < map.module_list@.len()
    &&& forall|m: int, k: int|
        0 <= m < map.module_list@.len() && 0 <= k < map.module_list@[m].submodules@.len()
            ==> #[trigger] map.module_list@[m].submodules@[k] < map.module_list@.len()
}

/// Whether `rank` gives every module a rank above those of its submodules.
pub open spec fn ranks_modules(map: HierMap, rank: Seq<nat>) -> bool {
    &&& rank.len() == map.module_list@.len()
    &&& forall|m: int, k: int|
        0 <= m < map.module_list@.len() && 0 <= k < map.module_list@[m].submodules@.len() ==> rank[#[trigger] map.module_list@[m].submodules@[k] as int]
            < rank[m]
}

/// Whether every index is in range and no module is its own descendant: the
/// modules can be ranked so that every submodule ranks below its parent.
pub open spec fn hier_ok(map: HierMap) -> bool {
    &&& hier_in_range(map)
    &&& exists|rank: Seq<nat>| ranks_modules(map, rank)
}

/// Whether every submodule comes after its parent in the module list, and
/// every index is in range.
pub open spec fn hier_ordered(map: HierMap) -> bool {
    &&& hier_in_range(map)
    &&& forall|m: int, k: int|
        0 <= m < map.module_list@.len() && 0 <= k < map.module_list@[m].submodules@.len() ==> m
            < #[trigger] map.module_list@[m].submodules@[k]
}

/// A list that puts every submodule after its parent has no cycle.
pub proof fn lemma_ordered_is_ok(map: &HierMap)
    requires
        hier_ordered(*map),
    ensures
        hier_ok(*map),
{
    let n = map.module_list@.len();
    let rank = Seq::new(n, |i: int| (n - i) as nat);
    assert(ranks_modules(*map, rank));
}

/// Whether the modules of `map` are listed parents first, with every index
/// in range.
pub fn is_ordered(map: &HierMap) -> (r: bool)
    ensures
        r == hier_ordered(*map),
{
    let n = map.module_list.len();
    let mut i: usize = 0;
    while i < map.roots.len()
        invariant
            i <= map.roots@.len(),
            n == map.module_list@.len(),
            forall|r: int| 0 <= r < i ==> #[trigger] map.roots@[r] < n,
        decreases map.roots@.len() - i,
    {
        if map.roots[i] >= n {
            return false;
        }
        i = i + 1;
    }
    let mut m: usize = 0;
    while m < n
        invariant
            m <= n == map.module_list@.len(),
            forall|r: int| 0 <= r < map.roots@.len() ==> #[trigger] map.roots@[r] < n,
            forall|mm: int, k: int|
                0 <= mm < m && 0 <= k < map.module_list@[mm].submodules@.len() ==> mm
                    < #[trigger] map.module_list@[mm].submodules@[k] < n,
        decreases n - m,
    {
        let subs = &map.module_list[m].submodules;
        let mut k: usize = 0;
        while k < subs.len()
            invariant
                m < n == map.module_list@.len(),
                subs@ == map.module_list@[m as int].submodules@,
                k <= subs@.len(),
                forall|kk: int| 0 <= kk < k ==> m < #[trigger] subs@[kk] < n,
            decreases subs@.len() - k,
        {
            if subs[k] <= m || subs[k] >= n {
                return false;
            }
            k = k + 1;
        }
        m = m + 1;
    }
    true
}

/// The flags a module shows with.
#[derive(Debug, Clone, Copy, PartialEq, Eq, Structural)]
pub struct SharedNodeState {
    pub expanded: bool,
    pub selected: bool,
}

impl Default for SharedNodeState {
    fn default() -> (r: Self)
        ensures
            r == (SharedNodeState { expanded: false, selected: false }),
    {
        SharedNodeState { expanded: false, selected: false }
    }
}

/// The module a node shows.
pub struct ModuleWrapper {
    pub hier_idx: usize,
    pub name: String,
}

/// A module and its submodules.
pub struct HierNode {
    pub children: Vec<HierNode>,
    pub payload: ModuleWrapper,
}

/// Whether `node` shows module `idx` of `mods` and, below it, its
/// submodules in order, each with its index among `keys`.
pub open spec fn node_matches(node: HierNode, mods: Seq<ModuleItem>, idx: int, keys: Set<usize>) -> bool
    decreases node,
{
    &&& 0 <= idx < mods.len()
    &&& node.payload.hier_idx == mods[idx].self_idx
    &&& node.payload.name@ == mods[idx].name@
    &&& keys.contains(mods[idx].self_idx)
    &&& node.children@.len() == mods[idx].submodules@.len()
    &&& forall|k: int|
        0 <= k < node.children@.len() ==> node_matches(
            #[trigger] node.children@[k],
            mods,
            mods[idx].submodules@[k] as int,
            keys,
        )
}

/// The module indices shown by `node` and all nodes below it.
pub open spec fn node_ids(node: HierNode) -> Set<usize>
    decreases node, 1int,
{
    set![node.payload.hier_idx] + nodes_ids(node.children@)
}

/// The module indices shown by `nodes` and all nodes below them.
pub open spec fn nodes_ids(nodes: Seq<HierNode>) -> Set<usize>
    decreases nodes, 0int,
{
    if nodes.len() == 0 {
        Set::empty()
    } else {
        nodes_ids(nodes.drop_last()) + node_ids(nodes.last())
    }
}

proof fn lemma_node_matches_grow(node: HierNode, mods: Seq<ModuleItem>, idx: int, keys: Set<usize>, more: Set<usize>)
    requires
        node_matches(node, mods, idx, keys),
        keys.subset_of(more),
    ensures
        node_matches(node, mods, idx, more),
    decreases node,
{
    assert forall|k: int| 0 <= k < node.children@.len() implies node_matches(
        #[trigger] node.children@[k],
        mods,
        mods[idx].submodules@[k] as int,
        more,
    ) by {
        lemma_node_matches_grow(node.children@[k], mods, mods[idx].submodules@[k] as int, keys, more);
    }
}

/// The parts of `s` between dots, in order; two dots in a row give an empty
/// part, and a string without dots is one part.
pub open spec fn split_dots(s: Seq<char>) -> Seq<Seq<char>>
    decreases s.len(),
{
    if s.len() == 0 {
        seq![Seq::<char>::empty()]
    } else {
        let parts = split_dots(s.drop_last());
        if s.last() == '.' {
            parts.push(Seq::empty())
        } else {
            parts.update(parts.len() - 1, parts.last().push(s.last()))
        }
    }
}

/// The position of the first node of `level` named `name`, if any.
pub open spec fn find_named(level: Seq<HierNode>, name: Seq<char>) -> Option<int>
    decreases level.len(),
{
    if level.len() == 0 {
        None
    } else {
        match find_named(level.drop_last(), name) {
            Some(k) => Some(k),
            None => if level.last().payload.name@ == name {
                Some(level.len() - 1)
            } else {
                None
            },
        }
    }
}

/// Following the names `segs` down from `level`: each name found moves one
/// level down and is the node reached; a name not found leaves the level
/// as it is and no node reached.
pub open spec fn walk(level: Seq<HierNode>, segs: Seq<Seq<char>>) -> (Seq<HierNode>, Option<HierNode>)
    decreases segs.len(),
{
    if segs.len() == 0 {
        (level, None)
    } else {
        let lv = walk(level, segs.drop_last()).0;
        match find_named(lv, segs.last()) {
            Some(k) => (lv[k].children@, Some(lv[k])),
            None => (lv, None),
        }
    }
}

proof fn lemma_split_dots_nonempty(s: Seq<char>)
    ensures
        split_dots(s).len() >= 1,
    decreases s.len(),
{
    if s.len() > 0 {
        lemma_split_dots_nonempty(s.drop_last());
    }
}

fn name_matches(name: &str, path: &str, a: usize, b: usize) -> (r: bool)
    requires
        a <= b <= path@.len(),
    ensures
        r == (name@ == path@.subrange(a as int, b as int)),
{
    let n = name.unicode_len();
    if n != b - a {
        return false;
    }
    let mut k: usize = 0;
    while k < n
        invariant
            n == name@.len() == b - a,
            a <= b <= path@.len(),
            k <= n,
            forall|j: int| 0 <= j < k ==> name@[j] == path@[a + j],
        decreases n - k,
    {
        if name.get_char(k) != path.get_char(a + k) {
            proof {
                assert(name@[k as int] != path@.subrange(a as int, b as int)[k as int]);
            }
            return false;
        }
        k = k + 1;
    }
    proof {
        assert(name@ =~= path@.subrange(a as int, b as int));
    }
    true
}

fn find_named_exec(level: &Vec<HierNode>, path: &str, a: usize, b: usize) -> (r: Option<usize>)
    requires
        a <= b <= path@.len(),
    ensures
        match r {
            Some(k) => find_named(level@, path@.subrange(a as int, b as int)) == Some(k as int),
            None => find_named(level@, path@.subrange(a as int, b as int)) is None,
        },
        r matches Some(k) ==> k < level@.len(),
{
    let mut i: usize = 0;
    while i < level.len()
        invariant
            a <= b <= path@.len(),
            i <= level@.len(),
            find_named(level@.take(i as int), path@.subrange(a as int, b as int)) is None,
        decreases level@.len() - i,
    {
        proof {
            assert(level@.take(i + 1).drop_last() =~= level@.take(i as int));
        }
        if name_matches(level[i].payload.name.as_str(), path, a, b) {
            proof {
                assert(level@.take(i + 1).last() == level@[i as int]);
                lemma_find_named_prefix(level@, path@.subrange(a as int, b as int), i as int);
            }
            return Some(i);
        }
    i = i + 1;
    }
    proof {
        assert(level@.take(level@.len() as int) =~= level@);
    }
    None
}

/// A name first found at position `i` of a prefix is first found there in
/// the whole level.
proof fn lemma_find_named_prefix(level: Seq<HierNode>, name: Seq<char>, i: int)
    requires
        0 <= i < level.len(),
        find_named(level.take(i + 1), name) == Some(i),
    ensures
        find_named(level, name) == Some(i),
    decreases level.len(),
{
    if level.len() > i + 1 {
        assert(level.drop_last().take(i + 1) =~= level.take(i + 1));
        lemma_find_named_prefix(level.drop_last(), name, i);
    } else {
        assert(level.take(i + 1) =~= level);
    }
}

/// The roots of the hierarchy and the flags of its modules by index.
pub struct HierRoot {
    root_vec: Vec<HierNode>,
    flat_expander_map: HashMap<usize, SharedNodeState>,
}

/// `flags` with the expanded flag of `idx` flipped, if `idx` has flags.
pub open spec fn flip_expanded(flags: Map<usize, SharedNodeState>, idx: usize) -> Map<usize, SharedNodeState> {
    if flags.contains_key(idx) {
        flags.insert(idx, SharedNodeState { expanded: !flags[idx].expanded, ..flags[idx] })
    } else {
        flags
    }
}

/// `flags` with the selected flag of `idx` flipped, if `idx` has flags.
pub open spec fn flip_selected(flags: Map<usize, SharedNodeState>, idx: usize) -> Map<usize, SharedNodeState> {
    if flags.contains_key(idx) {
        flags.insert(idx, SharedNodeState { selected: !flags[idx].selected, ..flags[idx] })
    } else {
        flags
    }
}

/// Expanding a module twice, or selecting it twice, leaves every flag as it
/// was.
pub proof fn lemma_flip_twice_restores(flags: Map<usize, SharedNodeState>, idx: usize)
    ensures
        flip_expanded(flip_expanded(flags, idx), idx) == flags,
        flip_selected(flip_selected(flags, idx), idx) == flags,
{
    if flags.contains_key(idx) {
        assert(flip_expanded(flip_expanded(flags, idx), idx) =~= flags);
        assert(flip_selected(flip_selected(flags, idx), idx) =~= flags);
    }
}

/// Whether every flag in `flags` is cleared.
pub open spec fn all_cleared(flags: Map<usize, SharedNodeState>) -> bool {
    forall|k: usize| #[trigger] flags.contains_key(k) ==> flags[k] == SharedNodeState { expanded: false, selected: false }
}

impl HierNode {
    fn from_hmap(
        live_idx: usize,
        map: &HierMap,
        flat_expander_map: &mut HashMap<usize, SharedNodeState>,
        Ghost(rank): Ghost<Seq<nat>>,
    ) -> (r: HierNode)
        requires
            hier_in_range(*map),
            ranks_modules(*map, rank),
            live_idx < map.module_list@.len(),
            all_cleared(old(flat_expander_map)@),
        ensures
            node_matches(r, map.module_list@, live_idx as int, final(flat_expander_map)@.dom()),
            all_cleared(final(flat_expander_map)@),
            old(flat_expander_map)@.dom().subset_of(final(flat_expander_map)@.dom()),
            final(flat_expander_map)@.dom() == old(flat_expander_map)@.dom() + node_ids(r),
        decreases rank[live_idx as int],
    {
        let module = &map.module_list[live_idx];
        let n = module.submodules.len();
        let mut children: Vec<HierNode> = Vec::new();
        for k in 0..n
            invariant
                hier_in_range(*map),
                ranks_modules(*map, rank),
                live_idx < map.module_list@.len(),
                module == map.module_list@[live_idx as int],
                n == module.submodules@.len(),
                children@.len() == k,
                all_cleared(flat_expander_map@),
                old(flat_expander_map)@.dom().subset_of(flat_expander_map@.dom()),
                flat_expander_map@.dom() == old(flat_expander_map)@.dom() + nodes_ids(children@),
                forall|j: int|
                    0 <= j < k ==> node_matches(
                        #[trigger] children@[j],
                        map.module_list@,
                        module.submodules@[j] as int,
                        flat_expander_map@.dom(),
                    ),
        {
            let ghost before = flat_expander_map@.dom();
            let child = HierNode::from_hmap(module.submodules[k], map, flat_expander_map, Ghost(rank));
            proof {
                assert forall|j: int| 0 <= j < k implies node_matches(
                    #[trigger] children@[j],
                    map.module_list@,
                    module.submodules@[j] as int,
                    flat_expander_map@.dom(),
                ) by {
                    lemma_node_matches_grow(
                        children@[j],
                        map.module_list@,
                        module.submodules@[j] as int,
                        before,
                        flat_expander_map@.dom(),
                    );
                }
            }
            let ghost prev = children@;
            children.push(child);
            proof {
                assert(children@.drop_last() =~= prev);
                assert(flat_expander_map@.dom() =~= old(flat_expander_map)@.dom() + nodes_ids(children@));
            }
        }
        let ghost before = flat_expander_map@.dom();
        flat_expander_map.insert(module.self_idx, SharedNodeState::default());
        let node = HierNode {
            children,
            payload: ModuleWrapper { hier_idx: module.self_idx, name: module.name.clone() },
        };
        proof {
            assert(flat_expander_map@.dom() =~= old(flat_expander_map)@.dom() + node_ids(node));
            assert forall|j: int| 0 <= j < n implies node_matches(
                #[trigger] node.children@[j],
                map.module_list@,
                module.submodules@[j] as int,
                flat_expander_map@.dom(),
            ) by {
                lemma_node_matches_grow(
                    node.children@[j],
                    map.module_list@,
                    module.submodules@[j] as int,
                    before,
                    flat_expander_map@.dom(),
                );
            }
        }
        node
    }
}

impl HierRoot {
    /// The top-level nodes, in order.
    pub closed spec fn roots(&self) -> Seq<HierNode> {
        self.root_vec@
    }

    /// The flags of the modules, by module index.
    pub closed spec fn flags(&self) -> Map<usize, SharedNodeState> {
        self.flat_expander_map@
    }

    /// The top-level nodes.
    pub fn root_nodes(&self) -> (r: &Vec<HierNode>)
        ensures
            r@ == self.roots(),
    {
        &self.root_vec
    }

    /// The flags of module `module_idx`, if it is in the hierarchy.
    pub fn node_state(&self, module_idx: usize) -> (r: Option<SharedNodeState>)
        ensures
            r == (if self.flags().contains_key(module_idx) {
                Some(self.flags()[module_idx])
            } else {
                None
            }),
    {
        match self.flat_expander_map.get(&module_idx) {
            Some(s) => Some(*s),
            None => None,
        }
    }

    /// An empty hierarchy.
    pub fn new() -> (r: Self)
        ensures
            r.roots() == Seq::<HierNode>::empty(),
            r.flags() == Map::<usize, SharedNodeState>::empty(),
    {
        HierRoot { root_vec: Vec::new(), flat_expander_map: HashMap::new() }
    }

    /// Builds the tree of `map` from its roots, every module collapsed and
    /// unselected.
    pub fn from(map: &HierMap) -> (r: Self)
        requires
            hier_ok(*map),
        ensures
            r.roots().len() == map.roots@.len(),
            forall|i: int|
                0 <= i < r.roots().len() ==> node_matches(
                    #[trigger] r.roots()[i],
                    map.module_list@,
                    map.roots@[i] as int,
                    r.flags().dom(),
                ),
            all_cleared(r.flags()),
            r.flags().dom() == nodes_ids(r.roots()),
    {
        let ghost rank = choose|rank: Seq<nat>| ranks_modules(*map, rank);
        let mut flat_expander_map: HashMap<usize, SharedNodeState> = HashMap::new();
        let mut rootlist: Vec<HierNode> = Vec::new();
        let n = map.roots.len();
        for i in 0..n
            invariant
                hier_in_range(*map),
                ranks_modules(*map, rank),
                n == map.roots@.len(),
                rootlist@.len() == i,
                all_cleared(flat_expander_map@),
                flat_expander_map@.dom() == nodes_ids(rootlist@),
                forall|j: int|
                    0 <= j < i ==> node_matches(
                        #[trigger] rootlist@[j],
                        map.module_list@,
                        map.roots@[j] as int,
                        flat_expander_map@.dom(),
                    ),
        {
            let ghost before = flat_expander_map@.dom();
            let node = HierNode::from_hmap(map.roots[i], map, &mut flat_expander_map, Ghost(rank));
            proof {
                assert forall|j: int| 0 <= j < i implies node_matches(
                    #[trigger] rootlist@[j],
                    map.module_list@,
                    map.roots@[j] as int,
                    flat_expander_map@.dom(),
                ) by {
                    lemma_node_matches_grow(
                        rootlist@[j],
                        map.module_list@,
                        map.roots@[j] as int,
                        before,
                        flat_expander_map@.dom(),
                    );
                }
            }
            let ghost prev = rootlist@;
            rootlist.push(node);
            proof {
                assert(rootlist@.drop_last() =~= prev);
                assert(flat_expander_map@.dom() =~= nodes_ids(rootlist@));
            }
        }
        HierRoot { root_vec: rootlist, flat_expander_map }
    }

    /// Expands or collapses module `module_idx`; an index outside the
    /// hierarchy changes nothing.
    pub fn update_expander(&mut self, module_idx: usize)
        ensures
            final(self).roots() == old(self).roots(),
            final(self).flags() == flip_expanded(old(self).flags(), module_idx),
    {
        match self.flat_expander_map.get(&module_idx) {
            Some(s) => {
                let state = *s;
                self.flat_expander_map.insert(module_idx, SharedNodeState { expanded: !state.expanded, ..state });
            },
            None => {},
        }
    }

    /// Expands or collapses the module at the dotted path `in_path`, such
    /// as `top.cpu.alu`: each part names a module among the children of the
    /// module the previous parts reached (see [`walk`]). A path that reaches
    /// no module is an error.
    pub fn expand_module(&mut self, in_path: &str) -> (r: Result<(), &'static str>)
        ensures
            final(self).roots() == old(self).roots(),
            match walk(old(self).roots(), split_dots(in_path@)).1 {
                Some(node) => r is Ok && final(self).flags() == flip_expanded(
                    old(self).flags(),
                    node.payload.hier_idx,
                ),
                None => r is Err && final(self).flags() == old(self).flags(),
            },
    {
        let n = in_path.unicode_len();
        let roots = &self.root_vec;
        let mut level: &Vec<HierNode> = roots;
        let mut mutator: Option<&HierNode> = None;
        let mut seg_start: usize = 0;
        let mut i: usize = 0;
        proof {
            assert(in_path@.take(0) =~= Seq::<char>::empty());
            assert(in_path@.subrange(0, 0) =~= Seq::<char>::empty());
        }
        while i < n
            invariant
                n == in_path@.len(),
                seg_start <= i <= n,
                roots@ == old(self).roots(),
                split_dots(in_path@.take(i as int)).len() >= 1,
                split_dots(in_path@.take(i as int)).last() == in_path@.subrange(seg_start as int, i as int),
                (level@, match mutator {
                    Some(m) => Some(*m),
                    None => None,
                }) == walk(roots@, split_dots(in_path@.take(i as int)).drop_last()),
            decreases n - i,
        {
            let ghost segs = split_dots(in_path@.take(i as int));
            proof {
                assert(in_path@.take(i + 1).drop_last() =~= in_path@.take(i as int));
                assert(in_path@.take(i + 1).last() == in_path@[i as int]);
            }
            let c = in_path.get_char(i);
            proof {
                lemma_split_dots_nonempty(in_path@.take(i + 1));
            }
            if c == '.' {
                let ghost lv = level@;
                proof {
                    assert(segs.last() == in_path@.subrange(seg_start as int, i as int));
                    assert(walk(roots@, segs.drop_last()).0 == lv);
                }
                match find_named_exec(level, in_path, seg_start, i) {
                    Some(k) => {
                        mutator = Some(&level[k]);
                        level = &level[k].children;
                        proof {
                            assert(find_named(lv, segs.last()) == Some(k as int));
                            assert(walk(roots@, segs) == (lv[k as int].children@, Some(lv[k as int])));
                        }
                    },
                    None => {
                        mutator = None;
                        proof {
                            assert(walk(roots@, segs) == (lv, None::<HierNode>));
                        }
                    },
                }
                seg_start = i + 1;
                proof {
                    assert(split_dots(in_path@.take(i + 1)) == segs.push(Seq::<char>::empty()));
                    assert(segs.push(Seq::<char>::empty()).drop_last() =~= segs);
                    assert(in_path@.subrange(i + 1, i + 1) =~= Seq::<char>::empty());
                }
            } else {
                proof {
                    let next = segs.update(segs.len() - 1, segs.last().push(c));
                    assert(split_dots(in_path@.take(i + 1)) == next);
                    assert(next.drop_last() =~= segs.drop_last());
                    assert(in_path@.subrange(seg_start as int, i + 1) =~= in_path@.subrange(
                        seg_start as int,
                        i as int,
                    ).push(c));
                }
            }
            i = i + 1;
        }
        proof {
            assert(in_path@.take(n as int) =~= in_path@);
        }
        match find_named_exec(level, in_path, seg_start, n) {
            Some(k) => {
                mutator = Some(&level[k]);
            },
            None => {
                mutator = None;
            },
        }
        match mutator {
            Some(expandee) => {
                let idx = expandee.payload.hier_idx;
                match self.flat_expander_map.get(&idx) {
                    Some(st) => {
                        let state = *st;
                        self.flat_expander_map.insert(idx, SharedNodeState { expanded: !state.expanded, ..state });
                    },
                    None => {},
                }
                Ok(())
            },
            None => Err("Trying to expand nonexistent path; TODO: refactor this error"),
        }
    }

    /// Selects or deselects module `module_idx`; an index outside the
    /// hierarchy changes nothing.
    pub fn toggle_selected(&mut self, module_idx: usize)
        ensures
            final(self).roots() == old(self).roots(),
            final(self).flags() == flip_selected(old(self).flags(), module_idx),
    {
        match self.flat_expander_map.get(&module_idx) {
            Some(s) => {
                let state = *s;
                self.flat_expander_map.insert(module_idx, SharedNodeState { selected: !state.selected, ..state });
            },
            None => {},
        }
    }
}

impl Default for HierRoot {
    fn default() -> (r: Self)
        ensures
            r.roots() == Seq::<HierNode>::empty(),
            r.flags() == Map::<usize, SharedNodeState>::empty(),
    {
        HierRoot::new()
    }
}

} // verus!
