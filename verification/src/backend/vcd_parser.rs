//! The parts of a VCD file that the wave database reads, and the map from
//! hierarchical signal names to VCD identifier codes.
use vstd::hash_map::StringHashMap;
use vstd::prelude::*;
use vstd::string::StringExecFns;
use crate::backend::errors::Waverr;

verus! {

broadcast use vstd::hash_map::group_hash_map_axioms;

/// The four states of a logic value in a VCD dump.
#[derive(Debug, Clone, Copy, PartialEq, Eq, Structural)]
pub enum LogicValue {
    /// Logic low.
    V0,
    /// Logic high.
    V1,
    /// Unknown.
    X,
    /// High impedance.
    Z,
}

/// A `$var` declaration: its width, its identifier code and its name.
#[derive(Debug, Clone)]
pub struct Var {
    pub size: u32,
    pub code: u64,
    pub reference: String,
}

/// A `$scope`: its name and what it declares, in order.
#[derive(Debug)]
pub struct Scope {
    pub identifier: String,
    pub children: Vec<HeaderItem>,
}

/// An item of a scope: a nested scope or a variable.
#[derive(Debug)]
pub enum HeaderItem {
    Scope(Scope),
    Var(Var),
}

/// The declarations of a VCD header, in order.
#[derive(Debug)]
pub struct Header {
    pub items: Vec<HeaderItem>,
}

/// A command of the value-change section of a VCD file.
#[derive(Debug, Clone)]
pub enum DumpCommand {
    /// `#t`: the time advances to `t`.
    Timestamp(u64),
    /// A change of a one-bit variable.
    ChangeScalar(u64, LogicValue),
    /// A change of a vector variable, most significant bit first.
    ChangeVector(u64, Vec<LogicValue>),
    /// Any other command (real or string changes, `$dumpvars` markers, ...).
    Other,
}

/// Name prefix `p` extended by scope `name` and the separator.
pub open spec fn scope_prefix(p: Seq<char>, name: Seq<char>) -> Seq<char> {
    p + name + seq!['.']
}

/// The map `m` after recording the variables of `s`, under prefix `p`.
pub open spec fn scope_apply(m: Map<Seq<char>, u64>, p: Seq<char>, s: Scope) -> Map<Seq<char>, u64>
    decreases s, 1int,
{
    items_apply(m, scope_prefix(p, s.identifier@), s.children@)
}

/// The map `m` after recording `items`, in order, under prefix `p`.
pub open spec fn items_apply(m: Map<Seq<char>, u64>, p: Seq<char>, items: Seq<HeaderItem>) -> Map<Seq<char>, u64>
    decreases items, 0int,
{
    if items.len() == 0 {
        m
    } else {
        item_apply(items_apply(m, p, items.drop_last()), p, items.last())
    }
}

/// The map `m` after recording `item` under prefix `p`: a variable is
/// entered under its full dotted name, a scope recursively.
pub open spec fn item_apply(m: Map<Seq<char>, u64>, p: Seq<char>, item: HeaderItem) -> Map<Seq<char>, u64>
    decreases item, 2int,
{
    match item {
        HeaderItem::Var(v) => m.insert(p + v.reference@, v.code),
        HeaderItem::Scope(s) => scope_apply(m, p, s),
    }
}

} // verus!

verus! {

/// The map `m` after recording the top-level `items` of a header: a scope is
/// recorded recursively with an empty prefix, and a variable declared
/// outside every scope is recorded under the empty name.
pub open spec fn header_apply(m: Map<Seq<char>, u64>, items: Seq<HeaderItem>) -> Map<Seq<char>, u64>
    decreases items.len(),
{
    if items.len() == 0 {
        m
    } else {
        let rest = header_apply(m, items.drop_last());
        match items.last() {
            HeaderItem::Var(v) => rest.insert(Seq::empty(), v.code),
            HeaderItem::Scope(s) => scope_apply(rest, Seq::empty(), s),
        }
    }
}

/// The map from the full dotted names of a header's variables to their codes.
pub open spec fn header_map(h: Header) -> Map<Seq<char>, u64> {
    header_apply(Map::empty(), h.items@)
}

/// Map from hierarchical signal names (`scope.sub.signal`) to VCD
/// identifier codes. The names are kept in insertion order beside the map.
pub struct IDMap {
    map: StringHashMap<u64>,
    names: Vec<String>,
}

impl View for IDMap {
    type V = Map<Seq<char>, u64>;

    closed spec fn view(&self) -> Map<Seq<char>, u64> {
        self.map@
    }
}

impl IDMap {
    /// Each name is listed once, and the listed names are the map's keys.
    pub closed spec fn wf(&self) -> bool {
        &&& forall|i: int, j: int|
            0 <= i < j < self.names@.len() ==> self.names@[i]@ != self.names@[j]@
        &&& forall|i: int| 0 <= i < self.names@.len() ==> self.map@.contains_key(#[trigger] self.names@[i]@)
        &&& forall|k: Seq<char>| self.map@.contains_key(k) ==> exists|i: int|
            0 <= i < self.names@.len() && #[trigger] self.names@[i]@ == k
    }

    /// An empty map.
    pub fn new() -> (r: IDMap)
        ensures
            r.wf(),
            r@ == Map::<Seq<char>, u64>::empty(),
    {
        IDMap { map: StringHashMap::new(), names: Vec::new() }
    }

    /// Records `code` under `name`, replacing an earlier code of that name.
    pub fn insert(&mut self, name: String, code: u64)
        requires
            old(self).wf(),
        ensures
            final(self).wf(),
            final(self)@ == old(self)@.insert(name@, code),
    {
        let ghost old_names = self.names@;
        if !self.map.contains_key(name.as_str()) {
            self.names.push(name.clone());
            proof {
                assert forall|i: int| 0 <= i < old_names.len() implies old_names[i]@ != name@ by {
                    assert(self.map@.contains_key(old_names[i]@));
                }
            }
        }
        self.map.insert(name, code);
        proof {
            assert forall|k: Seq<char>| self.map@.contains_key(k) implies exists|i: int|
                0 <= i < self.names@.len() && #[trigger] self.names@[i]@ == k by {
                if k == name@ {
                    if old(self).map@.contains_key(k) {
                        let j = choose|j: int| 0 <= j < old_names.len() && #[trigger] old_names[j]@ == k;
                        assert(self.names@[j]@ == k);
                    } else {
                        assert(self.names@[self.names@.len() - 1]@ == k);
                    }
                } else {
                    let j = choose|j: int| 0 <= j < old_names.len() && #[trigger] old_names[j]@ == k;
                    assert(self.names@[j]@ == k);
                }
            }
        }
    }

    /// The number of names in the map.
    pub fn len(&self) -> (r: usize)
        ensures
            r == self@.len(),
    {
        self.map.len()
    }

    /// Whether `name` is in the map.
    pub fn contains_key(&self, name: &str) -> (r: bool)
        ensures
            r == self@.contains_key(name@),
    {
        self.map.contains_key(name)
    }

    /// Every entry of the map, each name once, in the order the names were
    /// first recorded.
    pub fn entries(&self) -> (r: Vec<(String, u64)>)
        requires
            self.wf(),
        ensures
            forall|i: int, j: int| 0 <= i < j < r@.len() ==> r@[i].0@ != r@[j].0@,
            forall|i: int| 0 <= i < r@.len() ==> self@.contains_key(#[trigger] r@[i].0@)
                && self@[r@[i].0@] == r@[i].1,
            forall|k: Seq<char>| self@.contains_key(k) ==> exists|i: int|
                0 <= i < r@.len() && #[trigger] r@[i].0@ == k,
    {
        let mut r: Vec<(String, u64)> = Vec::new();
        let n = self.names.len();
        for i in 0..n
            invariant
                n == self.names@.len(),
                self.wf(),
                r@.len() == i,
                forall|j: int| 0 <= j < i ==> (#[trigger] r@[j]).0@ == self.names@[j]@
                    && self@[self.names@[j]@] == r@[j].1,
        {
            let name = &self.names[i];
            let code = match self.map.get(name.as_str()) {
                Some(c) => *c,
                None => {
                    proof {
                        assert(self.map@.contains_key(self.names@[i as int]@));
                    }
                    0
                },
            };
            r.push((name.clone(), code));
        }
        proof {
            assert forall|k: Seq<char>| self@.contains_key(k) implies exists|i: int|
                0 <= i < r@.len() && #[trigger] r@[i].0@ == k by {
                let j = choose|j: int| 0 <= j < self.names@.len() && #[trigger] self.names@[j]@ == k;
                assert(r@[j].0@ == k);
            }
        }
        r
    }
}

} // verus!

verus! {

/// Records the variables of `scope` and of its nested scopes, each under its
/// full dotted name (`active_scope`, the scope names, dots, the variable name).
fn recurse_parse(map: &mut IDMap, scope: &Scope, active_scope: &String)
    requires
        old(map).wf(),
    ensures
        final(map).wf(),
        final(map)@ == scope_apply(old(map)@, active_scope@, *scope),
    decreases scope,
{
    let mut prefix = active_scope.clone();
    prefix.append(scope.identifier.as_str());
    prefix.append(".");
    proof {
        reveal_strlit(".");
        assert(prefix@ == scope_prefix(active_scope@, scope.identifier@));
    }
    let n = scope.children.len();
    for i in 0..n
        invariant
            n == scope.children@.len(),
            map.wf(),
            map@ == items_apply(old(map)@, prefix@, scope.children@.take(i as int)),
    {
        proof {
            assert(scope.children@.take(i + 1).drop_last() == scope.children@.take(i as int));
            assert(scope.children@.take(i + 1).last() == scope.children@[i as int]);
        }
        let ghost before = map@;
        match &scope.children[i] {
            HeaderItem::Var(v) => {
                let mut name = prefix.clone();
                name.append(v.reference.as_str());
                map.insert(name, v.code);
                proof {
                    assert(map@ == item_apply(before, prefix@, scope.children@[i as int]));
                }
            },
            HeaderItem::Scope(s) => {
                proof {
                    assert(decreases_to!(*scope => scope.children));
                    assert(decreases_to!(scope.children => scope.children@));
                    assert(decreases_to!(scope.children@ => scope.children@[i as int]));
                }
                recurse_parse(map, s, &prefix);
                proof {
                    assert(map@ == item_apply(before, prefix@, scope.children@[i as int]));
                }
            },
        }
    }
    proof {
        assert(scope.children@.take(n as int) == scope.children@);
    }
}

impl IDMap {
    /// The map of a VCD header: every variable under its full dotted name
    /// (`logic.data` for `data` in scope `logic`); a variable declared
    /// outside every scope is entered under the empty name. A later
    /// declaration of a name replaces an earlier one.
    pub fn from(header: &Header) -> (r: IDMap)
        ensures
            r.wf(),
            r@ == header_map(*header),
    {
        let mut map = IDMap::new();
        let scope_str = String::new();
        let n = header.items.len();
        for i in 0..n
            invariant
                n == header.items@.len(),
                scope_str@ == Seq::<char>::empty(),
                map.wf(),
                map@ == header_apply(Map::empty(), header.items@.take(i as int)),
        {
            proof {
                assert(header.items@.take(i + 1).drop_last() == header.items@.take(i as int));
            }
            match &header.items[i] {
                HeaderItem::Var(variable) => {
                    map.insert(String::new(), variable.code);
                },
                HeaderItem::Scope(scope) => {
                    recurse_parse(&mut map, scope, &scope_str);
                },
            }
        }
        proof {
            assert(header.items@.take(n as int) == header.items@);
        }
        map
    }

    /// The identifier code of `signal`, as the 32-bit id of its buckets;
    /// an error when no signal of that name exists.
    pub fn signal_to_id(&self, signal: &str) -> (r: Result<u32, Waverr>)
        ensures
            self@.contains_key(signal@) ==> r == Ok::<u32, Waverr>(self@[signal@] as u32),
            !self@.contains_key(signal@) ==> r is Err && r->Err_0 is GenericErr,
    {
        match self.map.get(signal) {
            Some(id_code) => Ok(*id_code as u32),
            None => Err(Waverr::GenericErr(String::from_str("No signal exists"))),
        }
    }
}


/// Whether scope `s`, read under prefix `p`, declares a variable whose full
/// dotted name is `name`.
pub open spec fn scope_declares(p: Seq<char>, s: Scope, name: Seq<char>) -> bool
    decreases s, 1int,
{
    items_declare(scope_prefix(p, s.identifier@), s.children@, name)
}

/// Whether some item of `items`, read under prefix `p`, declares `name`.
pub open spec fn items_declare(p: Seq<char>, items: Seq<HeaderItem>, name: Seq<char>) -> bool
    decreases items, 0int,
{
    if items.len() == 0 {
        false
    } else {
        items_declare(p, items.drop_last(), name) || item_declares(p, items.last(), name)
    }
}

/// Whether `item`, read under prefix `p`, declares `name`.
pub open spec fn item_declares(p: Seq<char>, item: HeaderItem, name: Seq<char>) -> bool
    decreases item, 2int,
{
    match item {
        HeaderItem::Var(v) => p + v.reference@ == name,
        HeaderItem::Scope(s) => scope_declares(p, s, name),
    }
}

/// Whether a header declares a variable under the name `name` (the empty
/// name for a variable outside every scope).
pub open spec fn header_declares(items: Seq<HeaderItem>, name: Seq<char>) -> bool {
    exists|i: int| 0 <= i < items.len() && match #[trigger] items[i] {
        HeaderItem::Var(_) => name == Seq::<char>::empty(),
        HeaderItem::Scope(s) => scope_declares(Seq::empty(), s, name),
    }
}

proof fn lemma_scope_apply_dom(m: Map<Seq<char>, u64>, p: Seq<char>, s: Scope, name: Seq<char>)
    requires
        m.contains_key(name) || scope_declares(p, s, name),
    ensures
        scope_apply(m, p, s).contains_key(name),
    decreases s, 1int,
{
    lemma_items_apply_dom(m, scope_prefix(p, s.identifier@), s.children@, name);
}

proof fn lemma_items_apply_dom(m: Map<Seq<char>, u64>, p: Seq<char>, items: Seq<HeaderItem>, name: Seq<char>)
    requires
        m.contains_key(name) || items_declare(p, items, name),
    ensures
        items_apply(m, p, items).contains_key(name),
    decreases items, 0int,
{
    if items.len() > 0 {
        let rest = items_apply(m, p, items.drop_last());
        if m.contains_key(name) || items_declare(p, items.drop_last(), name) {
            lemma_items_apply_dom(m, p, items.drop_last(), name);
        }
        lemma_item_apply_dom(rest, p, items.last(), name);
    }
}

proof fn lemma_item_apply_dom(m: Map<Seq<char>, u64>, p: Seq<char>, item: HeaderItem, name: Seq<char>)
    requires
        m.contains_key(name) || item_declares(p, item, name),
    ensures
        item_apply(m, p, item).contains_key(name),
    decreases item, 2int,
{
    match item {
        HeaderItem::Var(v) => {},
        HeaderItem::Scope(s) => lemma_scope_apply_dom(m, p, s, name),
    }
}

proof fn lemma_header_apply_dom(m: Map<Seq<char>, u64>, items: Seq<HeaderItem>, name: Seq<char>)
    requires
        m.contains_key(name) || header_declares(items, name),
    ensures
        header_apply(m, items).contains_key(name),
    decreases items.len(),
{
    if items.len() > 0 {
        let pre = items.drop_last();
        let rest = header_apply(m, pre);
        if m.contains_key(name) || header_declares(pre, name) {
            lemma_header_apply_dom(m, pre, name);
        } else {
            let i = choose|i: int| 0 <= i < items.len() && match #[trigger] items[i] {
                HeaderItem::Var(_) => name == Seq::<char>::empty(),
                HeaderItem::Scope(s) => scope_declares(Seq::empty(), s, name),
            };
            if i < pre.len() {
                assert(pre[i] == items[i]);
            }
        }
        match items.last() {
            HeaderItem::Var(v) => {},
            HeaderItem::Scope(s) => lemma_scope_apply_dom(rest, Seq::empty(), s, name),
        }
    }
}

/// The signal map names every signal the header declares: each variable
/// is found under its full dotted name, however deep its scope.
pub proof fn lemma_idmap_names_every_declared_signal(h: Header, name: Seq<char>)
    requires
        header_declares(h.items@, name),
    ensures
        header_map(h).contains_key(name),
{
    lemma_header_apply_dom(Map::empty(), h.items@, name);
}

proof fn lemma_scope_apply_keys(m: Map<Seq<char>, u64>, p: Seq<char>, s: Scope, name: Seq<char>)
    requires
        scope_apply(m, p, s).contains_key(name),
    ensures
        m.contains_key(name) || scope_declares(p, s, name),
    decreases s, 1int,
{
    lemma_items_apply_keys(m, scope_prefix(p, s.identifier@), s.children@, name);
}

proof fn lemma_items_apply_keys(m: Map<Seq<char>, u64>, p: Seq<char>, items: Seq<HeaderItem>, name: Seq<char>)
    requires
        items_apply(m, p, items).contains_key(name),
    ensures
        m.contains_key(name) || items_declare(p, items, name),
    decreases items, 0int,
{
    if items.len() > 0 {
        let rest = items_apply(m, p, items.drop_last());
        lemma_item_apply_keys(rest, p, items.last(), name);
        if rest.contains_key(name) {
            lemma_items_apply_keys(m, p, items.drop_last(), name);
        }
    }
}

proof fn lemma_item_apply_keys(m: Map<Seq<char>, u64>, p: Seq<char>, item: HeaderItem, name: Seq<char>)
    requires
        item_apply(m, p, item).contains_key(name),
    ensures
        m.contains_key(name) || item_declares(p, item, name),
    decreases item, 2int,
{
    match item {
        HeaderItem::Var(v) => {},
        HeaderItem::Scope(s) => lemma_scope_apply_keys(m, p, s, name),
    }
}

proof fn lemma_header_apply_keys(m: Map<Seq<char>, u64>, items: Seq<HeaderItem>, name: Seq<char>)
    requires
        header_apply(m, items).contains_key(name),
    ensures
        m.contains_key(name) || header_declares(items, name),
    decreases items.len(),
{
    if items.len() > 0 {
        let pre = items.drop_last();
        let rest = header_apply(m, pre);
        let last = items.len() - 1;
        assert(items[last] == items.last());
        match items.last() {
            HeaderItem::Var(v) => {},
            HeaderItem::Scope(s) => lemma_scope_apply_keys(rest, Seq::empty(), s, name),
        }
        if rest.contains_key(name) {
            lemma_header_apply_keys(m, pre, name);
            if header_declares(pre, name) {
                let i = choose|i: int| 0 <= i < pre.len() && match #[trigger] pre[i] {
                    HeaderItem::Var(_) => name == Seq::<char>::empty(),
                    HeaderItem::Scope(s) => scope_declares(Seq::empty(), s, name),
                };
                assert(items[i] == pre[i]);
            }
        }
    }
}

/// The signal map names nothing else: every name in it is the full dotted
/// name of a variable the header declares.
pub proof fn lemma_idmap_names_only_declared_signals(h: Header, name: Seq<char>)
    requires
        header_map(h).contains_key(name),
    ensures
        header_declares(h.items@, name),
{
    lemma_header_apply_keys(Map::empty(), h.items@, name);
}

/// Whether scope `s`, read under prefix `p`, declares a variable with full
/// dotted name `name` and identifier code `code`.
pub open spec fn scope_declares_code(p: Seq<char>, s: Scope, name: Seq<char>, code: u64) -> bool
    decreases s, 1int,
{
    items_declare_code(scope_prefix(p, s.identifier@), s.children@, name, code)
}

/// Whether some item of `items`, read under prefix `p`, declares `name`
/// with code `code`.
pub open spec fn items_declare_code(p: Seq<char>, items: Seq<HeaderItem>, name: Seq<char>, code: u64) -> bool
    decreases items, 0int,
{
    if items.len() == 0 {
        false
    } else {
        items_declare_code(p, items.drop_last(), name, code) || item_declares_code(p, items.last(), name, code)
    }
}

/// Whether `item`, read under prefix `p`, declares `name` with code `code`.
pub open spec fn item_declares_code(p: Seq<char>, item: HeaderItem, name: Seq<char>, code: u64) -> bool
    decreases item, 2int,
{
    match item {
        HeaderItem::Var(v) => p + v.reference@ == name && v.code == code,
        HeaderItem::Scope(s) => scope_declares_code(p, s, name, code),
    }
}

/// Whether a header declares a variable under `name` with code `code` (the
/// empty name for a variable outside every scope).
pub open spec fn header_declares_code(items: Seq<HeaderItem>, name: Seq<char>, code: u64) -> bool {
    exists|i: int| 0 <= i < items.len() && match #[trigger] items[i] {
        HeaderItem::Var(v) => name == Seq::<char>::empty() && v.code == code,
        HeaderItem::Scope(s) => scope_declares_code(Seq::empty(), s, name, code),
    }
}

proof fn lemma_scope_apply_vals(m: Map<Seq<char>, u64>, p: Seq<char>, s: Scope, name: Seq<char>)
    requires
        scope_apply(m, p, s).contains_key(name),
    ensures
        (m.contains_key(name) && scope_apply(m, p, s)[name] == m[name]) || scope_declares_code(
            p,
            s,
            name,
            scope_apply(m, p, s)[name],
        ),
    decreases s, 1int,
{
    lemma_items_apply_vals(m, scope_prefix(p, s.identifier@), s.children@, name);
}

proof fn lemma_items_apply_vals(m: Map<Seq<char>, u64>, p: Seq<char>, items: Seq<HeaderItem>, name: Seq<char>)
    requires
        items_apply(m, p, items).contains_key(name),
    ensures
        (m.contains_key(name) && items_apply(m, p, items)[name] == m[name]) || items_declare_code(
            p,
            items,
            name,
            items_apply(m, p, items)[name],
        ),
    decreases items, 0int,
{
    if items.len() > 0 {
        let rest = items_apply(m, p, items.drop_last());
        lemma_item_apply_vals(rest, p, items.last(), name);
        if rest.contains_key(name) && items_apply(m, p, items)[name] == rest[name] {
            lemma_items_apply_vals(m, p, items.drop_last(), name);
        }
    }
}

proof fn lemma_item_apply_vals(m: Map<Seq<char>, u64>, p: Seq<char>, item: HeaderItem, name: Seq<char>)
    requires
        item_apply(m, p, item).contains_key(name),
    ensures
        (m.contains_key(name) && item_apply(m, p, item)[name] == m[name]) || item_declares_code(
            p,
            item,
            name,
            item_apply(m, p, item)[name],
        ),
    decreases item, 2int,
{
    match item {
        HeaderItem::Var(v) => {},
        HeaderItem::Scope(s) => lemma_scope_apply_vals(m, p, s, name),
    }
}

proof fn lemma_header_apply_vals(m: Map<Seq<char>, u64>, items: Seq<HeaderItem>, name: Seq<char>)
    requires
        header_apply(m, items).contains_key(name),
    ensures
        (m.contains_key(name) && header_apply(m, items)[name] == m[name]) || header_declares_code(
            items,
            name,
            header_apply(m, items)[name],
        ),
    decreases items.len(),
{
    if items.len() > 0 {
        let pre = items.drop_last();
        let rest = header_apply(m, pre);
        let last = items.len() - 1;
        let val = header_apply(m, items)[name];
        assert(items[last] == items.last());
        match items.last() {
            HeaderItem::Var(v) => {},
            HeaderItem::Scope(s) => lemma_scope_apply_vals(rest, Seq::empty(), s, name),
        }
        if rest.contains_key(name) && val == rest[name] {
            lemma_header_apply_vals(m, pre, name);
            if header_declares_code(pre, name, val) {
                let i = choose|i: int| 0 <= i < pre.len() && match #[trigger] pre[i] {
                    HeaderItem::Var(v) => name == Seq::<char>::empty() && v.code == val,
                    HeaderItem::Scope(s) => scope_declares_code(Seq::empty(), s, name, val),
                };
                assert(items[i] == pre[i]);
            }
        }
    }
}

/// The signal map stores under each name the identifier code of a variable
/// declared under that name, however deep its scope; so where every
/// declaration of a declared `name` carries `code`, the map gives `code`
/// for `name`.
pub proof fn lemma_idmap_codes_are_declared(h: Header, name: Seq<char>, code: u64)
    ensures
        header_map(h).contains_key(name) ==> header_declares_code(h.items@, name, header_map(h)[name]),
        header_declares(h.items@, name) && (forall|c: u64| #[trigger] header_declares_code(h.items@, name, c) ==> c == code)
            ==> header_map(h).contains_key(name) && header_map(h)[name] == code,
{
    if header_declares(h.items@, name) {
        lemma_idmap_names_every_declared_signal(h, name);
    }
    if header_map(h).contains_key(name) {
        lemma_header_apply_vals(Map::empty(), h.items@, name);
    }
}

/// `vcd::ScopeItem`, carried opaquely.
#[verifier::external_type_specification]
#[verifier::external_body]
pub struct ExVcdScopeItem(vcd::ScopeItem);

/// `vcd::Command`, carried opaquely.
#[verifier::external_type_specification]
#[verifier::external_body]
pub struct ExVcdCommand(vcd::Command);

/// `vcd::Value`, carried opaquely.
#[verifier::external_type_specification]
#[verifier::external_body]
pub struct ExVcdValue(vcd::Value);

/// `vcd::IdCode`, carried opaquely.
#[verifier::external_type_specification]
#[verifier::external_body]
pub struct ExVcdIdCode(vcd::IdCode);

/// What the `vcd` crate reads from the bytes of a VCD file: the header,
/// when it parses, and then each command of the value-change section, or a
/// failure where one does not parse.
pub uninterp spec fn vcd_parse(bytes: Seq<u8>) -> (Option<Header>, Seq<Result<DumpCommand, ()>>);

/// The number of an identifier code (`vcd` keeps the field private; its
/// derived `Debug` writes `IdCode(n)`).
#[verifier::external_body]
fn code_of(code: vcd::IdCode) -> u64 {
    let text = format!("{:?}", code);
    text.trim_start_matches("IdCode(").trim_end_matches(')').parse().unwrap_or(0)
}

/// The library's value for a `vcd` value, variant for variant.
#[verifier::external_body]
fn value_of(v: &vcd::Value) -> LogicValue {
    match v {
        vcd::Value::V0 => LogicValue::V0,
        vcd::Value::V1 => LogicValue::V1,
        vcd::Value::X => LogicValue::X,
        vcd::Value::Z => LogicValue::Z,
    }
}

/// The library's scope item for a `vcd` one, field for field.
#[verifier::external_body]
fn scope_item_of(item: &vcd::ScopeItem) -> HeaderItem {
    match item {
        vcd::ScopeItem::Scope(s) => HeaderItem::Scope(Scope {
            identifier: s.identifier.clone(),
            children: s.children.iter().map(scope_item_of).collect(),
        }),
        vcd::ScopeItem::Var(v) => HeaderItem::Var(Var { size: v.size, code: code_of(v.code), reference: v.reference.clone() }),
    }
}

/// The library's command for a `vcd` one: timestamps and value changes
/// field for field, every other command as `Other`.
#[verifier::external_body]
fn command_of(c: vcd::Command) -> DumpCommand {
    match c {
        vcd::Command::Timestamp(t) => DumpCommand::Timestamp(t),
        vcd::Command::ChangeScalar(code, v) => DumpCommand::ChangeScalar(code_of(code), value_of(&v)),
        vcd::Command::ChangeVector(code, vs) => DumpCommand::ChangeVector(code_of(code), vs.iter().map(value_of).collect()),
        _ => DumpCommand::Other,
    }
}

/// `vcd::Parser::new(bytes)`, then `parse_header` and the parser's command
/// iterator: the contract names the result [`vcd_parse`] of the bytes.
#[verifier::external_body]
pub fn parse_vcd(bytes: &[u8]) -> (r: (Option<Header>, Vec<Result<DumpCommand, ()>>))
    ensures
        (r.0, r.1@) == vcd_parse(bytes@),
{
    let mut parser = vcd::Parser::new(bytes);
    let header = parser.parse_header().ok().map(|h| Header { items: h.items.iter().map(scope_item_of).collect() });
    let items = parser.map(|c| c.map(command_of).map_err(|_| ())).collect();
    (header, items)
}

} // verus!
