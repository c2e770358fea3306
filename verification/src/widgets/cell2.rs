//! Context-menu entries of a cell, addressed by paths of indices.
use vstd::prelude::*;

verus! {

/// The non-empty prefixes of `stack`, shortest first: `[4, 5, 2]` gives
/// `[[4], [4, 5], [4, 5, 2]]`.
pub fn stack_to_path_list(stack: &[usize]) -> (r: Vec<&[usize]>)
    ensures
        r@.len() == stack@.len(),
        forall|i: int| 0 <= i < r@.len() ==> (#[trigger] r@[i])@ == stack@.take(i + 1),
{
    let mut list: Vec<&[usize]> = Vec::new();
    let n = stack.len();
    for i in 0..n
        invariant
            n == stack@.len(),
            list@.len() == i,
            forall|j: int| 0 <= j < i ==> (#[trigger] list@[j])@ == stack@.take(j + 1),
    {
        list.push(&stack[0..i + 1]);
    }
    list
}

/// An entry of a context menu: an item with its message, a toggle with its
/// state and handler, a group of nested entries, or a separator.
pub enum Entry<L, M, T> {
    Item(L, Option<M>),
    Toggle(L, bool, Option<T>),
    Group(L, Vec<Entry<L, M, T>>),
    Separator,
}

/// Whether `r` is `e` with every message passed through `f` and every
/// toggle handler through `g`: labels, states and the shape stay.
pub open spec fn mapped<L, M, T, B, U, F: Fn(M) -> B, G: Fn(T) -> U>(
    e: Entry<L, M, T>,
    r: Entry<L, B, U>,
    f: F,
    g: G,
) -> bool
    decreases e,
{
    match (e, r) {
        (Entry::Item(l, m), Entry::Item(l2, m2)) => {
            &&& l2 == l
            &&& (m is None <==> m2 is None)
            &&& (m matches Some(x) ==> call_ensures(f, (x,), m2->0))
        },
        (Entry::Toggle(l, on, t), Entry::Toggle(l2, on2, t2)) => {
            &&& l2 == l
            &&& on2 == on
            &&& (t is None <==> t2 is None)
            &&& (t matches Some(x) ==> call_ensures(g, (x,), t2->0))
        },
        (Entry::Group(l, es), Entry::Group(l2, rs)) => {
            &&& l2 == l
            &&& rs@.len() == es@.len()
            &&& forall|k: int| 0 <= k < es@.len() ==> mapped(#[trigger] es@[k], rs@[k], f, g)
        },
        (Entry::Separator, Entry::Separator) => true,
        _ => false,
    }
}

impl<L, M, T> Entry<L, M, T> {
    /// Applies `f` to the message of every item and `g` to the handler of
    /// every toggle, down through groups.
    #[verifier::loop_isolation(false)]
    pub fn map<B, U, F: Fn(M) -> B, G: Fn(T) -> U>(self, f: &F, g: &G) -> (r: Entry<L, B, U>)
        requires
            forall|m: M| #[trigger] f.requires((m,)),
            forall|t: T| #[trigger] g.requires((t,)),
        ensures
            mapped(self, r, *f, *g),
        decreases self,
    {
        let ghost orig = self;
        match self {
            Entry::Item(label, message) => {
                let m2 = match message {
                    Some(m) => Some(f(m)),
                    None => None,
                };
                Entry::Item(label, m2)
            },
            Entry::Toggle(label, toggled, handler) => {
                let t2 = match handler {
                    Some(t) => Some(g(t)),
                    None => None,
                };
                Entry::Toggle(label, toggled, t2)
            },
            Entry::Group(label, entries) => {
                let ghost es = entries@;
                let mut rest = entries;
                let mut out: Vec<Entry<L, B, U>> = Vec::new();
                let n = rest.len();
                let mut k: usize = 0;
                while rest.len() > 0
                    invariant
                        orig is Group && orig->Group_1@ == es,
                        k + rest@.len() == n,
                        n == es.len(),
                        rest@ == es.subrange(k as int, n as int),
                        out@.len() == k,
                        forall|m: M| #[trigger] f.requires((m,)),
                        forall|t: T| #[trigger] g.requires((t,)),
                        forall|j: int| 0 <= j < k ==> mapped(#[trigger] es[j], out@[j], *f, *g),
                    decreases rest@.len(),
                {
                    let e = rest.remove(0);
                    proof {
                        assert(e == es[k as int]);
                        assert(decreases_to!(orig => orig->Group_1));
                        assert(decreases_to!(orig->Group_1 => orig->Group_1@));
                        assert(decreases_to!(orig->Group_1@ => orig->Group_1@[k as int]));
                        assert(decreases_to!(orig => e));
                    }
                    let mapped_e = e.map(f, g);
                    out.push(mapped_e);
                    k = k + 1;
                    proof {
                        assert(rest@ =~= es.subrange(k as int, n as int));
                    }
                }
                Entry::Group(label, out)
            },
            Entry::Separator => Entry::Separator,
        }
    }
}

/// Whether `path` leads to an entry: each index is in range, and every
/// index but the last names a group or an item (a path that reaches an item
/// or toggle early stops there), never a separator.
pub open spec fn entry_path_valid<L, M, T>(entries: Seq<Entry<L, M, T>>, path: Seq<usize>) -> bool
    decreases path.len(),
{
    &&& path.len() >= 1
    &&& path[0] < entries.len()
    &&& (path.len() == 1 || match entries[path[0] as int] {
        Entry::Group(_, es) => entry_path_valid(es@, path.drop_first()),
        Entry::Separator => false,
        _ => true,
    })
}

/// The entry `path` leads to: down through groups; a path that reaches a
/// non-group before its end gives that entry.
pub open spec fn entry_at<L, M, T>(entries: Seq<Entry<L, M, T>>, path: Seq<usize>) -> Entry<L, M, T>
    decreases path.len(),
{
    if path.len() <= 1 {
        entries[path[0] as int]
    } else {
        match entries[path[0] as int] {
            Entry::Group(_, es) => entry_at(es@, path.drop_first()),
            _ => entries[path[0] as int],
        }
    }
}

/// Whether every index of `path` names a group.
pub open spec fn group_path_valid<L, M, T>(entries: Seq<Entry<L, M, T>>, path: Seq<usize>) -> bool
    decreases path.len(),
{
    path.len() == 0 || (path[0] < entries.len() && match entries[path[0] as int] {
        Entry::Group(_, es) => group_path_valid(es@, path.drop_first()),
        _ => false,
    })
}

/// The entry lists of the groups `path` passes through, outermost first.
pub open spec fn group_chain<L, M, T>(entries: Seq<Entry<L, M, T>>, path: Seq<usize>) -> Seq<Seq<Entry<L, M, T>>>
    decreases path.len(),
{
    if path.len() == 0 {
        Seq::empty()
    } else {
        match entries[path[0] as int] {
            Entry::Group(_, es) => seq![es@] + group_chain(es@, path.drop_first()),
            _ => Seq::empty(),
        }
    }
}

fn get_entry_internal<'a, L, M, T>(entries: &'a [Entry<L, M, T>], path: &[usize]) -> (r: &'a Entry<L, M, T>)
    requires
        entry_path_valid(entries@, path@),
    ensures
        *r == entry_at(entries@, path@),
    decreases path@.len(),
{
    if path.len() == 1 {
        &entries[path[0]]
    } else {
        match &entries[path[0]] {
            Entry::Group(_, group) => {
                let rest = &path[1..path.len()];
                proof {
                    assert(rest@ == path@.drop_first());
                }
                get_entry_internal(group.as_slice(), rest)
            },
            _ => &entries[path[0]],
        }
    }
}

/// The entry `path` leads to (see [`entry_at`]).
pub fn get_entry<'a, L, M, T>(entries: &'a Vec<Entry<L, M, T>>, path: &[usize]) -> (r: &'a Entry<L, M, T>)
    requires
        entry_path_valid(entries@, path@),
    ensures
        *r == entry_at(entries@, path@),
{
    get_entry_internal(entries.as_slice(), path)
}

fn get_entry_list_internal<'a, L, M, T>(
    entries: &'a [Entry<L, M, T>],
    path: &[usize],
    collection: &mut Vec<&'a Vec<Entry<L, M, T>>>,
)
    requires
        group_path_valid(entries@, path@),
    ensures
        final(collection)@.map_values(|v: &Vec<Entry<L, M, T>>| v@) == old(collection)@.map_values(
            |v: &Vec<Entry<L, M, T>>| v@,
        ) + group_chain(entries@, path@),
    decreases path@.len(),
{
    if path.len() == 0 {
        proof {
            assert(collection@.map_values(|v: &Vec<Entry<L, M, T>>| v@) =~= old(collection)@.map_values(
                |v: &Vec<Entry<L, M, T>>| v@,
            ) + group_chain(entries@, path@));
        }
        return;
    }
    match &entries[path[0]] {
        Entry::Group(_, group) => {
            let ghost before = collection@.map_values(|v: &Vec<Entry<L, M, T>>| v@);
            collection.push(group);
            let rest = &path[1..path.len()];
            proof {
                assert(rest@ == path@.drop_first());
                assert(collection@.map_values(|v: &Vec<Entry<L, M, T>>| v@) =~= before.push(group@));
            }
            get_entry_list_internal(group.as_slice(), rest, collection);
            proof {
                assert(before.push(group@) + group_chain(group@, path@.drop_first()) =~= before + (seq![group@]
                    + group_chain(group@, path@.drop_first())));
            }
        },
        _ => {},
    }
}

/// The entry lists along `path`: all entries, then the entries of each
/// group the path passes through.
pub fn get_entry_list<'a, L, M, T>(all_entries: &'a Vec<Entry<L, M, T>>, path: &[usize]) -> (r: Vec<
    &'a Vec<Entry<L, M, T>>,
>)
    requires
        group_path_valid(all_entries@, path@),
    ensures
        r@.map_values(|v: &Vec<Entry<L, M, T>>| v@) == seq![all_entries@] + group_chain(all_entries@, path@),
{
    let mut entries: Vec<&'a Vec<Entry<L, M, T>>> = Vec::new();
    entries.push(all_entries);
    proof {
        assert(entries@.map_values(|v: &Vec<Entry<L, M, T>>| v@) =~= seq![all_entries@]);
    }
    get_entry_list_internal(all_entries.as_slice(), path, &mut entries);
    entries
}

/// The state of a cell: the open submenu path, whether the cell is
/// selected, and whether its menu is open.
#[derive(Debug, Default)]
pub struct State {
    pub stack: Vec<usize>,
    pub selected: bool,
    pub menu_open: bool,
}

impl State {
    /// A cell with no submenu open, not selected, menu closed.
    pub fn new() -> (r: Self)
        ensures
            r.stack@ == Seq::<usize>::empty(),
            !r.selected,
            !r.menu_open,
    {
        Self { stack: Vec::new(), selected: false, menu_open: false }
    }

    /// Handles a mouse button over a cell whose menu is closed: the right
    /// button opens the menu when it has entries, the left button clicks.
    /// Anything else, or a cell whose menu is open or that the cursor is not
    /// over, ignores the event.
    pub fn on_event(&mut self, event: CellEvent, in_bounds: bool, has_entries: bool) -> (r: CellResponse)
        ensures
            final(self).stack@ == old(self).stack@,
            final(self).selected == old(self).selected,
            r == cell_response(old(self).menu_open, event, in_bounds, has_entries),
            final(self).menu_open == (old(self).menu_open || r == CellResponse::MenuOpened),
    {
        if !self.menu_open && in_bounds {
            match event {
                CellEvent::RightPressed => {
                    if has_entries {
                        self.menu_open = true;
                        CellResponse::MenuOpened
                    } else {
                        CellResponse::Ignored
                    }
                },
                CellEvent::LeftPressed => CellResponse::Clicked,
                CellEvent::Other => CellResponse::Ignored,
            }
        } else {
            CellResponse::Ignored
        }
    }
}

/// An input event, reduced to what a cell reads.
#[derive(Debug, Clone, Copy, PartialEq, Eq, Structural)]
pub enum CellEvent {
    LeftPressed,
    RightPressed,
    Other,
}

/// What a cell did with an event: opened its menu, was clicked (its click
/// message goes out, and the event is captured), or ignored it.
#[derive(Debug, Clone, Copy, PartialEq, Eq, Structural)]
pub enum CellResponse {
    MenuOpened,
    Clicked,
    Ignored,
}

/// The response of a cell with its menu open or closed to `event`.
pub open spec fn cell_response(menu_open: bool, event: CellEvent, in_bounds: bool, has_entries: bool) -> CellResponse {
    if !menu_open && in_bounds {
        match event {
            CellEvent::RightPressed => if has_entries {
                CellResponse::MenuOpened
            } else {
                CellResponse::Ignored
            },
            CellEvent::LeftPressed => CellResponse::Clicked,
            CellEvent::Other => CellResponse::Ignored,
        }
    } else {
        CellResponse::Ignored
    }
}

} // verus!
