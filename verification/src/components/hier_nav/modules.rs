//! The module list of a design, read off its parsed header: every scope in
//! preorder, each with the indices of its nested scopes and the full names
//! of its own variables.
use super::hier_node::{HierMap, ModuleItem};
use crate::backend::vcd_parser::{Header, HeaderItem, Scope};
use vstd::prelude::*;
use vstd::string::StringExecFns;

verus! {

/// The number of scopes among `items` and below them.
pub open spec fn scopes_in(items: Seq<HeaderItem>) -> nat
    decreases items, 0int,
{
    if items.len() == 0 {
        0
    } else {
        scopes_in(items.drop_last()) + match items.last() {
            HeaderItem::Scope(s) => scope_size(s),
            HeaderItem::Var(_) => 0,
        }
    }
}

/// The number of scopes in `s`, itself included.
pub open spec fn scope_size(s: Scope) -> nat
    decreases s, 1int,
{
    1 + scopes_in(s.children@)
}

/// Where the scopes among `items` start in preorder, the first at `base`.
pub open spec fn starts(items: Seq<HeaderItem>, base: int) -> Seq<usize>
    decreases items.len(),
{
    if items.len() == 0 {
        Seq::empty()
    } else {
        starts(items.drop_last(), base) + match items.last() {
            HeaderItem::Scope(_) => seq![(base + scopes_in(items.drop_last())) as usize],
            HeaderItem::Var(_) => Seq::empty(),
        }
    }
}

/// The full names of the variables among `items`, under `path`.
pub open spec fn var_names(path: Seq<char>, items: Seq<HeaderItem>) -> Seq<Seq<char>>
    decreases items.len(),
{
    if items.len() == 0 {
        Seq::empty()
    } else {
        var_names(path, items.drop_last()) + match items.last() {
            HeaderItem::Var(v) => seq![path + v.reference@],
            HeaderItem::Scope(_) => Seq::empty(),
        }
    }
}

/// The views of a list of names.
pub open spec fn names_view(names: Seq<String>) -> Seq<Seq<char>> {
    names.map_values(|n: String| n@)
}

/// Whether module `idx` shows scope `s`, read under `prefix`: its own index
/// and name, its nested scopes at their preorder places, and the full names
/// of its variables in `sigs[idx]`.
pub open spec fn laid_out(
    mods: Seq<ModuleItem>,
    sigs: Seq<Vec<String>>,
    idx: int,
    prefix: Seq<char>,
    s: Scope,
) -> bool
    decreases s, 1int,
{
    let path = prefix + s.identifier@ + seq!['.'];
    &&& 0 <= idx < mods.len()
    &&& idx < sigs.len()
    &&& mods[idx].self_idx == idx
    &&& mods[idx].name@ == s.identifier@
    &&& mods[idx].submodules@ == starts(s.children@, idx + 1)
    &&& names_view(sigs[idx]@) == var_names(path, s.children@)
    &&& items_laid_out(mods, sigs, idx + 1, path, s.children@)
}

/// Whether the scopes among `items` are laid out in preorder from `base`.
pub open spec fn items_laid_out(
    mods: Seq<ModuleItem>,
    sigs: Seq<Vec<String>>,
    base: int,
    prefix: Seq<char>,
    items: Seq<HeaderItem>,
) -> bool
    decreases items, 0int,
{
    if items.len() == 0 {
        true
    } else {
        &&& items_laid_out(mods, sigs, base, prefix, items.drop_last())
        &&& match items.last() {
            HeaderItem::Scope(c) => laid_out(mods, sigs, base + scopes_in(items.drop_last()), prefix, c),
            HeaderItem::Var(_) => true,
        }
    }
}

/// Whether `a` and `b` agree from `lo` up to `hi`.
pub open spec fn agree(
    a: Seq<ModuleItem>,
    sa: Seq<Vec<String>>,
    b: Seq<ModuleItem>,
    sb: Seq<Vec<String>>,
    lo: int,
    hi: int,
) -> bool {
    &&& hi <= b.len()
    &&& hi <= sb.len()
    &&& forall|k: int| lo <= k < hi ==> #[trigger] b[k] == a[k] && sb[k] == sa[k]
}

proof fn lemma_laid_out_frame(
    a: Seq<ModuleItem>,
    sa: Seq<Vec<String>>,
    b: Seq<ModuleItem>,
    sb: Seq<Vec<String>>,
    idx: int,
    prefix: Seq<char>,
    s: Scope,
)
    requires
        laid_out(a, sa, idx, prefix, s),
        agree(a, sa, b, sb, idx, idx + scope_size(s)),
    ensures
        laid_out(b, sb, idx, prefix, s),
    decreases s, 1int,
{
    let path = prefix + s.identifier@ + seq!['.'];
    assert(b[idx] == a[idx]);
    lemma_items_frame(a, sa, b, sb, idx + 1, path, s.children@);
}

proof fn lemma_items_frame(
    a: Seq<ModuleItem>,
    sa: Seq<Vec<String>>,
    b: Seq<ModuleItem>,
    sb: Seq<Vec<String>>,
    base: int,
    prefix: Seq<char>,
    items: Seq<HeaderItem>,
)
    requires
        items_laid_out(a, sa, base, prefix, items),
        agree(a, sa, b, sb, base, base + scopes_in(items)),
    ensures
        items_laid_out(b, sb, base, prefix, items),
    decreases items, 0int,
{
    if items.len() > 0 {
        lemma_items_frame(a, sa, b, sb, base, prefix, items.drop_last());
        match items.last() {
            HeaderItem::Scope(c) => {
                assert(scopes_in(items) == scopes_in(items.drop_last()) + scope_size(c));
                let lo = base + scopes_in(items.drop_last());
                assert(agree(a, sa, b, sb, lo, lo + scope_size(c)));
                lemma_laid_out_frame(a, sa, b, sb, lo, prefix, c);
            },
            HeaderItem::Var(_) => {},
        }
    }
}

/// The scopes among `items`, in order.
pub open spec fn scopes_of(items: Seq<HeaderItem>) -> Seq<Scope>
    decreases items.len(),
{
    if items.len() == 0 {
        Seq::empty()
    } else {
        scopes_of(items.drop_last()) + match items.last() {
            HeaderItem::Scope(c) => seq![c],
            HeaderItem::Var(_) => Seq::empty(),
        }
    }
}

/// Where the scopes among `items` are laid out from `base`, the `k`-th
/// place listed for them holds the module that shows the `k`-th of those
/// scopes: the same name, and its own scopes laid out in turn.
pub proof fn lemma_starts_show_scopes(
    mods: Seq<ModuleItem>,
    sigs: Seq<Vec<String>>,
    base: int,
    prefix: Seq<char>,
    items: Seq<HeaderItem>,
)
    requires
        0 <= base,
        mods.len() <= usize::MAX,
        items_laid_out(mods, sigs, base, prefix, items),
    ensures
        starts(items, base).len() == scopes_of(items).len(),
        forall|k: int|
            0 <= k < starts(items, base).len() ==> {
                let j = #[trigger] starts(items, base)[k] as int;
                &&& 0 <= j < mods.len()
                &&& mods[j].name@ == scopes_of(items)[k].identifier@
                &&& laid_out(mods, sigs, j, prefix, scopes_of(items)[k])
            },
    decreases items.len(),
{
    if items.len() > 0 {
        let dl = items.drop_last();
        lemma_starts_show_scopes(mods, sigs, base, prefix, dl);
        match items.last() {
            HeaderItem::Scope(c) => {
                let at = base + scopes_in(dl);
                assert(laid_out(mods, sigs, at, prefix, c));
                assert(starts(items, base) == starts(dl, base) + seq![at as usize]);
                assert(scopes_of(items) == scopes_of(dl) + seq![c]);
                let n = starts(dl, base).len();
                assert forall|k: int| 0 <= k < starts(items, base).len() implies {
                    let j = #[trigger] starts(items, base)[k] as int;
                    &&& 0 <= j < mods.len()
                    &&& mods[j].name@ == scopes_of(items)[k].identifier@
                    &&& laid_out(mods, sigs, j, prefix, scopes_of(items)[k])
                } by {
                    if k < n {
                        assert(starts(items, base)[k] == starts(dl, base)[k]);
                        assert(scopes_of(items)[k] == scopes_of(dl)[k]);
                    } else {
                        assert(starts(items, base)[k] == at as usize);
                        assert(scopes_of(items)[k] == c);
                    }
                }
            },
            HeaderItem::Var(_) => {
                assert(starts(items, base) =~= starts(dl, base));
                assert(scopes_of(items) =~= scopes_of(dl));
            },
        }
    }
}

/// In a module that shows scope `s`, the `k`-th submodule index leads to
/// the module that shows the `k`-th scope nested in `s`, read under the
/// module's path: the same name, and laid out in turn.
pub proof fn lemma_submodules_show_child_scopes(
    mods: Seq<ModuleItem>,
    sigs: Seq<Vec<String>>,
    idx: int,
    prefix: Seq<char>,
    s: Scope,
)
    requires
        mods.len() <= usize::MAX,
        laid_out(mods, sigs, idx, prefix, s),
    ensures
        mods[idx].submodules@.len() == scopes_of(s.children@).len(),
        forall|k: int|
            0 <= k < mods[idx].submodules@.len() ==> {
                let j = #[trigger] mods[idx].submodules@[k] as int;
                &&& 0 <= j < mods.len()
                &&& mods[j].name@ == scopes_of(s.children@)[k].identifier@
                &&& laid_out(mods, sigs, j, prefix + s.identifier@ + seq!['.'], scopes_of(s.children@)[k])
            },
{
    lemma_starts_show_scopes(mods, sigs, idx + 1, prefix + s.identifier@ + seq!['.'], s.children@);
}

fn visit(scope: &Scope, prefix: &String, list: &mut Vec<ModuleItem>, sigs: &mut Vec<Vec<String>>) -> (idx:
    usize)
    requires
        old(list)@.len() == old(sigs)@.len(),
    ensures
        idx == old(list)@.len(),
        final(list)@.len() == final(sigs)@.len(),
        final(list)@.len() == old(list)@.len() + scope_size(*scope),
        forall|k: int| 0 <= k < idx ==> #[trigger] final(list)@[k] == old(list)@[k] && final(sigs)@[k] == old(
            sigs,
        )@[k],
        laid_out(final(list)@, final(sigs)@, idx as int, prefix@, *scope),
    decreases scope,
{
    let idx = list.len();
    let mut path = prefix.clone();
    path.append(scope.identifier.as_str());
    proof {
        reveal_strlit(".");
    }
    path.append(".");
    list.push(ModuleItem { self_idx: idx, name: scope.identifier.clone(), submodules: Vec::new() });
    sigs.push(Vec::new());
    let ghost list0 = list@;
    let ghost sigs0 = sigs@;
    let mut subs: Vec<usize> = Vec::new();
    let mut own: Vec<String> = Vec::new();
    let children = &scope.children;
    let n = children.len();
    proof {
        assert(children@.take(0) =~= Seq::<HeaderItem>::empty());
    }
    for k in 0..n
        invariant
            n == children@.len(),
            children@ == scope.children@,
            list@.len() == sigs@.len(),
            idx < list@.len(),
            list@.len() == idx + 1 + scopes_in(children@.take(k as int)),
            forall|j: int| 0 <= j <= idx ==> #[trigger] list@[j] == list0[j] && sigs@[j] == sigs0[j],
            forall|j: int| 0 <= j < idx ==> #[trigger] list0[j] == old(list)@[j] && sigs0[j] == old(sigs)@[j],
            path@ == prefix@ + scope.identifier@ + seq!['.'],
            subs@ == starts(children@.take(k as int), idx + 1),
            names_view(own@) == var_names(path@, children@.take(k as int)),
            items_laid_out(list@, sigs@, idx + 1, path@, children@.take(k as int)),
    {
        let ghost pre = children@.take(k as int);
        proof {
            assert(children@.take(k + 1).drop_last() =~= pre);
            assert(children@.take(k + 1).last() == children@[k as int]);
        }
        match &children[k] {
            HeaderItem::Scope(s) => {
                let ghost before = list@;
                let ghost sbefore = sigs@;
                let c = visit(s, &path, list, sigs);
                subs.push(c);
                proof {
                    lemma_items_frame(before, sbefore, list@, sigs@, idx + 1, path@, pre);
                    assert(subs@ =~= starts(children@.take(k + 1), idx + 1));
                }
            },
            HeaderItem::Var(v) => {
                let mut name = path.clone();
                name.append(v.reference.as_str());
                own.push(name);
                proof {
                    assert(names_view(own@) =~= var_names(path@, children@.take(k + 1)));
                }
            },
        }
    }
    proof {
        assert(children@.take(n as int) =~= children@);
    }
    let ghost before = list@;
    let ghost sbefore = sigs@;
    list.set(idx, ModuleItem { self_idx: idx, name: scope.identifier.clone(), submodules: subs });
    sigs.set(idx, own);
    proof {
        lemma_items_frame(before, sbefore, list@, sigs@, idx + 1, path@, children@);
    }
    idx
}

/// The module hierarchy of `header`: its scopes in preorder, the top-level
/// ones as roots; and the full names of each module's own variables, by
/// module index.
pub fn modules_of(header: &Header) -> (r: (HierMap, Vec<Vec<String>>))
    ensures
        r.0.module_list@.len() == scopes_in(header.items@),
        r.1@.len() == scopes_in(header.items@),
        r.0.roots@ == starts(header.items@, 0),
        items_laid_out(r.0.module_list@, r.1@, 0, Seq::empty(), header.items@),
        r.0.roots@.len() == scopes_of(header.items@).len(),
        forall|k: int|
            0 <= k < r.0.roots@.len() ==> {
                let j = #[trigger] r.0.roots@[k] as int;
                &&& 0 <= j < r.0.module_list@.len()
                &&& r.0.module_list@[j].name@ == scopes_of(header.items@)[k].identifier@
                &&& laid_out(r.0.module_list@, r.1@, j, Seq::empty(), scopes_of(header.items@)[k])
            },
{
    let mut module_list: Vec<ModuleItem> = Vec::new();
    let mut signals: Vec<Vec<String>> = Vec::new();
    let mut roots: Vec<usize> = Vec::new();
    let empty = String::from_str("");
    proof {
        reveal_strlit("");
    }
    let items = &header.items;
    let n = items.len();
    proof {
        assert(items@.take(0) =~= Seq::<HeaderItem>::empty());
    }
    for k in 0..n
        invariant
            n == items@.len(),
            items@ == header.items@,
            empty@ == Seq::<char>::empty(),
            module_list@.len() == signals@.len(),
            module_list@.len() == scopes_in(items@.take(k as int)),
            roots@ == starts(items@.take(k as int), 0),
            items_laid_out(module_list@, signals@, 0, Seq::empty(), items@.take(k as int)),
    {
        let ghost pre = items@.take(k as int);
        proof {
            assert(items@.take(k + 1).drop_last() =~= pre);
            assert(items@.take(k + 1).last() == items@[k as int]);
        }
        match &items[k] {
            HeaderItem::Scope(s) => {
                let ghost before = module_list@;
                let ghost sbefore = signals@;
                let c = visit(s, &empty, &mut module_list, &mut signals);
                roots.push(c);
                proof {
                    lemma_items_frame(before, sbefore, module_list@, signals@, 0, Seq::empty(), pre);
                    assert(roots@ =~= starts(items@.take(k + 1), 0));
                }
            },
            HeaderItem::Var(_) => {
                proof {
                    assert(roots@ =~= starts(items@.take(k + 1), 0));
                }
            },
        }
    }
    let total = module_list.len();
    proof {
        assert(items@.take(n as int) =~= items@);
        assert(module_list@.len() == total);
        lemma_starts_show_scopes(module_list@, signals@, 0, Seq::empty(), items@);
    }
    (HierMap { module_list, roots }, signals)
}

} // verus!
