//! The registry of declared symbols, with scoped resolution and per-file
//! invalidation.
use crate::namespace::{spec_included, Namespace};
use crate::resource_table::{PathId, ResourceTable, StrId};
use crate::symbol::{Symbol, SymbolView};
use vstd::prelude::*;
use vstd::std_specs::iter::IteratorSpec;

verus! {

/// A reference to an entity: `a.b.c` (hierarchical) or `a::b::c` (scoped).
/// Two names are equal when their segments are.
pub enum Name {
    Hierarchical(Vec<StrId>),
    Scoped(Vec<StrId>),
}

impl View for Name {
    type V = Seq<StrId>;

    open spec fn view(&self) -> Seq<StrId> {
        match self {
            Name::Hierarchical(v) => v@,
            Name::Scoped(v) => v@,
        }
    }
}

impl Name {
    /// The segments, root first.
    pub fn as_slice(&self) -> (r: &[StrId])
        ensures
            r@ == self@,
    {
        match self {
            Name::Hierarchical(v) => v.as_slice(),
            Name::Scoped(v) => v.as_slice(),
        }
    }
}

/// Whether the segments `a` and `b` are equal, by a scan.
fn same_segments(a: &[StrId], b: &[StrId]) -> (r: bool)
    ensures
        r == (a@ == b@),
{
    if a.len() != b.len() {
        return false;
    }
    let mut i: usize = 0;
    while i < a.len()
        invariant
            a@.len() == b@.len(),
            i <= a@.len(),
            forall|k: int| 0 <= k < i ==> a@[k] == b@[k],
        decreases a@.len() - i,
    {
        if a[i] != b[i] {
            return false;
        }
        i = i + 1;
    }
    assert(a@ =~= b@);
    true
}

/// Whether the entry `e` declares `name` in a scope visible from `ns`.
pub open spec fn is_candidate(e: (Seq<StrId>, SymbolView), name: Seq<StrId>, ns: Seq<StrId>) -> bool {
    e.0 == name && spec_included(ns, e.1.namespace)
}

/// Whether entry `i` is the one that `name` resolves to from `ns`: a
/// candidate of the greatest scope depth, and the last inserted among
/// candidates of that depth.
pub open spec fn resolves_to(
    entries: Seq<(Seq<StrId>, SymbolView)>,
    name: Seq<StrId>,
    ns: Seq<StrId>,
    i: int,
) -> bool {
    &&& 0 <= i < entries.len()
    &&& is_candidate(entries[i], name, ns)
    &&& forall|j: int|
        0 <= j < entries.len() && #[trigger] is_candidate(entries[j], name, ns) ==> {
            &&& entries[j].1.namespace.len() <= entries[i].1.namespace.len()
            &&& j > i ==> entries[j].1.namespace.len() < entries[i].1.namespace.len()
        }
}

/// Whether some entry declares `name` in a scope visible from `ns`.
pub open spec fn resolvable(
    entries: Seq<(Seq<StrId>, SymbolView)>,
    name: Seq<StrId>,
    ns: Seq<StrId>,
) -> bool {
    exists|j: int| 0 <= j < entries.len() && #[trigger] is_candidate(entries[j], name, ns)
}

/// The symbol that `name` resolves to from `ns`, if any.
pub open spec fn resolved(
    entries: Seq<(Seq<StrId>, SymbolView)>,
    name: Seq<StrId>,
    ns: Seq<StrId>,
) -> Option<SymbolView> {
    if resolvable(entries, name, ns) {
        Some(entries[choose|i: int| resolves_to(entries, name, ns, i)].1)
    } else {
        None
    }
}

/// Whether entry `e` was declared in the file `file`.
pub open spec fn from_file(e: (Seq<StrId>, SymbolView), file: PathId) -> bool {
    e.1.token.file_path == file
}

/// The predicate that keeps the entries declared outside the file `file`.
pub open spec fn outside_file(file: PathId) -> spec_fn((Seq<StrId>, SymbolView)) -> bool {
    |e: (Seq<StrId>, SymbolView)| !from_file(e, file)
}

/// Whether `q` occurs in `s` as a contiguous run.
pub open spec fn contains_text(s: Seq<char>, q: Seq<char>) -> bool {
    exists|i: int| 0 <= i && i + q.len() <= s.len() && #[trigger] s.subrange(i, i + q.len()) == q
}

/// The predicate that keeps the symbols whose name, spelled by `texts`,
/// contains `query`.
pub open spec fn named_like(texts: Seq<Seq<char>>, query: Seq<char>) -> spec_fn(SymbolView) -> bool {
    |s: SymbolView| s.token.text.0 < texts.len() && contains_text(texts[s.token.text.0 as int], query)
}

/// The characters of `s`, in order.
fn chars_of(s: &str) -> (r: Vec<char>)
    ensures
        r@ == s@,
{
    let mut it = s.chars();
    let mut r: Vec<char> = Vec::new();
    loop
        invariant_except_break
            s@ == r@ + it.remaining(),
        invariant
            r@.len() <= s@.len(),
        ensures
            r@ == s@,
        decreases s@.len() - r@.len(),
    {
        let ghost rem = it.remaining();
        match it.next() {
            None => {
                assert(r@ + rem =~= r@);
                break;
            },
            Some(c) => {
                assert(r@ + rem =~= r@.push(c) + it.remaining());
                r.push(c);
            },
        }
    }
    r
}

/// Whether `q` occurs in `s`, by trying each start.
fn text_contains(s: &Vec<char>, q: &Vec<char>) -> (r: bool)
    ensures
        r == contains_text(s@, q@),
{
    if q.len() > s.len() {
        return false;
    }
    let last = s.len() - q.len();
    assert(s@.len() == s.len());
    let mut i: usize = 0;
    while i <= last
        invariant
            q@.len() <= s@.len(),
            s@.len() <= usize::MAX,
            last == s@.len() - q@.len(),
            i <= last + 1,
            forall|j: int| 0 <= j < i ==> #[trigger] s@.subrange(j, j + q@.len()) != q@,
        decreases s@.len() - i,
    {
        let mut k: usize = 0;
        while k < q.len() && s[i + k] == q[k]
            invariant
                i <= last,
                last == s@.len() - q@.len(),
                s@.len() <= usize::MAX,
                k <= q@.len(),
                forall|m: int| 0 <= m < k ==> s@[i + m] == q@[m],
            decreases q@.len() - k,
        {
            k = k + 1;
        }
        if k == q.len() {
            assert(s@.subrange(i as int, i + q@.len()) =~= q@);
            return true;
        }
        assert(s@.subrange(i as int, i + q@.len())[k as int] != q@[k as int]);
        if i == last {
            assert forall|j: int| 0 <= j && j + q@.len() <= s@.len() implies #[trigger] s@.subrange(
                j,
                j + q@.len(),
            ) != q@ by {
                assert(j <= i);
            }
            return false;
        }
        i = i + 1;
    }
    assert forall|j: int| 0 <= j && j + q@.len() <= s@.len() implies #[trigger] s@.subrange(j, j + q@.len()) != q@ by {
        assert(j < i);
    }
    false
}

/// The registry of every declared symbol, keyed by name and defining scope.
pub struct SymbolTable {
    table: Vec<(Name, Symbol)>,
}

impl SymbolTable {
    /// The entries in insertion order: each name's segments and its symbol.
    pub closed spec fn entries(&self) -> Seq<(Seq<StrId>, SymbolView)> {
        self.table@.map_values(|e: (Name, Symbol)| (e.0@, e.1@))
    }

    pub fn new() -> (r: Self)
        ensures
            r.entries() == Seq::<(Seq<StrId>, SymbolView)>::empty(),
    {
        let r = SymbolTable { table: Vec::new() };
        assert(r.entries() =~= Seq::<(Seq<StrId>, SymbolView)>::empty());
        r
    }

    /// Records `symbol` under `name`; an earlier entry with the same name and
    /// scope is kept, not replaced.
    pub fn insert(&mut self, name: Name, symbol: Symbol)
        ensures
            final(self).entries() == old(self).entries().push((name@, symbol@)),
    {
        let ghost e = (name@, symbol@);
        self.table.push((name, symbol));
        assert(self.entries() =~= old(self).entries().push(e));
    }

    /// Resolves `name` as seen from the scope `namespace`: among the symbols
    /// of that name declared in `namespace` or in a scope enclosing it, the
    /// one of the innermost scope (the latest inserted, if several share that
    /// scope); `None` when there is none.
    pub fn get(&self, name: &Name, namespace: &Namespace) -> (r: Option<&Symbol>)
        ensures
            r is None <==> !resolvable(self.entries(), name@, namespace@),
            r is Some ==> exists|i: int|
                resolves_to(self.entries(), name@, namespace@, i) && r->0@ == self.entries()[i].1,
            r is Some ==> Some(r->0@) == resolved(self.entries(), name@, namespace@),
    {
        let ghost entries = self.entries();
        let key = name.as_slice();
        let mut found: Option<usize> = None;
        let mut max_depth: usize = 0;
        let mut i: usize = 0;
        while i < self.table.len()
            invariant
                entries == self.entries(),
                key@ == name@,
                i <= entries.len(),
                match found {
                    None => forall|j: int| 0 <= j < i ==> !is_candidate(entries[j], name@, namespace@),
                    Some(b) => {
                        &&& b < i
                        &&& is_candidate(entries[b as int], name@, namespace@)
                        &&& max_depth == entries[b as int].1.namespace.len()
                        &&& forall|j: int|
                            0 <= j < i && #[trigger] is_candidate(entries[j], name@, namespace@) ==> {
                                &&& entries[j].1.namespace.len() <= max_depth
                                &&& j > b ==> entries[j].1.namespace.len() < max_depth
                            }
                    },
                },
            decreases entries.len() - i,
        {
            let entry = &self.table[i];
            assert(entries[i as int] == (entry.0@, entry.1@));
            if same_segments(entry.0.as_slice(), key) && namespace.included(&entry.1.namespace) {
                let depth = entry.1.namespace.depth();
                if found.is_none() || depth >= max_depth {
                    found = Some(i);
                    max_depth = depth;
                }
            }
            i = i + 1;
        }
        match found {
            None => None,
            Some(b) => {
                assert(resolves_to(entries, name@, namespace@, b as int));
                proof {
                    let j = choose|j: int| resolves_to(entries, name@, namespace@, j);
                    lemma_resolution_unique(entries, name@, namespace@, b as int, j);
                }
                Some(&self.table[b].1)
            },
        }
    }

    /// Every symbol, in insertion order.
    pub fn get_all(&self) -> (r: Vec<&Symbol>)
        ensures
            r@.len() == self.entries().len(),
            forall|i: int| 0 <= i < r@.len() ==> r@[i]@ == self.entries()[i].1,
    {
        let mut r: Vec<&Symbol> = Vec::new();
        let mut i: usize = 0;
        while i < self.table.len()
            invariant
                i <= self.table@.len(),
                r@.len() == i,
                forall|k: int| 0 <= k < i ==> r@[k]@ == self.entries()[k].1,
            decreases self.table@.len() - i,
        {
            r.push(&self.table[i].1);
            i = i + 1;
        }
        r
    }

    /// The symbols, in insertion order, whose name, spelled by `resources`,
    /// contains `query`; a symbol whose name was never interned is left out.
    pub fn search(&self, resources: &ResourceTable, query: &str) -> (r: Vec<&Symbol>)
        ensures
            r@.map_values(|s: &Symbol| s@) == self.entries().map_values(
                |e: (Seq<StrId>, SymbolView)| e.1,
            ).filter(named_like(resources.texts(), query@)),
    {
        let ghost all = self.entries().map_values(|e: (Seq<StrId>, SymbolView)| e.1);
        let ghost keep = named_like(resources.texts(), query@);
        let q = chars_of(query);
        let mut r: Vec<&Symbol> = Vec::new();
        let mut i: usize = 0;
        while i < self.table.len()
            invariant
                i <= self.table@.len(),
                all == self.entries().map_values(|e: (Seq<StrId>, SymbolView)| e.1),
                keep == named_like(resources.texts(), query@),
                q@ == query@,
                r@.map_values(|s: &Symbol| s@) == all.subrange(0, i as int).filter(keep),
            decreases self.table@.len() - i,
        {
            let symbol = &self.table[i].1;
            proof {
                reveal(Seq::filter);
                assert(all.subrange(0, i + 1).drop_last() =~= all.subrange(0, i as int));
                assert(all.subrange(0, i + 1).last() == symbol@);
            }
            let wanted = match resources.get_str_value(symbol.token.text) {
                Some(text) => text_contains(&chars_of(text.as_str()), &q),
                None => false,
            };
            assert(wanted == keep(symbol@));
            if wanted {
                let ghost before = r@;
                r.push(symbol);
                assert(r@.map_values(|s: &Symbol| s@) =~= before.map_values(|s: &Symbol| s@).push(symbol@));
            }
            i = i + 1;
        }
        assert(all.subrange(0, i as int) =~= all);
        r
    }

    /// Removes every symbol declared in the file `file_path`, keeping the
    /// order of the others.
    pub fn drop(&mut self, file_path: PathId)
        ensures
            final(self).entries() == old(self).entries().filter(outside_file(file_path)),
    {
        let ghost all = self.entries();
        let mut i: usize = 0;
        let ghost mut j: int = 0;
        while i < self.table.len()
            invariant
                0 <= j <= all.len(),
                i <= self.table@.len(),
                self.table@.len() - i == all.len() - j,
                self.entries().subrange(0, i as int) == all.subrange(0, j).filter(outside_file(file_path)),
                self.entries().subrange(i as int, self.entries().len() as int) == all.subrange(j, all.len() as int),
            decreases self.table@.len() - i,
        {
            let ghost before = self.entries();
            assert(all.subrange(0, j + 1).drop_last() =~= all.subrange(0, j));
            assert(all.subrange(0, j + 1).last() == all[j]);
            proof {
                reveal(Seq::filter);
            }
            assert(all[j] == before[i as int]) by {
                assert(before.subrange(i as int, before.len() as int)[0] == before[i as int]);
            }
            assert(before[i as int].1 == self.table@[i as int].1@);
            if self.table[i].1.token.file_path == file_path {
                let _ = self.table.remove(i);
                proof {
                    assert(!outside_file(file_path)(all[j]));
                    assert(all.subrange(0, j + 1).filter(outside_file(file_path)) == all.subrange(0, j).filter(outside_file(file_path)));
                    assert(self.entries().subrange(0, i as int) =~= before.subrange(0, i as int));
                    assert(self.entries().subrange(i as int, self.entries().len() as int)
                        =~= before.subrange(i + 1, before.len() as int));
                    assert(all.subrange(j + 1, all.len() as int)
                        =~= all.subrange(j, all.len() as int).subrange(1, all.len() - j));
                    assert(before.subrange(i + 1, before.len() as int)
                        =~= before.subrange(i as int, before.len() as int).subrange(1, before.len() - i));
                    j = j + 1;
                }
            } else {
                i = i + 1;
                proof {
                    assert(self.entries() == before);
                    assert(outside_file(file_path)(all[j]));
                    assert(all.subrange(0, j + 1).filter(outside_file(file_path)) == all.subrange(0, j).filter(outside_file(file_path)).push(all[j]));
                    assert(before.subrange(0, i as int) =~= before.subrange(0, i - 1).push(before[i - 1]));
                    assert(all.subrange(j + 1, all.len() as int)
                        =~= all.subrange(j, all.len() as int).subrange(1, all.len() - j));
                    assert(before.subrange(i as int, before.len() as int)
                        =~= before.subrange(i - 1, before.len() as int).subrange(1, before.len() - i + 1));
                    j = j + 1;
                }
            }
        }
        assert(all.subrange(0, j) =~= all);
        assert(self.entries().subrange(0, i as int) =~= self.entries());
    }
}

/// At most one entry is the one a name resolves to, so resolution is a
/// function of the table, the name and the reference scope.
pub proof fn lemma_resolution_unique(
    entries: Seq<(Seq<StrId>, SymbolView)>,
    name: Seq<StrId>,
    ns: Seq<StrId>,
    i: int,
    k: int,
)
    requires
        resolves_to(entries, name, ns, i),
        resolves_to(entries, name, ns, k),
    ensures
        i == k,
{
    assert(is_candidate(entries[i], name, ns));
    assert(is_candidate(entries[k], name, ns));
}

/// The innermost declaration wins: with `name` declared in the scope `outer`
/// and again in the scope `inner` entered from it, in either order of
/// insertion, a reference from `inner` resolves to the inner symbol and one
/// from `outer` to the outer symbol; with the inner declaration alone, a
/// reference from `outer` resolves to nothing.
pub proof fn lemma_innermost_declaration_wins(
    name: Seq<StrId>,
    outer: Seq<StrId>,
    inner: StrId,
    a: SymbolView,
    b: SymbolView,
)
    requires
        a.namespace == outer,
        b.namespace == outer.push(inner),
    ensures
        resolves_to(seq![(name, a), (name, b)], name, outer.push(inner), 1),
        resolves_to(seq![(name, b), (name, a)], name, outer.push(inner), 0),
        resolves_to(seq![(name, a), (name, b)], name, outer, 0),
        resolves_to(seq![(name, b), (name, a)], name, outer, 1),
        !resolvable(seq![(name, b)], name, outer),
{
    crate::namespace::lemma_included_laws(outer, inner, outer);
    crate::namespace::lemma_included_laws(outer.push(inner), inner, outer);
}

/// Dropping a file is total: no entry left was declared in that file, and a
/// name that only that file's symbols made visible from `ns` no longer
/// resolves from `ns`.
pub proof fn lemma_drop_invalidates(
    entries: Seq<(Seq<StrId>, SymbolView)>,
    file: PathId,
    name: Seq<StrId>,
    ns: Seq<StrId>,
)
    ensures
        forall|i: int|
            0 <= i < entries.filter(outside_file(file)).len() ==> !from_file(
                #[trigger] entries.filter(outside_file(file))[i],
                file,
            ),
        (forall|j: int|
            0 <= j < entries.len() && #[trigger] is_candidate(entries[j], name, ns) ==> from_file(
                entries[j],
                file,
            )) ==> !resolvable(entries.filter(outside_file(file)), name, ns),
{
    let kept = entries.filter(outside_file(file));
    assert forall|i: int| 0 <= i < kept.len() implies !from_file(#[trigger] kept[i], file) by {
        entries.lemma_filter_pred(outside_file(file), i);
    }
    if forall|j: int|
        0 <= j < entries.len() && #[trigger] is_candidate(entries[j], name, ns) ==> from_file(
            entries[j],
            file,
        ) {
        if resolvable(kept, name, ns) {
            let k = choose|k: int| 0 <= k < kept.len() && #[trigger] is_candidate(kept[k], name, ns);
            entries.lemma_filter_pred(outside_file(file), k);
            assert(kept.contains(kept[k]));
            entries.lemma_filter_contains_rev(outside_file(file), kept[k]);
            let j = choose|j: int| 0 <= j < entries.len() && entries[j] == kept[k];
            assert(is_candidate(entries[j], name, ns));
        }
    }
}

} // verus!
