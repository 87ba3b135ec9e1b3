//! The side table from identifier occurrences to the scope active at each.
use crate::namespace::Namespace;
use crate::resource_table::{PathId, StrId, TokenId};
use vstd::prelude::*;

verus! {

/// What the table records for one token: its file and its scope.
struct NamespaceEntry {
    id: TokenId,
    file_path: PathId,
    namespace: Namespace,
}

/// Whether some entry of `s` records the token `id`.
pub open spec fn records(s: Seq<(TokenId, PathId, Seq<StrId>)>, id: TokenId) -> bool {
    exists|i: int| 0 <= i < s.len() && (#[trigger] s[i]).0 == id
}

/// Whether `i` is the first entry of `s` that records the token `id`.
pub open spec fn is_first_record(s: Seq<(TokenId, PathId, Seq<StrId>)>, id: TokenId, i: int) -> bool {
    0 <= i < s.len() && s[i].0 == id && forall|j: int| 0 <= j < i ==> (#[trigger] s[j]).0 != id
}

/// The first entry of `s` that records the token `id`, where one does.
pub open spec fn first_record(s: Seq<(TokenId, PathId, Seq<StrId>)>, id: TokenId) -> int
    recommends
        records(s, id),
{
    choose|i: int| is_first_record(s, id, i)
}

/// The scope recorded for `id` in `s`, where one is.
pub open spec fn recorded_scope(s: Seq<(TokenId, PathId, Seq<StrId>)>, id: TokenId) -> Seq<StrId>
    recommends
        records(s, id),
{
    s[first_record(s, id)].2
}

/// The entries `s` after recording `e`: the first entry for its token is
/// replaced, or `e` is added at the end when there is none.
pub open spec fn recorded_insert(
    s: Seq<(TokenId, PathId, Seq<StrId>)>,
    e: (TokenId, PathId, Seq<StrId>),
) -> Seq<(TokenId, PathId, Seq<StrId>)> {
    if records(s, e.0) {
        s.update(first_record(s, e.0), e)
    } else {
        s.push(e)
    }
}

/// The first record of a token is unique.
proof fn lemma_first_record(s: Seq<(TokenId, PathId, Seq<StrId>)>, id: TokenId, i: int)
    requires
        is_first_record(s, id, i),
    ensures
        records(s, id),
        first_record(s, id) == i,
{
    let j = first_record(s, id);
    assert(is_first_record(s, id, j));
    if j < i {
        assert(s[j].0 != id);
    } else if j > i {
        assert(s[i].0 != id);
    }
}

/// The predicate that keeps the entries recorded outside the file `file`.
pub open spec fn recorded_outside(file: PathId) -> spec_fn((TokenId, PathId, Seq<StrId>)) -> bool {
    |e: (TokenId, PathId, Seq<StrId>)| e.1 != file
}

/// Maps each identifier occurrence to the scope active where it stands.
pub struct NamespaceTable {
    table: Vec<NamespaceEntry>,
}

impl NamespaceTable {
    /// The entries in insertion order: token, file and scope.
    pub closed spec fn entries(&self) -> Seq<(TokenId, PathId, Seq<StrId>)> {
        self.table@.map_values(|e: NamespaceEntry| (e.id, e.file_path, e.namespace@))
    }

    /// No token is recorded twice.
    pub open spec fn wf(&self) -> bool {
        forall|i: int, j: int|
            0 <= i < self.entries().len() && 0 <= j < self.entries().len() && i != j
                ==> (#[trigger] self.entries()[i]).0 != (#[trigger] self.entries()[j]).0
    }

    pub fn new() -> (r: Self)
        ensures
            r.wf(),
            r.entries() == Seq::<(TokenId, PathId, Seq<StrId>)>::empty(),
    {
        let r = NamespaceTable { table: Vec::new() };
        assert(r.entries() =~= Seq::<(TokenId, PathId, Seq<StrId>)>::empty());
        r
    }

    /// Position of the entry for `id`, by a linear scan.
    fn position(&self, id: TokenId) -> (r: Option<usize>)
        ensures
            match r {
                Some(i) => is_first_record(self.entries(), id, i as int),
                None => !records(self.entries(), id),
            },
    {
        let mut i: usize = 0;
        while i < self.table.len()
            invariant
                i <= self.entries().len(),
                forall|k: int| 0 <= k < i ==> self.entries()[k].0 != id,
            decreases self.entries().len() - i,
        {
            if self.table[i].id == id {
                return Some(i);
            }
            i = i + 1;
        }
        None
    }

    /// Records that the token `id` of the file `file_path` stands in the scope
    /// `namespace`, replacing what was recorded for `id` before.
    pub fn insert(&mut self, id: TokenId, file_path: PathId, namespace: Namespace)
        ensures
            old(self).wf() ==> final(self).wf(),
            final(self).entries() == recorded_insert(old(self).entries(), (id, file_path, namespace@)),
    {
        let ghost e = (id, file_path, namespace@);
        match self.position(id) {
            Some(i) => {
                proof {
                    lemma_first_record(self.entries(), id, i as int);
                }
                self.table.set(i, NamespaceEntry { id, file_path, namespace });
                assert(self.entries() =~= old(self).entries().update(i as int, e));
            },
            None => {
                self.table.push(NamespaceEntry { id, file_path, namespace });
                assert(self.entries() =~= old(self).entries().push(e));
            },
        }
    }

    /// The scope recorded for the token `id`.
    pub fn get(&self, id: TokenId) -> (r: Option<Namespace>)
        ensures
            r is None <==> !records(self.entries(), id),
            r is Some ==> r->0@ == recorded_scope(self.entries(), id),
    {
        match self.position(id) {
            Some(i) => {
                proof {
                    lemma_first_record(self.entries(), id, i as int);
                }
                Some(self.table[i].namespace.clone())
            },
            None => None,
        }
    }

    /// Removes every entry recorded for a token of the file `file_path`,
    /// keeping the order of the others.
    pub fn drop(&mut self, file_path: PathId)
        ensures
            old(self).wf() ==> final(self).wf(),
            final(self).entries() == old(self).entries().filter(recorded_outside(file_path)),
    {
        let ghost all = self.entries();
        let mut i: usize = 0;
        let ghost mut j: int = 0;
        while i < self.table.len()
            invariant
                0 <= j <= all.len(),
                i <= self.table@.len(),
                self.table@.len() - i == all.len() - j,
                self.entries().subrange(0, i as int) == all.subrange(0, j).filter(recorded_outside(file_path)),
                self.entries().subrange(i as int, self.entries().len() as int) == all.subrange(j, all.len() as int),
            decreases self.table@.len() - i,
        {
            let ghost before = self.entries();
            assert(all.subrange(0, j + 1).drop_last() =~= all.subrange(0, j));
            assert(all.subrange(0, j + 1).last() == all[j]);
            proof {
                reveal(Seq::filter);
            }
            assert(all[j] == before[i as int]) by {
                assert(before.subrange(i as int, before.len() as int)[0] == before[i as int]);
            }
            assert(before[i as int].1 == self.table@[i as int].file_path);
            if self.table[i].file_path == file_path {
                let _ = self.table.remove(i);
                proof {
                    assert(!recorded_outside(file_path)(all[j]));
                    assert(all.subrange(0, j + 1).filter(recorded_outside(file_path))
                        == all.subrange(0, j).filter(recorded_outside(file_path)));
                    assert(self.entries().subrange(0, i as int) =~= before.subrange(0, i as int));
                    assert(self.entries().subrange(i as int, self.entries().len() as int)
                        =~= before.subrange(i + 1, before.len() as int));
                    assert(all.subrange(j + 1, all.len() as int)
                        =~= all.subrange(j, all.len() as int).subrange(1, all.len() - j));
                    assert(before.subrange(i + 1, before.len() as int)
                        =~= before.subrange(i as int, before.len() as int).subrange(1, before.len() - i));
                    j = j + 1;
                }
            } else {
                i = i + 1;
                proof {
                    assert(self.entries() == before);
                    assert(recorded_outside(file_path)(all[j]));
                    assert(all.subrange(0, j + 1).filter(recorded_outside(file_path))
                        == all.subrange(0, j).filter(recorded_outside(file_path)).push(all[j]));
                    assert(before.subrange(0, i as int) =~= before.subrange(0, i - 1).push(before[i - 1]));
                    assert(all.subrange(j + 1, all.len() as int)
                        =~= all.subrange(j, all.len() as int).subrange(1, all.len() - j));
                    assert(before.subrange(i as int, before.len() as int)
                        =~= before.subrange(i - 1, before.len() as int).subrange(1, before.len() - i + 1));
                    j = j + 1;
                }
            }
        }
        assert(all.subrange(0, j) =~= all);
        assert(self.entries().subrange(0, i as int) =~= self.entries());
        proof {
            if old(self).wf() {
                lemma_filter_keeps_distinct(all, recorded_outside(file_path));
            }
        }
    }
}

/// Filtering keeps the tokens of the entries distinct.
proof fn lemma_filter_keeps_distinct(
    s: Seq<(TokenId, PathId, Seq<StrId>)>,
    p: spec_fn((TokenId, PathId, Seq<StrId>)) -> bool,
)
    requires
        forall|i: int, j: int|
            0 <= i < s.len() && 0 <= j < s.len() && i != j ==> (#[trigger] s[i]).0 != (#[trigger] s[j]).0,
    ensures
        forall|i: int, j: int|
            0 <= i < s.filter(p).len() && 0 <= j < s.filter(p).len() && i != j
                ==> (#[trigger] s.filter(p)[i]).0 != (#[trigger] s.filter(p)[j]).0,
    decreases s.len(),
{
    reveal(Seq::filter);
    if s.len() > 0 {
        let rest = s.drop_last();
        lemma_filter_keeps_distinct(rest, p);
        if p(s.last()) {
            assert forall|i: int| 0 <= i < rest.filter(p).len() implies (#[trigger] rest.filter(p)[i]).0
                != s.last().0 by {
                assert(rest.filter(p).contains(rest.filter(p)[i]));
                rest.lemma_filter_contains_rev(p, rest.filter(p)[i]);
            }
        }
    }
}

} // verus!
