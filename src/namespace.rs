//! Scope paths: the ordered list of enclosing scope names, root first.
use crate::resource_table::{ResourceTable, StrId};
use vstd::prelude::*;

verus! {

/// True when the scope `x` encloses the scope `this` or is the same scope: the
/// segments of `x` are, in order, a prefix of those of `this`.
pub open spec fn spec_included(this: Seq<StrId>, x: Seq<StrId>) -> bool {
    x.len() <= this.len() && this.subrange(0, x.len() as int) == x
}

/// The texts of `segs` joined by `::`.
pub open spec fn joined_path(segs: Seq<Seq<char>>) -> Seq<char>
    decreases segs.len(),
{
    if segs.len() == 0 {
        Seq::empty()
    } else if segs.len() == 1 {
        segs[0]
    } else {
        joined_path(segs.drop_last()) + seq![':', ':'] + segs.last()
    }
}

/// An ordered scope path such as `pkg::mod::block`.
pub struct Namespace {
    pub paths: Vec<StrId>,
}

impl View for Namespace {
    type V = Seq<StrId>;

    open spec fn view(&self) -> Seq<StrId> {
        self.paths@
    }
}

impl Clone for Namespace {
    fn clone(&self) -> (r: Self)
        ensures
            r@ == self@,
    {
        Namespace { paths: self.paths.clone() }
    }
}

impl Default for Namespace {
    fn default() -> (r: Self)
        ensures
            r@ == Seq::<StrId>::empty(),
    {
        Namespace { paths: Vec::new() }
    }
}

impl Namespace {
    /// The root scope, with no segment.
    pub fn new() -> (r: Self)
        ensures
            r@ == Seq::<StrId>::empty(),
    {
        Namespace { paths: Vec::new() }
    }

    /// Enters the scope named `path`.
    pub fn push(&mut self, path: StrId)
        ensures
            final(self)@ == old(self)@.push(path),
    {
        self.paths.push(path);
    }

    /// Leaves the innermost scope; the root scope stays as it is.
    pub fn pop(&mut self)
        ensures
            old(self)@.len() > 0 ==> final(self)@ == old(self)@.drop_last(),
            old(self)@.len() == 0 ==> final(self)@ == old(self)@,
    {
        let _ = self.paths.pop();
    }

    /// The number of segments.
    pub fn depth(&self) -> (r: usize)
        ensures
            r == self@.len(),
    {
        self.paths.len()
    }

    /// Whether `x` is this scope or one of its ancestors.
    pub fn included(&self, x: &Namespace) -> (r: bool)
        ensures
            r == spec_included(self@, x@),
    {
        if x.paths.len() > self.paths.len() {
            return false;
        }
        let mut i: usize = 0;
        while i < x.paths.len()
            invariant
                x@.len() <= self@.len(),
                i <= x@.len(),
                forall|k: int| 0 <= k < i ==> self@[k] == x@[k],
            decreases x@.len() - i,
        {
            if self.paths[i] != x.paths[i] {
                assert(self@.subrange(0, x@.len() as int)[i as int] != x@[i as int]);
                return false;
            }
            i = i + 1;
        }
        assert(self@.subrange(0, x@.len() as int) =~= x@);
        true
    }

    /// The segments' texts joined by `::`, as in `pkg::top`.
    pub fn to_display_string(&self, resources: &ResourceTable) -> (r: String)
        requires
            forall|i: int| 0 <= i < self@.len() ==> (#[trigger] self@[i]).0 < resources.texts().len(),
        ensures
            r@ == joined_path(self@.map_values(|p: StrId| resources.texts()[p.0 as int])),
    {
        let ghost texts = self@.map_values(|p: StrId| resources.texts()[p.0 as int]);
        let mut text = String::new();
        let mut i: usize = 0;
        while i < self.paths.len()
            invariant
                i <= self@.len(),
                forall|k: int| 0 <= k < self@.len() ==> (#[trigger] self@[k]).0 < resources.texts().len(),
                texts == self@.map_values(|p: StrId| resources.texts()[p.0 as int]),
                text@ == joined_path(texts.subrange(0, i as int)),
            decreases self@.len() - i,
        {
            let segment = resources.get_str_value(self.paths[i]).unwrap();
            if i > 0 {
                text.append("::");
            }
            text.append(segment.as_str());
            proof {
                reveal_strlit("::");
                let next = texts.subrange(0, i + 1);
                assert(next.drop_last() =~= texts.subrange(0, i as int));
                assert(next.last() == segment@);
                assert(text@ =~= joined_path(next));
            }
            i = i + 1;
        }
        assert(texts.subrange(0, self@.len() as int) =~= texts);
        text
    }
}

/// Scope containment is reflexive, a scope entered from `n` lies inside `n`
/// and never the reverse, and containment is transitive.
pub proof fn lemma_included_laws(n: Seq<StrId>, x: StrId, m: Seq<StrId>)
    ensures
        spec_included(n, n),
        spec_included(n.push(x), n),
        !spec_included(n, n.push(x)),
        spec_included(m, n.push(x)) ==> spec_included(m, n),
{
    assert(n.subrange(0, n.len() as int) =~= n);
    assert(n.push(x).subrange(0, n.len() as int) =~= n);
    if spec_included(m, n.push(x)) {
        assert(m.subrange(0, n.len() as int) =~= m.subrange(0, n.len() + 1 as int).subrange(0, n.len() as int));
        assert(n.push(x).subrange(0, n.len() as int) =~= n);
    }
}

} // verus!
