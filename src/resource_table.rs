//! Interning of source texts and file paths into small integer identifiers.
use vstd::prelude::*;

verus! {

/// Identifier of an interned piece of source text.
#[derive(Clone, Copy, Debug, PartialEq, Eq, Structural, Hash)]
pub struct StrId(pub usize);

/// Identifier of an interned file path.
#[derive(Clone, Copy, Debug, PartialEq, Eq, Structural, Hash)]
pub struct PathId(pub usize);

/// Identity of one token occurrence; unique over every file of a session.
#[derive(Clone, Copy, Debug, PartialEq, Eq, Structural, Hash)]
pub struct TokenId(pub usize);

/// True when no two entries of `s` are equal.
pub open spec fn distinct_texts(s: Seq<Seq<char>>) -> bool {
    forall|i: int, j: int| 0 <= i < s.len() && 0 <= j < s.len() && i != j ==> s[i] != s[j]
}

/// Interner of texts and paths, and source of fresh token identities.
pub struct ResourceTable {
    strings: Vec<String>,
    paths: Vec<String>,
    next_token_id: usize,
}

impl ResourceTable {
    /// The interned texts, indexed by `StrId`.
    pub closed spec fn texts(&self) -> Seq<Seq<char>> {
        self.strings@.map_values(|s: String| s@)
    }

    /// The interned paths, indexed by `PathId`.
    pub closed spec fn path_texts(&self) -> Seq<Seq<char>> {
        self.paths@.map_values(|s: String| s@)
    }

    /// The identity that the next call of `new_token_id` hands out.
    pub closed spec fn next_token(&self) -> nat {
        self.next_token_id as nat
    }

    pub open spec fn wf(&self) -> bool {
        distinct_texts(self.texts()) && distinct_texts(self.path_texts())
    }

    pub fn new() -> (r: Self)
        ensures
            r.wf(),
            r.texts() == Seq::<Seq<char>>::empty(),
            r.path_texts() == Seq::<Seq<char>>::empty(),
            r.next_token() == 0,
    {
        let r = ResourceTable { strings: Vec::new(), paths: Vec::new(), next_token_id: 0 };
        assert(r.texts() =~= Seq::<Seq<char>>::empty());
        assert(r.path_texts() =~= Seq::<Seq<char>>::empty());
        r
    }

    /// Position of `s` among `v`, by a linear scan.
    fn find(v: &Vec<String>, s: &String) -> (r: Option<usize>)
        ensures
            match r {
                Some(i) => i < v@.len() && v@[i as int]@ == s@,
                None => forall|i: int| 0 <= i < v@.len() ==> v@[i]@ != s@,
            },
    {
        let mut i: usize = 0;
        while i < v.len()
            invariant
                i <= v@.len(),
                forall|k: int| 0 <= k < i ==> v@[k]@ != s@,
            decreases v@.len() - i,
        {
            if v[i] == *s {
                return Some(i);
            }
            i = i + 1;
        }
        None
    }

    /// Interns `s`, returning the identifier it already had or a new one.
    pub fn insert_str(&mut self, s: &str) -> (r: StrId)
        requires
            old(self).wf(),
        ensures
            final(self).wf(),
            r.0 < final(self).texts().len(),
            final(self).texts()[r.0 as int] == s@,
            old(self).texts().contains(s@) ==> final(self).texts() == old(self).texts(),
            !old(self).texts().contains(s@) ==> final(self).texts() == old(self).texts().push(s@),
            final(self).path_texts() == old(self).path_texts(),
            final(self).next_token() == old(self).next_token(),
    {
        let owned = s.to_owned();
        match Self::find(&self.strings, &owned) {
            Some(i) => {
                assert(old(self).texts()[i as int] == s@);
                StrId(i)
            },
            None => {
                let ghost before = self.texts();
                assert(!before.contains(s@));
                let id = self.strings.len();
                self.strings.push(owned);
                assert(self.texts() =~= before.push(s@));
                StrId(id)
            },
        }
    }

    /// The text that `id` stands for.
    pub fn get_str_value(&self, id: StrId) -> (r: Option<String>)
        ensures
            id.0 < self.texts().len() ==> r is Some && r->0@ == self.texts()[id.0 as int],
            id.0 >= self.texts().len() ==> r is None,
    {
        if id.0 < self.strings.len() {
            Some(self.strings[id.0].clone())
        } else {
            None
        }
    }

    /// Interns the file path `path`, returning the identifier it already had or a new one.
    pub fn insert_path(&mut self, path: &str) -> (r: PathId)
        requires
            old(self).wf(),
        ensures
            final(self).wf(),
            r.0 < final(self).path_texts().len(),
            final(self).path_texts()[r.0 as int] == path@,
            old(self).path_texts().contains(path@) ==> final(self).path_texts() == old(self).path_texts(),
            !old(self).path_texts().contains(path@) ==> final(self).path_texts() == old(self).path_texts().push(path@),
            final(self).texts() == old(self).texts(),
            final(self).next_token() == old(self).next_token(),
    {
        let owned = path.to_owned();
        match Self::find(&self.paths, &owned) {
            Some(i) => {
                assert(old(self).path_texts()[i as int] == path@);
                PathId(i)
            },
            None => {
                let ghost before = self.path_texts();
                assert(!before.contains(path@));
                let id = self.paths.len();
                self.paths.push(owned);
                assert(self.path_texts() =~= before.push(path@));
                PathId(id)
            },
        }
    }

    /// The identifier of an already interned path; `None` for a path never interned.
    pub fn get_path_id(&self, path: &str) -> (r: Option<PathId>)
        requires
            self.wf(),
        ensures
            match r {
                Some(id) => id.0 < self.path_texts().len() && self.path_texts()[id.0 as int] == path@,
                None => !self.path_texts().contains(path@),
            },
    {
        let owned = path.to_owned();
        match Self::find(&self.paths, &owned) {
            Some(i) => Some(PathId(i)),
            None => {
                assert(!self.path_texts().contains(path@));
                None
            },
        }
    }

    /// The path that `id` stands for.
    pub fn get_path_value(&self, id: PathId) -> (r: Option<String>)
        ensures
            id.0 < self.path_texts().len() ==> r is Some && r->0@ == self.path_texts()[id.0 as int],
            id.0 >= self.path_texts().len() ==> r is None,
    {
        if id.0 < self.paths.len() {
            Some(self.paths[id.0].clone())
        } else {
            None
        }
    }

    /// Hands out a token identity never handed out before by this table.
    pub fn new_token_id(&mut self) -> (r: TokenId)
        requires
            old(self).next_token() < usize::MAX,
        ensures
            r.0 == old(self).next_token(),
            final(self).next_token() == old(self).next_token() + 1,
            final(self).texts() == old(self).texts(),
            final(self).path_texts() == old(self).path_texts(),
    {
        let id = self.next_token_id;
        self.next_token_id = id + 1;
        TokenId(id)
    }
}

} // verus!
