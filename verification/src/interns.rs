//! The interning table: strings to small dense integers and back.
//!
//! A table may stand on a parent table. The names of the parent stay what
//! they are, new names go to the child, and the child's identifiers start
//! where the parent's end, so that a name has one identifier in the whole
//! chain.

use vstd::prelude::*;
use vstd::hash_map::StringHashMap;

verus! {

/// A small integer that stands for a string.
#[derive(Clone, Copy, Debug, PartialEq, Eq, Structural, Hash, PartialOrd, Ord)]
pub struct Intern(pub usize);

/// What a chain of tables holds: the names in the order of their
/// identifiers, and the identifier of the first of them.
pub struct InternTable {
    pub first: usize,
    pub names: Seq<Seq<char>>,
}

impl InternTable {
    /// The identifier that the next new name gets.
    pub open spec fn next_id(self) -> int {
        self.first + self.names.len()
    }

    /// No name occurs twice, and every identifier fits the machine word.
    pub open spec fn wf(self) -> bool {
        &&& self.names.no_duplicates()
        &&& self.next_id() <= usize::MAX
    }

    /// The table holds what `before` holds, under the same identifiers,
    /// and maybe more names behind it.
    pub open spec fn extends(self, before: InternTable) -> bool {
        &&& self.first == before.first
        &&& before.names.len() <= self.names.len()
        &&& forall|i: int| 0 <= i < before.names.len() ==> self.names[i] == before.names[i]
    }

    /// The table holds what `before` holds, where it held it, and holds no
    /// name twice if `before` held none twice.
    pub open spec fn keeps(self, before: InternTable) -> bool {
        &&& self.extends(before)
        &&& before.names.no_duplicates() ==> self.names.no_duplicates()
    }

    /// The identifier of a name, if the table holds it.
    pub open spec fn lookup(self, s: Seq<char>) -> Option<Intern> {
        if self.names.contains(s) {
            Some(Intern((self.first + self.names.index_of(s)) as usize))
        } else {
            None
        }
    }

    /// The name of an identifier, if the table holds it.
    pub open spec fn resolve(self, i: Intern) -> Option<Seq<char>> {
        if self.first <= i.0 < self.next_id() {
            Some(self.names[i.0 - self.first])
        } else {
            None
        }
    }

    /// The table after a name was interned: unchanged if the name is known,
    /// else longer by that name.
    pub open spec fn intern(self, s: Seq<char>) -> InternTable {
        if self.names.contains(s) {
            self
        } else {
            InternTable { first: self.first, names: self.names.push(s) }
        }
    }

    /// The identifier that interning a name yields.
    pub open spec fn id_of(self, s: Seq<char>) -> Intern {
        if self.names.contains(s) {
            Intern((self.first + self.names.index_of(s)) as usize)
        } else {
            Intern((self.first + self.names.len()) as usize)
        }
    }

    /// A name that stands at a position has the identifier of that position.
    pub proof fn lemma_lookup_at(self, i: int)
        requires
            self.wf(),
            0 <= i < self.names.len(),
        ensures
            self.lookup(self.names[i]) == Some(Intern((self.first + i) as usize)),
            self.id_of(self.names[i]) == Intern((self.first + i) as usize),
            self.resolve(Intern((self.first + i) as usize)) == Some(self.names[i]),
    {
        let s = self.names[i];
        assert(self.names.contains(s));
        let j = self.names.index_of(s);
        assert(self.names[j] == s);
    }

    /// The identifier of a name leads back to the name, and two names that
    /// have one identifier are one name.
    pub proof fn law_unique(self, s: Seq<char>, t: Seq<char>)
        requires
            self.wf(),
        ensures
            self.lookup(s) matches Some(i) ==> self.resolve(i) == Some(s),
            self.lookup(s) is Some && self.lookup(s) == self.lookup(t) ==> s == t,
    {
        if self.names.contains(s) {
            let j = self.names.index_of(s);
            self.lemma_lookup_at(j);
            if self.names.contains(t) {
                let k = self.names.index_of(t);
                self.lemma_lookup_at(k);
            }
        }
    }

    /// Interning is idempotent: a second interning of a name changes
    /// nothing and yields the identifier of the first.
    pub proof fn law_idempotent(self, s: Seq<char>)
        requires
            self.wf(),
            self.names.contains(s) || self.next_id() < usize::MAX,
        ensures
            self.intern(s).intern(s) == self.intern(s),
            self.intern(s).id_of(s) == self.id_of(s),
            self.intern(s).lookup(s) == Some(self.id_of(s)),
    {
        self.lemma_intern(s);
    }

    /// Interning changes nothing that was there.
    pub proof fn lemma_intern_keeps(self, s: Seq<char>)
        ensures
            self.intern(s).keeps(self),
            self.intern(s).names.contains(s),
            self.names.no_duplicates() ==> self.intern(s).lookup(s) == Some(self.id_of(s)),
    {
        let after = self.intern(s);
        if self.names.no_duplicates() && !self.names.contains(s) {
            let n = self.names.len() as int;
            assert(after.names[n] == s);
            let k = after.names.index_of(s);
            assert(after.names[k] == s);
            if k < n {
                assert(self.names[k] == s);
            }
        }
        if !self.names.contains(s) {
            let n = self.names.len() as int;
            assert(after.names[n] == s);
            if self.names.no_duplicates() {
                assert forall|a: int, b: int|
                    0 <= a < after.names.len() && 0 <= b < after.names.len() && a
                        != b implies after.names[a] != after.names[b] by {
                    if a < n && b < n {
                        assert(self.names[a] != self.names[b]);
                    } else if a < n {
                        assert(self.names[a] == after.names[a]);
                    } else {
                        assert(self.names[b] == after.names[b]);
                    }
                }
            }
        }
    }

    /// A name keeps its identifier in every table that keeps the table.
    pub proof fn lemma_kept(self, before: InternTable, s: Seq<char>)
        requires
            before.names.no_duplicates(),
            self.keeps(before),
            before.names.contains(s),
        ensures
            self.names.contains(s),
            self.lookup(s) == before.lookup(s),
            self.id_of(s) == before.id_of(s),
    {
        let j = before.names.index_of(s);
        assert(self.names[j] == s);
        let k = self.names.index_of(s);
        assert(self.names[k] == s);
        assert(k == j);
    }

    /// A table that starts at zero and has room for one more name takes any
    /// name. (A vector never holds more entries than the machine word counts.)
    pub proof fn lemma_intern_plain(self, s: Seq<char>)
        requires
            self.wf(),
            self.first == 0,
        ensures
            self.names.len() < usize::MAX || self.names.contains(s) ==> self.intern(s).wf(),
    {
        if self.names.len() < usize::MAX || self.names.contains(s) {
            self.lemma_intern(s);
        }
    }

    /// Interning keeps the table well formed, gives the name the identifier
    /// `id_of`, and changes no identifier and no name that was there.
    pub proof fn lemma_intern(self, s: Seq<char>)
        requires
            self.wf(),
            self.names.contains(s) || self.next_id() < usize::MAX,
        ensures
            self.intern(s).wf(),
            self.intern(s).first == self.first,
            self.intern(s).lookup(s) == Some(self.id_of(s)),
            self.intern(s).resolve(self.id_of(s)) == Some(s),
            self.intern(s).intern(s) == self.intern(s),
            self.intern(s).id_of(s) == self.id_of(s),
            self.names.len() <= self.intern(s).names.len() <= self.names.len() + 1,
            forall|t: Seq<char>| #[trigger]
                self.names.contains(t) ==> self.intern(s).lookup(t) == self.lookup(t),
            forall|i: Intern| #[trigger]
                self.resolve(i).is_some() ==> self.intern(s).resolve(i) == self.resolve(i),
    {
        let after = self.intern(s);
        if self.names.contains(s) {
            let j = self.names.index_of(s);
            self.lemma_lookup_at(j);
        } else {
            let n = self.names.len() as int;
            assert(after.names[n] == s);
            assert(after.names.no_duplicates()) by {
                assert forall|a: int, b: int|
                    0 <= a < after.names.len() && 0 <= b < after.names.len() && a
                        != b implies after.names[a] != after.names[b] by {
                    if a < n && b < n {
                        assert(self.names[a] != self.names[b]);
                    } else if a < n {
                        assert(self.names[a] == after.names[a]);
                        assert(self.names.contains(after.names[a]));
                    } else {
                        assert(self.names[b] == after.names[b]);
                        assert(self.names.contains(after.names[b]));
                    }
                }
            }
            after.lemma_lookup_at(n);
            assert forall|t: Seq<char>| #[trigger]
                self.names.contains(t) implies after.lookup(t) == self.lookup(t) by {
                let j = self.names.index_of(t);
                assert(after.names[j] == t);
                after.lemma_lookup_at(j);
            }
        }
    }
}

/// One table of a chain: the names it holds, and the identifier of its first.
pub struct BaseInterns {
    pub base_address: usize,
    pub to_string: Vec<String>,
    pub to_intern: StringHashMap<usize>,
}

impl BaseInterns {
    /// The names of this table, in the order in which they came.
    pub open spec fn names(&self) -> Seq<Seq<char>> {
        Seq::new(self.to_string@.len(), |i: int| self.to_string@[i]@)
    }

    /// The index finds each name at its place, and finds nothing else.
    pub open spec fn wf(&self) -> bool {
        &&& forall|i: int|
            #![trigger self.to_string@[i]]
            0 <= i < self.to_string@.len() ==> self.to_intern@.contains_key(self.to_string@[i]@)
                && self.to_intern@[self.to_string@[i]@] == i
        &&& forall|s: Seq<char>| #[trigger]
            self.to_intern@.contains_key(s) ==> self.to_intern@[s] < self.to_string@.len()
                && self.to_string@[self.to_intern@[s] as int]@ == s
    }

    /// An empty table whose identifiers start at `base_address`.
    pub fn new(base_address: usize) -> (r: BaseInterns)
        ensures
            r.wf(),
            r.base_address == base_address,
            r.names() == Seq::<Seq<char>>::empty(),
    {
        let r = BaseInterns {
            base_address,
            to_string: Vec::new(),
            to_intern: StringHashMap::new(),
        };
        assert(r.names() =~= Seq::<Seq<char>>::empty());
        r
    }
}

/// A chain of tables: this one, and the one it stands on, if any.
pub struct Interns<'proto>(pub Option<&'proto Interns<'proto>>, pub BaseInterns);

impl<'proto> Interns<'proto> {
    /// All names of the chain, the parent's first.
    pub open spec fn names(&self) -> Seq<Seq<char>>
        decreases self,
    {
        match self.0 {
            Some(prior) => prior.names() + self.1.names(),
            None => self.1.names(),
        }
    }

    /// The identifier of the first name of the chain.
    pub open spec fn first(&self) -> usize
        decreases self,
    {
        match self.0 {
            Some(prior) => prior.first(),
            None => self.1.base_address,
        }
    }

    /// Each table of the chain is consistent, each starts where its parent
    /// ends, and the chain as a whole is a well-formed table.
    pub open spec fn wf(&self) -> bool
        decreases self,
    {
        &&& self.1.wf()
        &&& match self.0 {
            Some(prior) => prior.wf() && self.1.base_address == prior@.next_id(),
            None => true,
        }
        &&& self@.wf()
    }

    /// A new table with no parent, whose identifiers start at `base_address`.
    pub fn new(base_address: usize) -> (r: Interns<'static>)
        ensures
            r.wf(),
            r@ == (InternTable { first: base_address, names: Seq::empty() }),
            r.0 is None,
    {
        Interns(None, BaseInterns::new(base_address))
    }

    /// A new empty table that stands on this one. It sees every name of this
    /// chain, and its own names get the identifiers after them.
    pub fn extend(&self) -> (r: Interns<'_>)
        requires
            self.wf(),
        ensures
            r.wf(),
            r@ == self@,
            r.0 == Some(self),
    {
        proof {
            self.lemma_base();
        }
        let r = Interns(Some(self), BaseInterns::new(self.1.base_address + self.1.to_string.len()));
        assert(r.names() =~= self.names());
        r
    }

    /// The last table of the chain starts where the names before it end.
    pub proof fn lemma_base(&self)
        requires
            self.wf(),
        ensures
            self.1.base_address + self.1.to_string@.len() == self@.next_id(),
            self.1.base_address == self.first() + self.names().len() - self.1.names().len(),
    {
    }

    /// The chain stands on nothing and starts at zero, so that its
    /// identifiers are the positions of its names.
    pub open spec fn is_plain(&self) -> bool {
        self.0 is None && self.1.base_address == 0
    }

    /// The chain can take `n` new names: their identifiers fit the machine
    /// word. A plain chain can always take more.
    pub open spec fn has_room_for(&self, n: nat) -> bool {
        self.is_plain() || self@.next_id() + n <= usize::MAX
    }

    /// The identifier of `s`; a new one, recorded in this table, if the chain
    /// does not hold the name yet.
    pub fn intern(&mut self, s: &str) -> (r: Intern)
        requires
            old(self).wf(),
            old(self)@.names.contains(s@) || old(self).has_room_for(1),
        ensures
            final(self).wf(),
            final(self).0 == old(self).0,
            final(self).1.base_address == old(self).1.base_address,
            final(self)@ == old(self)@.intern(s@),
            r == old(self)@.id_of(s@),
            final(self)@.lookup(s@) == Some(r),
            final(self)@.resolve(r) == Some(s@),
            old(self)@.lookup(s@) is Some ==> old(self)@.lookup(s@) == Some(r) && final(self)@
                == old(self)@,
            forall|t: Seq<char>| #[trigger]
                old(self)@.names.contains(t) ==> final(self)@.lookup(t) == old(self)@.lookup(t),
            forall|i: Intern| #[trigger]
                old(self)@.resolve(i).is_some() ==> final(self)@.resolve(i) == old(self)@.resolve(
                    i,
                ),
    {
        proof {
            old(self).lemma_base();
        }
        if let Some(i) = self.to_intern(s) {
            proof {
                old(self)@.lemma_intern(s@);
            }
            return i;
        }
        let ghost before = *self;
        let id = self.1.to_string.len();
        self.1.to_string.push(s.to_owned());
        self.1.to_intern.insert(s.to_owned(), id);
        let grown = self.1.to_string.len();
        proof {
            assert(id < usize::MAX);
            old(self)@.lemma_intern(s@);
            assert(self.1.names() =~= before.1.names().push(s@));
            assert(self.names() =~= before.names().push(s@));
            assert(!before.1.to_intern@.contains_key(s@)) by {
                if before.1.to_intern@.contains_key(s@) {
                    let k = before.1.to_intern@[s@] as int;
                    assert(before.1.names()[k] == s@);
                    assert(before.names()[before.names().len() - before.1.names().len() + k] == s@);
                }
            }
            assert forall|i: int| 0 <= i < self.1.to_string@.len() implies (
            #[trigger] self.1.to_string@[i]).view() != s@ || i == id by {
                if i < id {
                    assert(before.1.to_string@[i] == self.1.to_string@[i]);
                }
            }
            assert(self.1.wf());
        }
        Intern(id + self.1.base_address)
    }

    /// The identifier of `s`, if the chain holds the name.
    pub fn to_intern(&self, s: &str) -> (r: Option<Intern>)
        requires
            self.wf(),
        ensures
            r == self@.lookup(s@),
        decreases self,
    {
        if let Some(prior) = self.0 {
            if let Some(i) = prior.to_intern(s) {
                proof {
                    let j = prior.names().index_of(s@);
                    assert(self.names()[j] == s@);
                    assert(prior.names()[j] == s@);
                    self@.lemma_lookup_at(j);
                }
                return Some(i);
            }
        }
        proof {
            self.lemma_base();
        }
        match self.1.to_intern.get(s) {
            Some(i) => {
                proof {
                    let k = self.names().len() - self.1.names().len() + *i;
                    assert(self.1.names()[*i as int] == s@);
                    assert(self.names()[k] == s@);
                    self@.lemma_lookup_at(k);
                }
                Some(Intern(*i + self.1.base_address))
            },
            None => {
                proof {
                    if self.names().contains(s@) {
                        let j = self.names().index_of(s@);
                        let off = self.names().len() - self.1.names().len();
                        if j >= off {
                            assert(self.1.to_string@[j - off]@ == s@);
                        } else {
                            assert(self.0.unwrap().names()[j] == s@);
                        }
                    }
                }
                None
            },
        }
    }

    /// The name of `i`, if the chain holds the identifier.
    pub fn to_string(&self, i: Intern) -> (r: Option<&str>)
        requires
            self.wf(),
        ensures
            match r {
                Some(s) => self@.resolve(i) == Some(s@),
                None => self@.resolve(i) is None,
            },
        decreases self,
    {
        if let Some(prior) = self.0 {
            if let Some(s) = prior.to_string(i) {
                proof {
                    assert(self.names()[i.0 - self.first()] == s@);
                }
                return Some(s);
            }
        }
        proof {
            self.lemma_base();
        }
        if i.0 < self.1.base_address {
            return None;
        }
        let k = i.0 - self.1.base_address;
        if k < self.1.to_string.len() {
            let s = self.1.to_string[k].as_str();
            proof {
                assert(self.1.names()[k as int] == s@);
                assert(self.names()[i.0 - self.first()] == s@);
            }
            Some(s)
        } else {
            None
        }
    }
}

impl<'proto> View for Interns<'proto> {
    type V = InternTable;

    open spec fn view(&self) -> InternTable {
        InternTable { first: self.first(), names: self.names() }
    }
}

impl Intern {
    /// The integer itself.
    pub fn raw(&self) -> (r: usize)
        ensures
            r == self.0,
    {
        self.0
    }
}

} // verus!
