//! A procedure under construction: instructions with labels, the labels that
//! have an address, and the local variables seen so far.

use vstd::prelude::*;
use std::collections::HashMap;
use crate::errors::compiler::{Compiler, Error};
use crate::interns::{Intern, InternTable, Interns};
use crate::irs::instruction1::{Instruction1, Label};
use crate::irs::instruction2::{Instruction2, Ip};
use crate::irs::procedure2::Procedure2;
use crate::primitive::{Functor, Local};

verus! {

/// What a procedure under construction holds.
pub struct Script {
    pub functor: Functor<Intern>,
    /// The instructions emitted so far.
    pub code: Seq<Instruction1>,
    /// The label that `create_label` gives next.
    pub next_label: usize,
    /// The labels that are anchored, each with its address.
    pub anchors: Map<usize, usize>,
    /// The names of the local slots, the slot of a name being its position.
    pub locals: Seq<Seq<char>>,
}

impl Instruction1 {
    /// The slot that the instruction reads or writes, if it names one.
    pub open spec fn slot(self) -> Option<usize> {
        match self {
            Instruction1::SetVar(l) => Some(l.0),
            Instruction1::SetAssert(l) => Some(l.0),
            Instruction1::Get(l) => Some(l.0),
            _ => None,
        }
    }

    /// The label that the instruction jumps to, if it names one.
    pub open spec fn target(self) -> Option<usize> {
        match self {
            Instruction1::Jump(l) => Some(l.0),
            Instruction1::JumpNo(l) => Some(l.0),
            Instruction1::Mark(l, _) => Some(l.0),
            _ => None,
        }
    }

    /// The instruction with its label replaced by the address `at`.
    pub open spec fn at(self, at: usize) -> Instruction2 {
        match self {
            Instruction1::Push(op) => Instruction2::Push(op),
            Instruction1::SetVar(l) => Instruction2::SetVar(l),
            Instruction1::SetAssert(l) => Instruction2::SetAssert(l),
            Instruction1::Get(l) => Instruction2::Get(l),
            Instruction1::Assert => Instruction2::Assert,
            Instruction1::Jump(_) => Instruction2::Jump(Ip(at)),
            Instruction1::JumpNo(_) => Instruction2::JumpNo(Ip(at)),
            Instruction1::Pop => Instruction2::Pop,
            Instruction1::Ret => Instruction2::Ret,
            Instruction1::Call => Instruction2::Call,
            Instruction1::Mark(_, keep) => Instruction2::Mark(Ip(at), keep),
            Instruction1::Unmark => Instruction2::Unmark,
            Instruction1::DestructCompound(f) => Instruction2::DestructCompound(f),
            Instruction1::DestructVector(n) => Instruction2::DestructVector(n),
            Instruction1::Destruct(n) => Instruction2::Destruct(n),
            Instruction1::ConstructCompound(f) => Instruction2::ConstructCompound(f),
            Instruction1::ConstructVector(n) => Instruction2::ConstructVector(n),
            Instruction1::ConstructSet(n) => Instruction2::ConstructSet(n),
            Instruction1::Equals => Instruction2::Equals,
            Instruction1::EqualsOperandAssert(op) => Instruction2::EqualsOperandAssert(op),
            Instruction1::Mul => Instruction2::Mul,
            Instruction1::Div => Instruction2::Div,
            Instruction1::Add => Instruction2::Add,
            Instruction1::Subtract => Instruction2::Subtract,
            Instruction1::Le => Instruction2::Le,
            Instruction1::Ge => Instruction2::Ge,
            Instruction1::Lt => Instruction2::Lt,
            Instruction1::Gt => Instruction2::Gt,
            Instruction1::Eq => Instruction2::Eq,
            Instruction1::Ne => Instruction2::Ne,
        }
    }

    /// The instruction with its label resolved, or the label that has no
    /// anchor.
    pub open spec fn resolved(self, anchors: Map<usize, usize>) -> Result<Instruction2, Error> {
        match self.target() {
            Some(l) => if anchors.contains_key(l) {
                Ok(self.at(anchors[l]))
            } else {
                Err(Error::NotAnchored(l))
            },
            None => Ok(self.at(0)),
        }
    }
}

impl Script {
    /// The locals as a table of names that starts at zero.
    pub open spec fn table(self) -> InternTable {
        InternTable { first: 0, names: self.locals }
    }

    /// No local name occurs twice, every instruction names a slot that a
    /// local has, and every anchor is the address of an instruction that
    /// is there, or of the next one.
    pub open spec fn wf(self) -> bool {
        &&& self.table().wf()
        &&& forall|i: int|
            0 <= i < self.code.len() ==> match (#[trigger] self.code[i]).slot() {
                Some(l) => l < self.locals.len(),
                None => true,
            }
        &&& forall|l: usize| #[trigger]
            self.anchors.contains_key(l) ==> self.anchors[l] <= self.code.len()
    }

    /// A script for `functor` with nothing in it.
    pub open spec fn empty(functor: Functor<Intern>) -> Script {
        Script {
            functor,
            code: Seq::empty(),
            next_label: 0,
            anchors: Map::empty(),
            locals: Seq::empty(),
        }
    }

    /// The script with one more instruction.
    pub open spec fn push(self, i: Instruction1) -> Script {
        Script { code: self.code.push(i), ..self }
    }

    /// The slot of the local `name`: where it stands, or the next free slot.
    pub open spec fn slot_of(self, name: Seq<char>) -> Local {
        Local(self.table().id_of(name).0)
    }

    /// The script in which `name` is a local.
    pub open spec fn with_local(self, name: Seq<char>) -> Script {
        Script { locals: self.table().intern(name).names, ..self }
    }

    /// The script after a label was created.
    pub open spec fn with_label(self) -> Script {
        Script { next_label: (self.next_label + 1) as usize, ..self }
    }

    /// The script in which the label `l` stands for the next instruction.
    pub open spec fn anchored(self, l: usize) -> Script {
        Script { anchors: self.anchors.insert(l, self.code.len() as usize), ..self }
    }

    /// The first `n` instructions with their labels resolved, or the first
    /// label among them that has no anchor.
    pub open spec fn resolved(self, n: int) -> Result<Seq<Instruction2>, Error>
        decreases n,
    {
        if n <= 0 {
            Ok(Seq::empty())
        } else {
            match self.resolved(n - 1) {
                Err(e) => Err(e),
                Ok(done) => match self.code[n - 1].resolved(self.anchors) {
                    Err(e) => Err(e),
                    Ok(i) => Ok(done.push(i)),
                },
            }
        }
    }

    /// What is resolved of a script is as long as what was to resolve, and
    /// names the slots that the script names.
    pub proof fn lemma_resolved(self, n: int)
        requires
            0 <= n <= self.code.len(),
        ensures
            self.resolved(n) matches Ok(done) ==> done.len() == n && forall|i: int|
                0 <= i < n ==> (#[trigger] done[i]).slot() == self.code[i].slot(),
        decreases n,
    {
        if n > 0 {
            self.lemma_resolved(n - 1);
        }
    }

    /// What is resolved of a well-formed script continues at addresses of
    /// the script only.
    pub proof fn lemma_resolved_addresses(self, n: int)
        requires
            self.wf(),
            0 <= n <= self.code.len(),
        ensures
            self.resolved(n) matches Ok(done) ==> done.len() == n && forall|i: int|
                0 <= i < n ==> match (#[trigger] done[i]).address() {
                    Some(a) => a <= self.code.len(),
                    None => true,
                },
        decreases n,
    {
        if n > 0 {
            self.lemma_resolved_addresses(n - 1);
            match self.code[n - 1].target() {
                Some(l) => {
                    if self.anchors.contains_key(l) {
                        assert(self.anchors[l] <= self.code.len());
                    }
                },
                None => {},
            }
        }
    }
}

/// A procedure under construction.
pub struct Procedure1 {
    functor: Functor<Intern>,
    instructions: Vec<Instruction1>,
    /// The anchors of the labels that were created, by label.
    labels: Vec<Option<usize>>,
    /// The anchors of labels that were anchored and never created.
    stray: HashMap<usize, usize>,
    /// The names of the local slots.
    local_name_to_ix: Interns<'static>,
}

impl View for Procedure1 {
    type V = Script;

    closed spec fn view(&self) -> Script {
        Script {
            functor: self.functor,
            code: self.instructions@,
            next_label: self.labels@.len() as usize,
            anchors: Map::new(
                |l: usize|
                    if l < self.labels@.len() {
                        self.labels@[l as int] is Some
                    } else {
                        self.stray@.contains_key(l)
                    },
                |l: usize|
                    if l < self.labels@.len() {
                        self.labels@[l as int].unwrap()
                    } else {
                        self.stray@[l]
                    },
            ),
            locals: self.local_name_to_ix@.names,
        }
    }
}

impl Procedure1 {
    /// The parts agree with each other, and the script is well formed.
    pub closed spec fn wf(&self) -> bool {
        &&& self.local_name_to_ix.wf()
        &&& self.local_name_to_ix.is_plain()
        &&& self@.wf()
    }

    /// A procedure for `functor` with nothing in it.
    pub fn new(functor: Functor<Intern>) -> (r: Procedure1)
        ensures
            r.wf(),
            r@ == Script::empty(functor),
    {
        let r = Procedure1 {
            functor,
            instructions: Vec::new(),
            labels: Vec::new(),
            stray: HashMap::new(),
            local_name_to_ix: Interns::new(0),
        };
        assert(r@.anchors =~= Map::<usize, usize>::empty());
        r
    }

    /// The names of the local slots: the slot of a name is its position.
    pub fn local_name_to_ix(&self) -> (r: &Vec<String>)
        requires
            self.wf(),
        ensures
            r@.len() == self@.locals.len(),
            forall|i: int| 0 <= i < r@.len() ==> (#[trigger] r@[i])@ == self@.locals[i],
    {
        &self.local_name_to_ix.1.to_string
    }

    /// The slot of the local `s`: the one it has, or a new one if the name
    /// was not seen before.
    pub fn local(&mut self, s: &str) -> (r: Local)
        requires
            old(self).wf(),
        ensures
            final(self).wf(),
            final(self)@ == old(self)@.with_local(s@),
            r == old(self)@.slot_of(s@),
            r.0 < final(self)@.locals.len(),
    {
        proof {
            old(self)@.table().lemma_intern_plain(s@);
        }
        let id = self.local_name_to_ix.intern(s);
        proof {
            assert(self@.anchors =~= old(self)@.anchors);
        }
        Local(id.0)
    }

    /// Appends an instruction. It may name only a slot that a local has.
    pub fn push(&mut self, i: Instruction1)
        requires
            old(self).wf(),
            i.slot() matches Some(l) ==> l < old(self)@.locals.len(),
        ensures
            final(self).wf(),
            final(self)@ == old(self)@.push(i),
    {
        self.instructions.push(i);
        proof {
            assert(self@.anchors =~= old(self)@.anchors);
        }
    }

    /// A label that was not given out before.
    pub fn create_label(&mut self) -> (r: Label)
        requires
            old(self).wf(),
        ensures
            final(self).wf(),
            r == Label(old(self)@.next_label),
            final(self)@ == old(self)@.with_label(),
    {
        let nx = self.labels.len();
        let anchor = match self.stray.get(&nx) {
            Some(ip) => Some(*ip),
            None => None,
        };
        self.labels.push(anchor);
        proof {
            assert(self@.anchors =~= old(self)@.anchors);
        }
        Label(nx)
    }

    /// Lets the label `lix` stand for the address of the next instruction.
    /// A label can be anchored once.
    pub fn anchor_label(&mut self, lix: Label) -> (r: Compiler<()>)
        requires
            old(self).wf(),
        ensures
            final(self).wf(),
            match r {
                Ok(_) => !old(self)@.anchors.contains_key(lix.0) && final(self)@ == old(
                    self,
                )@.anchored(lix.0),
                Err(e) => old(self)@.anchors.contains_key(lix.0) && e == Error::AlreadyAnchored(
                    lix.0,
                ) && final(self)@ == old(self)@,
            },
    {
        let at = self.instructions.len();
        if lix.0 < self.labels.len() {
            match self.labels[lix.0] {
                Some(_) => Err(Error::AlreadyAnchored(lix.0)),
                None => {
                    self.labels[lix.0] = Some(at);
                    proof {
                        assert(self@.anchors =~= old(self)@.anchors.insert(lix.0, at));
                    }
                    Ok(())
                },
            }
        } else {
            if self.stray.contains_key(&lix.0) {
                Err(Error::AlreadyAnchored(lix.0))
            } else {
                self.stray.insert(lix.0, at);
                proof {
                    assert(self@.anchors =~= old(self)@.anchors.insert(lix.0, at));
                }
                Ok(())
            }
        }
    }

    /// The address of the label `l`, if it is anchored.
    fn anchor_of(&self, l: usize) -> (r: Option<usize>)
        ensures
            match r {
                Some(at) => self@.anchors.contains_key(l) && self@.anchors[l] == at,
                None => !self@.anchors.contains_key(l),
            },
    {
        if l < self.labels.len() {
            self.labels[l]
        } else {
            match self.stray.get(&l) {
                Some(at) => Some(*at),
                None => None,
            }
        }
    }

    /// The finished procedure: every label replaced by its address, which
    /// lies in the code or right behind it. Fails with the first label that
    /// has no anchor.
    pub fn compile(self) -> (r: Compiler<Procedure2>)
        requires
            self.wf(),
        ensures
            match r {
                Ok(p) => {
                    &&& self@.resolved(self@.code.len() as int) == Ok::<Seq<Instruction2>, Error>(
                        p.instructions@,
                    )
                    &&& p.functor == self@.functor
                    &&& p.vars == self@.locals.len()
                    &&& p.wf()
                    &&& p.addressed()
                },
                Err(e) => self@.resolved(self@.code.len() as int) == Err::<
                    Seq<Instruction2>,
                    Error,
                >(e),
            },
    {
        let mut is2: Vec<Instruction2> = Vec::new();
        let mut k: usize = 0;
        while k < self.instructions.len()
            invariant
                k <= self.instructions@.len(),
                self@.resolved(k as int) == Ok::<Seq<Instruction2>, Error>(is2@),
            decreases self.instructions@.len() - k,
        {
            let inst = self.instructions[k];
            let target = match inst {
                Instruction1::Jump(l) => Some(l.0),
                Instruction1::JumpNo(l) => Some(l.0),
                Instruction1::Mark(l, _) => Some(l.0),
                _ => None,
            };
            let at = match target {
                Some(l) => match self.anchor_of(l) {
                    Some(at) => at,
                    None => {
                        proof {
                            self@.lemma_unresolved(k as int + 1, self@.code.len() as int);
                        }
                        return Err(Error::NotAnchored(l));
                    },
                },
                None => 0,
            };
            is2.push(Self::with_address(inst, at));
            k += 1;
        }
        proof {
            self@.lemma_resolved(self@.code.len() as int);
            self@.lemma_resolved_addresses(self@.code.len() as int);
        }
        Ok(
            Procedure2 {
                functor: Functor(self.functor.0, self.functor.1),
                vars: self.local_name_to_ix.1.to_string.len(),
                instructions: is2,
            },
        )
    }

    /// The instruction with its label replaced by the address `at`.
    fn with_address(inst: Instruction1, at: usize) -> (r: Instruction2)
        ensures
            r == inst.at(at),
    {
        match inst {
            Instruction1::Push(op) => Instruction2::Push(op),
            Instruction1::SetVar(l) => Instruction2::SetVar(l),
            Instruction1::SetAssert(l) => Instruction2::SetAssert(l),
            Instruction1::Get(l) => Instruction2::Get(l),
            Instruction1::Assert => Instruction2::Assert,
            Instruction1::Jump(_) => Instruction2::Jump(Ip(at)),
            Instruction1::JumpNo(_) => Instruction2::JumpNo(Ip(at)),
            Instruction1::Pop => Instruction2::Pop,
            Instruction1::Ret => Instruction2::Ret,
            Instruction1::Call => Instruction2::Call,
            Instruction1::Mark(_, keep_on_failure) => Instruction2::Mark(Ip(at), keep_on_failure),
            Instruction1::Unmark => Instruction2::Unmark,
            Instruction1::DestructCompound(Functor(f, a)) => Instruction2::DestructCompound(
                Functor(f, a),
            ),
            Instruction1::DestructVector(s) => Instruction2::DestructVector(s),
            Instruction1::Destruct(s) => Instruction2::Destruct(s),
            Instruction1::ConstructCompound(Functor(f, a)) => Instruction2::ConstructCompound(
                Functor(f, a),
            ),
            Instruction1::ConstructVector(s) => Instruction2::ConstructVector(s),
            Instruction1::ConstructSet(s) => Instruction2::ConstructSet(s),
            Instruction1::Equals => Instruction2::Equals,
            Instruction1::EqualsOperandAssert(o) => Instruction2::EqualsOperandAssert(o),
            Instruction1::Mul => Instruction2::Mul,
            Instruction1::Div => Instruction2::Div,
            Instruction1::Add => Instruction2::Add,
            Instruction1::Subtract => Instruction2::Subtract,
            Instruction1::Le => Instruction2::Le,
            Instruction1::Ge => Instruction2::Ge,
            Instruction1::Lt => Instruction2::Lt,
            Instruction1::Gt => Instruction2::Gt,
            Instruction1::Eq => Instruction2::Eq,
            Instruction1::Ne => Instruction2::Ne,
        }
    }
}

impl Script {
    /// Once a label is found without an anchor, the script stays unresolved
    /// however far one reads on.
    pub proof fn lemma_unresolved(self, k: int, n: int)
        requires
            1 <= k <= n,
            self.resolved(k) is Err,
        ensures
            self.resolved(n) == self.resolved(k),
        decreases n - k,
    {
        if k < n {
            self.lemma_unresolved(k, n - 1);
        }
    }
}

} // verus!
