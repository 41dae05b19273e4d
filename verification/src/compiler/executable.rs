//! Compilation of a whole program into an executable module.

use vstd::prelude::*;
use crate::compiler::grown;
use crate::errors::compiler::{Compiler, Problem};
use crate::interns::{InternTable, Interns};
use crate::irs::ast1::types::{Module, Procedure};
use crate::irs::executable1::{Executable1, FFIProcedure};
use crate::library::Library;
use crate::vm::semantics::{ModuleView, ProcView};

verus! {

/// The state of compiling a program: the interning table, the module so
/// far, and the error that stopped the compilation, if one did.
pub struct Linked {
    pub table: InternTable,
    pub module: ModuleView,
    pub error: Option<Problem>,
}

impl Module {
    /// The state after the first `n` of the procedures `ps` were compiled
    /// and put into the module `m`, each under its functor, a later one in
    /// place of an earlier one of the same functor.
    pub open spec fn linked(ps: Seq<Procedure>, n: int, t: InternTable, m: ModuleView) -> Linked
        decreases n,
    {
        if n <= 0 || n > ps.len() {
            Linked { table: t, module: m, error: None }
        } else {
            let before = Self::linked(ps, n - 1, t, m);
            if before.error is Some {
                before
            } else {
                let table = ps[n - 1].table_after(before.table);
                match ps[n - 1].outcome(before.table) {
                    Err(e) => Linked { table, module: before.module, error: Some(e) },
                    Ok(c) => Linked {
                        table,
                        module: before.module.insert(
                            c.functor,
                            ProcView::Dynamic { functor: c.functor, code: c.code, vars: c.vars },
                        ),
                        error: None,
                    },
                }
            }
        }
    }

    /// No procedure of the program has two arguments that are the same
    /// variable.
    pub open spec fn distinct_args(&self) -> bool {
        forall|i: int|
            0 <= i < self.procedures@.len() ==> Procedure::duplicated(
                (#[trigger] self.procedures@[i]).args@,
                self.procedures@[i].args@.len() as int,
            ) is None
    }

    /// The nodes of the parts are among the nodes of the whole, and parts of
    /// what can be compiled can be compiled.
    pub proof fn lemma_parts(ps: Seq<Procedure>, k: int, n: int)
        requires
            0 <= k < n <= ps.len(),
        ensures
            Self::sizes(ps, k) + ps[k].size() <= Self::sizes(ps, n),
            Self::all_supported(ps, n) ==> ps[k].supported(),
        decreases n,
    {
        if k < n - 1 {
            Self::lemma_parts(ps, k, n - 1);
        }
    }

    /// A failure stops the compilation where it occurs.
    pub proof fn lemma_stopped(ps: Seq<Procedure>, k: int, n: int, t: InternTable, m: ModuleView)
        requires
            1 <= k <= n <= ps.len(),
            Self::linked(ps, k, t, m).error is Some,
        ensures
            Self::linked(ps, n, t, m) == Self::linked(ps, k, t, m),
        decreases n - k,
    {
        if k < n {
            Self::lemma_stopped(ps, k, n - 1, t, m);
        }
    }

    /// Compiles the procedures of the program into `executable`, in their
    /// order. Stops at the first procedure that fails.
    pub fn compile_into(&self, interns: &mut Interns, executable: Executable1) -> (r: Compiler<
        Executable1,
    >)
        requires
            self.supported(),
            old(interns).wf(),
            old(interns).has_room_for(self.size()),
            executable.wf(),
        ensures
            grown(old(interns), final(interns), self.size()),
            final(interns)@ == Self::linked(
                self.procedures@,
                self.procedures@.len() as int,
                old(interns)@,
                executable@,
            ).table,
            match r {
                Ok(done) => {
                    let l = Self::linked(
                        self.procedures@,
                        self.procedures@.len() as int,
                        old(interns)@,
                        executable@,
                    );
                    l.error is None && done@ == l.module && done.wf()
                },
                Err(e) => Self::linked(
                    self.procedures@,
                    self.procedures@.len() as int,
                    old(interns)@,
                    executable@,
                ).error == Some(e@),
            },
            r matches Ok(done) ==> (executable.addressed() ==> done.addressed()),
            3 * self.size() <= usize::MAX && self.distinct_args() ==> r is Ok,
    {
        proof {
            if 3 * self.size() <= usize::MAX && self.distinct_args() {
                Self::law_links(
                    self.procedures@,
                    self.procedures@.len() as int,
                    interns@,
                    executable@,
                );
            }
        }
        let ghost ps = self.procedures@;
        let ghost t0 = interns@;
        let ghost m0 = executable@;
        let mut procedures = executable;
        let mut k: usize = 0;
        while k < self.procedures.len()
            invariant
                k <= self.procedures@.len(),
                ps == self.procedures@,
                t0 == old(interns)@,
                m0 == executable@,
                self.supported(),
                old(interns).has_room_for(self.size()),
                procedures.wf(),
                executable.addressed() ==> procedures.addressed(),
                grown(old(interns), interns, Self::sizes(ps, k as int)),
                Self::linked(ps, k as int, t0, m0) == (Linked {
                    table: interns@,
                    module: procedures@,
                    error: None,
                }),
            decreases self.procedures@.len() - k,
        {
            proof {
                Self::lemma_parts(ps, k as int, ps.len() as int);
            }
            match self.procedures[k].compile(interns) {
                Err(e) => {
                    proof {
                        Self::lemma_stopped(ps, k as int + 1, ps.len() as int, t0, m0);
                    }
                    return Err(e);
                },
                Ok(compiled) => {
                    let functor = compiled.functor;
                    procedures.insert(functor, FFIProcedure::Dynamic(compiled));
                },
            }
            k += 1;
        }
        Ok(procedures)
    }

    /// What compiling the program on top of a library comes to, if the
    /// library has left the table `table` and the procedures `natives`: the
    /// procedures of the program are compiled in their order, with `table`
    /// to start from, and put into `natives`, each in place of what stood
    /// under its functor. The table ends as `after`, and the result is `r`.
    pub open spec fn compiled_onto(
        &self,
        table: InternTable,
        natives: ModuleView,
        after: InternTable,
        r: Compiler<Executable1>,
    ) -> bool {
        let l = Self::linked(self.procedures@, self.procedures@.len() as int, table, natives);
        &&& after == l.table
        &&& match r {
            Ok(done) => l.error is None && done@ == l.module && done.wf(),
            Err(e) => l.error == Some(e@),
        }
    }

    /// Compiles the program: the library registers its native procedures
    /// in an empty module first, then the procedures of the program are
    /// compiled in their order and put into that module. What the library
    /// registers is for the library to say; it keeps the names that the
    /// table held, and adds no more names than it says it may.
    pub fn compile<L: Library>(&self, interns: &mut Interns, library: L) -> (r: Compiler<
        Executable1,
    >)
        requires
            self.supported(),
            old(interns).wf(),
            old(interns).has_room_for(library.names() + self.size()),
        ensures
            grown(old(interns), final(interns), library.names() + self.size()),
            r matches Ok(done) ==> done.wf(),
            3 * self.size() <= usize::MAX && self.distinct_args() ==> r is Ok,
            exists|table: InternTable, natives: ModuleView|
                table.wf() && table.extends(old(interns)@) && table.next_id() <= old(
                    interns,
                )@.next_id() + library.names() && #[trigger] self.compiled_onto(
                    table,
                    natives,
                    final(interns)@,
                    r,
                ),
    {
        let mut procedures = Executable1::new();
        library.add_functions(interns, &mut procedures);
        let ghost table = interns@;
        let ghost natives = procedures@;
        let r = self.compile_into(interns, procedures);
        assert(self.compiled_onto(table, natives, interns@, r));
        r
    }
}

} // verus!
