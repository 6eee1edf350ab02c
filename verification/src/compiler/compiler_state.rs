//! The compiler's lexical-scope state: a table of at most 256 locals in
//! declaration order, each with the scope depth it was declared at, plus
//! the current depth. A local's table position is its stack slot at run
//! time. A depth of `None` marks a local that is declared but not yet
//! initialized: visible for redeclaration checks, not yet usable.

use crate::scanner::Token;
use vstd::prelude::*;

verus! {

/// One local variable: the token that named it, and the depth of the
/// scope it belongs to (`None` until its initializer completes).
#[derive(Debug)]
pub struct Local {
    pub name: Token,
    pub depth: Option<usize>,
}

/// The scope state of one compilation.
#[derive(Debug)]
pub struct Compiler {
    pub scope_depth: usize,
    pub locals: Vec<Local>,
}

/// Whether the local at `i` belongs to the scope at depth `sd` or deeper:
/// its depth is at least `sd`, or it is still uninitialized (an
/// uninitialized local always belongs to the innermost open scope).
pub open spec fn local_in_scope(locals: Seq<Local>, i: int, sd: usize) -> bool {
    match locals[i].depth {
        Some(d) => d >= sd,
        None => true,
    }
}

/// Whether some local at depth `sd` or deeper has this name.
pub open spec fn has_conflict(locals: Seq<Local>, sd: usize, name: Seq<char>) -> bool {
    exists|i: int|
        0 <= i < locals.len() && local_in_scope(locals, i, sd) && #[trigger] locals[i].name.lexeme@
            == name
}

/// Whether the local at `i` has this name.
pub open spec fn name_matches(locals: Seq<Local>, i: int, name: Seq<char>) -> bool {
    locals[i].name.lexeme@ == name
}

/// What resolving `name` finds: the innermost (highest) local with that
/// name, as its table position and whether it is initialized; `None`
/// when no local has the name.
pub open spec fn spec_resolve(locals: Seq<Local>, name: Seq<char>) -> Option<(int, bool)> {
    if exists|j: int| 0 <= j < locals.len() && name_matches(locals, j, name) {
        let j = choose|j: int|
            0 <= j < locals.len() && name_matches(locals, j, name) && (forall|l: int|
                j < l < locals.len() ==> !name_matches(locals, l, name));
        Some((j, locals[j].depth is Some))
    } else {
        None
    }
}

impl Compiler {
    /// Well-formed: at most 256 locals; initialized depths never exceed
    /// the current depth and never decrease along the table.
    pub open spec fn wf(&self) -> bool {
        &&& self.locals@.len() <= 256
        &&& forall|i: int|
            0 <= i < self.locals@.len() - 1 ==> #[trigger] self.locals@[i].depth is Some
        &&& forall|i: int|
            0 <= i < self.locals@.len() ==> match #[trigger] self.locals@[i].depth {
                Some(d) => d <= self.scope_depth,
                None => true,
            }
        &&& forall|i: int, j: int|
            0 <= i < j < self.locals@.len() ==> match (
                #[trigger] self.locals@[i].depth,
                #[trigger] self.locals@[j].depth,
            ) {
                (Some(di), Some(dj)) => di <= dj,
                _ => true,
            }
    }

    /// A fresh compiler at the top level, with no locals.
    pub fn new() -> (r: Compiler)
        ensures
            r.wf(),
            r.scope_depth == 0,
            r.locals@.len() == 0,
    {
        Compiler { scope_depth: 0, locals: Vec::new() }
    }

    /// How many locals the table holds.
    pub fn local_count(&self) -> (r: usize)
        ensures
            r == self.locals@.len(),
    {
        self.locals.len()
    }

    /// The local at table position `i`, if there is one.
    pub fn local(&self, i: usize) -> (r: Option<&Local>)
        ensures
            i < self.locals@.len() ==> r == Some(&self.locals@[i as int]),
            i >= self.locals@.len() ==> r is None,
    {
        if i < self.locals.len() {
            Some(&self.locals[i])
        } else {
            None
        }
    }

    /// Open a new scope.
    pub fn begin_scope(&mut self)
        requires
            old(self).wf(),
        ensures
            final(self).wf(),
            final(self).locals@ == old(self).locals@,
            old(self).scope_depth < usize::MAX ==> final(self).scope_depth == old(self).scope_depth + 1,
    {
        if self.scope_depth < usize::MAX {
            self.scope_depth += 1;
        }
    }

    /// Close the innermost scope: drop the trailing locals that belonged
    /// to it and return how many were dropped. The emitter turns that
    /// count into as many `Pop` instructions, so the popped stack slots
    /// are exactly the locals the closed scope had added.
    pub fn end_scope(&mut self) -> (r: usize)
        requires
            old(self).wf(),
            old(self).scope_depth > 0,
        ensures
            final(self).wf(),
            final(self).scope_depth == old(self).scope_depth - 1,
            r <= old(self).locals@.len(),
            final(self).locals@ == old(self).locals@.subrange(
                0,
                old(self).locals@.len() - r as int,
            ),
            forall|i: int|
                0 <= i < final(self).locals@.len() ==> !local_in_scope(
                    old(self).locals@,
                    i,
                    old(self).scope_depth,
                ),
            forall|i: int|
                final(self).locals@.len() <= i < old(self).locals@.len() ==> local_in_scope(
                    old(self).locals@,
                    i,
                    old(self).scope_depth,
                ),
    {
        self.scope_depth -= 1;
        let mut count: usize = 0;
        loop
            invariant
                old(self).wf(),
                self.scope_depth == old(self).scope_depth - 1,
                count <= old(self).locals@.len(),
                self.locals@ == old(self).locals@.subrange(
                    0,
                    old(self).locals@.len() - count as int,
                ),
                forall|i: int|
                    self.locals@.len() <= i < old(self).locals@.len() ==> local_in_scope(
                        old(self).locals@,
                        i,
                        old(self).scope_depth,
                    ),
            ensures
                old(self).wf(),
                self.scope_depth == old(self).scope_depth - 1,
                count <= old(self).locals@.len(),
                self.locals@ == old(self).locals@.subrange(
                    0,
                    old(self).locals@.len() - count as int,
                ),
                forall|i: int|
                    self.locals@.len() <= i < old(self).locals@.len() ==> local_in_scope(
                        old(self).locals@,
                        i,
                        old(self).scope_depth,
                    ),
                self.locals@.len() == 0 || (self.locals@.last().depth matches Some(d) && d
                    <= self.scope_depth),
            decreases self.locals@.len(),
        {
            let n = self.locals.len();
            if n == 0 {
                break ;
            }
            let above = match self.locals[n - 1].depth {
                Some(d) => d > self.scope_depth,
                None => true,
            };
            if !above {
                break ;
            }
            self.locals.pop();
            count += 1;
            proof {
                assert(self.locals@ =~= old(self).locals@.subrange(
                    0,
                    old(self).locals@.len() - count as int,
                ));
            }
        }
        proof {
            assert forall|i: int| 0 <= i < self.locals@.len() implies !local_in_scope(
                old(self).locals@,
                i,
                old(self).scope_depth,
            ) by {
                let last = self.locals@.len() - 1;
                assert(old(self).locals@[last] == self.locals@[last]);
                match old(self).locals@[i].depth {
                    Some(d) => {},
                    None => {
                        assert(match (old(self).locals@[i].depth, old(self).locals@[last].depth) {
                            (Some(di), Some(dj)) => di <= dj,
                            _ => true,
                        });
                    },
                }
            }
        }
        count
    }

    /// Declare a local named by `name` in the current scope, still
    /// uninitialized. Fails when the table is full, or when the current
    /// scope already has a local with this name. Any earlier declaration
    /// must have been completed with `mark_initialized` first.
    pub fn add_local(&mut self, name: &Token) -> (r: Result<(), &'static str>)
        requires
            old(self).wf(),
            old(self).locals@.len() == 0 || old(self).locals@.last().depth is Some,
        ensures
            final(self).wf(),
            final(self).scope_depth == old(self).scope_depth,
            r matches Ok(()) ==> old(self).locals@.len() < 256 && !has_conflict(
                old(self).locals@,
                old(self).scope_depth,
                name.lexeme@,
            ) && final(self).locals@.len() == old(self).locals@.len() + 1 && final(self).locals@.subrange(0, old(self).locals@.len() as int) == old(self).locals@ && final(self).locals@.last().name.lexeme@ == name.lexeme@ && final(self).locals@.last().depth
                is None,
            r matches Err(e) ==> final(self).locals@ == old(self).locals@,
            old(self).locals@.len() == 256 ==> (r matches Err(e) && e@
                == "Too many local variables in function."@),
            old(self).locals@.len() < 256 && has_conflict(
                old(self).locals@,
                old(self).scope_depth,
                name.lexeme@,
            ) ==> (r matches Err(e) && e@ == "Already a variable with this name in this scope."@),
            old(self).locals@.len() < 256 && !has_conflict(
                old(self).locals@,
                old(self).scope_depth,
                name.lexeme@,
            ) ==> r is Ok,
    {
        if self.locals.len() == 256 {
            return Err("Too many local variables in function.");
        }
        let n = self.locals.len();
        let mut i: usize = 0;
        while i < n
            invariant
                self == old(self),
                self.wf(),
                n == self.locals@.len(),
                n < 256,
                i <= n,
                forall|k: int|
                    0 <= k < i ==> !(local_in_scope(self.locals@, k, self.scope_depth)
                        && #[trigger] self.locals@[k].name.lexeme@ == name.lexeme@),
            decreases n - i,
        {
            let in_scope = match self.locals[i].depth {
                Some(d) => d >= self.scope_depth,
                None => true,
            };
            if in_scope && self.locals[i].name.lexeme == name.lexeme {
                return Err("Already a variable with this name in this scope.");
            }
            i += 1;
        }
        let ghost pre = self.locals@;
        self.locals.push(Local { name: name.duplicate(), depth: None });
        proof {
            assert(self.locals@.subrange(0, pre.len() as int) =~= pre);
        }
        Ok(())
    }

    /// Mark the most recently declared local as initialized, placing it
    /// at the current depth. Without any local this does nothing.
    pub fn mark_initialized(&mut self)
        requires
            old(self).wf(),
        ensures
            final(self).wf(),
            final(self).scope_depth == old(self).scope_depth,
            old(self).locals@.len() == 0 ==> final(self).locals@ == old(self).locals@,
            old(self).locals@.len() > 0 ==> final(self).locals@ == old(self).locals@.update(
                old(self).locals@.len() - 1,
                Local {
                    name: old(self).locals@.last().name,
                    depth: Some(old(self).scope_depth),
                },
            ),
    {
        let n = self.locals.len();
        if n > 0 {
            let depth = self.scope_depth;
            self.locals[n - 1].depth = Some(depth);
            proof {
                assert(self.locals@ =~= old(self).locals@.update(
                    old(self).locals@.len() - 1,
                    Local {
                        name: old(self).locals@.last().name,
                        depth: Some(old(self).scope_depth),
                    },
                ));
            }
        }
    }

    /// Find the innermost local with this name: its stack slot (its table
    /// position) and whether it is initialized. `None` when no local has
    /// the name, so the name must be a global.
    pub fn resolve_local(&self, name: &Token) -> (r: Option<(u8, bool)>)
        requires
            self.wf(),
        ensures
            match r {
                Some((slot, initialized)) => spec_resolve(self.locals@, name.lexeme@) == Some(
                    (slot as int, initialized),
                ) && (slot as int) < self.locals@.len() && name_matches(
                    self.locals@,
                    slot as int,
                    name.lexeme@,
                ) && (forall|j: int|
                    slot < j < self.locals@.len() ==> !name_matches(self.locals@, j, name.lexeme@))
                    && initialized == self.locals@[slot as int].depth is Some,
                None => spec_resolve(self.locals@, name.lexeme@) is None && (forall|j: int|
                    0 <= j < self.locals@.len() ==> !name_matches(self.locals@, j, name.lexeme@)),
            },
    {
        let mut i: usize = self.locals.len();
        while i > 0
            invariant
                self.wf(),
                i <= self.locals@.len(),
                forall|j: int|
                    i <= j < self.locals@.len() ==> !name_matches(self.locals@, j, name.lexeme@),
            decreases i,
        {
            i -= 1;
            if self.locals[i].name.lexeme == name.lexeme {
                proof {
                    assert(name_matches(self.locals@, i as int, name.lexeme@) && (forall|l: int|
                        i < l < self.locals@.len() ==> !name_matches(
                            self.locals@,
                            l,
                            name.lexeme@,
                        )));
                    assert(exists|j: int|
                        0 <= j < self.locals@.len() && name_matches(self.locals@, j, name.lexeme@)
                            && (forall|l: int|
                            j < l < self.locals@.len() ==> !name_matches(
                                self.locals@,
                                l,
                                name.lexeme@,
                            )));
                    let j = choose|j: int|
                        0 <= j < self.locals@.len() && name_matches(self.locals@, j, name.lexeme@)
                            && (forall|l: int|
                            j < l < self.locals@.len() ==> !name_matches(
                                self.locals@,
                                l,
                                name.lexeme@,
                            ));
                    if j < i as int {
                        assert(name_matches(self.locals@, i as int, name.lexeme@));
                    } else if (i as int) < j {
                        assert(!name_matches(self.locals@, j, name.lexeme@));
                    }
                }
                return Some((i as u8, self.locals[i].depth.is_some()));
            }
        }
        None
    }
}

} // verus!
