//! The scoped symbol table: a chain of name-to-declaration tables with
//! standard lexical shadowing.  A scope is pushed entering a block and popped
//! (its parent restored) leaving it.

use crate::ir::Id;
use crate::lexer::WordBase;
use crate::types::TypeBase;
use vstd::prelude::*;

verus! {

broadcast use vstd::std_specs::vec::axiom_spec_len;

/// One scope: its own declarations plus its parent scope, if any.
#[derive(Debug)]
pub struct Env {
    /// Declarations of this scope, in declaration order; a later entry for
    /// the same name shadows an earlier one.
    pub table: Vec<(WordBase, Id)>,
    /// The enclosing scope.
    pub prev: Option<Box<Env>>,
}

/// Lookup within one scope's table: the most recent entry for `name`, if any.
pub open spec fn table_lookup(s: Seq<(WordBase, Id)>, name: Seq<char>) -> Option<Id>
    decreases s.len(),
{
    if s.len() == 0 {
        None
    } else if s.last().0.lexeme@ == name {
        Some(s.last().1)
    } else {
        table_lookup(s.drop_last(), name)
    }
}

/// Lookup along the scope chain: the innermost scope first, then each parent
/// in turn — standard lexical shadowing.
pub open spec fn env_lookup(e: Env, name: Seq<char>) -> Option<Id>
    decreases e,
{
    match table_lookup(e.table@, name) {
        Some(i) => Some(i),
        None => match e.prev {
            Some(p) => env_lookup(*p, name),
            None => None,
        },
    }
}

impl Env {
    /// A fresh scope whose parent is `n`.
    pub fn new(n: Option<Box<Env>>) -> (e: Env)
        ensures
            e.table@ == Seq::<(WordBase, Id)>::empty(),
            e.prev == n,
    {
        let e = Env { table: Vec::new(), prev: n };
        proof {
            assert(e.table@ =~= Seq::<(WordBase, Id)>::empty());
        }
        e
    }

    /// Inserts a declaration into the innermost scope.  A later `put` for the
    /// same name shadows the earlier one.
    pub fn put(&mut self, w: WordBase, i: Id)
        ensures
            final(self).table@ == old(self).table@.push((w, i)),
            final(self).prev == old(self).prev,
            env_lookup(*final(self), w.lexeme@) == Some(i),
    {
        let ghost lex = w.lexeme@;
        let ghost entry = (w, i);
        self.table.push((w, i));
        proof {
            assert(self.table@.last() == entry);
        }
    }

    /// Looks a name up: the innermost scope first, then each parent in turn,
    /// returning the first match or `None`.
    pub fn get(&self, w: &WordBase) -> (r: Option<Id>)
        ensures
            r == env_lookup(*self, w.lexeme@),
        decreases *self,
    {
        let mut i = self.table.len();
        proof {
            assert(self.table@.take(i as int) =~= self.table@);
        }
        while i > 0
            invariant
                i <= self.table.len(),
                table_lookup(self.table@, w.lexeme@) == table_lookup(
                    self.table@.take(i as int),
                    w.lexeme@,
                ),
            decreases i,
        {
            i = i - 1;
            let ghost before = self.table@.take(i + 1);
            proof {
                assert(before.last() == self.table@[i as int]);
                assert(before.drop_last() =~= self.table@.take(i as int));
            }
            if self.table[i].0.lexeme == w.lexeme {
                return Some(self.table[i].1.clone());
            }
        }
        proof {
            assert(self.table@.take(0) =~= Seq::<(WordBase, Id)>::empty());
        }
        match &self.prev {
            Some(p) => p.get(w),
            None => None,
        }
    }
}

/// Declares `w` with type `p` in the innermost scope, with `used` bytes of
/// frame already reserved by earlier declarations in the same scope chain.
///
/// The variable's own slot is reserved first and the offset recorded is the
/// running total after that reservation: declaring `int a; float b;` from an
/// empty frame records offset 4 for `a` and offset 12 for `b`.
pub fn declare(env: &mut Env, used: u32, w: WordBase, p: TypeBase) -> (new_used: u32)
    requires
        used + p.width <= u32::MAX,
    ensures
        new_used == used + p.width,
        final(env).table@ == old(env).table@.push(
            (w, Id { word: w, type_: p, offset: (used + p.width) as u32 }),
        ),
        final(env).prev == old(env).prev,
        env_lookup(*final(env), w.lexeme@) == Some(
            Id { word: w, type_: p, offset: (used + p.width) as u32 },
        ),
{
    let new_used = used + p.get_width();
    let id = Id::new(w.clone(), p, new_used);
    env.put(w, id);
    new_used
}

} // verus!
