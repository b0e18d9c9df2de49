//! The translation driver: a recursive-descent parser that builds expression
//! and statement trees from tokens, resolving names through the scoped symbol
//! table, checking types through the node constructors, tracking the
//! enclosing-loop context for `break`, and assigning frame offsets to
//! declarations.
//!
//! Parsing is fail-fast: the first error ends the run, surfaced as a typed
//! [`Error`].  Loop forward-reference is modelled by a parser-held
//! loop-context stack: a placeholder id is pushed entering a loop body and
//! popped leaving it, and a `break` stores the innermost id — resolved to a
//! label only at generation time, through the `break_target` parameter of
//! statement generation.

use crate::emit::labels_distinct;
use crate::emit::Instr;
use crate::emit::InstrSpec;
use crate::error::Error;
use crate::emit::targets_closed;
use crate::ir::assign_compatible;
use crate::ir::breaks_enclosed;
use crate::ir::constant_false;
use crate::ir::constant_true;
use crate::ir::is_false_const;
use crate::ir::is_true_const;
use crate::ir::leftmost_leaf;
use crate::ir::type_spec;
use crate::ir::Id;
use crate::ir::program_spec;
use crate::ir::translate;
use crate::ir::Expr;
use crate::ir::Stmt;
use crate::ir::wf_expr;
use crate::ir::wf_stmt;
use crate::lexer::renderable;
use crate::lexer::reserved_table;
use crate::lexer::scan_fails;
use crate::lexer::scan_post;
use crate::lexer::tag_of;
use crate::lexer::token_text;
use crate::lexer::word_minus;
use crate::lexer::Lexer;
use crate::lexer::Tag;
use crate::lexer::Token;
use crate::lexer::Word;
use crate::symbols::declare;
use crate::symbols::env_lookup;
use crate::symbols::Env;
use crate::types::canonical;
use crate::types::type_float;
use crate::types::type_int;
use crate::types::Type;
use crate::types::TypeBase;
use vstd::prelude::*;

verus! {

broadcast use vstd::std_specs::vec::axiom_spec_len;

/// The driver's state: the scanner, one lookahead token, the current (top)
/// scope, the enclosing-loop stack, and the running frame-offset sum.
#[derive(Debug)]
pub struct Parser {
    /// The token source.
    pub lex: Lexer,
    /// The lookahead token.
    pub look: Token,
    /// The current innermost scope, `None` outside every block.
    pub top: Option<Box<Env>>,
    /// Placeholder ids of the loops enclosing the current parse position,
    /// innermost last.
    pub loops: Vec<u32>,
    /// The next loop placeholder id.
    pub next_loop: u32,
    /// Bytes of frame reserved by the declarations parsed so far.
    pub used: u32,
}

impl Parser {
    /// The scanner is within bounds and the lookahead is renderable or end of
    /// input.
    pub open spec fn wf(self) -> bool {
        self.lex.wf() && (renderable(self.look) || self.look is Eof)
    }
}

/// The parser's termination measure: unconsumed input plus one for a pending
/// lookahead token.
pub open spec fn fuel(p: Parser) -> int {
    p.lex.input.len() - p.lex.pos + if p.look is Eof {
        0int
    } else {
        1int
    }
}

/// Lookup of a name through the whole scope chain; `None` outside every
/// block.
pub open spec fn scope_lookup(top: Option<Box<Env>>, name: Seq<char>) -> Option<Id> {
    match top {
        Some(e) => env_lookup(*e, name),
        None => None,
    }
}

/// The parse-context fields an expression parse leaves untouched.
pub open spec fn keeps_ctx(p: Parser, q: Parser) -> bool {
    q.top == p.top && q.loops@ == p.loops@ && q.used == p.used && q.next_loop == p.next_loop
}

impl Parser {
    /// A parser over `l`, with the first token scanned into the lookahead.
    pub fn new(l: Lexer) -> (r: Result<Parser, Error>)
        requires
            l.wf(),
        ensures
            r is Err <==> scan_fails(l),
            match r {
                Ok(p) => p.wf() && p.lex.input == l.input && p.top is None && p.loops@.len() == 0
                    && scan_post(l, p.lex, Ok(p.look)),
                Err(e) => e is Lexical,
            },
    {
        let mut lex = l;
        match lex.scan() {
            Ok(t) => Ok(
                Parser { lex, look: t, top: None, loops: Vec::new(), next_loop: 1, used: 0 },
            ),
            Err(e) => Err(e),
        }
    }

    /// Advances the lookahead by one token.
    fn move_(&mut self) -> (r: Result<(), Error>)
        requires
            old(self).wf(),
            !(old(self).look is Eof),
        ensures
            final(self).wf(),
            final(self).lex.input == old(self).lex.input,
            fuel(*final(self)) <= fuel(*old(self)),
            keeps_ctx(*old(self), *final(self)),
            final(self).lex.line_num >= old(self).lex.line_num,
            r is Ok ==> fuel(*final(self)) < fuel(*old(self)),
            r matches Err(e) ==> e is Lexical,
            r is Err <==> scan_fails(old(self).lex),
            r is Ok ==> scan_post(old(self).lex, final(self).lex, Ok(final(self).look)),
    {
        match self.lex.scan() {
            Ok(t) => {
                self.look = t;
                Ok(())
            },
            Err(e) => Err(e),
        }
    }

    /// `true` when the lookahead's tag is `t`.
    fn look_tag_is(&self, t: u32) -> (r: bool)
        ensures
            r == (tag_of(self.look) == Some(t)),
    {
        match self.look.get_tag() {
            Some(tag) => tag == t,
            None => false,
        }
    }

    /// Consumes the lookahead if its tag is `t`; otherwise a syntax error
    /// carrying the offending lexeme.
    fn match_(&mut self, t: u32) -> (r: Result<(), Error>)
        requires
            old(self).wf(),
        ensures
            final(self).wf(),
            final(self).lex.input == old(self).lex.input,
            fuel(*final(self)) <= fuel(*old(self)),
            keeps_ctx(*old(self), *final(self)),
            r is Ok ==> tag_of(old(self).look) == Some(t) && fuel(*final(self)) < fuel(
                *old(self),
            ),
            tag_of(old(self).look) == Some(t) ==> (r matches Err(e) ==> e is Lexical),
            tag_of(old(self).look) != Some(t) ==> *final(self) == *old(self),
            tag_of(old(self).look) != Some(t) && !(old(self).look is Eof) ==> (r matches Err(e)
                && e matches Error::Syntax(ln, m) && ln == old(self).lex.line_num && m@
                == token_text(old(self).look)),
            old(self).look is Eof ==> (r matches Err(e) && e matches Error::Syntax(ln, _) && ln
                == old(self).lex.line_num),
            tag_of(old(self).look) == Some(t) ==> (r is Err <==> scan_fails(old(self).lex)),
            tag_of(old(self).look) == Some(t) && r is Ok ==> scan_post(
                old(self).lex,
                final(self).lex,
                Ok(final(self).look),
            ),
    {
        match self.look.get_tag() {
            Some(tag) => {
                if tag == t {
                    self.move_()
                } else {
                    Err(Error::Syntax(self.lex.line_num, self.look.to_string()))
                }
            },
            None => Err(Error::Syntax(self.lex.line_num, "unexpected end of input".to_owned())),
        }
    }

    /// Parses a whole program — one block — and translates it: the begin
    /// label is emitted first, the top-level statement generates between the
    /// begin and after labels, and the after label closes the stream.
    pub fn program(&mut self) -> (r: Result<Vec<Instr>, Error>)
        requires
            old(self).wf(),
        ensures
            final(self).wf(),
            match r {
                Ok(code) => code@.len() >= 2 && code.deep_view().first() == InstrSpec::Label(1)
                    && code.deep_view().last() == InstrSpec::Label(2) && labels_distinct(
                    code.deep_view(),
                ) && (old(self).loops@.len() == 0 ==> targets_closed(
                    code.deep_view(),
                    Set::<int>::empty(),
                )) && (exists|s: Stmt|
                    wf_stmt(s) && code.deep_view() == #[trigger] program_spec(s)),
                Err(_) => true,
            },
        decreases fuel(*old(self)), 20int,
    {
        let s = match self.block() {
            Ok(s) => s,
            Err(e) => {
                return Err(e);
            },
        };
        match translate(&s) {
            Some(code) => {
                proof {
                    assert(code.deep_view().len() >= 2);
                    assert(code.deep_view().first() == InstrSpec::Label(1));
                    assert(code.deep_view().last() == InstrSpec::Label(2));
                    assert(wf_stmt(s) && code.deep_view() == program_spec(s));
                }
                Ok(code)
            },
            None => Err(Error::Syntax(self.lex.line_num, "program too large".to_owned())),
        }
    }

    /// Parses `{ decls stmts }`, pushing a scope on entry and restoring the
    /// parent on exit.
    fn block(&mut self) -> (r: Result<Stmt, Error>)
        requires
            old(self).wf(),
        ensures
            final(self).wf(),
            final(self).lex.input == old(self).lex.input,
            fuel(*final(self)) <= fuel(*old(self)),
            r is Ok ==> fuel(*final(self)) < fuel(*old(self)) && final(self).top == old(self).top
                && final(self).loops@ == old(self).loops@,
            r matches Ok(s) ==> wf_stmt(s) && (old(self).loops@.len() == 0 ==> breaks_enclosed(s)),
            tag_of(old(self).look) != Some('{' as u32) ==> r is Err,
        decreases fuel(*old(self)), 19int,
    {
        match self.match_('{' as u32) {
            Ok(()) => {},
            Err(e) => {
                return Err(e);
            },
        }
        self.block_rest()
    }

    /// The remainder of a block after its `{`: declarations, statements, and
    /// the closing `}`.
    fn block_rest(&mut self) -> (r: Result<Stmt, Error>)
        requires
            old(self).wf(),
        ensures
            final(self).wf(),
            final(self).lex.input == old(self).lex.input,
            fuel(*final(self)) <= fuel(*old(self)),
            r is Ok ==> fuel(*final(self)) < fuel(*old(self)) && final(self).top == old(self).top
                && final(self).loops@ == old(self).loops@,
            r matches Ok(s) ==> wf_stmt(s) && (old(self).loops@.len() == 0 ==> breaks_enclosed(s)),
        decreases fuel(*old(self)), 18int,
    {
        let outer = self.top.take();
        self.top = Some(Box::new(Env::new(outer)));
        match self.decls() {
            Ok(()) => {},
            Err(e) => {
                return Err(e);
            },
        }
        let s = match self.stmts() {
            Ok(s) => s,
            Err(e) => {
                return Err(e);
            },
        };
        match self.match_('}' as u32) {
            Ok(()) => {},
            Err(e) => {
                return Err(e);
            },
        }
        let inner = match self.top.take() {
            Some(env) => env,
            None => {
                return Err(Error::Syntax(self.lex.line_num, "no open scope".to_owned()));
            },
        };
        self.top = inner.prev;
        Ok(s)
    }

    /// Parses the declarations `type id ;`* at a block's head, entering each
    /// into the innermost scope.  A declaration reserves its own slot first
    /// and records the running total as its offset.
    fn decls(&mut self) -> (r: Result<(), Error>)
        requires
            old(self).wf(),
            old(self).top is Some,
        ensures
            final(self).wf(),
            final(self).lex.input == old(self).lex.input,
            fuel(*final(self)) <= fuel(*old(self)),
            final(self).loops@ == old(self).loops@,
            final(self).next_loop == old(self).next_loop,
            final(self).top is Some,
            r is Ok ==> final(self).top.unwrap().prev == old(self).top.unwrap().prev,
            tag_of(old(self).look) != Some(Tag::Basic.code_spec()) ==> r is Ok && *final(self)
                == *old(self),
        decreases fuel(*old(self)), 17int,
    {
        if !self.look_tag_is(Tag::Basic.code()) {
            return Ok(());
        }
        loop
            invariant
                self.wf(),
                self.lex.input == old(self).lex.input,
                fuel(*self) <= fuel(*old(self)),
                self.loops@ == old(self).loops@,
                self.next_loop == old(self).next_loop,
                self.top is Some,
                self.top.unwrap().prev == old(self).top.unwrap().prev,
                tag_of(old(self).look) == Some(Tag::Basic.code_spec()),
            ensures
                self.wf(),
                self.lex.input == old(self).lex.input,
                fuel(*self) <= fuel(*old(self)),
                self.loops@ == old(self).loops@,
                self.next_loop == old(self).next_loop,
                self.top is Some,
                self.top.unwrap().prev == old(self).top.unwrap().prev,
            decreases fuel(*self),
        {
            if !self.look_tag_is(Tag::Basic.code()) {
                break;
            }
            let p = match self.type_() {
                Ok(p) => p,
                Err(e) => {
                    return Err(e);
                },
            };
            let line = self.lex.line_num;
            let tok = self.look.clone();
            match self.match_(Tag::Id.code()) {
                Ok(()) => {},
                Err(e) => {
                    return Err(e);
                },
            }
            match self.match_(';' as u32) {
                Ok(()) => {},
                Err(e) => {
                    return Err(e);
                },
            }
            let w = match tok {
                Token::Word(Word::Word(base)) => base,
                _ => {
                    return Err(Error::Syntax(line, "identifier expected".to_owned()));
                },
            };
            let width = p.get_width();
            match self.used.checked_add(width) {
                Some(_) => {},
                None => {
                    return Err(Error::Syntax(line, w.lexeme));
                },
            }
            let mut env = match self.top.take() {
                Some(env) => env,
                None => {
                    return Err(Error::Syntax(line, "no open scope".to_owned()));
                },
            };
            let new_used = declare(&mut *env, self.used, w, p);
            self.top = Some(env);
            self.used = new_used;
        }
        Ok(())
    }

    /// Parses a basic-type name.
    fn type_(&mut self) -> (r: Result<TypeBase, Error>)
        requires
            old(self).wf(),
        ensures
            final(self).wf(),
            final(self).lex.input == old(self).lex.input,
            fuel(*final(self)) <= fuel(*old(self)),
            keeps_ctx(*old(self), *final(self)),
            r is Ok ==> fuel(*final(self)) < fuel(*old(self)),
            old(self).look matches Token::Word(Word::Type(t)) ==> (match r {
                Ok(p) => p == t,
                Err(er) => er is Lexical,
            }),
            old(self).look matches Token::Word(Word::Word(wb)) ==> (r matches Err(er)
                && er matches Error::Syntax(ln, m) && ln == old(self).lex.line_num && m@
                == wb.lexeme@),
            !(old(self).look is Word) ==> (r matches Err(er) && er is Syntax),
        decreases fuel(*old(self)), 16int,
    {
        let p = match &self.look {
            Token::Word(w) => match w {
                Word::Type(t) => *t,
                Word::Word(wb) => {
                    return Err(Error::Syntax(self.lex.line_num, wb.lexeme.clone()));
                },
            },
            _ => {
                return Err(Error::Syntax(self.lex.line_num, "type expected".to_owned()));
            },
        };
        match self.match_(Tag::Basic.code()) {
            Ok(()) => Ok(p),
            Err(e) => Err(e),
        }
    }

    /// Parses the statements of a block, as a right-nested sequence ending in
    /// the empty statement at the closing `}`.
    fn stmts(&mut self) -> (r: Result<Stmt, Error>)
        requires
            old(self).wf(),
            old(self).top is Some,
        ensures
            final(self).wf(),
            final(self).lex.input == old(self).lex.input,
            fuel(*final(self)) <= fuel(*old(self)),
            r is Ok ==> final(self).top == old(self).top && final(self).loops@ == old(
                self,
            ).loops@,
            r matches Ok(s) ==> wf_stmt(s) && (old(self).loops@.len() == 0 ==> breaks_enclosed(s)),
            tag_of(old(self).look) == Some('}' as u32) ==> (r matches Ok(s) && s == Stmt::Null
                && *final(self) == *old(self)),
            r matches Ok(s) ==> (tag_of(old(self).look) != Some('}' as u32) ==> s is Sequence),
        decreases fuel(*old(self)), 15int,
    {
        if self.look_tag_is('}' as u32) {
            Ok(Stmt::Null)
        } else {
            let s1 = match self.stmt() {
                Ok(s) => s,
                Err(e) => {
                    return Err(e);
                },
            };
            let s2 = match self.stmts() {
                Ok(s) => s,
                Err(e) => {
                    return Err(e);
                },
            };
            Ok(Stmt::sequence(s1, s2))
        }
    }

    /// Parses one statement: an empty statement, a `break`, a nested block,
    /// a conditional, a loop, or an assignment.
    ///
    /// A `break` resolves against the enclosing-loop context at parse time:
    /// with the context empty it is rejected as an unenclosed break, else it
    /// stores the innermost loop's placeholder id.
    fn stmt(&mut self) -> (r: Result<Stmt, Error>)
        requires
            old(self).wf(),
            old(self).top is Some,
        ensures
            final(self).wf(),
            final(self).lex.input == old(self).lex.input,
            fuel(*final(self)) <= fuel(*old(self)),
            r is Ok ==> fuel(*final(self)) < fuel(*old(self)) && final(self).top == old(self).top
                && final(self).loops@ == old(self).loops@,
            r matches Ok(s) ==> wf_stmt(s) && (old(self).loops@.len() == 0 ==> breaks_enclosed(s)),
            tag_of(old(self).look) == Some(Tag::Break.code_spec()) && old(self).loops@.len() == 0
                ==> r is Err,
            r matches Ok(s) ==> (tag_of(old(self).look) == Some(Tag::Break.code_spec()) ==> old(
                self,
            ).loops@.len() > 0 && s == (Stmt::Break { loop_id: old(self).loops@.last() })),
            tag_of(old(self).look) == Some(';' as u32) ==> (match r {
                Ok(s) => s == Stmt::Null,
                Err(er) => er is Lexical,
            }),
            tag_of(old(self).look) == Some(Tag::If.code_spec()) ==> (r matches Ok(s) ==> s is If
                || s is IfElse),
            tag_of(old(self).look) == Some(Tag::While.code_spec()) ==> (r matches Ok(s) ==> s
                is While),
        decreases fuel(*old(self)), 14int,
    {
        let tag = match self.look.get_tag() {
            Some(t) => t,
            None => {
                return Err(Error::Syntax(self.lex.line_num, "unexpected end of input".to_owned()));
            },
        };
        if tag == ';' as u32 {
            match self.move_() {
                Ok(()) => Ok(Stmt::Null),
                Err(e) => Err(e),
            }
        } else if tag == Tag::Break.code() {
            let line = self.lex.line_num;
            match self.match_(Tag::Break.code()) {
                Ok(()) => {},
                Err(e) => {
                    return Err(e);
                },
            }
            match self.match_(';' as u32) {
                Ok(()) => {},
                Err(e) => {
                    return Err(e);
                },
            }
            if self.loops.len() == 0 {
                return Err(Error::UnenclosedBreak(line));
            }
            let lid = self.loops[self.loops.len() - 1];
            Ok(Stmt::break_stmt(lid))
        } else if tag == '{' as u32 {
            match self.match_('{' as u32) {
                Ok(()) => {},
                Err(e) => {
                    return Err(e);
                },
            }
            self.block_rest()
        } else if tag == Tag::If.code() {
            let line = self.lex.line_num;
            match self.match_(Tag::If.code()) {
                Ok(()) => {},
                Err(e) => {
                    return Err(e);
                },
            }
            match self.match_('(' as u32) {
                Ok(()) => {},
                Err(e) => {
                    return Err(e);
                },
            }
            let x = match self.bool_() {
                Ok(x) => x,
                Err(e) => {
                    return Err(e);
                },
            };
            match self.match_(')' as u32) {
                Ok(()) => {},
                Err(e) => {
                    return Err(e);
                },
            }
            let s1 = match self.stmt() {
                Ok(s) => s,
                Err(e) => {
                    return Err(e);
                },
            };
            if self.look_tag_is(Tag::Else.code()) {
                match self.match_(Tag::Else.code()) {
                    Ok(()) => {},
                    Err(e) => {
                        return Err(e);
                    },
                }
                let s2 = match self.stmt() {
                    Ok(s) => s,
                    Err(e) => {
                        return Err(e);
                    },
                };
                Stmt::if_else(x, s1, s2, line)
            } else {
                Stmt::if_stmt(x, s1, line)
            }
        } else if tag == Tag::While.code() {
            let line = self.lex.line_num;
            match self.match_(Tag::While.code()) {
                Ok(()) => {},
                Err(e) => {
                    return Err(e);
                },
            }
            match self.match_('(' as u32) {
                Ok(()) => {},
                Err(e) => {
                    return Err(e);
                },
            }
            let x = match self.bool_() {
                Ok(x) => x,
                Err(e) => {
                    return Err(e);
                },
            };
            match self.match_(')' as u32) {
                Ok(()) => {},
                Err(e) => {
                    return Err(e);
                },
            }
            let lid = self.next_loop;
            if lid == u32::MAX {
                return Err(Error::Syntax(line, "loop limit reached".to_owned()));
            }
            self.next_loop = lid + 1;
            self.loops.push(lid);
            let body = match self.stmt() {
                Ok(s) => s,
                Err(e) => {
                    return Err(e);
                },
            };
            let _ = self.loops.pop();
            proof {
                assert(self.loops@ =~= old(self).loops@);
            }
            Stmt::while_stmt(x, body, line)
        } else {
            self.assign()
        }
    }

    /// Parses an assignment `id = bool ;`, resolving the target through the
    /// scope chain.
    fn assign(&mut self) -> (r: Result<Stmt, Error>)
        requires
            old(self).wf(),
            old(self).top is Some,
        ensures
            final(self).wf(),
            final(self).lex.input == old(self).lex.input,
            fuel(*final(self)) <= fuel(*old(self)),
            r is Ok ==> fuel(*final(self)) < fuel(*old(self)) && final(self).top == old(self).top
                && final(self).loops@ == old(self).loops@,
            r matches Ok(s) ==> wf_stmt(s) && s is Assign,
            tag_of(old(self).look) != Some(Tag::Id.code_spec()) ==> r is Err,
            old(self).look matches Token::Word(Word::Word(w)) ==> (w.token.tag
                == Tag::Id.code_spec() ==> (match scope_lookup(old(self).top, w.lexeme@) {
                Some(id) => (r matches Ok(s) ==> s matches Stmt::Assign { id: tid, expr } && tid
                    == id && assign_compatible(id.type_.kind, type_spec(expr).kind)),
                None => r matches Err(er) && (er is Lexical || (er matches Error::Undeclared(
                    ln,
                    nm,
                ) && ln == old(self).lex.line_num && nm@ == w.lexeme@)),
            })),
        decreases fuel(*old(self)), 13int,
    {
        let line = self.lex.line_num;
        let t = self.look.clone();
        match self.match_(Tag::Id.code()) {
            Ok(()) => {},
            Err(e) => {
                return Err(e);
            },
        }
        let w = match t {
            Token::Word(Word::Word(base)) => base,
            _ => {
                return Err(Error::Syntax(line, "identifier expected".to_owned()));
            },
        };
        let id_opt = match &self.top {
            Some(env) => env.get(&w),
            None => None,
        };
        let id = match id_opt {
            Some(i) => i,
            None => {
                return Err(Error::Undeclared(line, w.lexeme));
            },
        };
        match self.match_('=' as u32) {
            Ok(()) => {},
            Err(e) => {
                return Err(e);
            },
        }
        let x = match self.bool_() {
            Ok(x) => x,
            Err(e) => {
                return Err(e);
            },
        };
        match self.match_(';' as u32) {
            Ok(()) => {},
            Err(e) => {
                return Err(e);
            },
        }
        Stmt::assign(id, x, line)
    }

    /// Parses a disjunction chain `join (|| join)*`.
    fn bool_(&mut self) -> (r: Result<Expr, Error>)
        requires
            old(self).wf(),
            old(self).top is Some,
        ensures
            final(self).wf(),
            final(self).lex.input == old(self).lex.input,
            fuel(*final(self)) <= fuel(*old(self)),
            keeps_ctx(*old(self), *final(self)),
            r is Ok ==> fuel(*final(self)) < fuel(*old(self)),
            r matches Ok(e) ==> wf_expr(e),
            tag_of(old(self).look) == Some(Tag::Num.code_spec()) ==> (r matches Ok(e)
                ==> leftmost_leaf(e) == (Expr::Constant {
                op: old(self).look,
                type_: canonical(Type::Int),
            })),
            old(self).look matches Token::Word(Word::Word(w)) ==> (w.token.tag
                == Tag::Id.code_spec() ==> (match scope_lookup(old(self).top, w.lexeme@) {
                Some(id) => (r matches Ok(e) ==> leftmost_leaf(e) == Expr::Id(id)),
                None => r is Err,
            })),
        decreases fuel(*old(self)), 12int,
    {
        let mut x = match self.join() {
            Ok(x) => x,
            Err(e) => {
                return Err(e);
            },
        };
        loop
            invariant
                self.wf(),
                self.top is Some,
                self.lex.input == old(self).lex.input,
                fuel(*self) < fuel(*old(self)),
                keeps_ctx(*old(self), *self),
                wf_expr(x),
                tag_of(old(self).look) == Some(Tag::Num.code_spec()) ==> leftmost_leaf(x)
                    == (Expr::Constant { op: old(self).look, type_: canonical(Type::Int) }),
                old(self).look matches Token::Word(Word::Word(w)) ==> (w.token.tag
                    == Tag::Id.code_spec() ==> (match scope_lookup(old(self).top, w.lexeme@) {
                    Some(id) => leftmost_leaf(x) == Expr::Id(id),
                    None => true,
                })),
            ensures
                self.wf(),
                self.lex.input == old(self).lex.input,
                fuel(*self) < fuel(*old(self)),
                keeps_ctx(*old(self), *self),
                wf_expr(x),
                tag_of(old(self).look) == Some(Tag::Num.code_spec()) ==> leftmost_leaf(x)
                    == (Expr::Constant { op: old(self).look, type_: canonical(Type::Int) }),
                old(self).look matches Token::Word(Word::Word(w)) ==> (w.token.tag
                    == Tag::Id.code_spec() ==> (match scope_lookup(old(self).top, w.lexeme@) {
                    Some(id) => leftmost_leaf(x) == Expr::Id(id),
                    None => true,
                })),
            decreases fuel(*self),
        {
            if !self.look_tag_is(Tag::Or.code()) {
                break;
            }
            let line = self.lex.line_num;
            let tok = self.look.clone();
            match self.move_() {
                Ok(()) => {},
                Err(e) => {
                    return Err(e);
                },
            }
            let y = match self.join() {
                Ok(y) => y,
                Err(e) => {
                    return Err(e);
                },
            };
            x = match Expr::or(tok, x, y, line) {
                Ok(e) => e,
                Err(e) => {
                    return Err(e);
                },
            };
        }
        Ok(x)
    }

    /// Parses a conjunction chain `equality (&& equality)*`.
    fn join(&mut self) -> (r: Result<Expr, Error>)
        requires
            old(self).wf(),
            old(self).top is Some,
        ensures
            final(self).wf(),
            final(self).lex.input == old(self).lex.input,
            fuel(*final(self)) <= fuel(*old(self)),
            keeps_ctx(*old(self), *final(self)),
            r is Ok ==> fuel(*final(self)) < fuel(*old(self)),
            r matches Ok(e) ==> wf_expr(e),
            tag_of(old(self).look) == Some(Tag::Num.code_spec()) ==> (r matches Ok(e)
                ==> leftmost_leaf(e) == (Expr::Constant {
                op: old(self).look,
                type_: canonical(Type::Int),
            })),
            old(self).look matches Token::Word(Word::Word(w)) ==> (w.token.tag
                == Tag::Id.code_spec() ==> (match scope_lookup(old(self).top, w.lexeme@) {
                Some(id) => (r matches Ok(e) ==> leftmost_leaf(e) == Expr::Id(id)),
                None => r is Err,
            })),
        decreases fuel(*old(self)), 11int,
    {
        let mut x = match self.equality() {
            Ok(x) => x,
            Err(e) => {
                return Err(e);
            },
        };
        loop
            invariant
                self.wf(),
                self.top is Some,
                self.lex.input == old(self).lex.input,
                fuel(*self) < fuel(*old(self)),
                keeps_ctx(*old(self), *self),
                wf_expr(x),
                tag_of(old(self).look) == Some(Tag::Num.code_spec()) ==> leftmost_leaf(x)
                    == (Expr::Constant { op: old(self).look, type_: canonical(Type::Int) }),
                old(self).look matches Token::Word(Word::Word(w)) ==> (w.token.tag
                    == Tag::Id.code_spec() ==> (match scope_lookup(old(self).top, w.lexeme@) {
                    Some(id) => leftmost_leaf(x) == Expr::Id(id),
                    None => true,
                })),
            ensures
                self.wf(),
                self.lex.input == old(self).lex.input,
                fuel(*self) < fuel(*old(self)),
                keeps_ctx(*old(self), *self),
                wf_expr(x),
                tag_of(old(self).look) == Some(Tag::Num.code_spec()) ==> leftmost_leaf(x)
                    == (Expr::Constant { op: old(self).look, type_: canonical(Type::Int) }),
                old(self).look matches Token::Word(Word::Word(w)) ==> (w.token.tag
                    == Tag::Id.code_spec() ==> (match scope_lookup(old(self).top, w.lexeme@) {
                    Some(id) => leftmost_leaf(x) == Expr::Id(id),
                    None => true,
                })),
            decreases fuel(*self),
        {
            if !self.look_tag_is(Tag::And.code()) {
                break;
            }
            let line = self.lex.line_num;
            let tok = self.look.clone();
            match self.move_() {
                Ok(()) => {},
                Err(e) => {
                    return Err(e);
                },
            }
            let y = match self.equality() {
                Ok(y) => y,
                Err(e) => {
                    return Err(e);
                },
            };
            x = match Expr::and(tok, x, y, line) {
                Ok(e) => e,
                Err(e) => {
                    return Err(e);
                },
            };
        }
        Ok(x)
    }

    /// Parses an equality chain `rel (== rel)*`.
    fn equality(&mut self) -> (r: Result<Expr, Error>)
        requires
            old(self).wf(),
            old(self).top is Some,
        ensures
            final(self).wf(),
            final(self).lex.input == old(self).lex.input,
            fuel(*final(self)) <= fuel(*old(self)),
            keeps_ctx(*old(self), *final(self)),
            r is Ok ==> fuel(*final(self)) < fuel(*old(self)),
            r matches Ok(e) ==> wf_expr(e),
            tag_of(old(self).look) == Some(Tag::Num.code_spec()) ==> (r matches Ok(e)
                ==> leftmost_leaf(e) == (Expr::Constant {
                op: old(self).look,
                type_: canonical(Type::Int),
            })),
            old(self).look matches Token::Word(Word::Word(w)) ==> (w.token.tag
                == Tag::Id.code_spec() ==> (match scope_lookup(old(self).top, w.lexeme@) {
                Some(id) => (r matches Ok(e) ==> leftmost_leaf(e) == Expr::Id(id)),
                None => r is Err,
            })),
        decreases fuel(*old(self)), 10int,
    {
        let mut x = match self.rel() {
            Ok(x) => x,
            Err(e) => {
                return Err(e);
            },
        };
        loop
            invariant
                self.wf(),
                self.top is Some,
                self.lex.input == old(self).lex.input,
                fuel(*self) < fuel(*old(self)),
                keeps_ctx(*old(self), *self),
                wf_expr(x),
                tag_of(old(self).look) == Some(Tag::Num.code_spec()) ==> leftmost_leaf(x)
                    == (Expr::Constant { op: old(self).look, type_: canonical(Type::Int) }),
                old(self).look matches Token::Word(Word::Word(w)) ==> (w.token.tag
                    == Tag::Id.code_spec() ==> (match scope_lookup(old(self).top, w.lexeme@) {
                    Some(id) => leftmost_leaf(x) == Expr::Id(id),
                    None => true,
                })),
            ensures
                self.wf(),
                self.lex.input == old(self).lex.input,
                fuel(*self) < fuel(*old(self)),
                keeps_ctx(*old(self), *self),
                wf_expr(x),
                tag_of(old(self).look) == Some(Tag::Num.code_spec()) ==> leftmost_leaf(x)
                    == (Expr::Constant { op: old(self).look, type_: canonical(Type::Int) }),
                old(self).look matches Token::Word(Word::Word(w)) ==> (w.token.tag
                    == Tag::Id.code_spec() ==> (match scope_lookup(old(self).top, w.lexeme@) {
                    Some(id) => leftmost_leaf(x) == Expr::Id(id),
                    None => true,
                })),
            decreases fuel(*self),
        {
            if !self.look_tag_is(Tag::Eq_.code()) {
                break;
            }
            let line = self.lex.line_num;
            let tok = self.look.clone();
            match self.move_() {
                Ok(()) => {},
                Err(e) => {
                    return Err(e);
                },
            }
            let y = match self.rel() {
                Ok(y) => y,
                Err(e) => {
                    return Err(e);
                },
            };
            x = match Expr::rel(tok, x, y, line) {
                Ok(e) => e,
                Err(e) => {
                    return Err(e);
                },
            };
        }
        Ok(x)
    }

    /// Parses a relational test `expr (< | <= | >= | >) expr`, or a bare
    /// arithmetic expression.
    fn rel(&mut self) -> (r: Result<Expr, Error>)
        requires
            old(self).wf(),
            old(self).top is Some,
        ensures
            final(self).wf(),
            final(self).lex.input == old(self).lex.input,
            fuel(*final(self)) <= fuel(*old(self)),
            keeps_ctx(*old(self), *final(self)),
            r is Ok ==> fuel(*final(self)) < fuel(*old(self)),
            r matches Ok(e) ==> wf_expr(e),
            tag_of(old(self).look) == Some(Tag::Num.code_spec()) ==> (r matches Ok(e)
                ==> leftmost_leaf(e) == (Expr::Constant {
                op: old(self).look,
                type_: canonical(Type::Int),
            })),
            old(self).look matches Token::Word(Word::Word(w)) ==> (w.token.tag
                == Tag::Id.code_spec() ==> (match scope_lookup(old(self).top, w.lexeme@) {
                Some(id) => (r matches Ok(e) ==> leftmost_leaf(e) == Expr::Id(id)),
                None => r is Err,
            })),
        decreases fuel(*old(self)), 9int,
    {
        let x = match self.expr() {
            Ok(x) => x,
            Err(e) => {
                return Err(e);
            },
        };
        if self.look_tag_is('<' as u32) || self.look_tag_is('>' as u32) || self.look_tag_is(
            Tag::Le.code(),
        ) || self.look_tag_is(Tag::Ge.code()) {
            let line = self.lex.line_num;
            let tok = self.look.clone();
            match self.move_() {
                Ok(()) => {},
                Err(e) => {
                    return Err(e);
                },
            }
            let y = match self.expr() {
                Ok(y) => y,
                Err(e) => {
                    return Err(e);
                },
            };
            Expr::rel(tok, x, y, line)
        } else {
            Ok(x)
        }
    }

    /// Parses an additive chain `term ((+ | -) term)*`.
    fn expr(&mut self) -> (r: Result<Expr, Error>)
        requires
            old(self).wf(),
            old(self).top is Some,
        ensures
            final(self).wf(),
            final(self).lex.input == old(self).lex.input,
            fuel(*final(self)) <= fuel(*old(self)),
            keeps_ctx(*old(self), *final(self)),
            r is Ok ==> fuel(*final(self)) < fuel(*old(self)),
            r matches Ok(e) ==> wf_expr(e),
            tag_of(old(self).look) == Some(Tag::Num.code_spec()) ==> (r matches Ok(e)
                ==> leftmost_leaf(e) == (Expr::Constant {
                op: old(self).look,
                type_: canonical(Type::Int),
            })),
            old(self).look matches Token::Word(Word::Word(w)) ==> (w.token.tag
                == Tag::Id.code_spec() ==> (match scope_lookup(old(self).top, w.lexeme@) {
                Some(id) => (r matches Ok(e) ==> leftmost_leaf(e) == Expr::Id(id)),
                None => r is Err,
            })),
        decreases fuel(*old(self)), 8int,
    {
        let mut x = match self.term() {
            Ok(x) => x,
            Err(e) => {
                return Err(e);
            },
        };
        loop
            invariant
                self.wf(),
                self.top is Some,
                self.lex.input == old(self).lex.input,
                fuel(*self) < fuel(*old(self)),
                keeps_ctx(*old(self), *self),
                wf_expr(x),
                tag_of(old(self).look) == Some(Tag::Num.code_spec()) ==> leftmost_leaf(x)
                    == (Expr::Constant { op: old(self).look, type_: canonical(Type::Int) }),
                old(self).look matches Token::Word(Word::Word(w)) ==> (w.token.tag
                    == Tag::Id.code_spec() ==> (match scope_lookup(old(self).top, w.lexeme@) {
                    Some(id) => leftmost_leaf(x) == Expr::Id(id),
                    None => true,
                })),
            ensures
                self.wf(),
                self.lex.input == old(self).lex.input,
                fuel(*self) < fuel(*old(self)),
                keeps_ctx(*old(self), *self),
                wf_expr(x),
                tag_of(old(self).look) == Some(Tag::Num.code_spec()) ==> leftmost_leaf(x)
                    == (Expr::Constant { op: old(self).look, type_: canonical(Type::Int) }),
                old(self).look matches Token::Word(Word::Word(w)) ==> (w.token.tag
                    == Tag::Id.code_spec() ==> (match scope_lookup(old(self).top, w.lexeme@) {
                    Some(id) => leftmost_leaf(x) == Expr::Id(id),
                    None => true,
                })),
            decreases fuel(*self),
        {
            if !(self.look_tag_is('+' as u32) || self.look_tag_is('-' as u32)) {
                break;
            }
            let line = self.lex.line_num;
            let tok = self.look.clone();
            match self.move_() {
                Ok(()) => {},
                Err(e) => {
                    return Err(e);
                },
            }
            let y = match self.term() {
                Ok(y) => y,
                Err(e) => {
                    return Err(e);
                },
            };
            x = match Expr::arith(tok, x, y, line) {
                Ok(e) => e,
                Err(e) => {
                    return Err(e);
                },
            };
        }
        Ok(x)
    }

    /// Parses a multiplicative chain `unary ((* | /) unary)*`.
    fn term(&mut self) -> (r: Result<Expr, Error>)
        requires
            old(self).wf(),
            old(self).top is Some,
        ensures
            final(self).wf(),
            final(self).lex.input == old(self).lex.input,
            fuel(*final(self)) <= fuel(*old(self)),
            keeps_ctx(*old(self), *final(self)),
            r is Ok ==> fuel(*final(self)) < fuel(*old(self)),
            r matches Ok(e) ==> wf_expr(e),
            tag_of(old(self).look) == Some(Tag::Num.code_spec()) ==> (r matches Ok(e)
                ==> leftmost_leaf(e) == (Expr::Constant {
                op: old(self).look,
                type_: canonical(Type::Int),
            })),
            old(self).look matches Token::Word(Word::Word(w)) ==> (w.token.tag
                == Tag::Id.code_spec() ==> (match scope_lookup(old(self).top, w.lexeme@) {
                Some(id) => (r matches Ok(e) ==> leftmost_leaf(e) == Expr::Id(id)),
                None => r is Err,
            })),
        decreases fuel(*old(self)), 7int,
    {
        let mut x = match self.unary() {
            Ok(x) => x,
            Err(e) => {
                return Err(e);
            },
        };
        loop
            invariant
                self.wf(),
                self.top is Some,
                self.lex.input == old(self).lex.input,
                fuel(*self) < fuel(*old(self)),
                keeps_ctx(*old(self), *self),
                wf_expr(x),
                tag_of(old(self).look) == Some(Tag::Num.code_spec()) ==> leftmost_leaf(x)
                    == (Expr::Constant { op: old(self).look, type_: canonical(Type::Int) }),
                old(self).look matches Token::Word(Word::Word(w)) ==> (w.token.tag
                    == Tag::Id.code_spec() ==> (match scope_lookup(old(self).top, w.lexeme@) {
                    Some(id) => leftmost_leaf(x) == Expr::Id(id),
                    None => true,
                })),
            ensures
                self.wf(),
                self.lex.input == old(self).lex.input,
                fuel(*self) < fuel(*old(self)),
                keeps_ctx(*old(self), *self),
                wf_expr(x),
                tag_of(old(self).look) == Some(Tag::Num.code_spec()) ==> leftmost_leaf(x)
                    == (Expr::Constant { op: old(self).look, type_: canonical(Type::Int) }),
                old(self).look matches Token::Word(Word::Word(w)) ==> (w.token.tag
                    == Tag::Id.code_spec() ==> (match scope_lookup(old(self).top, w.lexeme@) {
                    Some(id) => leftmost_leaf(x) == Expr::Id(id),
                    None => true,
                })),
            decreases fuel(*self),
        {
            if !(self.look_tag_is('*' as u32) || self.look_tag_is('/' as u32)) {
                break;
            }
            let line = self.lex.line_num;
            let tok = self.look.clone();
            match self.move_() {
                Ok(()) => {},
                Err(e) => {
                    return Err(e);
                },
            }
            let y = match self.unary() {
                Ok(y) => y,
                Err(e) => {
                    return Err(e);
                },
            };
            x = match Expr::arith(tok, x, y, line) {
                Ok(e) => e,
                Err(e) => {
                    return Err(e);
                },
            };
        }
        Ok(x)
    }

    /// Parses a prefix chain of `-` (rendered as the word `minus`) and `!`.
    fn unary(&mut self) -> (r: Result<Expr, Error>)
        requires
            old(self).wf(),
            old(self).top is Some,
        ensures
            final(self).wf(),
            final(self).lex.input == old(self).lex.input,
            fuel(*final(self)) <= fuel(*old(self)),
            keeps_ctx(*old(self), *final(self)),
            r is Ok ==> fuel(*final(self)) < fuel(*old(self)),
            r matches Ok(e) ==> wf_expr(e),
            tag_of(old(self).look) == Some('-' as u32) ==> (r matches Ok(e) ==> e is Unary),
            tag_of(old(self).look) == Some('!' as u32) ==> (r matches Ok(e) ==> e is Not),
            tag_of(old(self).look) == Some(Tag::Num.code_spec()) ==> (r matches Ok(e)
                ==> leftmost_leaf(e) == (Expr::Constant {
                op: old(self).look,
                type_: canonical(Type::Int),
            })),
            old(self).look matches Token::Word(Word::Word(w)) ==> (w.token.tag
                == Tag::Id.code_spec() ==> (match scope_lookup(old(self).top, w.lexeme@) {
                Some(id) => (r matches Ok(e) ==> leftmost_leaf(e) == Expr::Id(id)),
                None => r is Err,
            })),
        decreases fuel(*old(self)), 6int,
    {
        if self.look_tag_is('-' as u32) {
            let line = self.lex.line_num;
            match self.move_() {
                Ok(()) => {},
                Err(e) => {
                    return Err(e);
                },
            }
            let y = match self.unary() {
                Ok(y) => y,
                Err(e) => {
                    return Err(e);
                },
            };
            Expr::unary(Token::Word(Word::Word(word_minus())), y, line)
        } else if self.look_tag_is('!' as u32) {
            let line = self.lex.line_num;
            let tok = self.look.clone();
            match self.move_() {
                Ok(()) => {},
                Err(e) => {
                    return Err(e);
                },
            }
            let y = match self.unary() {
                Ok(y) => y,
                Err(e) => {
                    return Err(e);
                },
            };
            Expr::not(tok, y, line)
        } else {
            self.factor()
        }
    }

    /// Parses a factor: a parenthesised expression, a literal, `true`,
    /// `false`, or a declared identifier.
    fn factor(&mut self) -> (r: Result<Expr, Error>)
        requires
            old(self).wf(),
            old(self).top is Some,
        ensures
            final(self).wf(),
            final(self).lex.input == old(self).lex.input,
            fuel(*final(self)) <= fuel(*old(self)),
            keeps_ctx(*old(self), *final(self)),
            r is Ok ==> fuel(*final(self)) < fuel(*old(self)),
            r matches Ok(e) ==> wf_expr(e),
            tag_of(old(self).look) == Some(Tag::Num.code_spec()) ==> (match r {
                Ok(e) => e == (Expr::Constant { op: old(self).look, type_: canonical(Type::Int) }),
                Err(er) => er is Lexical,
            }),
            tag_of(old(self).look) == Some(Tag::Real.code_spec()) ==> (match r {
                Ok(e) => e == (Expr::Constant {
                    op: old(self).look,
                    type_: canonical(Type::Float),
                }),
                Err(er) => er is Lexical,
            }),
            tag_of(old(self).look) == Some(Tag::True.code_spec()) ==> (match r {
                Ok(e) => is_true_const(e) && type_spec(e).kind == Type::Bool,
                Err(er) => er is Lexical,
            }),
            tag_of(old(self).look) == Some(Tag::False.code_spec()) ==> (match r {
                Ok(e) => is_false_const(e) && type_spec(e).kind == Type::Bool,
                Err(er) => er is Lexical,
            }),
            old(self).look matches Token::Word(Word::Word(w)) ==> (w.token.tag
                == Tag::Id.code_spec() ==> (match scope_lookup(old(self).top, w.lexeme@) {
                Some(id) => match r {
                    Ok(e) => e == Expr::Id(id),
                    Err(er) => er is Lexical,
                },
                None => r matches Err(er) && er matches Error::Undeclared(ln, nm) && ln == old(
                    self,
                ).lex.line_num && nm@ == w.lexeme@,
            })),
            old(self).look is Eof ==> (r matches Err(er) && er is Syntax),
            (tag_of(old(self).look) matches Some(tg) && tg != ('(' as u32) && tg
                != Tag::Num.code_spec() && tg != Tag::Real.code_spec() && tg
                != Tag::True.code_spec() && tg != Tag::False.code_spec() && tg
                != Tag::Id.code_spec()) ==> (r matches Err(er) && er matches Error::Syntax(ln, m)
                && ln == old(self).lex.line_num && m@ == token_text(old(self).look)),
        decreases fuel(*old(self)), 5int,
    {
        let line = self.lex.line_num;
        let tag = match self.look.get_tag() {
            Some(t) => t,
            None => {
                return Err(Error::Syntax(line, "unexpected end of input".to_owned()));
            },
        };
        if tag == '(' as u32 {
            match self.move_() {
                Ok(()) => {},
                Err(e) => {
                    return Err(e);
                },
            }
            let x = match self.bool_() {
                Ok(x) => x,
                Err(e) => {
                    return Err(e);
                },
            };
            match self.match_(')' as u32) {
                Ok(()) => Ok(x),
                Err(e) => Err(e),
            }
        } else if tag == Tag::Num.code() {
            let x = Expr::constant(self.look.clone(), type_int());
            match self.move_() {
                Ok(()) => Ok(x),
                Err(e) => Err(e),
            }
        } else if tag == Tag::Real.code() {
            let x = Expr::constant(self.look.clone(), type_float());
            match self.move_() {
                Ok(()) => Ok(x),
                Err(e) => Err(e),
            }
        } else if tag == Tag::True.code() {
            let x = crate::ir::constant_true();
            match self.move_() {
                Ok(()) => Ok(x),
                Err(e) => Err(e),
            }
        } else if tag == Tag::False.code() {
            let x = crate::ir::constant_false();
            match self.move_() {
                Ok(()) => Ok(x),
                Err(e) => Err(e),
            }
        } else if tag == Tag::Id.code() {
            let w = match &self.look {
                Token::Word(wd) => match wd {
                    Word::Word(base) => base.clone(),
                    Word::Type(_) => {
                        return Err(Error::Syntax(line, self.look.to_string()));
                    },
                },
                _ => {
                    return Err(Error::Syntax(line, self.look.to_string()));
                },
            };
            let id_opt = match &self.top {
                Some(env) => env.get(&w),
                None => None,
            };
            match id_opt {
                Some(id) => {
                    match self.move_() {
                        Ok(()) => Ok(Expr::Id(id)),
                        Err(e) => Err(e),
                    }
                },
                None => Err(Error::Undeclared(line, w.lexeme)),
            }
        } else {
            Err(Error::Syntax(line, self.look.to_string()))
        }
    }
}

} // verus!
