use vstd::prelude::*;

use crate::token::{SpecToken, Token};

verus! {

/// Mathematical picture of a statement: what each variant carries, over the
/// abstract values of its tokens.
pub enum SpecStatement {
    Let(SpecToken),
    Return(SpecToken),
    Ident(Seq<char>),
}

/// A `let` binding; it carries the token of the bound identifier.
#[derive(Clone, Debug, PartialEq, Eq, Hash)]
pub struct Let {
    pub identifier: Token,
}

/// A `return` statement; it carries the `return` keyword's own token.
#[derive(Clone, Debug, PartialEq, Eq, Hash)]
pub struct ReturnStatement {
    pub identifier: Token,
}

/// A parsed top-level statement. The `Identifier` variant is the stand-in
/// for expression statements, which are not parsed yet: it always carries
/// one fixed sentinel name.
#[derive(Clone, Debug, PartialEq, Eq, Hash)]
pub enum Statement {
    Let(Let),
    Return(ReturnStatement),
    Identifier { name: String },
}

impl View for Statement {
    type V = SpecStatement;

    open spec fn view(&self) -> SpecStatement {
        match self {
            Statement::Let(l) => SpecStatement::Let(l.identifier@),
            Statement::Return(r) => SpecStatement::Return(r.identifier@),
            Statement::Identifier { name } => SpecStatement::Ident(name@),
        }
    }
}

/// The abstract values of a sequence of statements.
pub open spec fn stmt_views(ss: Seq<Statement>) -> Seq<SpecStatement> {
    ss.map_values(|s: Statement| s@)
}

/// A parsed program: its statements, in source order.
#[derive(Debug)]
pub struct Program {
    pub statements: Vec<Statement>,
}

impl View for Program {
    type V = Seq<SpecStatement>;

    open spec fn view(&self) -> Seq<SpecStatement> {
        stmt_views(self.statements@)
    }
}

impl Program {
    /// An empty program.
    pub fn new() -> (p: Program)
        ensures
            p@ == Seq::<SpecStatement>::empty(),
    {
        let p = Program { statements: Vec::new() };
        proof {
            assert(p@ =~= Seq::<SpecStatement>::empty());
        }
        p
    }
}

} // verus!
