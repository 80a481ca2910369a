use vstd::prelude::*;

verus! {

/// An expression of the source language.
///
/// A variable reference carries the storage slot index derived from its
/// repetition count (1-based in the surface syntax).
#[derive(Debug)]
pub enum Expr {
    /// A number literal accumulated from increment/decrement punctuation.
    Number(i64),
    /// A variable reference by slot index.
    Var(usize),
    Add(Box<Expr>, Box<Expr>),
    Sub(Box<Expr>, Box<Expr>),
    Mul(Box<Expr>, Box<Expr>),
}

/// A statement of the source language.
#[derive(Debug)]
pub enum Statement {
    /// Assign the value of an expression to a variable slot.
    Assign { var_index: usize, value: Expr },
    /// Read one integer from the input into a variable slot.
    Input { var_index: usize },
    /// Print an expression as a decimal number.
    PrintNum(Expr),
    /// Print an expression as a single output byte.
    PrintChar(Expr),
    /// Print a line break.
    PrintNewline,
    /// Run the body only when the condition evaluates to zero.
    Conditional { condition: Expr, body: Vec<Statement> },
    /// Jump to the statement on the given source line.
    Goto(usize),
    /// Stop the program with the value of an expression.
    Return(Expr),
}

/// A parsed program: statements in textual order, each with the source
/// line of its first token.
#[derive(Debug)]
pub struct Program {
    pub statements: Vec<(Statement, usize)>,
}

/// The mathematical shape of a statement: identical to [`Statement`]
/// except that a conditional's body is a `Seq`, so that statements can be
/// built and compared in specifications.
pub enum StmtView {
    Assign { var_index: usize, value: Expr },
    Input { var_index: usize },
    PrintNum(Expr),
    PrintChar(Expr),
    PrintNewline,
    Conditional { condition: Expr, body: Seq<StmtView> },
    Goto(usize),
    Return(Expr),
}

/// The view of one statement.
pub open spec fn stmt_view(s: Statement) -> StmtView
    decreases s,
{
    match s {
        Statement::Assign { var_index, value } => StmtView::Assign { var_index, value },
        Statement::Input { var_index } => StmtView::Input { var_index },
        Statement::PrintNum(e) => StmtView::PrintNum(e),
        Statement::PrintChar(e) => StmtView::PrintChar(e),
        Statement::PrintNewline => StmtView::PrintNewline,
        Statement::Conditional { condition, body } => StmtView::Conditional {
            condition,
            body: stmts_view(body@),
        },
        Statement::Goto(n) => StmtView::Goto(n),
        Statement::Return(e) => StmtView::Return(e),
    }
}

/// The view of a sequence of statements, elementwise.
pub open spec fn stmts_view(ss: Seq<Statement>) -> Seq<StmtView>
    decreases ss,
{
    if ss.len() == 0 {
        seq![]
    } else {
        stmts_view(ss.drop_last()).push(stmt_view(ss.last()))
    }
}

/// The view of a statement list: statement views paired with their lines.
pub open spec fn pairs_view(s: Seq<(Statement, usize)>) -> Seq<(StmtView, usize)> {
    s.map_values(|pair: (Statement, usize)| (stmt_view(pair.0), pair.1))
}

/// The view of a whole program.
pub open spec fn prog_view(p: &Program) -> Seq<(StmtView, usize)> {
    pairs_view(p.statements@)
}

/// The set of variable slots read by an expression.
pub open spec fn expr_vars(e: Expr) -> Set<usize>
    decreases e,
{
    match e {
        Expr::Number(_) => Set::empty(),
        Expr::Var(i) => set![i],
        Expr::Add(l, r) => expr_vars(*l).union(expr_vars(*r)),
        Expr::Sub(l, r) => expr_vars(*l).union(expr_vars(*r)),
        Expr::Mul(l, r) => expr_vars(*l).union(expr_vars(*r)),
    }
}

/// The set of variable slots referenced by a statement, as an assignment
/// or input target or read in any expression.
pub open spec fn stmt_vars(s: StmtView) -> Set<usize>
    decreases s,
{
    match s {
        StmtView::Assign { var_index, value } => set![var_index].union(expr_vars(value)),
        StmtView::Input { var_index } => set![var_index],
        StmtView::PrintNum(e) => expr_vars(e),
        StmtView::PrintChar(e) => expr_vars(e),
        StmtView::PrintNewline => Set::empty(),
        StmtView::Conditional { condition, body } => expr_vars(condition).union(
            stmts_list_vars(body),
        ),
        StmtView::Goto(_) => Set::empty(),
        StmtView::Return(e) => expr_vars(e),
    }
}

/// The set of variable slots referenced by a sequence of statements.
pub open spec fn stmts_list_vars(ss: Seq<StmtView>) -> Set<usize>
    decreases ss,
{
    if ss.len() == 0 {
        Set::empty()
    } else {
        stmts_list_vars(ss.drop_last()).union(stmt_vars(ss.last()))
    }
}

/// The set of variable slots referenced anywhere in a program.
pub open spec fn prog_vars(prog: Seq<(StmtView, usize)>) -> Set<usize>
    decreases prog,
{
    if prog.len() == 0 {
        Set::empty()
    } else {
        prog_vars(prog.drop_last()).union(stmt_vars(prog.last().0))
    }
}

} // verus!
