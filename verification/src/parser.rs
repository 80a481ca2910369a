use vstd::prelude::*;

use crate::ast::{Expr, Program, Statement, StmtView, pairs_view, stmt_view};
use crate::token::{Token, TokenWithPos};

verus! {

/// The token under the cursor, or end-of-input past the stream.
pub open spec fn tok_at(toks: Seq<TokenWithPos>, pos: int) -> Token {
    if 0 <= pos < toks.len() {
        toks[pos].token
    } else {
        Token::EOF
    }
}

/// Whether a token can start an additive term.
pub open spec fn is_term_start(t: Token) -> bool {
    t is Dot || t is Comma || t is Eo
}

/// One step of a saturating counter of punctuation marks.
pub open spec fn sat_inc_i64(n: i64) -> i64 {
    if n < i64::MAX {
        (n + 1) as i64
    } else {
        n
    }
}

/// The scan of one additive term: the cursor after the term and the
/// final counts of increments, decrements, and the variable, if one was
/// seen.  A second variable reference ends the term.
pub open spec fn spec_add_scan(
    toks: Seq<TokenWithPos>,
    pos: int,
    dots: i64,
    commas: i64,
    has_var: bool,
    var_index: usize,
) -> (int, i64, i64, bool, usize)
    decreases toks.len() - pos,
{
    match tok_at(toks, pos) {
        Token::Dot => spec_add_scan(toks, pos + 1, sat_inc_i64(dots), commas, has_var, var_index),
        Token::Comma => spec_add_scan(toks, pos + 1, dots, sat_inc_i64(commas), has_var, var_index),
        Token::Eo(c) => if !has_var {
            spec_add_scan(toks, pos + 1, dots, commas, true, c)
        } else {
            (pos, dots, commas, has_var, var_index)
        },
        _ => (pos, dots, commas, has_var, var_index),
    }
}

/// One additive term: a counted punctuation run with at most one
/// variable reference on either side of it.
pub open spec fn spec_additive(toks: Seq<TokenWithPos>, pos: int) -> Option<(Expr, int)> {
    let (p2, dots, commas, has_var, var_index) = spec_add_scan(toks, pos, 0, 0, false, 0);
    if !has_var && dots == 0 && commas == 0 {
        None
    } else if !has_var {
        Some((Expr::Number((dots - commas) as i64), p2))
    } else if dots != 0 || commas != 0 {
        Some(
            (
                Expr::Add(
                    Box::new(Expr::Var(var_index)),
                    Box::new(Expr::Number((dots - commas) as i64)),
                ),
                p2,
            ),
        )
    } else {
        Some((Expr::Var(var_index), p2))
    }
}

/// The cursor after any run of space tokens.
pub open spec fn spec_skip_spaces(toks: Seq<TokenWithPos>, pos: int) -> int
    decreases toks.len() - pos,
{
    if tok_at(toks, pos) is Space {
        spec_skip_spaces(toks, pos + 1)
    } else {
        pos
    }
}

/// The multiplication chain after a first term: while another term is
/// adjacent (spaces in between only separate it visually), it multiplies
/// into the product from the left.  The guard on the cursor makes
/// termination of this definition self-evident; the scanner only moves
/// forward.
pub open spec fn spec_mul_rest(toks: Seq<TokenWithPos>, pos: int, left: Expr) -> Option<
    (Expr, int),
>
    decreases toks.len() - pos,
{
    let p = spec_skip_spaces(toks, pos);
    if !(pos <= p <= toks.len()) {
        None
    } else if is_term_start(tok_at(toks, p)) {
        match spec_additive(toks, p) {
            Some((rhs, p2)) => if p < p2 <= toks.len() {
                spec_mul_rest(toks, p2, Expr::Mul(Box::new(left), Box::new(rhs)))
            } else {
                None
            },
            None => None,
        }
    } else {
        Some((left, p))
    }
}

/// An expression: left-associative juxtaposition of additive terms.
pub open spec fn spec_expr(toks: Seq<TokenWithPos>, pos: int) -> Option<(Expr, int)> {
    match spec_additive(toks, pos) {
        Some((left, p)) => spec_mul_rest(toks, p, left),
        None => None,
    }
}

/// The value of a constant expression: none when a variable is
/// reachable in it.  Arithmetic wraps at the machine width.
pub open spec fn spec_eval_const(e: Expr) -> Option<i64>
    decreases e,
{
    match e {
        Expr::Number(n) => Some(n),
        Expr::Var(_) => None,
        Expr::Add(l, r) => match (spec_eval_const(*l), spec_eval_const(*r)) {
            (Some(a), Some(b)) => Some(vstd::wrapping::i64_specs::wrapping_add(a, b)),
            _ => None,
        },
        Expr::Sub(l, r) => match (spec_eval_const(*l), spec_eval_const(*r)) {
            (Some(a), Some(b)) => Some(vstd::wrapping::i64_specs::wrapping_sub(a, b)),
            _ => None,
        },
        Expr::Mul(l, r) => match (spec_eval_const(*l), spec_eval_const(*r)) {
            (Some(a), Some(b)) => Some(vstd::wrapping::i64_specs::wrapping_mul(a, b)),
            _ => None,
        },
    }
}

/// The target slot named by an assignment marker's syllable count.
pub open spec fn spec_slot_of_count(c: usize) -> usize {
    if c < usize::MAX {
        (c + 1) as usize
    } else {
        c
    }
}

/// An assignment or input statement, after its leading marker.
pub open spec fn spec_assignment(toks: Seq<TokenWithPos>, pos: int) -> Option<(StmtView, int)> {
    match tok_at(toks, pos) {
        Token::Eom(c) => {
            let vi = spec_slot_of_count(c);
            let p1 = pos + 1;
            if tok_at(toks, p1) is Sik {
                if tok_at(toks, p1 + 1) is Question {
                    Some((StmtView::Input { var_index: vi }, p1 + 2))
                } else {
                    None
                }
            } else if tok_at(toks, p1) is Newline || tok_at(toks, p1) is EOF {
                Some((StmtView::Assign { var_index: vi, value: Expr::Number(0) }, p1))
            } else {
                match spec_expr(toks, p1) {
                    Some((e, p2)) => Some((StmtView::Assign { var_index: vi, value: e }, p2)),
                    None => None,
                }
            }
        },
        _ => None,
    }
}

/// A console statement, after its leading keyword.
pub open spec fn spec_console(toks: Seq<TokenWithPos>, pos: int) -> Option<(StmtView, int)> {
    let p1 = pos + 1;
    match tok_at(toks, p1) {
        Token::Question => None,
        Token::Exclamation => None,
        Token::Kek => Some((StmtView::PrintNewline, p1 + 1)),
        _ => match spec_expr(toks, p1) {
            Some((e, p2)) => match tok_at(toks, p2) {
                Token::Kek => Some((StmtView::PrintChar(e), p2 + 1)),
                Token::Exclamation => Some((StmtView::PrintNum(e), p2 + 1)),
                _ => None,
            },
            None => None,
        },
    }
}

/// A goto statement: its target must evaluate to a positive constant
/// that fits a slot-table line number; a variable in the target is a
/// parse error.
pub open spec fn spec_goto(toks: Seq<TokenWithPos>, pos: int) -> Option<(StmtView, int)> {
    let p1 = pos + 1;
    match spec_expr(toks, p1) {
        Some((e, p2)) => match spec_eval_const(e) {
            Some(line) => if 0 < line && line <= usize::MAX {
                Some((StmtView::Goto(line as usize), p2))
            } else {
                None
            },
            None => None,
        },
        None => None,
    }
}

/// A return statement: the keyword, a required exclamation, the value.
pub open spec fn spec_return(toks: Seq<TokenWithPos>, pos: int) -> Option<(StmtView, int)> {
    let p1 = pos + 1;
    if tok_at(toks, p1) is Exclamation {
        match spec_expr(toks, p1 + 1) {
            Some((e, p2)) => Some((StmtView::Return(e), p2)),
            None => None,
        }
    } else {
        None
    }
}

/// A conditional: condition, required question mark, then a body that
/// lasts to the end of the physical line and never consumes its
/// terminator.
pub open spec fn spec_conditional(toks: Seq<TokenWithPos>, pos: int) -> Option<(StmtView, int)>
    decreases toks.len() - pos, 0int,
{
    let p1 = pos + 1;
    match spec_expr(toks, p1) {
        Some((cond, p2)) => if tok_at(toks, p2) is Question {
            if pos < p2 + 1 <= toks.len() {
                match spec_body(toks, p2 + 1) {
                    Some((body, p3)) => Some(
                        (StmtView::Conditional { condition: cond, body }, p3),
                    ),
                    None => None,
                }
            } else {
                None
            }
        } else {
            None
        },
        None => None,
    }
}

/// The statements of a conditional body, up to the end of the line.
pub open spec fn spec_body(toks: Seq<TokenWithPos>, pos: int) -> Option<(Seq<StmtView>, int)>
    decreases toks.len() - pos, 2int,
{
    if tok_at(toks, pos) is Newline || tok_at(toks, pos) is Tilde || tok_at(toks, pos) is EOF
        || tok_at(toks, pos) is IEotteonSaram {
        Some((seq![], pos))
    } else {
        match spec_statement(toks, pos) {
            Some((s, p2)) => if pos < p2 <= toks.len() {
                match spec_body(toks, p2) {
                    Some((rest, p3)) => Some((seq![s] + rest, p3)),
                    None => None,
                }
            } else {
                None
            },
            None => None,
        }
    }
}

/// One statement, dispatched on its leading token.
pub open spec fn spec_statement(toks: Seq<TokenWithPos>, pos: int) -> Option<(StmtView, int)>
    decreases toks.len() - pos, 1int,
{
    match tok_at(toks, pos) {
        Token::Eom(_) => spec_assignment(toks, pos),
        Token::Sik => spec_console(toks, pos),
        Token::Dongtan => spec_conditional(toks, pos),
        Token::Joon => spec_goto(toks, pos),
        Token::Hwaiting => spec_return(toks, pos),
        _ => None,
    }
}

/// The cursor after any run of newline tokens.
pub open spec fn spec_skip_newlines(toks: Seq<TokenWithPos>, pos: int) -> int
    decreases toks.len() - pos,
{
    if tok_at(toks, pos) is Newline {
        spec_skip_newlines(toks, pos + 1)
    } else {
        pos
    }
}

/// The source line recorded for the statement starting at the cursor.
pub open spec fn spec_line_at(toks: Seq<TokenWithPos>, pos: int) -> usize {
    if 0 <= pos < toks.len() {
        toks[pos].line
    } else {
        1
    }
}

/// The statement list after the program-start marker: newlines and line
/// separators are skipped, and parsing stops at the end marker or the
/// end of input.
pub open spec fn spec_parse_loop(toks: Seq<TokenWithPos>, pos: int) -> Option<
    Seq<(StmtView, usize)>,
>
    decreases toks.len() - pos,
{
    let p = spec_skip_newlines(toks, pos);
    if !(pos <= p <= toks.len()) {
        None
    } else {
        match tok_at(toks, p) {
            Token::IEotteonSaram => Some(seq![]),
            Token::EOF => Some(seq![]),
            Token::Tilde => spec_parse_loop(toks, p + 1),
            _ => {
                let line = spec_line_at(toks, p);
                match spec_statement(toks, p) {
                    Some((s, p2)) => if p < p2 <= toks.len() {
                        match spec_parse_loop(toks, p2) {
                            Some(rest) => Some(seq![(s, line)] + rest),
                            None => None,
                        }
                    } else {
                        None
                    },
                    None => None,
                }
            },
        }
    }
}

/// The whole program: the start marker, then the statement list.
pub open spec fn spec_parse(toks: Seq<TokenWithPos>, pos: int) -> Option<Seq<(StmtView, usize)>> {
    if tok_at(toks, pos) is Eotteohke {
        spec_parse_loop(toks, pos + 1)
    } else {
        None
    }
}

/// The recursive-descent parser: one token of lookahead, no
/// backtracking.
pub struct Parser {
    pub tokens: Vec<TokenWithPos>,
    pub position: usize,
}

impl Parser {
    /// A parser at the start of the token stream.
    pub fn new(tokens: Vec<TokenWithPos>) -> (r: Self)
        ensures
            r.tokens == tokens,
            r.position == 0,
    {
        Parser { tokens, position: 0 }
    }

    /// The token under the cursor; end-of-input past the stream.
    fn current_token(&self) -> (r: Token)
        ensures
            r == tok_at(self.tokens@, self.position as int),
    {
        if self.position < self.tokens.len() {
            self.tokens[self.position].token
        } else {
            Token::EOF
        }
    }

    /// Moves past the current token.
    fn advance(&mut self)
        ensures
            final(self).tokens == old(self).tokens,
            old(self).position < old(self).tokens@.len() ==> final(self).position == old(
                self,
            ).position + 1,
            old(self).position >= old(self).tokens@.len() ==> final(self).position == old(
                self,
            ).position,
    {
        if self.position < self.tokens.len() {
            self.position = self.position + 1;
        }
    }

    /// Consumes the expected token or fails without moving.
    fn expect(&mut self, expected: Token) -> (r: Result<(), String>)
        ensures
            final(self).tokens == old(self).tokens,
            (r is Ok <==> tok_at(old(self).tokens@, old(self).position as int) == expected),
            r is Ok && old(self).position < old(self).tokens@.len() ==> final(self).position
                == old(self).position + 1,
            old(self).position <= final(self).position,
            (final(self).position <= old(self).tokens@.len() || final(self).position == old(
                self,
            ).position),
            r is Err ==> final(self).position == old(self).position,
    {
        if self.current_token() == expected {
            self.advance();
            Ok(())
        } else {
            Err("Unexpected token".to_owned())
        }
    }

    /// Skips physical line breaks.
    fn skip_newlines(&mut self)
        ensures
            final(self).tokens == old(self).tokens,
            final(self).position as int == spec_skip_newlines(
                old(self).tokens@,
                old(self).position as int,
            ),
            !(tok_at(final(self).tokens@, final(self).position as int) is Newline),
            old(self).position <= final(self).position,
            (final(self).position <= old(self).tokens@.len() || final(self).position == old(
                self,
            ).position),
    {
        while self.position < self.tokens.len() && matches!(
            self.tokens[self.position].token,
            Token::Newline,
        )
            invariant
                self.tokens == old(self).tokens,
                old(self).position <= self.position,
                (self.position <= self.tokens@.len() || self.position == old(self).position),
                spec_skip_newlines(old(self).tokens@, old(self).position as int)
                    == spec_skip_newlines(self.tokens@, self.position as int),
            decreases self.tokens@.len() - self.position,
        {
            self.position = self.position + 1;
        }
    }

    /// Parses the whole program: the start marker, then statements up to
    /// the end marker or the end of input, each recorded with the source
    /// line of its first token.
    #[verifier::loop_isolation(false)]
    pub fn parse(&mut self) -> (r: Result<Program, String>)
        ensures
            final(self).tokens == old(self).tokens,
            match spec_parse(old(self).tokens@, old(self).position as int) {
                Some(prog) => r is Ok && pairs_view(r->Ok_0.statements@) == prog,
                None => r is Err,
            },
    {
        let ghost toks = self.tokens@;
        let ghost pos0 = self.position as int;
        match self.expect(Token::Eotteohke) {
            Ok(()) => {},
            Err(e) => {
                return Err(e);
            },
        }
        self.skip_newlines();
        let mut statements: Vec<(Statement, usize)> = Vec::new();
        let mut done = false;
        proof {
            assert(pairs_view(statements@) =~= Seq::<(StmtView, usize)>::empty());
        }
        while !done
            invariant
                self.tokens == old(self).tokens,
                self.tokens@ == toks,
                (self.position <= self.tokens@.len() || self.position == pos0 + 1),
                !done ==> match spec_parse_loop(toks, self.position as int) {
                    Some(rest) => spec_parse(toks, pos0) == Some(pairs_view(statements@) + rest),
                    None => spec_parse(toks, pos0) is None,
                },
                done ==> spec_parse(toks, pos0) == Some(pairs_view(statements@)),
            decreases self.tokens@.len() - self.position, (if done {
                0int
            } else {
                1int
            }),
        {
            self.skip_newlines();
            match self.current_token() {
                Token::IEotteonSaram => {
                    self.advance();
                    proof {
                        assert(pairs_view(statements@) + Seq::<(StmtView, usize)>::empty()
                            =~= pairs_view(statements@));
                    }
                    done = true;
                },
                Token::EOF => {
                    proof {
                        assert(pairs_view(statements@) + Seq::<(StmtView, usize)>::empty()
                            =~= pairs_view(statements@));
                    }
                    done = true;
                },
                Token::Tilde => {
                    self.advance();
                },
                _ => {
                    let line_num = if self.position < self.tokens.len() {
                        self.tokens[self.position].line
                    } else {
                        1
                    };
                    let ghost pre = self.position as int;
                    let ghost stmts_pre = statements@;
                    let stmt = match self.parse_statement() {
                        Ok(s) => s,
                        Err(e) => {
                            return Err(e);
                        },
                    };
                    statements.push((stmt, line_num));
                    proof {
                        match spec_statement(toks, pre) {
                            Some(res) => {
                                match spec_parse_loop(toks, self.position as int) {
                                    Some(rest) => {
                                        assert(pairs_view(statements@) =~= pairs_view(stmts_pre)
                                            + seq![(res.0, line_num)]);
                                        assert((pairs_view(stmts_pre) + seq![(res.0, line_num)])
                                            + rest =~= pairs_view(stmts_pre) + (seq![
                                            (res.0, line_num),
                                        ] + rest));
                                    },
                                    None => {},
                                }
                            },
                            None => {
                                assert(false);
                            },
                        }
                    }
                },
            }
        }
        Ok(Program { statements })
    }

    /// Dispatches on the statement's leading token.
    fn parse_statement(&mut self) -> (r: Result<Statement, String>)
        ensures
            final(self).tokens == old(self).tokens,
            r is Ok ==> old(self).position < final(self).position,
            old(self).position <= final(self).position,
            (final(self).position <= old(self).tokens@.len() || final(self).position == old(
                self,
            ).position),
            match spec_statement(old(self).tokens@, old(self).position as int) {
                Some(res) => r is Ok && stmt_view(r->Ok_0) == res.0 && final(self).position
                    == res.1,
                None => r is Err,
            },
        decreases old(self).tokens@.len() - old(self).position, 3int,
    {
        match self.current_token() {
            Token::Eom(_) => self.parse_assignment(),
            Token::Sik => self.parse_console(),
            Token::Dongtan => self.parse_conditional(),
            Token::Joon => self.parse_goto(),
            Token::Hwaiting => self.parse_return(),
            _ => Err("Unexpected token at statement start".to_owned()),
        }
    }

    /// An assignment or an input statement: the marker's count names the
    /// target slot; a console-question suffix reads input, a bare end of
    /// line assigns zero, anything else assigns the parsed expression.
    fn parse_assignment(&mut self) -> (r: Result<Statement, String>)
        ensures
            final(self).tokens == old(self).tokens,
            r is Ok ==> old(self).position < final(self).position,
            old(self).position <= final(self).position,
            (final(self).position <= old(self).tokens@.len() || final(self).position == old(
                self,
            ).position),
            match spec_assignment(old(self).tokens@, old(self).position as int) {
                Some(res) => r is Ok && stmt_view(r->Ok_0) == res.0 && final(self).position
                    == res.1,
                None => r is Err,
            },
        decreases old(self).tokens@.len() - old(self).position, 2int,
    {
        let var_index: usize = match self.current_token() {
            Token::Eom(eo_count) => {
                let index = if eo_count < usize::MAX {
                    eo_count + 1
                } else {
                    eo_count
                };
                self.advance();
                index
            },
            _ => {
                return Err("Expected assignment token".to_owned());
            },
        };
        if matches!(self.current_token(), Token::Sik) {
            self.advance();
            if matches!(self.current_token(), Token::Question) {
                self.advance();
                return Ok(Statement::Input { var_index });
            } else {
                return Err("Expected '?' after console keyword in input".to_owned());
            }
        }
        if matches!(self.current_token(), Token::Newline | Token::EOF) {
            return Ok(Statement::Assign { var_index, value: Expr::Number(0) });
        }
        let value = match self.parse_expr() {
            Ok(v) => v,
            Err(e) => {
                return Err(e);
            },
        };
        Ok(Statement::Assign { var_index, value })
    }

    /// The count carried by a variable-reference token, if one is here.
    fn count_eo_sequence(&mut self) -> (r: usize)
        ensures
            final(self).tokens == old(self).tokens,
            old(self).position <= final(self).position,
            (final(self).position <= old(self).tokens@.len() || final(self).position == old(
                self,
            ).position),
            match tok_at(old(self).tokens@, old(self).position as int) {
                Token::Eo(c) => r == c && final(self).position == old(self).position + 1,
                _ => r == 0 && final(self).position == old(self).position,
            },
    {
        match self.current_token() {
            Token::Eo(count) => {
                proof {
                    assert(old(self).position < old(self).tokens@.len());
                }
                self.advance();
                count
            },
            _ => 0,
        }
    }

    /// A console statement: a bare newline terminator, or an expression
    /// printed as a character or as a number.
    fn parse_console(&mut self) -> (r: Result<Statement, String>)
        ensures
            final(self).tokens == old(self).tokens,
            r is Ok ==> old(self).position < final(self).position,
            old(self).position <= final(self).position,
            (final(self).position <= old(self).tokens@.len() || final(self).position == old(
                self,
            ).position),
            match spec_console(old(self).tokens@, old(self).position as int) {
                Some(res) => r is Ok && stmt_view(r->Ok_0) == res.0 && final(self).position
                    == res.1,
                None => r is Err,
            },
        decreases old(self).tokens@.len() - old(self).position, 2int,
    {
        self.advance();
        match self.current_token() {
            Token::Question => Err("Input is only legal inside an assignment".to_owned()),
            Token::Exclamation => Err("Expected an expression before '!'".to_owned()),
            Token::Kek => {
                self.advance();
                Ok(Statement::PrintNewline)
            },
            _ => {
                let expr = match self.parse_expr() {
                    Ok(v) => v,
                    Err(e) => {
                        return Err(e);
                    },
                };
                match self.current_token() {
                    Token::Kek => {
                        self.advance();
                        Ok(Statement::PrintChar(expr))
                    },
                    Token::Exclamation => {
                        self.advance();
                        Ok(Statement::PrintNum(expr))
                    },
                    _ => Err("Expected print terminator after expression".to_owned()),
                }
            },
        }
    }

    /// A conditional: its body runs while the current physical line
    /// lasts and never consumes its terminator.
    #[verifier::loop_isolation(false)]
    fn parse_conditional(&mut self) -> (r: Result<Statement, String>)
        ensures
            final(self).tokens == old(self).tokens,
            r is Ok ==> old(self).position < final(self).position,
            old(self).position <= final(self).position,
            (final(self).position <= old(self).tokens@.len() || final(self).position == old(
                self,
            ).position),
            match spec_conditional(old(self).tokens@, old(self).position as int) {
                Some(res) => r is Ok && stmt_view(r->Ok_0) == res.0 && final(self).position
                    == res.1,
                None => r is Err,
            },
        decreases old(self).tokens@.len() - old(self).position, 2int,
    {
        let ghost toks = self.tokens@;
        let ghost pos0 = self.position as int;
        self.advance();
        let condition = match self.parse_expr() {
            Ok(v) => v,
            Err(e) => {
                return Err(e);
            },
        };
        match self.expect(Token::Question) {
            Ok(()) => {},
            Err(e) => {
                return Err(e);
            },
        }
        let ghost body_start = self.position as int;
        let mut body: Vec<Statement> = Vec::new();
        proof {
            assert(crate::ast::stmts_view(body@) =~= Seq::<StmtView>::empty());
        }
        while !matches!(
            self.current_token(),
            Token::Newline | Token::Tilde | Token::EOF | Token::IEotteonSaram,
        )
            invariant
                self.tokens == old(self).tokens,
                self.tokens@ == toks,
                pos0 < self.position,
                (self.position <= self.tokens@.len() || self.position == pos0 + 1),
                match spec_body(toks, self.position as int) {
                    Some(res) => spec_body(toks, body_start) == Some(
                        (crate::ast::stmts_view(body@) + res.0, res.1),
                    ),
                    None => spec_body(toks, body_start) is None,
                },
            decreases self.tokens@.len() - self.position,
        {
            let ghost pre = self.position as int;
            let ghost body_pre = body@;
            let stmt = match self.parse_statement() {
                Ok(s) => s,
                Err(e) => {
                    return Err(e);
                },
            };
            body.push(stmt);
            proof {
                match spec_statement(toks, pre) {
                    Some(res) => {
                        match spec_body(toks, self.position as int) {
                            Some(resb) => {
                                assert(body@.drop_last() =~= body_pre);
                                assert(crate::ast::stmts_view(body@) =~= crate::ast::stmts_view(
                                    body_pre,
                                ) + seq![res.0]);
                                assert((crate::ast::stmts_view(body_pre) + seq![res.0]) + resb.0
                                    =~= crate::ast::stmts_view(body_pre) + (seq![res.0] + resb.0));
                            },
                            None => {},
                        }
                    },
                    None => {
                        assert(false);
                    },
                }
            }
        }
        proof {
            assert(crate::ast::stmts_view(body@) + Seq::<StmtView>::empty()
                =~= crate::ast::stmts_view(body@));
        }
        Ok(Statement::Conditional { condition, body })
    }

    /// A goto: its target must be a constant, positive expression that
    /// fits a line number; a variable in the target is a parse error.
    fn parse_goto(&mut self) -> (r: Result<Statement, String>)
        ensures
            final(self).tokens == old(self).tokens,
            r is Ok ==> old(self).position < final(self).position,
            old(self).position <= final(self).position,
            (final(self).position <= old(self).tokens@.len() || final(self).position == old(
                self,
            ).position),
            match spec_goto(old(self).tokens@, old(self).position as int) {
                Some(res) => r is Ok && stmt_view(r->Ok_0) == res.0 && final(self).position
                    == res.1,
                None => r is Err,
            },
        decreases old(self).tokens@.len() - old(self).position, 2int,
    {
        self.advance();
        let line_expr = match self.parse_expr() {
            Ok(v) => v,
            Err(e) => {
                return Err(e);
            },
        };
        match Self::eval_const_expr(&line_expr) {
            Some(line) => {
                if line > 0 {
                    let lu = line as u64;
                    if lu <= usize::MAX as u64 {
                        Ok(Statement::Goto(lu as usize))
                    } else {
                        Err("Goto line number does not fit".to_owned())
                    }
                } else {
                    Err("Goto line number must be positive".to_owned())
                }
            },
            None => Err("Goto requires a constant expression".to_owned()),
        }
    }

    /// The value of a constant expression: none when a variable is
    /// reachable in it.  Arithmetic wraps at the machine width.
    fn eval_const_expr(expr: &Expr) -> (r: Option<i64>)
        ensures
            r == spec_eval_const(*expr),
        decreases *expr,
    {
        match expr {
            Expr::Number(n) => Some(*n),
            Expr::Var(_) => None,
            Expr::Add(l, r) => {
                let left = match Self::eval_const_expr(&**l) {
                    Some(v) => v,
                    None => {
                        return None;
                    },
                };
                let right = match Self::eval_const_expr(&**r) {
                    Some(v) => v,
                    None => {
                        return None;
                    },
                };
                Some(left.wrapping_add(right))
            },
            Expr::Sub(l, r) => {
                let left = match Self::eval_const_expr(&**l) {
                    Some(v) => v,
                    None => {
                        return None;
                    },
                };
                let right = match Self::eval_const_expr(&**r) {
                    Some(v) => v,
                    None => {
                        return None;
                    },
                };
                Some(left.wrapping_sub(right))
            },
            Expr::Mul(l, r) => {
                let left = match Self::eval_const_expr(&**l) {
                    Some(v) => v,
                    None => {
                        return None;
                    },
                };
                let right = match Self::eval_const_expr(&**r) {
                    Some(v) => v,
                    None => {
                        return None;
                    },
                };
                Some(left.wrapping_mul(right))
            },
        }
    }

    /// A return: the keyword, a required exclamation, then the value.
    fn parse_return(&mut self) -> (r: Result<Statement, String>)
        ensures
            final(self).tokens == old(self).tokens,
            r is Ok ==> old(self).position < final(self).position,
            old(self).position <= final(self).position,
            (final(self).position <= old(self).tokens@.len() || final(self).position == old(
                self,
            ).position),
            match spec_return(old(self).tokens@, old(self).position as int) {
                Some(res) => r is Ok && stmt_view(r->Ok_0) == res.0 && final(self).position
                    == res.1,
                None => r is Err,
            },
        decreases old(self).tokens@.len() - old(self).position, 2int,
    {
        self.advance();
        match self.expect(Token::Exclamation) {
            Ok(()) => {},
            Err(e) => {
                return Err(e);
            },
        }
        let value = match self.parse_expr() {
            Ok(v) => v,
            Err(e) => {
                return Err(e);
            },
        };
        Ok(Statement::Return(value))
    }

    /// An expression: left-associative juxtaposition of additive terms.
    fn parse_expr(&mut self) -> (r: Result<Expr, String>)
        ensures
            final(self).tokens == old(self).tokens,
            r is Ok ==> old(self).position < final(self).position,
            old(self).position <= final(self).position,
            (final(self).position <= old(self).tokens@.len() || final(self).position == old(
                self,
            ).position),
            match spec_expr(old(self).tokens@, old(self).position as int) {
                Some(res) => r is Ok && r->Ok_0 == res.0 && final(self).position == res.1,
                None => r is Err,
            },
        decreases old(self).tokens@.len() - old(self).position, 1int,
    {
        self.parse_multiplicative()
    }

    /// Skips the space tokens that separate adjacent terms visually.
    fn skip_spaces(&mut self)
        ensures
            final(self).tokens == old(self).tokens,
            final(self).position as int == spec_skip_spaces(
                old(self).tokens@,
                old(self).position as int,
            ),
            !(tok_at(final(self).tokens@, final(self).position as int) is Space),
            old(self).position <= final(self).position,
            (final(self).position <= old(self).tokens@.len() || final(self).position == old(
                self,
            ).position),
    {
        while self.position < self.tokens.len() && matches!(
            self.tokens[self.position].token,
            Token::Space,
        )
            invariant
                self.tokens == old(self).tokens,
                old(self).position <= self.position,
                (self.position <= self.tokens@.len() || self.position == old(self).position),
                spec_skip_spaces(old(self).tokens@, old(self).position as int)
                    == spec_skip_spaces(self.tokens@, self.position as int),
            decreases self.tokens@.len() - self.position,
        {
            self.position = self.position + 1;
        }
    }

    /// Left-associative multiplication by juxtaposition: while another
    /// additive term is adjacent, it multiplies into the product; spaces
    /// between terms only separate them visually.
    #[verifier::loop_isolation(false)]
    fn parse_multiplicative(&mut self) -> (r: Result<Expr, String>)
        ensures
            final(self).tokens == old(self).tokens,
            r is Ok ==> old(self).position < final(self).position,
            old(self).position <= final(self).position,
            (final(self).position <= old(self).tokens@.len() || final(self).position == old(
                self,
            ).position),
            match spec_expr(old(self).tokens@, old(self).position as int) {
                Some(res) => r is Ok && r->Ok_0 == res.0 && final(self).position == res.1,
                None => r is Err,
            },
        decreases old(self).tokens@.len() - old(self).position, 0int,
    {
        let ghost toks = self.tokens@;
        let ghost pos0 = self.position as int;
        let mut left = match self.parse_additive() {
            Ok(v) => v,
            Err(e) => {
                return Err(e);
            },
        };
        let ghost p_add = self.position as int;
        self.skip_spaces();
        proof {
            assert(spec_skip_spaces(toks, self.position as int) == self.position as int);
            assert(spec_mul_rest(toks, p_add, left) == spec_mul_rest(
                toks,
                self.position as int,
                left,
            ));
        }
        while self.position < self.tokens.len() && matches!(
            self.tokens[self.position].token,
            Token::Dot | Token::Comma | Token::Eo(_),
        )
            invariant
                self.tokens == old(self).tokens,
                self.tokens@ == toks,
                pos0 < self.position,
                self.position <= self.tokens@.len(),
                !(tok_at(toks, self.position as int) is Space),
                spec_expr(toks, pos0) == spec_mul_rest(toks, self.position as int, left),
            decreases self.tokens@.len() - self.position,
        {
            let ghost hp = self.position as int;
            let ghost lft = left;
            let right = match self.parse_additive() {
                Ok(v) => v,
                Err(e) => {
                    return Err(e);
                },
            };
            let ghost p2g = self.position as int;
            left = Expr::Mul(Box::new(left), Box::new(right));
            proof {
                assert(spec_skip_spaces(toks, hp) == hp);
                assert(spec_mul_rest(toks, hp, lft) == spec_mul_rest(toks, p2g, left));
            }
            self.skip_spaces();
            proof {
                assert(spec_skip_spaces(toks, self.position as int) == self.position as int);
                assert(spec_mul_rest(toks, p2g, left) == spec_mul_rest(
                    toks,
                    self.position as int,
                    left,
                ));
            }
        }
        proof {
            assert(spec_skip_spaces(toks, self.position as int) == self.position as int);
            assert(spec_mul_rest(toks, self.position as int, left) == Some(
                (left, self.position as int),
            ));
        }
        Ok(left)
    }

    /// One additive term: a counted run of increment and decrement
    /// punctuation, optionally combined with at most one variable
    /// reference on either side.  The run's counters saturate; a token
    /// stream long enough to reach the limit cannot exist in memory.
    #[verifier::loop_isolation(false)]
    fn parse_additive(&mut self) -> (r: Result<Expr, String>)
        ensures
            final(self).tokens == old(self).tokens,
            r is Ok ==> old(self).position < final(self).position,
            old(self).position <= final(self).position,
            (final(self).position <= old(self).tokens@.len() || final(self).position == old(
                self,
            ).position),
            match spec_additive(old(self).tokens@, old(self).position as int) {
                Some(res) => r is Ok && r->Ok_0 == res.0 && final(self).position == res.1,
                None => r is Err,
            },
    {
        let ghost toks = self.tokens@;
        let ghost pos0 = self.position as int;
        let mut dots: i64 = 0;
        let mut commas: i64 = 0;
        let mut has_var = false;
        let mut var_index: usize = 0;
        while self.position < self.tokens.len() && (matches!(
            self.tokens[self.position].token,
            Token::Dot | Token::Comma,
        ) || (matches!(self.tokens[self.position].token, Token::Eo(_)) && !has_var))
            invariant
                self.tokens == old(self).tokens,
                self.tokens@ == toks,
                pos0 <= self.position,
                (self.position <= self.tokens@.len() || self.position == pos0),
                0 <= dots,
                0 <= commas,
                ((dots > 0 || commas > 0 || has_var) ==> pos0 < self.position),
                spec_add_scan(toks, pos0, 0, 0, false, 0) == spec_add_scan(
                    toks,
                    self.position as int,
                    dots,
                    commas,
                    has_var,
                    var_index,
                ),
            decreases self.tokens@.len() - self.position,
        {
            match self.current_token() {
                Token::Dot => {
                    dots = if dots < i64::MAX {
                        dots + 1
                    } else {
                        dots
                    };
                    self.advance();
                },
                Token::Comma => {
                    commas = if commas < i64::MAX {
                        commas + 1
                    } else {
                        commas
                    };
                    self.advance();
                },
                Token::Eo(_) => {
                    var_index = self.count_eo_sequence();
                    has_var = true;
                },
                _ => {},
            }
        }
        if !has_var && dots == 0 && commas == 0 {
            return Err("Expected expression".to_owned());
        }
        if !has_var {
            return Ok(Expr::Number(dots - commas));
        }
        let base_expr = Expr::Var(var_index);
        if dots > 0 || commas > 0 {
            Ok(Expr::Add(Box::new(base_expr), Box::new(Expr::Number(dots - commas))))
        } else {
            Ok(base_expr)
        }
    }
}

} // verus!
