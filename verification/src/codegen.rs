use vstd::prelude::*;
use vstd::string::StrSliceExecFns;
use vstd::string::StringExecFns;

use crate::ast::{Expr, Program, Statement, StmtView};
use crate::ast::{expr_vars, prog_vars, prog_view, stmt_vars, stmt_view, stmts_list_vars, stmts_view};
use crate::text::{append_i64, append_u64, append_usize, dec_str, int_str};

verus! {

/// Identity of a basic-block label in the emitted function.
///
/// Blocks named after source lines carry the line number; blocks
/// synthesized for conditionals and for the input automaton carry the
/// value of the block counter at the moment they were created.
pub enum LabelId {
    Line(nat),
    Then(nat),
    Else(nat),
    InputSkipWs(nat),
    InputStart(nat),
    InputLoop(nat),
    InputLoopProc(nat),
    InputDone(nat),
}

/// The textual name of a label.
pub open spec fn label_name(l: LabelId) -> Seq<char> {
    match l {
        LabelId::Line(n) => "line_"@ + dec_str(n),
        LabelId::Then(n) => "then_"@ + dec_str(n),
        LabelId::Else(n) => "else_"@ + dec_str(n),
        LabelId::InputSkipWs(n) => "input_skip_ws_"@ + dec_str(n),
        LabelId::InputStart(n) => "input_start_"@ + dec_str(n),
        LabelId::InputLoop(n) => "input_loop_"@ + dec_str(n),
        LabelId::InputLoopProc(n) => "input_loop_"@ + dec_str(n) + "_proc"@,
        LabelId::InputDone(n) => "input_done_"@ + dec_str(n),
    }
}

/// The name of the temporary numbered `k`.
pub open spec fn tmp_name(k: nat) -> Seq<char> {
    "%t"@ + dec_str(k)
}

/// The name of the storage cell of variable slot `i`.
pub open spec fn var_ptr_name(i: nat) -> Seq<char> {
    "%var_ptr_"@ + dec_str(i)
}

/// One line of the emitted function body, between the header and the
/// closing brace.  Control transfers keep their targets structured so
/// that properties of the block graph can be stated over the emitted
/// text.
pub enum IrLine {
    /// A block label line.
    Label(LabelId),
    /// An instruction with no control effect, by its full text.
    Inst(Seq<char>),
    /// An unconditional jump.
    Jmp(LabelId),
    /// A conditional branch: to the first target when the named operand
    /// is nonzero, else to the second.
    Br(Seq<char>, LabelId, LabelId),
    /// A return of the named operand.
    Ret(Seq<char>),
}

/// The text of one emitted line.
pub open spec fn render_line(l: IrLine) -> Seq<char> {
    match l {
        IrLine::Label(id) => "\n  "@ + label_name(id) + ":\n"@,
        IrLine::Inst(text) => "    "@ + text + "\n"@,
        IrLine::Jmp(t) => "    jmp "@ + label_name(t) + "\n"@,
        IrLine::Br(c, a, b) => "    br "@ + c + ", "@ + label_name(a) + ", "@ + label_name(b)
            + "\n"@,
        IrLine::Ret(v) => "    ret.i64 "@ + v + "\n"@,
    }
}

/// The text of a sequence of emitted lines.
pub open spec fn render(ls: Seq<IrLine>) -> Seq<char>
    decreases ls,
{
    if ls.len() == 0 {
        seq![]
    } else {
        render(ls.drop_last()) + render_line(ls.last())
    }
}

/// Rendering distributes over concatenation of line sequences.
pub broadcast proof fn lemma_render_concat(a: Seq<IrLine>, b: Seq<IrLine>)
    ensures
        #[trigger] render(a + b) == render(a) + render(b),
    decreases b.len(),
{
    if b.len() == 0 {
        assert(a + b =~= a);
        assert(render(a) + render(b) =~= render(a));
    } else {
        lemma_render_concat(a, b.drop_last());
        assert((a + b).drop_last() =~= a + b.drop_last());
        assert((a + b).last() == b.last());
        assert(render(a + b) =~= render(a) + render(b));
    }
}

/// The text of one line equals the rendering of the singleton sequence.
pub broadcast proof fn lemma_render_one(l: IrLine)
    ensures
        #[trigger] render(seq![l]) == render_line(l),
{
    assert(seq![l].drop_last() =~= Seq::<IrLine>::empty());
    assert(render(Seq::<IrLine>::empty()) == Seq::<char>::empty());
    assert(seq![l].last() == l);
    assert(render(seq![l]) == Seq::<char>::empty() + render_line(l));
    assert(Seq::<char>::empty() + render_line(l) =~= render_line(l));
}

/// Concatenation of character sequences is associative.
pub broadcast proof fn lemma_chars_add_assoc(a: Seq<char>, b: Seq<char>, c: Seq<char>)
    ensures
        #[trigger] ((a + b) + c) == a + (b + c),
{
    assert((a + b) + c =~= a + (b + c));
}

/// The code generator: lowers a [`Program`] to the textual intermediate
/// representation, one labeled basic block per source line.
///
/// All naming state lives in this value and is rebuilt for each
/// generation pass; independent generators never interfere.
pub struct CodeGenerator {
    pub output: String,
    pub var_counter: usize,
    pub block_counter: usize,
    /// The variable slots with an allocated storage cell, strictly
    /// ascending.  A slot's cell name is a pure function of the slot, so
    /// the set of slots is the whole slot-to-storage mapping.
    pub used_vars: Vec<usize>,
}

impl Default for CodeGenerator {
    fn default() -> (r: Self)
        ensures
            r.output@ == Seq::<char>::empty(),
            r.var_counter == 0,
            r.block_counter == 0,
            r.used_vars@ == Seq::<usize>::empty(),
    {
        Self::new()
    }
}

impl CodeGenerator {
    /// A fresh generator with empty output and zeroed counters.
    pub fn new() -> (r: Self)
        ensures
            r.output@ == Seq::<char>::empty(),
            r.var_counter == 0,
            r.block_counter == 0,
            r.used_vars@ == Seq::<usize>::empty(),
    {
        CodeGenerator {
            output: String::new(),
            var_counter: 0,
            block_counter: 0,
            used_vars: Vec::new(),
        }
    }

    /// Returns the name of a fresh temporary and advances the counter;
    /// fails only when the counter cannot be advanced.
    fn new_var(&mut self) -> (r: Result<String, String>)
        ensures
            old(self).var_counter < usize::MAX ==> {
                &&& r is Ok
                &&& r->Ok_0@ == tmp_name(old(self).var_counter as nat)
                &&& final(self).var_counter == old(self).var_counter + 1
                &&& final(self).output == old(self).output
                &&& final(self).block_counter == old(self).block_counter
                &&& final(self).used_vars == old(self).used_vars
            },
            old(self).var_counter == usize::MAX ==> r is Err,
    {
        if self.var_counter == usize::MAX {
            return Err("too many temporaries".to_owned());
        }
        let mut name = "%t".to_owned();
        append_usize(&mut name, self.var_counter);
        self.var_counter = self.var_counter + 1;
        Ok(name)
    }

    /// Returns the name of a fresh temporary and advances the counter;
    /// the caller has already secured room in the counter.
    fn next_temp(&mut self) -> (r: String)
        requires
            old(self).var_counter < usize::MAX,
        ensures
            r@ == tmp_name(old(self).var_counter as nat),
            final(self).var_counter == old(self).var_counter + 1,
            final(self).output == old(self).output,
            final(self).block_counter == old(self).block_counter,
            final(self).used_vars == old(self).used_vars,
    {
        let mut name = "%t".to_owned();
        append_usize(&mut name, self.var_counter);
        self.var_counter = self.var_counter + 1;
        name
    }

    /// Appends one instruction line to the output.
    fn emit_inst(&mut self, text: &String)
        ensures
            final(self).output@ == old(self).output@ + render_line(IrLine::Inst(text@)),
            final(self).var_counter == old(self).var_counter,
            final(self).block_counter == old(self).block_counter,
            final(self).used_vars == old(self).used_vars,
    {
        self.output.append("    ");
        self.output.append(text.as_str());
        self.output.append("\n");
        proof {
            assert(final(self).output@ =~= old(self).output@ + render_line(
                IrLine::Inst(text@),
            ));
        }
    }

    /// Appends one label line to the output.
    fn emit_label(&mut self, name: &String, Ghost(id): Ghost<LabelId>)
        requires
            name@ == label_name(id),
        ensures
            final(self).output@ == old(self).output@ + render_line(IrLine::Label(id)),
            final(self).var_counter == old(self).var_counter,
            final(self).block_counter == old(self).block_counter,
            final(self).used_vars == old(self).used_vars,
    {
        self.output.append("\n  ");
        self.output.append(name.as_str());
        self.output.append(":\n");
        proof {
            assert(final(self).output@ =~= old(self).output@ + render_line(
                IrLine::Label(id),
            ));
        }
    }

    /// Appends one unconditional jump line to the output.
    fn emit_jmp(&mut self, target: &String, Ghost(id): Ghost<LabelId>)
        requires
            target@ == label_name(id),
        ensures
            final(self).output@ == old(self).output@ + render_line(IrLine::Jmp(id)),
            final(self).var_counter == old(self).var_counter,
            final(self).block_counter == old(self).block_counter,
            final(self).used_vars == old(self).used_vars,
    {
        self.output.append("    jmp ");
        self.output.append(target.as_str());
        self.output.append("\n");
        proof {
            assert(final(self).output@ =~= old(self).output@ + render_line(IrLine::Jmp(id)));
        }
    }

    /// Appends one conditional branch line to the output.
    fn emit_br(&mut self, cond: &String, a: &String, b: &String, Ghost(ida): Ghost<LabelId>, Ghost(
        idb,
    ): Ghost<LabelId>)
        requires
            a@ == label_name(ida),
            b@ == label_name(idb),
        ensures
            final(self).output@ == old(self).output@ + render_line(
                IrLine::Br(cond@, ida, idb),
            ),
            final(self).var_counter == old(self).var_counter,
            final(self).block_counter == old(self).block_counter,
            final(self).used_vars == old(self).used_vars,
    {
        self.output.append("    br ");
        self.output.append(cond.as_str());
        self.output.append(", ");
        self.output.append(a.as_str());
        self.output.append(", ");
        self.output.append(b.as_str());
        self.output.append("\n");
        proof {
            assert(final(self).output@ =~= old(self).output@ + render_line(
                IrLine::Br(cond@, ida, idb),
            ));
        }
    }

    /// Appends one return line to the output.
    fn emit_ret(&mut self, value: &String)
        ensures
            final(self).output@ == old(self).output@ + render_line(IrLine::Ret(value@)),
            final(self).var_counter == old(self).var_counter,
            final(self).block_counter == old(self).block_counter,
            final(self).used_vars == old(self).used_vars,
    {
        self.output.append("    ret.i64 ");
        self.output.append(value.as_str());
        self.output.append("\n");
        proof {
            assert(final(self).output@ =~= old(self).output@ + render_line(
                IrLine::Ret(value@),
            ));
        }
    }
}

/// The name of the block for source line `n`, as a string.
fn line_label_string(n: usize) -> (r: String)
    ensures
        r@ == label_name(LabelId::Line(n as nat)),
{
    let mut s = "line_".to_owned();
    append_usize(&mut s, n);
    s
}

/// The name of the storage cell of slot `i`, as a string.
fn var_ptr_string(i: usize) -> (r: String)
    ensures
        r@ == var_ptr_name(i as nat),
{
    let mut s = "%var_ptr_".to_owned();
    append_usize(&mut s, i);
    s
}


/// A strictly ascending sequence of slots.
pub open spec fn sorted_unique(s: Seq<usize>) -> bool {
    forall|i: int, j: int| 0 <= i < j < s.len() ==> s[i] < s[j]
}

/// `v` inserted into the ascending slot list `s`, keeping the order and
/// dropping a duplicate.
pub open spec fn insert_sorted(s: Seq<usize>, v: usize) -> Seq<usize>
    decreases s.len(),
{
    if s.len() == 0 {
        seq![v]
    } else if v < s[0] {
        seq![v] + s
    } else if v == s[0] {
        s
    } else {
        seq![s[0]] + insert_sorted(s.drop_first(), v)
    }
}

/// What the scan of [`insert_sorted`] does, given the split point the
/// scan stops at.
pub proof fn lemma_insert_sorted_split(s: Seq<usize>, v: usize, i: int)
    requires
        0 <= i <= s.len(),
        forall|k: int| 0 <= k < i ==> s[k] < v,
        i < s.len() ==> s[i] >= v,
    ensures
        i < s.len() && s[i] == v ==> insert_sorted(s, v) == s,
        !(i < s.len() && s[i] == v) ==> insert_sorted(s, v) == s.insert(i, v),
    decreases s.len(),
{
    if i == 0 {
        if s.len() == 0 {
            assert(insert_sorted(s, v) =~= s.insert(0, v));
        } else if s[0] == v {
        } else {
            assert(v < s[0]);
            assert(insert_sorted(s, v) =~= s.insert(0, v));
        }
    } else {
        let t = s.drop_first();
        lemma_insert_sorted_split(t, v, i - 1);
        assert(s[0] < v);
        if i < s.len() && s[i] == v {
            assert(t[i - 1] == v);
            assert(insert_sorted(s, v) =~= s);
        } else {
            assert(seq![s[0]] + t.insert(i - 1, v) =~= s.insert(i, v));
        }
    }
}

/// Inserting keeps the list ascending and adds exactly the slot `v`.
pub proof fn lemma_insert_sorted(s: Seq<usize>, v: usize)
    requires
        sorted_unique(s),
    ensures
        sorted_unique(insert_sorted(s, v)),
        forall|x: usize| #[trigger] insert_sorted(s, v).contains(x) <==> (s.contains(x) || x
            == v),
    decreases s.len(),
{
    let r = insert_sorted(s, v);
    if s.len() == 0 {
        assert(r =~= seq![v]);
        assert(r[0] == v);
        assert(r.contains(v));
        assert forall|x: usize| #[trigger] r.contains(x) implies (s.contains(x) || x == v) by {
            let i = choose|i: int| 0 <= i < r.len() && r[i] == x;
            assert(i == 0);
        }
    } else if v < s[0] {
        assert(r =~= seq![v] + s);
        assert forall|x: usize| #[trigger] r.contains(x) implies (s.contains(x) || x == v) by {
            let i = choose|i: int| 0 <= i < r.len() && r[i] == x;
            if i > 0 {
                assert(s[i - 1] == x);
            }
        }
        assert forall|x: usize| (s.contains(x) || x == v) implies #[trigger] r.contains(x) by {
            if x == v {
                assert(r[0] == x);
            } else {
                let i = choose|i: int| 0 <= i < s.len() && s[i] == x;
                assert(r[i + 1] == x);
            }
        }
    } else if v == s[0] {
        assert(r =~= s);
        assert(s[0] == v);
        assert(s.contains(v));
    } else {
        let t = s.drop_first();
        assert(sorted_unique(t));
        lemma_insert_sorted(t, v);
        let rt = insert_sorted(t, v);
        assert(r =~= seq![s[0]] + rt);
        // every element of the inserted tail is above the head
        assert forall|k: int| 0 <= k < rt.len() implies s[0] < rt[k] by {
            assert(rt.contains(rt[k]));
            if rt[k] == v {
            } else {
                let j = choose|j: int| 0 <= j < t.len() && t[j] == rt[k];
                assert(s[j + 1] == rt[k]);
            }
        }
        assert(sorted_unique(r));
        assert forall|x: usize| #[trigger] r.contains(x) implies (s.contains(x) || x == v) by {
            let i = choose|i: int| 0 <= i < r.len() && r[i] == x;
            if i == 0 {
                assert(s[0] == x);
            } else {
                assert(rt[i - 1] == x);
                assert(rt.contains(x));
                if x != v {
                    let j = choose|j: int| 0 <= j < t.len() && t[j] == x;
                    assert(s[j + 1] == x);
                }
            }
        }
        assert forall|x: usize| (s.contains(x) || x == v) implies #[trigger] r.contains(x) by {
            if x == v {
                assert(rt.contains(v));
                let j = choose|j: int| 0 <= j < rt.len() && rt[j] == v;
                assert(r[j + 1] == x);
            } else {
                let i = choose|i: int| 0 <= i < s.len() && s[i] == x;
                if i == 0 {
                    assert(r[0] == x);
                } else {
                    assert(t[i - 1] == x);
                    assert(t.contains(x));
                    assert(rt.contains(x));
                    let j = choose|j: int| 0 <= j < rt.len() && rt[j] == x;
                    assert(r[j + 1] == x);
                }
            }
        }
    }
}

/// Records slot `v` in the ascending slot list.
fn insert_slot(vars: &mut Vec<usize>, v: usize)
    ensures
        final(vars)@ == insert_sorted(old(vars)@, v),
{
    let mut i: usize = 0;
    while i < vars.len() && vars[i] < v
        invariant
            0 <= i <= vars@.len(),
            vars@ == old(vars)@,
            forall|k: int| 0 <= k < i ==> vars@[k] < v,
        decreases vars@.len() - i,
    {
        i = i + 1;
    }
    if i < vars.len() && vars[i] == v {
        proof {
            lemma_insert_sorted_split(vars@, v, i as int);
        }
    } else {
        vars.insert(i, v);
        proof {
            lemma_insert_sorted_split(old(vars)@, v, i as int);
        }
    }
}

/// Whether slot `v` has an allocated storage cell.
fn find_slot(vars: &Vec<usize>, v: usize) -> (r: bool)
    ensures
        r == vars@.contains(v),
{
    let mut i: usize = 0;
    while i < vars.len()
        invariant
            0 <= i <= vars@.len(),
            forall|k: int| 0 <= k < i ==> vars@[k] != v,
        decreases vars@.len() - i,
    {
        if vars[i] == v {
            proof {
                assert(vars@[i as int] == v);
            }
            return true;
        }
        i = i + 1;
    }
    proof {
        assert(!vars@.contains(v));
    }
    false
}

/// The slot list after recording every slot the expression reads.
pub open spec fn expr_collect(e: Expr, acc: Seq<usize>) -> Seq<usize>
    decreases e,
{
    match e {
        Expr::Number(_) => acc,
        Expr::Var(i) => insert_sorted(acc, i),
        Expr::Add(l, r) => expr_collect(*r, expr_collect(*l, acc)),
        Expr::Sub(l, r) => expr_collect(*r, expr_collect(*l, acc)),
        Expr::Mul(l, r) => expr_collect(*r, expr_collect(*l, acc)),
    }
}

/// The slot list after recording every slot the statement references.
pub open spec fn stmt_collect(s: StmtView, acc: Seq<usize>) -> Seq<usize>
    decreases s,
{
    match s {
        StmtView::Assign { var_index, value } => expr_collect(
            value,
            insert_sorted(acc, var_index),
        ),
        StmtView::Input { var_index } => insert_sorted(acc, var_index),
        StmtView::PrintNum(e) => expr_collect(e, acc),
        StmtView::PrintChar(e) => expr_collect(e, acc),
        StmtView::PrintNewline => acc,
        StmtView::Conditional { condition, body } => body_collect(
            body,
            expr_collect(condition, acc),
        ),
        StmtView::Goto(_) => acc,
        StmtView::Return(e) => expr_collect(e, acc),
    }
}

/// The slot list after recording every slot a statement sequence
/// references, front to back.
pub open spec fn body_collect(ss: Seq<StmtView>, acc: Seq<usize>) -> Seq<usize>
    decreases ss,
{
    if ss.len() == 0 {
        acc
    } else {
        body_collect(ss.drop_first(), stmt_collect(ss[0], acc))
    }
}

/// The slot list after recording every slot the program references.
pub open spec fn prog_collect(prog: Seq<(StmtView, usize)>, acc: Seq<usize>) -> Seq<usize>
    decreases prog.len(),
{
    if prog.len() == 0 {
        acc
    } else {
        prog_collect(prog.drop_first(), stmt_collect(prog[0].0, acc))
    }
}

/// The slots of a program with storage cells, ascending.
pub open spec fn spec_used(prog: Seq<(StmtView, usize)>) -> Seq<usize> {
    prog_collect(prog, seq![])
}

/// The length and the elements of the view of a statement sequence.
pub broadcast proof fn lemma_stmts_view_index(ss: Seq<Statement>, i: int)
    requires
        0 <= i < ss.len(),
    ensures
        stmts_view(ss).len() == ss.len(),
        #[trigger] stmts_view(ss)[i] == stmt_view(ss[i]),
    decreases ss,
{
    lemma_stmts_view_len(ss);
    if i < ss.len() - 1 {
        lemma_stmts_view_index(ss.drop_last(), i);
    }
}

/// A statement sequence and its view have the same length.
pub proof fn lemma_stmts_view_len(ss: Seq<Statement>)
    ensures
        stmts_view(ss).len() == ss.len(),
    decreases ss,
{
    if ss.len() > 0 {
        lemma_stmts_view_len(ss.drop_last());
    }
}


/// The lowering of one expression: the emitted lines, the next value of
/// the temporary counter, and the name of the temporary holding the
/// result.  `None` when the expression reads a slot without a storage
/// cell.
pub open spec fn gen_expr(e: Expr, used: Seq<usize>, t: nat) -> Option<(Seq<IrLine>, nat, Seq<char>)>
    decreases e,
{
    match e {
        Expr::Number(n) => Some(
            (
                seq![
                    IrLine::Inst(tmp_name(t) + " = add.i64 "@ + int_str(n as int) + ", 0"@),
                ],
                t + 1,
                tmp_name(t),
            ),
        ),
        Expr::Var(i) => if used.contains(i) {
            Some(
                (
                    seq![IrLine::Inst(tmp_name(t) + " = load.i64 "@ + var_ptr_name(i as nat))],
                    t + 1,
                    tmp_name(t),
                ),
            )
        } else {
            None
        },
        Expr::Add(l, r) => match gen_expr(*l, used, t) {
            Some((ls1, t1, n1)) => match gen_expr(*r, used, t1) {
                Some((ls2, t2, n2)) => Some(
                    (
                        ls1 + ls2 + seq![
                            IrLine::Inst(tmp_name(t2) + " = add.i64 "@ + n1 + ", "@ + n2),
                        ],
                        t2 + 1,
                        tmp_name(t2),
                    ),
                ),
                None => None,
            },
            None => None,
        },
        Expr::Sub(l, r) => match gen_expr(*l, used, t) {
            Some((ls1, t1, n1)) => match gen_expr(*r, used, t1) {
                Some((ls2, t2, n2)) => Some(
                    (
                        ls1 + ls2 + seq![
                            IrLine::Inst(tmp_name(t2) + " = sub.i64 "@ + n1 + ", "@ + n2),
                        ],
                        t2 + 1,
                        tmp_name(t2),
                    ),
                ),
                None => None,
            },
            None => None,
        },
        Expr::Mul(l, r) => match gen_expr(*l, used, t) {
            Some((ls1, t1, n1)) => match gen_expr(*r, used, t1) {
                Some((ls2, t2, n2)) => Some(
                    (
                        ls1 + ls2 + seq![
                            IrLine::Inst(tmp_name(t2) + " = mul.i64 "@ + n1 + ", "@ + n2),
                        ],
                        t2 + 1,
                        tmp_name(t2),
                    ),
                ),
                None => None,
            },
            None => None,
        },
    }
}

/// Holds when the lowering either fails or leaves the counter at or
/// above where it started.
pub open spec fn counter_moved_up(m: Option<(Seq<IrLine>, nat, Seq<char>)>, t: nat) -> bool {
    match m {
        Some(res) => res.1 >= t,
        None => true,
    }
}

/// Lowering an expression never moves the temporary counter backwards.
pub broadcast proof fn lemma_gen_expr_mono(e: Expr, used: Seq<usize>, t: nat)
    ensures
        counter_moved_up(#[trigger] gen_expr(e, used, t), t),
    decreases e,
{
    match e {
        Expr::Number(_) => {},
        Expr::Var(_) => {},
        Expr::Add(l, r) => {
            lemma_gen_expr_mono(*l, used, t);
            match gen_expr(*l, used, t) {
                Some(res) => lemma_gen_expr_mono(*r, used, res.1),
                None => {},
            }
        },
        Expr::Sub(l, r) => {
            lemma_gen_expr_mono(*l, used, t);
            match gen_expr(*l, used, t) {
                Some(res) => lemma_gen_expr_mono(*r, used, res.1),
                None => {},
            }
        },
        Expr::Mul(l, r) => {
            lemma_gen_expr_mono(*l, used, t);
            match gen_expr(*l, used, t) {
                Some(res) => lemma_gen_expr_mono(*r, used, res.1),
                None => {},
            }
        },
    }
}


impl CodeGenerator {
    /// Records every slot the expression reads.
    fn collect_vars_from_expr(expr: &Expr, vars: &mut Vec<usize>)
        ensures
            final(vars)@ == expr_collect(*expr, old(vars)@),
        decreases *expr,
    {
        match expr {
            Expr::Number(_) => {},
            Expr::Var(i) => {
                insert_slot(vars, *i);
            },
            Expr::Add(l, r) => {
                Self::collect_vars_from_expr(&**l, vars);
                Self::collect_vars_from_expr(&**r, vars);
            },
            Expr::Sub(l, r) => {
                Self::collect_vars_from_expr(&**l, vars);
                Self::collect_vars_from_expr(&**r, vars);
            },
            Expr::Mul(l, r) => {
                Self::collect_vars_from_expr(&**l, vars);
                Self::collect_vars_from_expr(&**r, vars);
            },
        }
    }

    /// Records every slot the statement references.
    #[verifier::loop_isolation(false)]
    fn collect_vars_from_statement(stmt: &Statement, vars: &mut Vec<usize>)
        ensures
            final(vars)@ == stmt_collect(stmt_view(*stmt), old(vars)@),
        decreases *stmt,
    {
        match stmt {
            Statement::Assign { var_index, value } => {
                insert_slot(vars, *var_index);
                Self::collect_vars_from_expr(value, vars);
            },
            Statement::Input { var_index } => {
                insert_slot(vars, *var_index);
            },
            Statement::PrintNum(e) => {
                Self::collect_vars_from_expr(e, vars);
            },
            Statement::PrintChar(e) => {
                Self::collect_vars_from_expr(e, vars);
            },
            Statement::PrintNewline => {},
            Statement::Conditional { condition, body } => {
                Self::collect_vars_from_expr(condition, vars);
                proof {
                    lemma_stmts_view_len(body@);
                    assert(stmts_view(body@).skip(0) =~= stmts_view(body@));
                }
                let mut i: usize = 0;
                while i < body.len()
                    invariant
                        0 <= i <= body@.len(),
                        stmts_view(body@).len() == body@.len(),
                        body_collect(stmts_view(body@), expr_collect(*condition, old(vars)@))
                            == body_collect(stmts_view(body@).skip(i as int), vars@),
                    decreases body@.len() - i,
                {
                    proof {
                        lemma_stmts_view_index(body@, i as int);
                        let ghost st = *stmt;
                        assert(st is Conditional);
                        assert(st->Conditional_body == *body);
                        assert(decreases_to!(st => st->Conditional_body));
                        assert(decreases_to!(st->Conditional_body => st->Conditional_body@));
                        assert(decreases_to!(st->Conditional_body@ => st->Conditional_body@[i as int]));
                        assert(decreases_to!(st => body@[i as int]));
                    }
                    Self::collect_vars_from_statement(&body[i], vars);
                    proof {
                        assert(stmts_view(body@).skip(i as int)[0] == stmt_view(
                            body@[i as int],
                        ));
                        assert(stmts_view(body@).skip(i as int).drop_first() =~= stmts_view(
                            body@,
                        ).skip(i as int + 1));
                    }
                    i = i + 1;
                }
                proof {
                    assert(stmts_view(body@).skip(body@.len() as int)
                        =~= Seq::<StmtView>::empty());
                }
            },
            Statement::Goto(_) => {},
            Statement::Return(e) => {
                Self::collect_vars_from_expr(e, vars);
            },
        }
    }

    /// Collects, in one pre-pass, every slot the program references:
    /// ascending and without duplicates.
    fn collect_used_variables(&self, program: &Program) -> (r: Vec<usize>)
        ensures
            r@ == spec_used(prog_view(program)),
    {
        let mut vars: Vec<usize> = Vec::new();
        proof {
            assert(prog_view(program).skip(0) =~= prog_view(program));
        }
        let mut i: usize = 0;
        while i < program.statements.len()
            invariant
                0 <= i <= program.statements@.len(),
                prog_view(program).len() == program.statements@.len(),
                prog_collect(prog_view(program), Seq::<usize>::empty()) == prog_collect(
                    prog_view(program).skip(i as int),
                    vars@,
                ),
            decreases program.statements@.len() - i,
        {
            Self::collect_vars_from_statement(&program.statements[i].0, &mut vars);
            proof {
                assert(prog_view(program)[i as int].0 == stmt_view(
                    program.statements@[i as int].0,
                ));
                assert(prog_view(program).skip(i as int)[0] == prog_view(program)[i as int]);
                assert(prog_view(program).skip(i as int).drop_first() =~= prog_view(
                    program,
                ).skip(i as int + 1));
            }
            i = i + 1;
        }
        proof {
            assert(prog_view(program).skip(program.statements@.len() as int) =~= Seq::<
                (StmtView, usize),
            >::empty());
            assert(spec_used(prog_view(program)) == prog_collect(
                prog_view(program),
                Seq::<usize>::empty(),
            ));
        }
        vars
    }

    /// Lowers one expression into the output; returns the name of the
    /// temporary holding its value.
    #[verifier::rlimit(50)]
    fn generate_expr(&mut self, expr: &Expr) -> (r: Result<String, String>)
        ensures
            match gen_expr(*expr, old(self).used_vars@, old(self).var_counter as nat) {
                Some(res) => {
                    &&& (r is Ok <==> res.1 <= usize::MAX as nat)
                    &&& (r is Ok ==> final(self).output@ == old(self).output@ + render(res.0))
                    &&& (r is Ok ==> final(self).var_counter as nat == res.1)
                    &&& (r is Ok ==> final(self).block_counter == old(self).block_counter)
                    &&& (r is Ok ==> final(self).used_vars == old(self).used_vars)
                    &&& (r is Ok ==> r->Ok_0@ == res.2)
                },
                None => r is Err,
            },
        decreases *expr,
    {
        broadcast use lemma_render_one, lemma_render_concat, lemma_gen_expr_mono;

        match expr {
            Expr::Number(n) => {
                let var = match self.new_var() {
                    Ok(v) => v,
                    Err(e) => {
                        return Err(e);
                    },
                };
                let mut text = var.clone();
                text.append(" = add.i64 ");
                append_i64(&mut text, *n);
                text.append(", 0");
                self.emit_inst(&text);
                Ok(var)
            },
            Expr::Var(index) => {
                if !find_slot(&self.used_vars, *index) {
                    let mut m = "Variable index ".to_owned();
                    append_usize(&mut m, *index);
                    m.append(" out of range");
                    return Err(m);
                }
                let loaded = match self.new_var() {
                    Ok(v) => v,
                    Err(e) => {
                        return Err(e);
                    },
                };
                let mut text = loaded.clone();
                text.append(" = load.i64 ");
                let ptr = var_ptr_string(*index);
                text.append(ptr.as_str());
                self.emit_inst(&text);
                Ok(loaded)
            },
            Expr::Add(left, right) => {
                let ln = match self.generate_expr(&**left) {
                    Ok(v) => v,
                    Err(e) => {
                        proof {
                            match gen_expr(
                                **left,
                                old(self).used_vars@,
                                old(self).var_counter as nat,
                            ) {
                                Some(res_l) => {
                                    lemma_gen_expr_mono(
                                        **right,
                                        old(self).used_vars@,
                                        res_l.1,
                                    );
                                },
                                None => {},
                            }
                        }
                        return Err(e);
                    },
                };
                let rn = match self.generate_expr(&**right) {
                    Ok(v) => v,
                    Err(e) => {
                        return Err(e);
                    },
                };
                let result = match self.new_var() {
                    Ok(v) => v,
                    Err(e) => {
                        return Err(e);
                    },
                };
                let mut text = result.clone();
                text.append(" = add.i64 ");
                text.append(ln.as_str());
                text.append(", ");
                text.append(rn.as_str());
                self.emit_inst(&text);
                proof {
                    match gen_expr(*expr, old(self).used_vars@, old(self).var_counter as nat) {
                        Some(res) => {
                            assert(final(self).output@ =~= old(self).output@ + render(res.0));
                        },
                        None => {},
                    }
                }
                Ok(result)
            },
            Expr::Sub(left, right) => {
                let ln = match self.generate_expr(&**left) {
                    Ok(v) => v,
                    Err(e) => {
                        proof {
                            match gen_expr(
                                **left,
                                old(self).used_vars@,
                                old(self).var_counter as nat,
                            ) {
                                Some(res_l) => {
                                    lemma_gen_expr_mono(
                                        **right,
                                        old(self).used_vars@,
                                        res_l.1,
                                    );
                                },
                                None => {},
                            }
                        }
                        return Err(e);
                    },
                };
                let rn = match self.generate_expr(&**right) {
                    Ok(v) => v,
                    Err(e) => {
                        return Err(e);
                    },
                };
                let result = match self.new_var() {
                    Ok(v) => v,
                    Err(e) => {
                        return Err(e);
                    },
                };
                let mut text = result.clone();
                text.append(" = sub.i64 ");
                text.append(ln.as_str());
                text.append(", ");
                text.append(rn.as_str());
                self.emit_inst(&text);
                proof {
                    match gen_expr(*expr, old(self).used_vars@, old(self).var_counter as nat) {
                        Some(res) => {
                            assert(final(self).output@ =~= old(self).output@ + render(res.0));
                        },
                        None => {},
                    }
                }
                Ok(result)
            },
            Expr::Mul(left, right) => {
                let ln = match self.generate_expr(&**left) {
                    Ok(v) => v,
                    Err(e) => {
                        proof {
                            match gen_expr(
                                **left,
                                old(self).used_vars@,
                                old(self).var_counter as nat,
                            ) {
                                Some(res_l) => {
                                    lemma_gen_expr_mono(
                                        **right,
                                        old(self).used_vars@,
                                        res_l.1,
                                    );
                                },
                                None => {},
                            }
                        }
                        return Err(e);
                    },
                };
                let rn = match self.generate_expr(&**right) {
                    Ok(v) => v,
                    Err(e) => {
                        return Err(e);
                    },
                };
                let result = match self.new_var() {
                    Ok(v) => v,
                    Err(e) => {
                        return Err(e);
                    },
                };
                let mut text = result.clone();
                text.append(" = mul.i64 ");
                text.append(ln.as_str());
                text.append(", ");
                text.append(rn.as_str());
                self.emit_inst(&text);
                proof {
                    match gen_expr(*expr, old(self).used_vars@, old(self).var_counter as nat) {
                        Some(res) => {
                            assert(final(self).output@ =~= old(self).output@ + render(res.0));
                        },
                        None => {},
                    }
                }
                Ok(result)
            },
        }
    }
}


/// The chain of equality tests of the digit value against 1 through 9,
/// folded into a boolean accumulator by addition: the emitted lines, the
/// next temporary counter, and the name of the final accumulator.
pub open spec fn digit_chain(digit_val: Seq<char>, acc: Seq<char>, t: nat, i: int) -> (
    Seq<IrLine>,
    nat,
    Seq<char>,
)
    decreases 10 - i,
{
    if i > 9 {
        (seq![], t, acc)
    } else {
        let val = tmp_name(t);
        let is_val = tmp_name(t + 1);
        let new_acc = tmp_name(t + 2);
        let lines = seq![
            IrLine::Inst(val + " = add.i64 "@ + dec_str(i as nat) + ", 0"@),
            IrLine::Inst(is_val + " = eq.i64 "@ + digit_val + ", "@ + val),
            IrLine::Inst(new_acc + " = add.i64 "@ + acc + ", "@ + is_val),
        ];
        let (rest, t2, acc2) = digit_chain(digit_val, new_acc, t + 3, i + 1);
        (lines + rest, t2, acc2)
    }
}

/// Holds when the digit chain advances the counter by exactly three per
/// remaining digit.
pub open spec fn digit_chain_counter_is(m: (Seq<IrLine>, nat, Seq<char>), t: nat, i: int) -> bool {
    m.1 == if i <= 9 {
        t + 3 * (10 - i)
    } else {
        t as int
    }
}

/// The digit chain advances the counter by three per remaining digit.
pub broadcast proof fn lemma_digit_chain_counter(digit_val: Seq<char>, acc: Seq<char>, t: nat, i: int)
    ensures
        digit_chain_counter_is(#[trigger] digit_chain(digit_val, acc, t, i), t, i),
    decreases 10 - i,
{
    if i <= 9 {
        lemma_digit_chain_counter(digit_val, tmp_name(t + 2), t + 3, i + 1);
    }
}

/// The first part of the input automaton: cell allocation, the
/// blank-skipping block, and the head of the digit-testing block, up to
/// the comparison of the digit value with zero.  `t` and `b` are the
/// counters at its start.
pub open spec fn input_prefix_items(t: nat, b: nat) -> Seq<IrLine> {
    let skip_ws = LabelId::InputSkipWs(b);
    let read_start = LabelId::InputStart(b);
    let read_loop = LabelId::InputLoop(b);
    let acc_ptr = tmp_name(t);
    let byte_ptr = tmp_name(t + 1);
    let ws_byte = tmp_name(t + 2);
    let space_val = tmp_name(t + 3);
    let is_space = tmp_name(t + 4);
    let newline_val = tmp_name(t + 5);
    let is_newline = tmp_name(t + 6);
    let is_ws = tmp_name(t + 7);
    let curr_byte = tmp_name(t + 8);
    let ascii_zero = tmp_name(t + 9);
    let digit_val = tmp_name(t + 10);
    let zero = tmp_name(t + 11);
    let is_zero = tmp_name(t + 12);
    seq![
        IrLine::Inst(acc_ptr + " = alloc.ptr.stack i64"@),
        IrLine::Inst("store.i64 "@ + acc_ptr + ", 0"@),
        IrLine::Inst(byte_ptr + " = alloc.ptr.stack i64"@),
        IrLine::Inst("store.i64 "@ + byte_ptr + ", 0"@),
        IrLine::Jmp(skip_ws),
        IrLine::Label(skip_ws),
        IrLine::Inst(ws_byte + " = readbyte"@),
        IrLine::Inst("store.i64 "@ + byte_ptr + ", "@ + ws_byte),
        IrLine::Inst(space_val + " = add.i64 32, 0"@),
        IrLine::Inst(is_space + " = eq.i64 "@ + ws_byte + ", "@ + space_val),
        IrLine::Inst(newline_val + " = add.i64 10, 0"@),
        IrLine::Inst(is_newline + " = eq.i64 "@ + ws_byte + ", "@ + newline_val),
        IrLine::Inst(is_ws + " = add.i64 "@ + is_space + ", "@ + is_newline),
        IrLine::Br(is_ws, skip_ws, read_start),
        IrLine::Label(read_start),
        IrLine::Jmp(read_loop),
        IrLine::Label(read_loop),
        IrLine::Inst(curr_byte + " = load.i64 "@ + byte_ptr),
        IrLine::Inst(ascii_zero + " = add.i64 48, 0"@),
        IrLine::Inst(digit_val + " = sub.i64 "@ + curr_byte + ", "@ + ascii_zero),
        IrLine::Inst(zero + " = add.i64 0, 0"@),
        IrLine::Inst(is_zero + " = eq.i64 "@ + digit_val + ", "@ + zero),
    ]
}

/// The last part of the input automaton: the branch on the digit test,
/// the digit-processing block, and the final store of the accumulator
/// into the target slot's cell.  `is_digit` is the name of the digit
/// test's accumulator, `digit_val` the name of the digit value, and
/// `t13` the counter after the digit chain.
pub open spec fn input_suffix_items(
    var_index: usize,
    is_digit: Seq<char>,
    digit_val: Seq<char>,
    acc_ptr: Seq<char>,
    byte_ptr: Seq<char>,
    t13: nat,
    b: nat,
) -> Seq<IrLine> {
    let read_loop = LabelId::InputLoop(b);
    let read_proc = LabelId::InputLoopProc(b);
    let read_done = LabelId::InputDone(b);
    let old_acc = tmp_name(t13);
    let ten = tmp_name(t13 + 1);
    let acc_times_10 = tmp_name(t13 + 2);
    let new_acc = tmp_name(t13 + 3);
    let next_byte = tmp_name(t13 + 4);
    let final_val = tmp_name(t13 + 5);
    seq![
        IrLine::Br(is_digit, read_proc, read_done),
        IrLine::Label(read_proc),
        IrLine::Inst(old_acc + " = load.i64 "@ + acc_ptr),
        IrLine::Inst(ten + " = add.i64 10, 0"@),
        IrLine::Inst(acc_times_10 + " = mul.i64 "@ + old_acc + ", "@ + ten),
        IrLine::Inst(new_acc + " = add.i64 "@ + acc_times_10 + ", "@ + digit_val),
        IrLine::Inst("store.i64 "@ + acc_ptr + ", "@ + new_acc),
        IrLine::Inst(next_byte + " = readbyte"@),
        IrLine::Inst("store.i64 "@ + byte_ptr + ", "@ + next_byte),
        IrLine::Jmp(read_loop),
        IrLine::Label(read_done),
        IrLine::Inst(final_val + " = load.i64 "@ + acc_ptr),
        IrLine::Inst("store.i64 "@ + var_ptr_name(var_index as nat) + ", "@ + final_val),
    ]
}

/// The lowering of one input statement: an inline automaton that skips
/// leading blank bytes, then accumulates decimal digit bytes into the
/// target slot.  Returns the emitted lines and the next counters.
pub open spec fn input_items(var_index: usize, used: Seq<usize>, t: nat, b: nat) -> Option<
    (Seq<IrLine>, nat, nat),
> {
    let digit_val = tmp_name(t + 10);
    let is_zero = tmp_name(t + 12);
    let chain = digit_chain(digit_val, is_zero, t + 13, 1);
    if used.contains(var_index) {
        Some(
            (
                input_prefix_items(t, b) + chain.0 + input_suffix_items(
                    var_index,
                    chain.2,
                    digit_val,
                    tmp_name(t),
                    tmp_name(t + 1),
                    chain.1,
                    b,
                ),
                chain.1 + 6,
                b + 1,
            ),
        )
    } else {
        None
    }
}

/// The lowering of one statement: the emitted lines, the next values of
/// the two counters, and whether control falls through to the next line
/// (false exactly for goto and return).
pub open spec fn gen_stmt(sv: StmtView, used: Seq<usize>, t: nat, b: nat, max_line: nat) -> Option<
    (Seq<IrLine>, nat, nat, bool),
>
    decreases sv,
{
    match sv {
        StmtView::Assign { var_index, value } => match gen_expr(value, used, t) {
            Some((ls, t2, name)) => if used.contains(var_index) {
                Some(
                    (
                        ls + seq![
                            IrLine::Inst(
                                "store.i64 "@ + var_ptr_name(var_index as nat) + ", "@ + name,
                            ),
                        ],
                        t2,
                        b,
                        true,
                    ),
                )
            } else {
                None
            },
            None => None,
        },
        StmtView::Input { var_index } => match input_items(var_index, used, t, b) {
            Some((ls, t2, b2)) => Some((ls, t2, b2, true)),
            None => None,
        },
        StmtView::PrintNum(e) => match gen_expr(e, used, t) {
            Some((ls, t2, name)) => Some(
                (ls + seq![IrLine::Inst("print "@ + name)], t2, b, true),
            ),
            None => None,
        },
        StmtView::PrintChar(e) => match gen_expr(e, used, t) {
            Some((ls, t2, name)) => Some(
                (
                    ls + seq![IrLine::Inst(tmp_name(t2) + " = writebyte "@ + name)],
                    t2 + 1,
                    b,
                    true,
                ),
            ),
            None => None,
        },
        StmtView::PrintNewline => Some(
            (
                seq![
                    IrLine::Inst(tmp_name(t) + " = add.i64 10, 0"@),
                    IrLine::Inst(tmp_name(t + 1) + " = writebyte "@ + tmp_name(t)),
                ],
                t + 2,
                b,
                true,
            ),
        ),
        StmtView::Conditional { condition, body } => match gen_expr(condition, used, t) {
            Some((cls, t1, cname)) => {
                let then_l = LabelId::Then(b);
                let else_l = LabelId::Else(b);
                let is_zero = tmp_name(t1);
                match gen_body(body, used, t1 + 1, b + 1, max_line) {
                    Some((bls, t2, b2, bneeds)) => Some(
                        (
                            cls + seq![
                                IrLine::Inst(is_zero + " = eq.i64 "@ + cname + ", 0"@),
                                IrLine::Br(is_zero, then_l, else_l),
                                IrLine::Label(then_l),
                            ] + bls + (if bneeds {
                                seq![IrLine::Jmp(else_l)]
                            } else {
                                seq![]
                            }) + seq![IrLine::Label(else_l)],
                            t2,
                            b2,
                            true,
                        ),
                    ),
                    None => None,
                }
            },
            None => None,
        },
        StmtView::Goto(line) => if 0 < line && line <= max_line {
            Some((seq![IrLine::Jmp(LabelId::Line(line as nat))], t, b, false))
        } else {
            None
        },
        StmtView::Return(e) => match gen_expr(e, used, t) {
            Some((ls, t2, name)) => Some((ls + seq![IrLine::Ret(name)], t2, b, false)),
            None => None,
        },
    }
}

/// The lowering of the statements of a conditional body, which share one
/// block: no fall-through jumps between them; the flag of the last
/// statement (or true for an empty body) decides the jump to the
/// continuation.
pub open spec fn gen_body(
    ss: Seq<StmtView>,
    used: Seq<usize>,
    t: nat,
    b: nat,
    max_line: nat,
) -> Option<(Seq<IrLine>, nat, nat, bool)>
    decreases ss,
{
    if ss.len() == 0 {
        Some((seq![], t, b, true))
    } else {
        match gen_stmt(ss[0], used, t, b, max_line) {
            Some((ls, t2, b2, needs)) => if ss.len() == 1 {
                Some((ls, t2, b2, needs))
            } else {
                match gen_body(ss.drop_first(), used, t2, b2, max_line) {
                    Some((rls, t3, b3, needs2)) => Some((ls + rls, t3, b3, needs2)),
                    None => None,
                }
            },
            None => None,
        }
    }
}

/// Holds when the lowering either fails or leaves both counters at or
/// above where they started.
pub open spec fn stmt_counters_moved_up(
    m: Option<(Seq<IrLine>, nat, nat, bool)>,
    t: nat,
    b: nat,
) -> bool {
    match m {
        Some(res) => res.1 >= t && res.2 >= b,
        None => true,
    }
}

/// Lowering a statement never moves a counter backwards.
pub broadcast proof fn lemma_gen_stmt_mono(
    sv: StmtView,
    used: Seq<usize>,
    t: nat,
    b: nat,
    max_line: nat,
)
    ensures
        stmt_counters_moved_up(#[trigger] gen_stmt(sv, used, t, b, max_line), t, b),
    decreases sv,
{
    broadcast use lemma_gen_expr_mono, lemma_digit_chain_counter;

    match sv {
        StmtView::Conditional { condition, body } => {
            match gen_expr(condition, used, t) {
                Some(cres) => {
                    lemma_gen_body_mono(body, used, cres.1 + 1, b + 1, max_line);
                },
                None => {},
            }
        },
        _ => {},
    }
}

/// Lowering a statement sequence never moves a counter backwards.
pub broadcast proof fn lemma_gen_body_mono(
    ss: Seq<StmtView>,
    used: Seq<usize>,
    t: nat,
    b: nat,
    max_line: nat,
)
    ensures
        stmt_counters_moved_up(#[trigger] gen_body(ss, used, t, b, max_line), t, b),
    decreases ss,
{
    if ss.len() > 0 {
        lemma_gen_stmt_mono(ss[0], used, t, b, max_line);
        match gen_stmt(ss[0], used, t, b, max_line) {
            Some(res) => {
                lemma_gen_body_mono(ss.drop_first(), used, res.1, res.2, max_line);
            },
            None => {},
        }
    }
}


impl CodeGenerator {
    /// Emits the chain of digit-equality tests, three instructions per
    /// digit code from `i` up to 9, and returns the name of the final
    /// boolean accumulator.
    #[verifier::rlimit(100)]
    fn emit_digit_chain(&mut self, digit_val: &String, acc: String, i: usize) -> (r: String)
        requires
            1 <= i <= 10,
            old(self).var_counter + 3 * (10 - i as int) <= usize::MAX,
        ensures
            ({
                let m = digit_chain(digit_val@, acc@, old(self).var_counter as nat, i as int);
                &&& final(self).output@ == old(self).output@ + render(m.0)
                &&& final(self).var_counter as nat == m.1
                &&& final(self).block_counter == old(self).block_counter
                &&& final(self).used_vars == old(self).used_vars
                &&& r@ == m.2
            }),
        decreases 10 - i,
    {
        broadcast use lemma_render_one, lemma_render_concat, lemma_digit_chain_counter;

        if i > 9 {
            proof {
                let m = digit_chain(digit_val@, acc@, old(self).var_counter as nat, i as int);
                assert(render(m.0) == Seq::<char>::empty());
                assert(old(self).output@ + render(m.0) =~= old(self).output@);
            }
            return acc;
        }
        let val = self.next_temp();
        let mut text = val.clone();
        text.append(" = add.i64 ");
        append_usize(&mut text, i);
        text.append(", 0");
        self.emit_inst(&text);
        let is_val = self.next_temp();
        let mut text2 = is_val.clone();
        text2.append(" = eq.i64 ");
        text2.append(digit_val.as_str());
        text2.append(", ");
        text2.append(val.as_str());
        self.emit_inst(&text2);
        let new_acc = self.next_temp();
        let mut text3 = new_acc.clone();
        text3.append(" = add.i64 ");
        text3.append(acc.as_str());
        text3.append(", ");
        text3.append(is_val.as_str());
        self.emit_inst(&text3);
        let ghost mid = self.output@;
        let ghost t_rec = self.var_counter as nat;
        let result = self.emit_digit_chain(digit_val, new_acc, i + 1);
        proof {
            reveal_with_fuel(render, 6);
            let m = digit_chain(digit_val@, acc@, old(self).var_counter as nat, i as int);
            assert(final(self).output@ =~= old(self).output@ + render(m.0));
        }
        result
    }
}


impl CodeGenerator {
    /// Lowers one statement into the output; returns whether an explicit
    /// fall-through jump to the next line is still needed (false exactly
    /// for goto and return, which terminate their block themselves).
    ///
    /// `max_line` is the number of the last labeled block: a goto whose
    /// target lies outside `1 ..= max_line` would reference an undefined
    /// label, so it is rejected.
    #[verifier::loop_isolation(false)]
    #[verifier::rlimit(100)]
    fn generate_statement(&mut self, stmt: &Statement, max_line: usize) -> (r: Result<
        bool,
        String,
    >)
        ensures
            match gen_stmt(
                stmt_view(*stmt),
                old(self).used_vars@,
                old(self).var_counter as nat,
                old(self).block_counter as nat,
                max_line as nat,
            ) {
                Some(res) => {
                    &&& (r is Ok <==> res.1 <= usize::MAX as nat && res.2 <= usize::MAX as nat)
                    &&& (r is Ok ==> final(self).output@ == old(self).output@ + render(res.0))
                    &&& (r is Ok ==> final(self).var_counter as nat == res.1)
                    &&& (r is Ok ==> final(self).block_counter as nat == res.2)
                    &&& (r is Ok ==> final(self).used_vars == old(self).used_vars)
                    &&& (r is Ok ==> r->Ok_0 == res.3)
                },
                None => r is Err,
            },
        decreases *stmt, 2int,
    {
        broadcast use
            lemma_render_one,
            lemma_render_concat,
            lemma_gen_expr_mono,
            lemma_digit_chain_counter,
            lemma_gen_stmt_mono,
            lemma_gen_body_mono;

        let ghost maxn = max_line as nat;
        match stmt {
            Statement::Assign { var_index, value } => {
                let expr_var = self.generate_expr(value)?;
                if !find_slot(&self.used_vars, *var_index) {
                    let mut m = "Variable index ".to_owned();
                    append_usize(&mut m, *var_index);
                    m.append(" out of range");
                    return Err(m);
                }
                let mut text = "store.i64 ".to_owned();
                let ptr = var_ptr_string(*var_index);
                text.append(ptr.as_str());
                text.append(", ");
                text.append(expr_var.as_str());
                self.emit_inst(&text);
                proof {
                    match gen_stmt(
                        stmt_view(*stmt),
                        old(self).used_vars@,
                        old(self).var_counter as nat,
                        old(self).block_counter as nat,
                        maxn,
                    ) {
                        Some(res) => {
                            assert(final(self).output@ =~= old(self).output@ + render(res.0));
                        },
                        None => {},
                    }
                }
                Ok(true)
            },
            Statement::PrintNum(e) => {
                let expr_var = self.generate_expr(e)?;
                let mut text = "print ".to_owned();
                text.append(expr_var.as_str());
                self.emit_inst(&text);
                proof {
                    match gen_stmt(
                        stmt_view(*stmt),
                        old(self).used_vars@,
                        old(self).var_counter as nat,
                        old(self).block_counter as nat,
                        maxn,
                    ) {
                        Some(res) => {
                            assert(final(self).output@ =~= old(self).output@ + render(res.0));
                        },
                        None => {},
                    }
                }
                Ok(true)
            },
            Statement::PrintChar(e) => {
                let expr_var = self.generate_expr(e)?;
                let result = self.new_var()?;
                let mut text = result.clone();
                text.append(" = writebyte ");
                text.append(expr_var.as_str());
                self.emit_inst(&text);
                proof {
                    match gen_stmt(
                        stmt_view(*stmt),
                        old(self).used_vars@,
                        old(self).var_counter as nat,
                        old(self).block_counter as nat,
                        maxn,
                    ) {
                        Some(res) => {
                            assert(final(self).output@ =~= old(self).output@ + render(res.0));
                        },
                        None => {},
                    }
                }
                Ok(true)
            },
            Statement::PrintNewline => {
                let newline = self.new_var()?;
                let mut text = newline.clone();
                text.append(" = add.i64 10, 0");
                self.emit_inst(&text);
                let result = self.new_var()?;
                let mut text2 = result.clone();
                text2.append(" = writebyte ");
                text2.append(newline.as_str());
                self.emit_inst(&text2);
                proof {
                    reveal_with_fuel(render, 4);
                    match gen_stmt(
                        stmt_view(*stmt),
                        old(self).used_vars@,
                        old(self).var_counter as nat,
                        old(self).block_counter as nat,
                        maxn,
                    ) {
                        Some(res) => {
                            assert(final(self).output@ =~= old(self).output@ + render(res.0));
                        },
                        None => {},
                    }
                }
                Ok(true)
            },
            Statement::Goto(line) => {
                if *line > 0 && *line <= max_line {
                    let target = line_label_string(*line);
                    self.emit_jmp(&target, Ghost(LabelId::Line(*line as nat)));
                    Ok(false)
                } else {
                    let mut m = "Invalid goto line: ".to_owned();
                    append_usize(&mut m, *line);
                    Err(m)
                }
            },
            Statement::Return(e) => {
                let expr_var = self.generate_expr(e)?;
                self.emit_ret(&expr_var);
                proof {
                    match gen_stmt(
                        stmt_view(*stmt),
                        old(self).used_vars@,
                        old(self).var_counter as nat,
                        old(self).block_counter as nat,
                        maxn,
                    ) {
                        Some(res) => {
                            assert(final(self).output@ =~= old(self).output@ + render(res.0));
                        },
                        None => {},
                    }
                }
                Ok(false)
            },
            Statement::Conditional { condition, body } => {
                proof {
                    let ghost st = *stmt;
                    assert(st is Conditional);
                    assert(st->Conditional_body == *body);
                    assert(decreases_to!(st => st->Conditional_body));
                }
                match self.generate_conditional(condition, body, max_line) {
                    Ok(()) => Ok(true),
                    Err(e) => Err(e),
                }
            },
            Statement::Input { var_index } => {
                match self.generate_input(*var_index) {
                    Ok(()) => Ok(true),
                    Err(e) => Err(e),
                }
            },
        }
    }
}

impl CodeGenerator {
    /// Emits the first part of the input automaton: the two cell
    /// allocations, the blank-skipping block, and the head of the
    /// digit-testing block.  Returns the names of the accumulator cell,
    /// the byte cell, the digit value, and the zero test.
    #[verifier::rlimit(100)]
    fn emit_input_prefix(
        &mut self,
        skip_ws: &String,
        read_start: &String,
        read_loop: &String,
        Ghost(b0): Ghost<nat>,
    ) -> (r: (String, String, String, String))
        requires
            old(self).var_counter + 13 <= usize::MAX,
            skip_ws@ == label_name(LabelId::InputSkipWs(b0)),
            read_start@ == label_name(LabelId::InputStart(b0)),
            read_loop@ == label_name(LabelId::InputLoop(b0)),
        ensures
            final(self).output@ == old(self).output@ + render(
                input_prefix_items(old(self).var_counter as nat, b0),
            ),
            final(self).var_counter == old(self).var_counter + 13,
            final(self).block_counter == old(self).block_counter,
            final(self).used_vars == old(self).used_vars,
            r.0@ == tmp_name(old(self).var_counter as nat),
            r.1@ == tmp_name(old(self).var_counter as nat + 1),
            r.2@ == tmp_name(old(self).var_counter as nat + 10),
            r.3@ == tmp_name(old(self).var_counter as nat + 12),
    {
        broadcast use lemma_render_one, lemma_render_concat;

        let ghost t0 = self.var_counter as nat;
        let ghost base = self.output@;
        let ghost mut done: Seq<IrLine> = seq![];
        proof {
            assert(base + render(done) =~= base);
            assert(done =~= input_prefix_items(t0, b0).take(0));
        }
        let acc_ptr = self.next_temp();
        let mut text = acc_ptr.clone();
        text.append(" = alloc.ptr.stack i64");
        self.emit_inst(&text);
        proof {
            let ghost prev = done;
            let ghost it = IrLine::Inst(text@);
            done = done + seq![it];
            lemma_chars_add_assoc(base, render(prev), render_line(it));
            assert(self.output@ == base + render(done));
            assert(input_prefix_items(t0, b0)[0] == it);
            assert(done =~= input_prefix_items(t0, b0).take(1));
        }
        let mut text = "store.i64 ".to_owned();
        text.append(acc_ptr.as_str());
        text.append(", 0");
        self.emit_inst(&text);
        proof {
            let ghost prev = done;
            let ghost it = IrLine::Inst(text@);
            done = done + seq![it];
            lemma_chars_add_assoc(base, render(prev), render_line(it));
            assert(self.output@ == base + render(done));
            assert(input_prefix_items(t0, b0)[1] == it);
            assert(done =~= input_prefix_items(t0, b0).take(2));
        }
        let byte_ptr = self.next_temp();
        let mut text = byte_ptr.clone();
        text.append(" = alloc.ptr.stack i64");
        self.emit_inst(&text);
        proof {
            let ghost prev = done;
            let ghost it = IrLine::Inst(text@);
            done = done + seq![it];
            lemma_chars_add_assoc(base, render(prev), render_line(it));
            assert(self.output@ == base + render(done));
            assert(input_prefix_items(t0, b0)[2] == it);
            assert(done =~= input_prefix_items(t0, b0).take(3));
        }
        let mut text = "store.i64 ".to_owned();
        text.append(byte_ptr.as_str());
        text.append(", 0");
        self.emit_inst(&text);
        proof {
            let ghost prev = done;
            let ghost it = IrLine::Inst(text@);
            done = done + seq![it];
            lemma_chars_add_assoc(base, render(prev), render_line(it));
            assert(self.output@ == base + render(done));
            assert(input_prefix_items(t0, b0)[3] == it);
            assert(done =~= input_prefix_items(t0, b0).take(4));
        }
        self.emit_jmp(skip_ws, Ghost(LabelId::InputSkipWs(b0)));
        proof {
            let ghost prev = done;
            let ghost it = IrLine::Jmp(LabelId::InputSkipWs(b0));
            done = done + seq![it];
            lemma_chars_add_assoc(base, render(prev), render_line(it));
            assert(self.output@ == base + render(done));
            assert(input_prefix_items(t0, b0)[4] == it);
            assert(done =~= input_prefix_items(t0, b0).take(5));
        }
        self.emit_label(skip_ws, Ghost(LabelId::InputSkipWs(b0)));
        proof {
            let ghost prev = done;
            let ghost it = IrLine::Label(LabelId::InputSkipWs(b0));
            done = done + seq![it];
            lemma_chars_add_assoc(base, render(prev), render_line(it));
            assert(self.output@ == base + render(done));
            assert(input_prefix_items(t0, b0)[5] == it);
            assert(done =~= input_prefix_items(t0, b0).take(6));
        }
        let ws_byte = self.next_temp();
        let mut text = ws_byte.clone();
        text.append(" = readbyte");
        self.emit_inst(&text);
        proof {
            let ghost prev = done;
            let ghost it = IrLine::Inst(text@);
            done = done + seq![it];
            lemma_chars_add_assoc(base, render(prev), render_line(it));
            assert(self.output@ == base + render(done));
            assert(input_prefix_items(t0, b0)[6] == it);
            assert(done =~= input_prefix_items(t0, b0).take(7));
        }
        let mut text = "store.i64 ".to_owned();
        text.append(byte_ptr.as_str());
        text.append(", ");
        text.append(ws_byte.as_str());
        self.emit_inst(&text);
        proof {
            let ghost prev = done;
            let ghost it = IrLine::Inst(text@);
            done = done + seq![it];
            lemma_chars_add_assoc(base, render(prev), render_line(it));
            assert(self.output@ == base + render(done));
            assert(input_prefix_items(t0, b0)[7] == it);
            assert(done =~= input_prefix_items(t0, b0).take(8));
        }
        let space_val = self.next_temp();
        let mut text = space_val.clone();
        text.append(" = add.i64 32, 0");
        self.emit_inst(&text);
        proof {
            let ghost prev = done;
            let ghost it = IrLine::Inst(text@);
            done = done + seq![it];
            lemma_chars_add_assoc(base, render(prev), render_line(it));
            assert(self.output@ == base + render(done));
            assert(input_prefix_items(t0, b0)[8] == it);
            assert(done =~= input_prefix_items(t0, b0).take(9));
        }
        let is_space = self.next_temp();
        let mut text = is_space.clone();
        text.append(" = eq.i64 ");
        text.append(ws_byte.as_str());
        text.append(", ");
        text.append(space_val.as_str());
        self.emit_inst(&text);
        proof {
            let ghost prev = done;
            let ghost it = IrLine::Inst(text@);
            done = done + seq![it];
            lemma_chars_add_assoc(base, render(prev), render_line(it));
            assert(self.output@ == base + render(done));
            assert(input_prefix_items(t0, b0)[9] == it);
            assert(done =~= input_prefix_items(t0, b0).take(10));
        }
        let newline_val = self.next_temp();
        let mut text = newline_val.clone();
        text.append(" = add.i64 10, 0");
        self.emit_inst(&text);
        proof {
            let ghost prev = done;
            let ghost it = IrLine::Inst(text@);
            done = done + seq![it];
            lemma_chars_add_assoc(base, render(prev), render_line(it));
            assert(self.output@ == base + render(done));
            assert(input_prefix_items(t0, b0)[10] == it);
            assert(done =~= input_prefix_items(t0, b0).take(11));
        }
        let is_newline = self.next_temp();
        let mut text = is_newline.clone();
        text.append(" = eq.i64 ");
        text.append(ws_byte.as_str());
        text.append(", ");
        text.append(newline_val.as_str());
        self.emit_inst(&text);
        proof {
            let ghost prev = done;
            let ghost it = IrLine::Inst(text@);
            done = done + seq![it];
            lemma_chars_add_assoc(base, render(prev), render_line(it));
            assert(self.output@ == base + render(done));
            assert(input_prefix_items(t0, b0)[11] == it);
            assert(done =~= input_prefix_items(t0, b0).take(12));
        }
        let is_ws = self.next_temp();
        let mut text = is_ws.clone();
        text.append(" = add.i64 ");
        text.append(is_space.as_str());
        text.append(", ");
        text.append(is_newline.as_str());
        self.emit_inst(&text);
        proof {
            let ghost prev = done;
            let ghost it = IrLine::Inst(text@);
            done = done + seq![it];
            lemma_chars_add_assoc(base, render(prev), render_line(it));
            assert(self.output@ == base + render(done));
            assert(input_prefix_items(t0, b0)[12] == it);
            assert(done =~= input_prefix_items(t0, b0).take(13));
        }
        self.emit_br(
            &is_ws,
            skip_ws,
            read_start,
            Ghost(LabelId::InputSkipWs(b0)),
            Ghost(LabelId::InputStart(b0)),
        );
        proof {
            let ghost prev = done;
            let ghost it = IrLine::Br(is_ws@, LabelId::InputSkipWs(b0), LabelId::InputStart(b0));
            done = done + seq![it];
            lemma_chars_add_assoc(base, render(prev), render_line(it));
            assert(self.output@ == base + render(done));
            assert(input_prefix_items(t0, b0)[13] == it);
            assert(done =~= input_prefix_items(t0, b0).take(14));
        }
        self.emit_label(read_start, Ghost(LabelId::InputStart(b0)));
        proof {
            let ghost prev = done;
            let ghost it = IrLine::Label(LabelId::InputStart(b0));
            done = done + seq![it];
            lemma_chars_add_assoc(base, render(prev), render_line(it));
            assert(self.output@ == base + render(done));
            assert(input_prefix_items(t0, b0)[14] == it);
            assert(done =~= input_prefix_items(t0, b0).take(15));
        }
        self.emit_jmp(read_loop, Ghost(LabelId::InputLoop(b0)));
        proof {
            let ghost prev = done;
            let ghost it = IrLine::Jmp(LabelId::InputLoop(b0));
            done = done + seq![it];
            lemma_chars_add_assoc(base, render(prev), render_line(it));
            assert(self.output@ == base + render(done));
            assert(input_prefix_items(t0, b0)[15] == it);
            assert(done =~= input_prefix_items(t0, b0).take(16));
        }
        self.emit_label(read_loop, Ghost(LabelId::InputLoop(b0)));
        proof {
            let ghost prev = done;
            let ghost it = IrLine::Label(LabelId::InputLoop(b0));
            done = done + seq![it];
            lemma_chars_add_assoc(base, render(prev), render_line(it));
            assert(self.output@ == base + render(done));
            assert(input_prefix_items(t0, b0)[16] == it);
            assert(done =~= input_prefix_items(t0, b0).take(17));
        }
        let curr_byte = self.next_temp();
        let mut text = curr_byte.clone();
        text.append(" = load.i64 ");
        text.append(byte_ptr.as_str());
        self.emit_inst(&text);
        proof {
            let ghost prev = done;
            let ghost it = IrLine::Inst(text@);
            done = done + seq![it];
            lemma_chars_add_assoc(base, render(prev), render_line(it));
            assert(self.output@ == base + render(done));
            assert(input_prefix_items(t0, b0)[17] == it);
            assert(done =~= input_prefix_items(t0, b0).take(18));
        }
        let ascii_zero = self.next_temp();
        let mut text = ascii_zero.clone();
        text.append(" = add.i64 48, 0");
        self.emit_inst(&text);
        proof {
            let ghost prev = done;
            let ghost it = IrLine::Inst(text@);
            done = done + seq![it];
            lemma_chars_add_assoc(base, render(prev), render_line(it));
            assert(self.output@ == base + render(done));
            assert(input_prefix_items(t0, b0)[18] == it);
            assert(done =~= input_prefix_items(t0, b0).take(19));
        }
        let digit_val = self.next_temp();
        let mut text = digit_val.clone();
        text.append(" = sub.i64 ");
        text.append(curr_byte.as_str());
        text.append(", ");
        text.append(ascii_zero.as_str());
        self.emit_inst(&text);
        proof {
            let ghost prev = done;
            let ghost it = IrLine::Inst(text@);
            done = done + seq![it];
            lemma_chars_add_assoc(base, render(prev), render_line(it));
            assert(self.output@ == base + render(done));
            assert(input_prefix_items(t0, b0)[19] == it);
            assert(done =~= input_prefix_items(t0, b0).take(20));
        }
        let zero = self.next_temp();
        let mut text = zero.clone();
        text.append(" = add.i64 0, 0");
        self.emit_inst(&text);
        proof {
            let ghost prev = done;
            let ghost it = IrLine::Inst(text@);
            done = done + seq![it];
            lemma_chars_add_assoc(base, render(prev), render_line(it));
            assert(self.output@ == base + render(done));
            assert(input_prefix_items(t0, b0)[20] == it);
            assert(done =~= input_prefix_items(t0, b0).take(21));
        }
        let is_zero = self.next_temp();
        let mut text = is_zero.clone();
        text.append(" = eq.i64 ");
        text.append(digit_val.as_str());
        text.append(", ");
        text.append(zero.as_str());
        self.emit_inst(&text);
        proof {
            let ghost prev = done;
            let ghost it = IrLine::Inst(text@);
            done = done + seq![it];
            lemma_chars_add_assoc(base, render(prev), render_line(it));
            assert(self.output@ == base + render(done));
            assert(input_prefix_items(t0, b0)[21] == it);
            assert(done =~= input_prefix_items(t0, b0).take(22));
        }
        proof {
            assert(input_prefix_items(t0, b0).len() == 22);
            assert(done =~= input_prefix_items(t0, b0));
        }
        (acc_ptr, byte_ptr, digit_val, is_zero)
    }

    /// Emits the last part of the input automaton: the branch on the
    /// digit test, the digit-processing block, and the final store into
    /// the target slot's cell.
    #[verifier::rlimit(100)]
    fn emit_input_suffix(
        &mut self,
        var_index: usize,
        is_digit: &String,
        digit_val: &String,
        acc_ptr: &String,
        byte_ptr: &String,
        read_loop: &String,
        read_proc: &String,
        read_done: &String,
        Ghost(b0): Ghost<nat>,
    )
        requires
            old(self).var_counter + 6 <= usize::MAX,
            read_loop@ == label_name(LabelId::InputLoop(b0)),
            read_proc@ == label_name(LabelId::InputLoopProc(b0)),
            read_done@ == label_name(LabelId::InputDone(b0)),
        ensures
            final(self).output@ == old(self).output@ + render(
                input_suffix_items(
                    var_index,
                    is_digit@,
                    digit_val@,
                    acc_ptr@,
                    byte_ptr@,
                    old(self).var_counter as nat,
                    b0,
                ),
            ),
            final(self).var_counter == old(self).var_counter + 6,
            final(self).block_counter == old(self).block_counter,
            final(self).used_vars == old(self).used_vars,
    {
        broadcast use lemma_render_one, lemma_render_concat;

        let ghost suffix_spec = input_suffix_items(
            var_index,
            is_digit@,
            digit_val@,
            acc_ptr@,
            byte_ptr@,
            old(self).var_counter as nat,
            b0,
        );
        let ghost base = self.output@;
        let ghost mut done: Seq<IrLine> = seq![];
        proof {
            assert(base + render(done) =~= base);
            assert(done =~= suffix_spec.take(0));
        }
        self.emit_br(
            is_digit,
            read_proc,
            read_done,
            Ghost(LabelId::InputLoopProc(b0)),
            Ghost(LabelId::InputDone(b0)),
        );
        proof {
            let ghost prev = done;
            let ghost it = IrLine::Br(is_digit@, LabelId::InputLoopProc(b0), LabelId::InputDone(b0));
            done = done + seq![it];
            lemma_chars_add_assoc(base, render(prev), render_line(it));
            assert(self.output@ == base + render(done));
            assert(suffix_spec[0] == it);
            assert(done =~= suffix_spec.take(1));
        }
        self.emit_label(read_proc, Ghost(LabelId::InputLoopProc(b0)));
        proof {
            let ghost prev = done;
            let ghost it = IrLine::Label(LabelId::InputLoopProc(b0));
            done = done + seq![it];
            lemma_chars_add_assoc(base, render(prev), render_line(it));
            assert(self.output@ == base + render(done));
            assert(suffix_spec[1] == it);
            assert(done =~= suffix_spec.take(2));
        }
        let old_acc = self.next_temp();
        let mut text = old_acc.clone();
        text.append(" = load.i64 ");
        text.append(acc_ptr.as_str());
        self.emit_inst(&text);
        proof {
            let ghost prev = done;
            let ghost it = IrLine::Inst(text@);
            done = done + seq![it];
            lemma_chars_add_assoc(base, render(prev), render_line(it));
            assert(self.output@ == base + render(done));
            assert(suffix_spec[2] == it);
            assert(done =~= suffix_spec.take(3));
        }
        let ten = self.next_temp();
        let mut text = ten.clone();
        text.append(" = add.i64 10, 0");
        self.emit_inst(&text);
        proof {
            let ghost prev = done;
            let ghost it = IrLine::Inst(text@);
            done = done + seq![it];
            lemma_chars_add_assoc(base, render(prev), render_line(it));
            assert(self.output@ == base + render(done));
            assert(suffix_spec[3] == it);
            assert(done =~= suffix_spec.take(4));
        }
        let acc_times_10 = self.next_temp();
        let mut text = acc_times_10.clone();
        text.append(" = mul.i64 ");
        text.append(old_acc.as_str());
        text.append(", ");
        text.append(ten.as_str());
        self.emit_inst(&text);
        proof {
            let ghost prev = done;
            let ghost it = IrLine::Inst(text@);
            done = done + seq![it];
            lemma_chars_add_assoc(base, render(prev), render_line(it));
            assert(self.output@ == base + render(done));
            assert(suffix_spec[4] == it);
            assert(done =~= suffix_spec.take(5));
        }
        let new_acc = self.next_temp();
        let mut text = new_acc.clone();
        text.append(" = add.i64 ");
        text.append(acc_times_10.as_str());
        text.append(", ");
        text.append(digit_val.as_str());
        self.emit_inst(&text);
        proof {
            let ghost prev = done;
            let ghost it = IrLine::Inst(text@);
            done = done + seq![it];
            lemma_chars_add_assoc(base, render(prev), render_line(it));
            assert(self.output@ == base + render(done));
            assert(suffix_spec[5] == it);
            assert(done =~= suffix_spec.take(6));
        }
        let mut text = "store.i64 ".to_owned();
        text.append(acc_ptr.as_str());
        text.append(", ");
        text.append(new_acc.as_str());
        self.emit_inst(&text);
        proof {
            let ghost prev = done;
            let ghost it = IrLine::Inst(text@);
            done = done + seq![it];
            lemma_chars_add_assoc(base, render(prev), render_line(it));
            assert(self.output@ == base + render(done));
            assert(suffix_spec[6] == it);
            assert(done =~= suffix_spec.take(7));
        }
        let next_byte = self.next_temp();
        let mut text = next_byte.clone();
        text.append(" = readbyte");
        self.emit_inst(&text);
        proof {
            let ghost prev = done;
            let ghost it = IrLine::Inst(text@);
            done = done + seq![it];
            lemma_chars_add_assoc(base, render(prev), render_line(it));
            assert(self.output@ == base + render(done));
            assert(suffix_spec[7] == it);
            assert(done =~= suffix_spec.take(8));
        }
        let mut text = "store.i64 ".to_owned();
        text.append(byte_ptr.as_str());
        text.append(", ");
        text.append(next_byte.as_str());
        self.emit_inst(&text);
        proof {
            let ghost prev = done;
            let ghost it = IrLine::Inst(text@);
            done = done + seq![it];
            lemma_chars_add_assoc(base, render(prev), render_line(it));
            assert(self.output@ == base + render(done));
            assert(suffix_spec[8] == it);
            assert(done =~= suffix_spec.take(9));
        }
        self.emit_jmp(read_loop, Ghost(LabelId::InputLoop(b0)));
        proof {
            let ghost prev = done;
            let ghost it = IrLine::Jmp(LabelId::InputLoop(b0));
            done = done + seq![it];
            lemma_chars_add_assoc(base, render(prev), render_line(it));
            assert(self.output@ == base + render(done));
            assert(suffix_spec[9] == it);
            assert(done =~= suffix_spec.take(10));
        }
        self.emit_label(read_done, Ghost(LabelId::InputDone(b0)));
        proof {
            let ghost prev = done;
            let ghost it = IrLine::Label(LabelId::InputDone(b0));
            done = done + seq![it];
            lemma_chars_add_assoc(base, render(prev), render_line(it));
            assert(self.output@ == base + render(done));
            assert(suffix_spec[10] == it);
            assert(done =~= suffix_spec.take(11));
        }
        let final_val = self.next_temp();
        let mut text = final_val.clone();
        text.append(" = load.i64 ");
        text.append(acc_ptr.as_str());
        self.emit_inst(&text);
        proof {
            let ghost prev = done;
            let ghost it = IrLine::Inst(text@);
            done = done + seq![it];
            lemma_chars_add_assoc(base, render(prev), render_line(it));
            assert(self.output@ == base + render(done));
            assert(suffix_spec[11] == it);
            assert(done =~= suffix_spec.take(12));
        }
        let mut text = "store.i64 ".to_owned();
        let ptr = var_ptr_string(var_index);
        text.append(ptr.as_str());
        text.append(", ");
        text.append(final_val.as_str());
        self.emit_inst(&text);
        proof {
            let ghost prev = done;
            let ghost it = IrLine::Inst(text@);
            done = done + seq![it];
            lemma_chars_add_assoc(base, render(prev), render_line(it));
            assert(self.output@ == base + render(done));
            assert(suffix_spec[12] == it);
            assert(done =~= suffix_spec.take(13));
        }
        proof {
            assert(suffix_spec.len() == 13);
            assert(done =~= suffix_spec);
        }
    }

    /// Lowers one input statement: emits the inline automaton that skips
    /// leading blank bytes and accumulates decimal digit bytes into the
    /// target slot's storage cell.
    #[verifier::rlimit(100)]
    fn generate_input(&mut self, var_index: usize) -> (r: Result<(), String>)
        ensures
            match input_items(
                var_index,
                old(self).used_vars@,
                old(self).var_counter as nat,
                old(self).block_counter as nat,
            ) {
                Some(res) => {
                    &&& (r is Ok <==> res.1 <= usize::MAX as nat && res.2 <= usize::MAX as nat)
                    &&& (r is Ok ==> final(self).output@ == old(self).output@ + render(res.0))
                    &&& (r is Ok ==> final(self).var_counter as nat == res.1)
                    &&& (r is Ok ==> final(self).block_counter as nat == res.2)
                    &&& (r is Ok ==> final(self).used_vars == old(self).used_vars)
                },
                None => r is Err,
            },
    {
        broadcast use lemma_render_one, lemma_render_concat, lemma_digit_chain_counter;

        if self.block_counter == usize::MAX {
            return Err("too many blocks".to_owned());
        }
        if self.var_counter > usize::MAX - 46 {
            return Err("too many temporaries".to_owned());
        }
        if !find_slot(&self.used_vars, var_index) {
            let mut m = "Variable index ".to_owned();
            append_usize(&mut m, var_index);
            m.append(" out of range");
            return Err(m);
        }
        let ghost t0 = self.var_counter as nat;
        let ghost b0 = self.block_counter as nat;
        let ghost out0 = self.output@;
        let mut skip_ws = "input_skip_ws_".to_owned();
        append_usize(&mut skip_ws, self.block_counter);
        let mut read_start = "input_start_".to_owned();
        append_usize(&mut read_start, self.block_counter);
        let mut read_loop = "input_loop_".to_owned();
        append_usize(&mut read_loop, self.block_counter);
        let mut read_proc = read_loop.clone();
        read_proc.append("_proc");
        let mut read_done = "input_done_".to_owned();
        append_usize(&mut read_done, self.block_counter);
        self.block_counter = self.block_counter + 1;
        let prefix = self.emit_input_prefix(&skip_ws, &read_start, &read_loop, Ghost(b0));
        let acc_ptr = prefix.0;
        let byte_ptr = prefix.1;
        let digit_val = prefix.2;
        let is_zero = prefix.3;
        let ghost mid1 = self.output@;
        let is_digit = self.emit_digit_chain(&digit_val, is_zero, 1);
        let ghost chain = digit_chain(digit_val@, tmp_name(t0 + 12), t0 + 13, 1);
        let ghost mid2 = self.output@;
        self.emit_input_suffix(
            var_index,
            &is_digit,
            &digit_val,
            &acc_ptr,
            &byte_ptr,
            &read_loop,
            &read_proc,
            &read_done,
            Ghost(b0),
        );
        proof {
            match input_items(var_index, old(self).used_vars@, t0, b0) {
                Some(res) => {
                    let p = input_prefix_items(t0, b0);
                    let sfx = input_suffix_items(
                        var_index,
                        chain.2,
                        tmp_name(t0 + 10),
                        tmp_name(t0),
                        tmp_name(t0 + 1),
                        chain.1,
                        b0,
                    );
                    assert(res.0 == p + chain.0 + sfx);
                    lemma_chars_add_assoc(out0, render(p), render(chain.0));
                    lemma_chars_add_assoc(out0, render(p) + render(chain.0), render(sfx));
                    assert(render(p + chain.0) == render(p) + render(chain.0));
                    assert(render(p + chain.0 + sfx) == render(p + chain.0) + render(sfx));
                    assert(final(self).output@ == old(self).output@ + render(res.0));
                },
                None => {
                    assert(false);
                },
            }
        }
        Ok(())
    }
}

impl CodeGenerator {
    /// Lowers one conditional: the condition is evaluated and compared
    /// with zero; when it is zero control enters a fresh then-block that
    /// holds the whole body, else it jumps directly to a fresh
    /// continuation block.
    #[verifier::loop_isolation(false)]
    #[verifier::rlimit(100)]
    fn generate_conditional(
        &mut self,
        condition: &Expr,
        body: &Vec<Statement>,
        max_line: usize,
    ) -> (r: Result<(), String>)
        ensures
            match gen_stmt(
                (StmtView::Conditional { condition: *condition, body: stmts_view(body@) }),
                old(self).used_vars@,
                old(self).var_counter as nat,
                old(self).block_counter as nat,
                max_line as nat,
            ) {
                Some(res) => {
                    &&& (r is Ok <==> res.1 <= usize::MAX as nat && res.2 <= usize::MAX as nat)
                    &&& (r is Ok ==> final(self).output@ == old(self).output@ + render(res.0))
                    &&& (r is Ok ==> final(self).var_counter as nat == res.1)
                    &&& (r is Ok ==> final(self).block_counter as nat == res.2)
                    &&& (r is Ok ==> final(self).used_vars == old(self).used_vars)
                },
                None => r is Err,
            },
        decreases *body, 1int,
    {
        broadcast use
            lemma_render_one,
            lemma_render_concat,
            lemma_gen_expr_mono,
            lemma_gen_stmt_mono,
            lemma_gen_body_mono;

        let ghost maxn = max_line as nat;
        let ghost used_g = self.used_vars@;
        let ghost t_g = self.var_counter as nat;
        let ghost b_g = self.block_counter as nat;
        proof {
            match gen_expr(*condition, used_g, t_g) {
                Some(cres) => {
                    lemma_gen_body_mono(stmts_view(body@), used_g, cres.1 + 1, b_g + 1, maxn);
                },
                None => {},
            }
        }
        let cond_var = self.generate_expr(condition)?;
        if self.block_counter == usize::MAX {
            return Err("too many blocks".to_owned());
        }
        let ghost out0 = old(self).output@;
        let ghost mut acc_items: Seq<IrLine> = Seq::empty();
        proof {
            match gen_expr(*condition, used_g, t_g) {
                Some(cres) => {
                    acc_items = cres.0;
                },
                None => {
                    assert(false);
                },
            }
            assert(self.output@ == out0 + render(acc_items));
        }
        let ghost b0 = self.block_counter as nat;
        let mut then_str = "then_".to_owned();
        append_usize(&mut then_str, self.block_counter);
        let mut else_str = "else_".to_owned();
        append_usize(&mut else_str, self.block_counter);
        self.block_counter = self.block_counter + 1;
        let is_zero = self.new_var()?;
        let mut text = is_zero.clone();
        text.append(" = eq.i64 ");
        text.append(cond_var.as_str());
        text.append(", 0");
        self.emit_inst(&text);
        proof {
            let ghost prev = acc_items;
            let ghost it = IrLine::Inst(text@);
            acc_items = acc_items + seq![it];
            lemma_chars_add_assoc(out0, render(prev), render_line(it));
            assert(self.output@ == out0 + render(acc_items));
        }
        self.emit_br(
            &is_zero,
            &then_str,
            &else_str,
            Ghost(LabelId::Then(b0)),
            Ghost(LabelId::Else(b0)),
        );
        proof {
            let ghost prev = acc_items;
            let ghost it = IrLine::Br(is_zero@, LabelId::Then(b0), LabelId::Else(b0));
            acc_items = acc_items + seq![it];
            lemma_chars_add_assoc(out0, render(prev), render_line(it));
            assert(self.output@ == out0 + render(acc_items));
        }
        self.emit_label(&then_str, Ghost(LabelId::Then(b0)));
        proof {
            let ghost prev = acc_items;
            let ghost it = IrLine::Label(LabelId::Then(b0));
            acc_items = acc_items + seq![it];
            lemma_chars_add_assoc(out0, render(prev), render_line(it));
            assert(self.output@ == out0 + render(acc_items));
        }
        let ghost tb = self.var_counter as nat;
        let ghost bb = self.block_counter as nat;
        let last_needs = match self.generate_body(body, max_line) {
            Ok(v) => v,
            Err(e) => {
                return Err(e);
            },
        };
        let ghost done: Seq<IrLine> = ({
            match gen_body(stmts_view(body@), used_g, tb, bb, maxn) {
                Some(bres) => bres.0,
                None => Seq::empty(),
            }
        });
        proof {
            let ghost prev = acc_items;
            acc_items = acc_items + done;
            lemma_chars_add_assoc(out0, render(prev), render(done));
            assert(self.output@ == out0 + render(acc_items));
        }
        if last_needs {
            self.emit_jmp(&else_str, Ghost(LabelId::Else(b0)));
            proof {
                let ghost prev = acc_items;
                let ghost it = IrLine::Jmp(LabelId::Else(b0));
                acc_items = acc_items + seq![it];
                lemma_chars_add_assoc(out0, render(prev), render_line(it));
                assert(self.output@ == out0 + render(acc_items));
            }
        }
        self.emit_label(&else_str, Ghost(LabelId::Else(b0)));
        proof {
            let ghost prev = acc_items;
            let ghost it = IrLine::Label(LabelId::Else(b0));
            acc_items = acc_items + seq![it];
            lemma_chars_add_assoc(out0, render(prev), render_line(it));
            assert(self.output@ == out0 + render(acc_items));
        }
        proof {
            match gen_stmt(
                StmtView::Conditional { condition: *condition, body: stmts_view(body@) },
                old(self).used_vars@,
                old(self).var_counter as nat,
                old(self).block_counter as nat,
                maxn,
            ) {
                Some(res) => {
                    assert(acc_items =~= res.0);
                    assert(final(self).output@ == old(self).output@ + render(res.0));
                },
                None => {
                    assert(false);
                },
            }
        }
        Ok(())
    }
}


impl CodeGenerator {
    /// Lowers the statements of a conditional body, which share one
    /// block: no fall-through jumps are placed between them.  Returns
    /// whether the last statement still needs a terminator.
    #[verifier::loop_isolation(false)]
    #[verifier::rlimit(100)]
    fn generate_body(&mut self, body: &Vec<Statement>, max_line: usize) -> (r: Result<
        bool,
        String,
    >)
        ensures
            match gen_body(
                stmts_view(body@),
                old(self).used_vars@,
                old(self).var_counter as nat,
                old(self).block_counter as nat,
                max_line as nat,
            ) {
                Some(res) => {
                    &&& (r is Ok <==> res.1 <= usize::MAX as nat && res.2 <= usize::MAX as nat)
                    &&& (r is Ok ==> final(self).output@ == old(self).output@ + render(res.0))
                    &&& (r is Ok ==> final(self).var_counter as nat == res.1)
                    &&& (r is Ok ==> final(self).block_counter as nat == res.2)
                    &&& (r is Ok ==> final(self).used_vars == old(self).used_vars)
                    &&& (r is Ok ==> r->Ok_0 == res.3)
                },
                None => r is Err,
            },
        decreases *body, 0int,
    {
        broadcast use
            lemma_render_one,
            lemma_render_concat,
            lemma_gen_expr_mono,
            lemma_gen_stmt_mono,
            lemma_gen_body_mono;

        let ghost maxn = max_line as nat;
        let ghost used0 = self.used_vars@;
        let ghost uv0 = self.used_vars;
        let ghost mid_base = self.output@;
        let ghost bv = stmts_view(body@);
        let ghost full = gen_body(
            bv,
            used0,
            self.var_counter as nat,
            self.block_counter as nat,
            maxn,
        );
        let mut last_needs: bool = true;
        let ghost mut done: Seq<IrLine> = seq![];
        proof {
            lemma_stmts_view_len(body@);
            assert(bv.skip(0) =~= bv);
            assert(mid_base + render(done) =~= mid_base);
        }
        let mut i: usize = 0;
        while i < body.len()
            invariant
                0 <= i <= body@.len(),
                bv.len() == body@.len(),
                self.used_vars@ == used0,
                self.used_vars == uv0,
                self.output@ == mid_base + render(done),
                i < body@.len() ==> match gen_body(
                    bv.skip(i as int),
                    used0,
                    self.var_counter as nat,
                    self.block_counter as nat,
                    maxn,
                ) {
                    Some(rm) => full == Some((done + rm.0, rm.1, rm.2, rm.3)),
                    None => full is None,
                },
                i == body@.len() ==> full == Some(
                    (done, self.var_counter as nat, self.block_counter as nat, last_needs),
                ),
            decreases body@.len() - i,
        {
            proof {
                lemma_stmts_view_index(body@, i as int);
                assert(bv.skip(i as int)[0] == stmt_view(body@[i as int]));
                assert(bv.skip(i as int).drop_first() =~= bv.skip(i as int + 1));
                assert(decreases_to!(*body => body@));
                assert(decreases_to!(body@ => body@[i as int]));
            }
            let ghost pre_t = self.var_counter as nat;
            let ghost pre_b = self.block_counter as nat;
            let needs_i = match self.generate_statement(&body[i], max_line) {
                Ok(v) => v,
                Err(e) => {
                    proof {
                        match gen_stmt(bv.skip(i as int)[0], used0, pre_t, pre_b, maxn) {
                            Some(resi) => {
                                if i + 1 < bv.len() {
                                    lemma_gen_body_mono(
                                        bv.skip(i as int + 1),
                                        used0,
                                        resi.1,
                                        resi.2,
                                        maxn,
                                    );
                                }
                            },
                            None => {},
                        }
                    }
                    return Err(e);
                },
            };
            proof {
                let ghost done_prev = done;
                match gen_stmt(bv.skip(i as int)[0], used0, pre_t, pre_b, maxn) {
                    Some(resi) => {
                        done = done + resi.0;
                        lemma_chars_add_assoc(mid_base, render(done_prev), render(resi.0));
                        assert(self.output@ == mid_base + render(done));
                        if i + 1 < bv.len() {
                            match gen_body(
                                bv.skip(i as int + 1),
                                used0,
                                self.var_counter as nat,
                                self.block_counter as nat,
                                maxn,
                            ) {
                                Some(rm2) => {
                                    assert(done_prev + (resi.0 + rm2.0) =~= done + rm2.0);
                                },
                                None => {},
                            }
                        }
                    },
                    None => {
                        assert(false);
                    },
                }
            }
            last_needs = needs_i;
            i = i + 1;
        }
        proof {
            assert(i == body@.len());
            assert(used0 == old(self).used_vars@);
            assert(bv == stmts_view(body@));
            assert(mid_base == old(self).output@);
            assert(full == gen_body(
                stmts_view(body@),
                old(self).used_vars@,
                old(self).var_counter as nat,
                old(self).block_counter as nat,
                max_line as nat,
            ));
            match full {
                Some(res) => {
                    assert(res.0 == done);
                    assert(res.1 == self.var_counter as nat);
                    assert(res.2 == self.block_counter as nat);
                    assert(res.3 == last_needs);
                    assert(self.output@ == mid_base + render(done));
                },
                None => {
                    assert(false);
                },
            }
        }
        Ok(last_needs)
    }
}


/// The largest source line in the program from index `i` on, folded
/// onto `acc`; the whole program's maximum starts from 1.
pub open spec fn spec_max_from(prog: Seq<(StmtView, usize)>, i: int, acc: usize) -> usize
    decreases prog.len() - i,
{
    if !(0 <= i < prog.len()) {
        acc
    } else if prog[i].1 > acc {
        spec_max_from(prog, i + 1, prog[i].1)
    } else {
        spec_max_from(prog, i + 1, acc)
    }
}

/// The number of the last labeled block: the largest source line, or 1
/// for an empty program.
pub open spec fn spec_max_line(prog: Seq<(StmtView, usize)>) -> usize {
    spec_max_from(prog, 0, 1)
}

/// The prologue's cell allocations: one zero-initialized cell per slot,
/// in the order of the slot table.
pub open spec fn alloc_items(used: Seq<usize>) -> Seq<IrLine>
    decreases used.len(),
{
    if used.len() == 0 {
        seq![]
    } else {
        seq![
            IrLine::Inst(var_ptr_name(used[0] as nat) + " = alloc.ptr.stack i64"@),
            IrLine::Inst("store.i64 "@ + var_ptr_name(used[0] as nat) + ", 0"@),
        ] + alloc_items(used.drop_first())
    }
}

/// The end (exclusive) of the run of statements that share the line of
/// statement `i`: they are lowered into one block, like a conditional
/// body.
pub open spec fn grp_end(prog: Seq<(StmtView, usize)>, i: int) -> int
    decreases prog.len() - i,
{
    if i + 1 < prog.len() && prog[i + 1].1 == prog[i].1 {
        grp_end(prog, i + 1)
    } else {
        i + 1
    }
}

/// The run found by [`grp_end`] is nonempty, lies in bounds, holds one
/// line throughout, and is maximal.
pub proof fn lemma_grp_end_props(prog: Seq<(StmtView, usize)>, i: int)
    requires
        0 <= i < prog.len(),
    ensures
        i < grp_end(prog, i) <= prog.len(),
        forall|k: int| i <= k < grp_end(prog, i) ==> prog[k].1 == prog[i].1,
        grp_end(prog, i) < prog.len() ==> prog[grp_end(prog, i)].1 != prog[i].1,
    decreases prog.len() - i,
{
    if i + 1 < prog.len() && prog[i + 1].1 == prog[i].1 {
        lemma_grp_end_props(prog, i + 1);
    }
}

/// The statements of one line's run, without their line numbers.
pub open spec fn group_views(prog: Seq<(StmtView, usize)>, i: int, e: int) -> Seq<StmtView> {
    prog.subrange(i, e).map_values(|p: (StmtView, usize)| p.0)
}

/// The lowering of the labeled blocks from statement `idx` and line
/// `cl` on: an empty line gets a label and a jump to the next line
/// (when one exists); a line with statements gets its label, the
/// statements lowered into the one block, and a fall-through jump to
/// the next statement's line exactly when the run's last statement
/// needs one and another statement follows.  A statement whose line is
/// already closed emits nothing; the parser's non-decreasing lines
/// never produce one.  Returns the lines, the final counters, and
/// whether the last lowered statement still falls through.
pub open spec fn gen_prog_lines(
    prog: Seq<(StmtView, usize)>,
    idx: int,
    cl: usize,
    t: nat,
    b: nat,
    needs: bool,
    used: Seq<usize>,
    max_line: usize,
) -> Option<(Seq<IrLine>, nat, nat, bool)>
    decreases prog.len() - idx, (if 0 <= idx < prog.len() {
        prog[idx].1 as int - cl
    } else {
        0int
    }),
{
    if !(0 <= idx < prog.len()) {
        Some((seq![], t, b, needs))
    } else {
        let ln = prog[idx].1;
        if cl > ln {
            gen_prog_lines(prog, idx + 1, cl, t, b, needs, used, max_line)
        } else if cl < ln {
            let items = seq![IrLine::Label(LabelId::Line(cl as nat))] + (if cl < max_line {
                seq![IrLine::Jmp(LabelId::Line(cl as nat + 1))]
            } else {
                seq![]
            });
            if cl < usize::MAX {
                match gen_prog_lines(prog, idx, (cl + 1) as usize, t, b, needs, used, max_line) {
                    Some((rls, t3, b3, n3)) => Some((items + rls, t3, b3, n3)),
                    None => None,
                }
            } else {
                None
            }
        } else {
            let e = grp_end(prog, idx);
            if !(idx < e <= prog.len() && cl < usize::MAX) {
                None
            } else {
                match gen_body(group_views(prog, idx, e), used, t, b, max_line as nat) {
                    Some((bls, t2, b2, gneeds)) => {
                        let jump = if gneeds && e < prog.len() {
                            seq![IrLine::Jmp(LabelId::Line(prog[e].1 as nat))]
                        } else {
                            seq![]
                        };
                        match gen_prog_lines(
                            prog,
                            e,
                            (cl + 1) as usize,
                            t2,
                            b2,
                            gneeds,
                            used,
                            max_line,
                        ) {
                            Some((rls, t3, b3, n3)) => Some(
                                (
                                    seq![IrLine::Label(LabelId::Line(cl as nat))] + bls + jump
                                        + rls,
                                    t3,
                                    b3,
                                    n3,
                                ),
                            ),
                            None => None,
                        }
                    },
                    None => None,
                }
            }
        }
    }
}

/// The lowering of a whole program: the prologue's allocations and the
/// jump to the first statement's line, the labeled blocks, and a
/// default return when the last lowered statement still falls through.
pub open spec fn gen_program(prog: Seq<(StmtView, usize)>, t0: nat, b0: nat) -> Option<
    (Seq<IrLine>, nat, nat),
> {
    let used = spec_used(prog);
    let maxl = spec_max_line(prog);
    if maxl == usize::MAX {
        None
    } else {
        let pro = alloc_items(used) + (if prog.len() > 0 {
            seq![IrLine::Jmp(LabelId::Line(prog[0].1 as nat))]
        } else {
            seq![]
        });
        match gen_prog_lines(prog, 0, 1, t0, b0, true, used, maxl) {
            Some((ls, t2, b2, needs)) => Some(
                (
                    pro + ls + (if needs {
                        seq![IrLine::Ret("0"@)]
                    } else {
                        seq![]
                    }),
                    t2,
                    b2,
                ),
            ),
            None => None,
        }
    }
}

/// Lowering the labeled blocks never moves a counter backwards.
pub broadcast proof fn lemma_gen_prog_lines_mono(
    prog: Seq<(StmtView, usize)>,
    idx: int,
    cl: usize,
    t: nat,
    b: nat,
    needs: bool,
    used: Seq<usize>,
    max_line: usize,
)
    ensures
        stmt_counters_moved_up(
            #[trigger] gen_prog_lines(prog, idx, cl, t, b, needs, used, max_line),
            t,
            b,
        ),
    decreases prog.len() - idx, (if 0 <= idx < prog.len() {
        prog[idx].1 as int - cl
    } else {
        0int
    }),
{
    if 0 <= idx < prog.len() {
        let ln = prog[idx].1;
        if cl > ln {
            lemma_gen_prog_lines_mono(prog, idx + 1, cl, t, b, needs, used, max_line);
        } else if cl < ln {
            if cl < usize::MAX {
                lemma_gen_prog_lines_mono(
                    prog,
                    idx,
                    (cl + 1) as usize,
                    t,
                    b,
                    needs,
                    used,
                    max_line,
                );
            }
        } else {
            let e = grp_end(prog, idx);
            if idx < e <= prog.len() && cl < usize::MAX {
                lemma_gen_body_mono(group_views(prog, idx, e), used, t, b, max_line as nat);
                match gen_body(group_views(prog, idx, e), used, t, b, max_line as nat) {
                    Some(res) => {
                        lemma_gen_prog_lines_mono(
                            prog,
                            e,
                            (cl + 1) as usize,
                            res.1,
                            res.2,
                            res.3,
                            used,
                            max_line,
                        );
                    },
                    None => {},
                }
            }
        }
    }
}

/// The header text above the emitted blocks.
pub open spec fn header_text() -> Seq<char> {
    "fn @main() -> i64 {\n"@ + "  entry:\n"@
}

impl CodeGenerator {
    /// Emits the prologue: one zero-initialized storage cell per entry
    /// of the slot table, in table order, then the jump to the first
    /// statement's line when the program is not empty.
    #[verifier::loop_isolation(false)]
    #[verifier::rlimit(100)]
    fn emit_prologue(&mut self, program: &Program)
        ensures
            final(self).output@ == old(self).output@ + render(
                alloc_items(old(self).used_vars@) + (if program.statements@.len() > 0 {
                    seq![
                        IrLine::Jmp(
                            LabelId::Line(program.statements@[0].1 as nat),
                        ),
                    ]
                } else {
                    Seq::<IrLine>::empty()
                }),
            ),
            final(self).var_counter == old(self).var_counter,
            final(self).block_counter == old(self).block_counter,
            final(self).used_vars == old(self).used_vars,
    {
        broadcast use lemma_render_one, lemma_render_concat;

        let ghost usedg = self.used_vars@;
        let ghost base = self.output@;
        let ghost mut done: Seq<IrLine> = seq![];
        proof {
            assert(base + render(done) =~= base);
            assert(usedg.skip(0) =~= usedg);
        }
        let mut v: usize = 0;
        while v < self.used_vars.len()
            invariant
                v <= self.used_vars@.len(),
                self.used_vars == old(self).used_vars,
                self.var_counter == old(self).var_counter,
                self.block_counter == old(self).block_counter,
                self.output@ == base + render(done),
                alloc_items(usedg) == done + alloc_items(usedg.skip(v as int)),
            decreases self.used_vars@.len() - v,
        {
            let ptr = var_ptr_string(self.used_vars[v]);
            let mut text = ptr.clone();
            text.append(" = alloc.ptr.stack i64");
            self.emit_inst(&text);
            proof {
                let ghost prev = done;
                done = done + seq![IrLine::Inst(text@)];
                lemma_chars_add_assoc(base, render(prev), render_line(IrLine::Inst(text@)));
                assert(self.output@ == base + render(done));
            }
            let mut text2 = "store.i64 ".to_owned();
            text2.append(ptr.as_str());
            text2.append(", 0");
            self.emit_inst(&text2);
            proof {
                let ghost prev = done;
                done = done + seq![IrLine::Inst(text2@)];
                lemma_chars_add_assoc(base, render(prev), render_line(IrLine::Inst(text2@)));
                assert(self.output@ == base + render(done));
                assert(usedg.skip(v as int).drop_first() =~= usedg.skip(v as int + 1));
                assert(alloc_items(usedg) =~= (done + alloc_items(usedg.skip(v as int + 1))));
            }
            v = v + 1;
        }
        proof {
            assert(usedg.skip(usedg.len() as int) =~= Seq::<usize>::empty());
            assert(done + alloc_items(usedg.skip(usedg.len() as int)) =~= done);
            assert(alloc_items(usedg) == done);
        }
        if program.statements.len() > 0 {
            let first_line = program.statements[0].1;
            let target = line_label_string(first_line);
            self.emit_jmp(&target, Ghost(LabelId::Line(first_line as nat)));
            proof {
                let ghost prev = done;
                done = done + seq![IrLine::Jmp(LabelId::Line(first_line as nat))];
                lemma_chars_add_assoc(
                    base,
                    render(prev),
                    render_line(IrLine::Jmp(LabelId::Line(first_line as nat))),
                );
                assert(self.output@ == base + render(done));
            }
        }
    }

    /// Emits the labeled blocks for every line from 1 up to the last:
    /// empty lines fall through; a line's statements share its block.
    /// Returns whether the last lowered statement still falls through.
    #[verifier::loop_isolation(false)]
    #[verifier::rlimit(100)]
    fn generate_lines(&mut self, program: &Program, max_line: usize) -> (r: Result<bool, String>)
        requires
            max_line < usize::MAX,
            forall|j: int|
                0 <= j < program.statements@.len() ==> (#[trigger] program.statements@[j]).1
                    <= max_line,
        ensures
            match gen_prog_lines(
                prog_view(program),
                0,
                1,
                old(self).var_counter as nat,
                old(self).block_counter as nat,
                true,
                old(self).used_vars@,
                max_line,
            ) {
                Some(res) => {
                    &&& (r is Ok <==> res.1 <= usize::MAX as nat && res.2 <= usize::MAX as nat)
                    &&& (r is Ok ==> final(self).output@ == old(self).output@ + render(res.0))
                    &&& (r is Ok ==> final(self).var_counter as nat == res.1)
                    &&& (r is Ok ==> final(self).block_counter as nat == res.2)
                    &&& (r is Ok ==> final(self).used_vars == old(self).used_vars)
                    &&& (r is Ok ==> r->Ok_0 == res.3)
                },
                None => r is Err,
            },
    {
        broadcast use
            lemma_render_one,
            lemma_render_concat,
            lemma_gen_stmt_mono,
            lemma_gen_body_mono,
            lemma_gen_prog_lines_mono;

        let ghost pv = prog_view(program);
        let ghost usedg = self.used_vars@;
        let ghost full = gen_prog_lines(
            pv,
            0,
            1,
            self.var_counter as nat,
            self.block_counter as nat,
            true,
            usedg,
            max_line,
        );
        let ghost mid = self.output@;
        let ghost mut ldone: Seq<IrLine> = seq![];
        let mut last_needs_terminator = true;
        let mut current_line: usize = 1;
        let mut idx: usize = 0;
        proof {
            assert(pv.len() == program.statements@.len());
            assert(forall|j: int| 0 <= j < pv.len() ==> (#[trigger] pv[j]).1
                == program.statements@[j].1);
            assert(mid + render(ldone) =~= mid);
        }
        while idx < program.statements.len()
            invariant
                idx <= program.statements@.len(),
                1 <= current_line,
                current_line <= max_line + 1,
                self.used_vars == old(self).used_vars,
                self.used_vars@ == usedg,
                self.output@ == mid + render(ldone),
                match gen_prog_lines(
                    pv,
                    idx as int,
                    current_line,
                    self.var_counter as nat,
                    self.block_counter as nat,
                    last_needs_terminator,
                    usedg,
                    max_line,
                ) {
                    Some(rm) => full == Some((ldone + rm.0, rm.1, rm.2, rm.3)),
                    None => full is None,
                },
            decreases program.statements@.len() - idx, max_line + 1 - current_line,
        {
            let line_num = program.statements[idx].1;
            proof {
                assert(pv[idx as int].1 == line_num);
            }
            if current_line > line_num {
                idx = idx + 1;
            } else if current_line < line_num {
                let ghost ldone0 = ldone;
                let label = line_label_string(current_line);
                self.emit_label(&label, Ghost(LabelId::Line(current_line as nat)));
                proof {
                    let ghost prev = ldone;
                    ldone = ldone + seq![IrLine::Label(LabelId::Line(current_line as nat))];
                    lemma_chars_add_assoc(
                        mid,
                        render(prev),
                        render_line(IrLine::Label(LabelId::Line(current_line as nat))),
                    );
                    assert(self.output@ == mid + render(ldone));
                }
                if current_line < max_line {
                    let target = line_label_string(current_line + 1);
                    self.emit_jmp(&target, Ghost(LabelId::Line(current_line as nat + 1)));
                    proof {
                        let ghost prev = ldone;
                        ldone = ldone + seq![IrLine::Jmp(LabelId::Line(current_line as nat + 1))];
                        lemma_chars_add_assoc(
                            mid,
                            render(prev),
                            render_line(IrLine::Jmp(LabelId::Line(current_line as nat + 1))),
                        );
                        assert(self.output@ == mid + render(ldone));
                    }
                }
                proof {
                    let ghost items = seq![
                        IrLine::Label(LabelId::Line((current_line as nat))),
                    ] + (if current_line < max_line {
                        seq![IrLine::Jmp(LabelId::Line(current_line as nat + 1))]
                    } else {
                        seq![]
                    });
                    match gen_prog_lines(
                        pv,
                        idx as int,
                        (current_line + 1) as usize,
                        self.var_counter as nat,
                        self.block_counter as nat,
                        last_needs_terminator,
                        usedg,
                        max_line,
                    ) {
                        Some(rm) => {
                            assert(ldone0 + (items + rm.0) =~= ldone + rm.0);
                        },
                        None => {},
                    }
                }
                current_line = current_line + 1;
            } else {
                let ghost ldone0 = ldone;
                proof {
                    lemma_grp_end_props(pv, idx as int);
                }
                let label = line_label_string(current_line);
                self.emit_label(&label, Ghost(LabelId::Line(current_line as nat)));
                proof {
                    let ghost prev = ldone;
                    ldone = ldone + seq![IrLine::Label(LabelId::Line(current_line as nat))];
                    lemma_chars_add_assoc(
                        mid,
                        render(prev),
                        render_line(IrLine::Label(LabelId::Line(current_line as nat))),
                    );
                    assert(self.output@ == mid + render(ldone));
                }
                let ghost gt = self.var_counter as nat;
                let ghost gb = self.block_counter as nat;
                let ghost e = grp_end(pv, idx as int);
                let ghost gvs = group_views(pv, idx as int, e);
                let group_res = match self.generate_line_group(program, idx, max_line) {
                    Ok(p) => p,
                    Err(e2) => {
                        proof {
                            match gen_body(gvs, usedg, gt, gb, max_line as nat) {
                                Some(resg) => {
                                    lemma_gen_prog_lines_mono(
                                        pv,
                                        e,
                                        (current_line + 1) as usize,
                                        resg.1,
                                        resg.2,
                                        resg.3,
                                        usedg,
                                        max_line,
                                    );
                                },
                                None => {},
                            }
                        }
                        return Err(e2);
                    },
                };
                let gneeds = group_res.0;
                let j = group_res.1;
                let ghost gdone: Seq<IrLine> = ({
                    match gen_body(gvs, usedg, gt, gb, max_line as nat) {
                        Some(res) => res.0,
                        None => Seq::empty(),
                    }
                });
                last_needs_terminator = gneeds;
                proof {
                    let ghost prev = ldone;
                    ldone = ldone + gdone;
                    lemma_chars_add_assoc(mid, render(prev), render(gdone));
                    assert(self.output@ == mid + render(ldone));
                }
                if gneeds && j < program.statements.len() {
                    let next_line = program.statements[j].1;
                    let target = line_label_string(next_line);
                    self.emit_jmp(&target, Ghost(LabelId::Line(next_line as nat)));
                    proof {
                        assert(pv[j as int].1 == next_line);
                        let ghost prev = ldone;
                        ldone = ldone + seq![IrLine::Jmp(LabelId::Line(next_line as nat))];
                        lemma_chars_add_assoc(
                            mid,
                            render(prev),
                            render_line(IrLine::Jmp(LabelId::Line(next_line as nat))),
                        );
                        assert(self.output@ == mid + render(ldone));
                    }
                }
                proof {
                    let ghost jump = (if gneeds && e < pv.len() {
                        seq![IrLine::Jmp(LabelId::Line(pv[e].1 as nat))]
                    } else {
                        seq![]
                    });
                    let ghost items = seq![
                        IrLine::Label(LabelId::Line((current_line as nat))),
                    ] + gdone + jump;
                    match gen_prog_lines(
                        pv,
                        e,
                        (current_line + 1) as usize,
                        self.var_counter as nat,
                        self.block_counter as nat,
                        gneeds,
                        usedg,
                        max_line,
                    ) {
                        Some(rm) => {
                            assert(ldone0 + (items + rm.0) =~= ldone + rm.0);
                        },
                        None => {},
                    }
                }
                idx = j;
                current_line = current_line + 1;
            }
        }
        proof {
            assert(ldone + Seq::<IrLine>::empty() =~= ldone);
        }
        Ok(last_needs_terminator)
    }

    /// Lowers a whole program: a prologue that allocates one
    /// zero-initialized cell per referenced slot in ascending order, then
    /// one labeled block per source line from 1 to the last — statements
    /// sharing a line share its block, empty lines fall through — and a
    /// default return when the final block still falls through.
    #[verifier::loop_isolation(false)]
    #[verifier::rlimit(100)]
    pub fn generate(&mut self, program: &Program) -> (r: Result<String, String>)
        ensures
            match gen_program(
                prog_view(program),
                old(self).var_counter as nat,
                old(self).block_counter as nat,
            ) {
                Some(res) => {
                    &&& (r is Ok <==> res.1 <= usize::MAX as nat && res.2 <= usize::MAX as nat)
                    &&& (r is Ok ==> final(self).output@ == old(self).output@ + (header_text()
                        + render(res.0) + "}\n"@))
                    &&& (r is Ok ==> r->Ok_0@ == final(self).output@)
                    &&& (r is Ok ==> final(self).var_counter as nat == res.1)
                    &&& (r is Ok ==> final(self).block_counter as nat == res.2)
                    &&& (r is Ok ==> final(self).used_vars@ == spec_used(prog_view(program)))
                },
                None => r is Err,
            },
    {
        broadcast use lemma_render_one, lemma_render_concat;

        let ghost pv = prog_view(program);
        let ghost t0 = self.var_counter as nat;
        let ghost b0g = self.block_counter as nat;
        let ghost out0 = self.output@;
        let ghost usedg = spec_used(pv);

        let used_vars = self.collect_used_variables(program);
        self.used_vars = used_vars;

        let mut max_line: usize = 1;
        let mut k: usize = 0;
        proof {
            assert(pv.len() == program.statements@.len());
        }
        while k < program.statements.len()
            invariant
                k <= program.statements@.len(),
                1 <= max_line,
                forall|j: int|
                    0 <= j < k ==> (#[trigger] program.statements@[j]).1 <= max_line,
                spec_max_from(pv, 0, 1) == spec_max_from(pv, k as int, max_line),
            decreases program.statements@.len() - k,
        {
            proof {
                assert(pv[k as int].1 == program.statements@[k as int].1);
            }
            if program.statements[k].1 > max_line {
                max_line = program.statements[k].1;
            }
            k = k + 1;
        }
        proof {
            assert(spec_max_line(pv) == max_line);
        }
        if max_line == usize::MAX {
            return Err("line number too large".to_owned());
        }

        self.output.append("fn @main() -> i64 {\n");
        self.output.append("  entry:\n");
        proof {
            assert(self.output@ =~= out0 + header_text());
        }
        self.emit_prologue(program);
        let ghost pro = alloc_items(usedg) + (if pv.len() > 0 {
            seq![IrLine::Jmp(LabelId::Line(pv[0].1 as nat))]
        } else {
            Seq::<IrLine>::empty()
        });
        proof {
            assert(pv.len() == program.statements@.len());
            if pv.len() > 0 {
                assert(pv[0].1 == program.statements@[0].1);
            }
            assert(self.output@ == (out0 + header_text()) + render(pro));
        }
        let last_needs_terminator = match self.generate_lines(program, max_line) {
            Ok(v2) => v2,
            Err(e2) => {
                return Err(e2);
            },
        };
        let ghost lines_items: Seq<IrLine> = ({
            match gen_prog_lines(pv, 0, 1, t0, b0g, true, usedg, max_line) {
                Some(res) => res.0,
                None => Seq::empty(),
            }
        });
        proof {
            lemma_chars_add_assoc(out0 + header_text(), render(pro), render(lines_items));
            assert(self.output@ == (out0 + header_text()) + (render(pro) + render(
                lines_items,
            )));
            assert(render(pro + lines_items) == render(pro) + render(lines_items));
        }
        if last_needs_terminator {
            let zero = "0".to_owned();
            self.emit_ret(&zero);
        }
        self.output.append("}\n");
        proof {
            match gen_program(pv, t0, b0g) {
                Some(res) => {
                    if last_needs_terminator {
                        assert(res.0 =~= (pro + lines_items) + seq![IrLine::Ret("0"@)]);
                    } else {
                        assert(res.0 =~= pro + lines_items);
                    }
                    assert(self.output@ =~= out0 + (header_text() + render(res.0) + "}\n"@));
                },
                None => {
                    assert(false);
                },
            }
        }
        Ok(self.output.clone())
    }
}

impl CodeGenerator {
    /// Lowers the run of statements that share one source line into the
    /// already-opened block for that line, with no fall-through jumps
    /// between them.  Returns the last statement's fall-through flag and
    /// the index just past the run.
    #[verifier::loop_isolation(false)]
    #[verifier::rlimit(100)]
    fn generate_line_group(&mut self, program: &Program, idx: usize, max_line: usize) -> (r:
        Result<(bool, usize), String>)
        requires
            idx < program.statements@.len(),
        ensures
            ({
                let pv = prog_view(program);
                let e = grp_end(pv, idx as int);
                let gvs = group_views(pv, idx as int, e);
                match gen_body(
                    gvs,
                    old(self).used_vars@,
                    old(self).var_counter as nat,
                    old(self).block_counter as nat,
                    max_line as nat,
                ) {
                    Some(res) => {
                        &&& (r is Ok <==> res.1 <= usize::MAX as nat && res.2
                            <= usize::MAX as nat)
                        &&& (r is Ok ==> final(self).output@ == old(self).output@ + render(
                            res.0,
                        ))
                        &&& (r is Ok ==> final(self).var_counter as nat == res.1)
                        &&& (r is Ok ==> final(self).block_counter as nat == res.2)
                        &&& (r is Ok ==> final(self).used_vars == old(self).used_vars)
                        &&& (r is Ok ==> r->Ok_0.0 == res.3)
                        &&& (r is Ok ==> r->Ok_0.1 as int == e)
                    },
                    None => r is Err,
                }
            }),
    {
        broadcast use
            lemma_render_one,
            lemma_render_concat,
            lemma_gen_stmt_mono,
            lemma_gen_body_mono;

        let ghost pv = prog_view(program);
        let ghost usedg = old(self).used_vars@;
        let line_num = program.statements[idx].1;
        proof {
            assert(pv[idx as int].1 == line_num);
        }
        let ghost e = grp_end(pv, idx as int);
        let ghost gvs = group_views(pv, idx as int, e);
        let ghost gt = self.var_counter as nat;
        let ghost gb = self.block_counter as nat;
        let ghost gfull = gen_body(gvs, usedg, gt, gb, max_line as nat);
        let ghost gbase = self.output@;
        let ghost mut gdone: Seq<IrLine> = seq![];
        proof {
            lemma_grp_end_props(pv, idx as int);
            assert(gvs.len() == e - idx);
            assert(gvs.skip(0) =~= gvs);
            assert(gbase + render(gdone) =~= gbase);
        }
        let mut gneeds: bool = true;
        let mut j: usize = idx;
        while j < program.statements.len() && program.statements[j].1 == line_num
            invariant
                idx <= j,
                j as int <= e,
                self.used_vars == old(self).used_vars,
                self.used_vars@ == usedg,
                self.output@ == gbase + render(gdone),
                (j as int) < e ==> match gen_body(
                    gvs.skip(j as int - idx),
                    usedg,
                    self.var_counter as nat,
                    self.block_counter as nat,
                    max_line as nat,
                ) {
                    Some(rm) => gfull == Some((gdone + rm.0, rm.1, rm.2, rm.3)),
                    None => gfull is None,
                },
                j as int == e ==> gfull == Some(
                    (gdone, self.var_counter as nat, self.block_counter as nat, gneeds),
                ),
            decreases program.statements@.len() - j,
        {
            proof {
                assert((j as int) < e) by {
                    if (j as int) == e {
                        assert(pv[j as int].1 == program.statements@[j as int].1);
                    }
                }
                assert(gvs.skip(j as int - idx)[0] == gvs[j as int - idx]);
                assert(gvs[j as int - idx] == pv[j as int].0);
                assert(pv[j as int].0 == stmt_view(program.statements@[j as int].0));
                assert(gvs.skip(j as int - idx).drop_first() =~= gvs.skip(j as int + 1 - idx));
            }
            let ghost pre_t = self.var_counter as nat;
            let ghost pre_b = self.block_counter as nat;
            let needs_j = match self.generate_statement(&program.statements[j].0, max_line) {
                Ok(v2) => v2,
                Err(e2) => {
                    proof {
                        match gen_stmt(
                            gvs.skip(j as int - idx)[0],
                            usedg,
                            pre_t,
                            pre_b,
                            max_line as nat,
                        ) {
                            Some(resj) => {
                                if j as int + 1 < e {
                                    lemma_gen_body_mono(
                                        gvs.skip(j as int + 1 - idx),
                                        usedg,
                                        resj.1,
                                        resj.2,
                                        max_line as nat,
                                    );
                                }
                            },
                            None => {},
                        }
                    }
                    return Err(e2);
                },
            };
            proof {
                let ghost gdone_prev = gdone;
                match gen_stmt(
                    gvs.skip(j as int - idx)[0],
                    usedg,
                    pre_t,
                    pre_b,
                    max_line as nat,
                ) {
                    Some(resj) => {
                        gdone = gdone + resj.0;
                        lemma_chars_add_assoc(gbase, render(gdone_prev), render(resj.0));
                        assert(self.output@ == gbase + render(gdone));
                        if j as int + 1 < e {
                            match gen_body(
                                gvs.skip(j as int + 1 - idx),
                                usedg,
                                self.var_counter as nat,
                                self.block_counter as nat,
                                max_line as nat,
                            ) {
                                Some(rm2) => {
                                    assert(gdone_prev + (resj.0 + rm2.0) =~= gdone + rm2.0);
                                },
                                None => {},
                            }
                        }
                    },
                    None => {
                        assert(false);
                    },
                }
            }
            gneeds = needs_j;
            j = j + 1;
        }
        proof {
            assert((j as int) == e) by {
                if (j as int) < e {
                    assert(pv[j as int].1 == pv[idx as int].1);
                    assert(pv[j as int].1 == program.statements@[j as int].1);
                }
            }
        }
        Ok((gneeds, j))
    }
}

/// Recording an expression's slots keeps the list ascending and adds
/// exactly the slots the expression reads.
pub proof fn lemma_expr_collect_elems(e: Expr, acc: Seq<usize>)
    requires
        sorted_unique(acc),
    ensures
        sorted_unique(expr_collect(e, acc)),
        forall|x: usize| #[trigger] expr_collect(e, acc).contains(x) <==> (acc.contains(x)
            || expr_vars(e).contains(x)),
    decreases e,
{
    match e {
        Expr::Number(_) => {},
        Expr::Var(i) => {
            lemma_insert_sorted(acc, i);
        },
        Expr::Add(l, r) => {
            lemma_expr_collect_elems(*l, acc);
            lemma_expr_collect_elems(*r, expr_collect(*l, acc));
        },
        Expr::Sub(l, r) => {
            lemma_expr_collect_elems(*l, acc);
            lemma_expr_collect_elems(*r, expr_collect(*l, acc));
        },
        Expr::Mul(l, r) => {
            lemma_expr_collect_elems(*l, acc);
            lemma_expr_collect_elems(*r, expr_collect(*l, acc));
        },
    }
}

/// Recording a statement's slots keeps the list ascending and adds
/// exactly the slots the statement references.
pub proof fn lemma_stmt_collect_elems(s: StmtView, acc: Seq<usize>)
    requires
        sorted_unique(acc),
    ensures
        sorted_unique(stmt_collect(s, acc)),
        forall|x: usize| #[trigger] stmt_collect(s, acc).contains(x) <==> (acc.contains(x)
            || stmt_vars(s).contains(x)),
    decreases s,
{
    match s {
        StmtView::Assign { var_index, value } => {
            lemma_insert_sorted(acc, var_index);
            lemma_expr_collect_elems(value, insert_sorted(acc, var_index));
        },
        StmtView::Input { var_index } => {
            lemma_insert_sorted(acc, var_index);
        },
        StmtView::PrintNum(e) => {
            lemma_expr_collect_elems(e, acc);
        },
        StmtView::PrintChar(e) => {
            lemma_expr_collect_elems(e, acc);
        },
        StmtView::PrintNewline => {},
        StmtView::Conditional { condition, body } => {
            lemma_expr_collect_elems(condition, acc);
            lemma_body_collect_elems(body, expr_collect(condition, acc));
        },
        StmtView::Goto(_) => {},
        StmtView::Return(e) => {
            lemma_expr_collect_elems(e, acc);
        },
    }
}

/// Recording a statement sequence's slots keeps the list ascending and
/// adds exactly the slots the sequence references.
pub proof fn lemma_body_collect_elems(ss: Seq<StmtView>, acc: Seq<usize>)
    requires
        sorted_unique(acc),
    ensures
        sorted_unique(body_collect(ss, acc)),
        forall|x: usize| #[trigger] body_collect(ss, acc).contains(x) <==> (acc.contains(x)
            || stmts_list_vars(ss).contains(x)),
    decreases ss,
{
    if ss.len() == 0 {
    } else {
        lemma_stmt_collect_elems(ss[0], acc);
        lemma_body_collect_elems(ss.drop_first(), stmt_collect(ss[0], acc));
        lemma_stmts_list_vars_head(ss);
    }
}

/// The slots of a nonempty sequence are those of its head and its tail.
pub proof fn lemma_stmts_list_vars_head(ss: Seq<StmtView>)
    requires
        ss.len() > 0,
    ensures
        stmts_list_vars(ss) == stmt_vars(ss[0]).union(stmts_list_vars(ss.drop_first())),
    decreases ss.len(),
{
    if ss.len() == 1 {
        assert(ss.drop_last() =~= Seq::<StmtView>::empty());
        assert(ss.drop_first() =~= Seq::<StmtView>::empty());
        assert(stmts_list_vars(ss) =~= stmt_vars(ss[0]).union(
            stmts_list_vars(ss.drop_first()),
        ));
    } else {
        lemma_stmts_list_vars_head(ss.drop_last());
        assert(ss.drop_last()[0] == ss[0]);
        assert(ss.drop_last().drop_first() =~= ss.drop_first().drop_last());
        assert(ss.drop_first().last() == ss.last());
        assert(stmts_list_vars(ss) =~= stmt_vars(ss[0]).union(
            stmts_list_vars(ss.drop_first()),
        ));
    }
}

/// The slots of a nonempty program are those of its first statement and
/// of the rest.
pub proof fn lemma_prog_vars_head(prog: Seq<(StmtView, usize)>)
    requires
        prog.len() > 0,
    ensures
        prog_vars(prog) == stmt_vars(prog[0].0).union(prog_vars(prog.drop_first())),
    decreases prog.len(),
{
    if prog.len() == 1 {
        assert(prog.drop_last() =~= Seq::<(StmtView, usize)>::empty());
        assert(prog.drop_first() =~= Seq::<(StmtView, usize)>::empty());
        assert(prog_vars(prog) =~= stmt_vars(prog[0].0).union(
            prog_vars(prog.drop_first()),
        ));
    } else {
        lemma_prog_vars_head(prog.drop_last());
        assert(prog.drop_last()[0] == prog[0]);
        assert(prog.drop_last().drop_first() =~= prog.drop_first().drop_last());
        assert(prog.drop_first().last() == prog.last());
        assert(prog_vars(prog) =~= stmt_vars(prog[0].0).union(
            prog_vars(prog.drop_first()),
        ));
    }
}

/// Collecting a program's slots onto an ascending list keeps it
/// ascending and adds exactly the referenced slots.
pub proof fn lemma_prog_collect_elems(prog: Seq<(StmtView, usize)>, acc: Seq<usize>)
    requires
        sorted_unique(acc),
    ensures
        sorted_unique(prog_collect(prog, acc)),
        forall|x: usize| #[trigger] prog_collect(prog, acc).contains(x) <==> (acc.contains(x)
            || prog_vars(prog).contains(x)),
    decreases prog.len(),
{
    if prog.len() == 0 {
    } else {
        lemma_stmt_collect_elems(prog[0].0, acc);
        lemma_prog_collect_elems(prog.drop_first(), stmt_collect(prog[0].0, acc));
        lemma_prog_vars_head(prog);
    }
}

/// Slot minimality: the prologue's slot table holds exactly the slots
/// the program references, each once, in ascending order.  One storage
/// cell is allocated per entry of that table, so the set of allocated
/// cells equals the set of referenced slots, with no extras and none
/// missing.
pub proof fn lemma_slot_minimality(prog: Seq<(StmtView, usize)>)
    ensures
        sorted_unique(spec_used(prog)),
        forall|x: usize| #[trigger] spec_used(prog).contains(x) <==> prog_vars(prog).contains(
            x,
        ),
{
    lemma_prog_collect_elems(prog, Seq::<usize>::empty());
}


/// Fall-through correctness, per statement: a statement's lowering
/// still needs a fall-through jump exactly when it is neither a goto
/// nor a return, which terminate their block themselves.
pub proof fn lemma_fall_through_flag(sv: StmtView, used: Seq<usize>, t: nat, b: nat, max_line: nat)
    ensures
        ({
            match gen_stmt(sv, used, t, b, max_line) {
                Some(res) => res.3 <==> !(sv is Goto || sv is Return),
                None => true,
            }
        }),
{
}

/// Fall-through correctness, per line: among the emitted blocks, the
/// block holding the run of statements that share one line is followed
/// by a jump to the next statement's line exactly when the run's last
/// statement still falls through and another statement follows.
pub proof fn lemma_line_fall_through(
    prog: Seq<(StmtView, usize)>,
    idx: int,
    t: nat,
    b: nat,
    needs: bool,
    used: Seq<usize>,
    max_line: usize,
)
    requires
        0 <= idx < prog.len(),
        prog[idx].1 < usize::MAX,
    ensures
        ({
            let cl = prog[idx].1;
            let e = grp_end(prog, idx);
            match gen_prog_lines(prog, idx, cl, t, b, needs, used, max_line) {
                Some(res) => match gen_body(
                    group_views(prog, idx, e),
                    used,
                    t,
                    b,
                    max_line as nat,
                ) {
                    Some(g) => match gen_prog_lines(
                        prog,
                        e,
                        (cl + 1) as usize,
                        g.1,
                        g.2,
                        g.3,
                        used,
                        max_line,
                    ) {
                        Some(rest) => res.0 == seq![
                            IrLine::Label(LabelId::Line(cl as nat)),
                        ] + g.0 + (if g.3 && e < prog.len() {
                            seq![IrLine::Jmp(LabelId::Line(prog[e].1 as nat))]
                        } else {
                            seq![]
                        }) + rest.0,
                        None => true,
                    },
                    None => true,
                },
                None => true,
            }
        }),
{
    lemma_grp_end_props(prog, idx);
}

} // verus!
