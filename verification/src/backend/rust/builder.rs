//! A small Rust syntax tree and its printer.

use vstd::prelude::*;

use crate::text::{indent, pad_level};

verus! {

/// A sequence of statements.
pub struct Block(Vec<Statement>);

/// A Rust statement or item. Expressions are kept as source text.
#[allow(inconsistent_fields)]
pub enum Statement {
    Assign { is_let: bool, lhs: String, rhs: String },
    AssignBlock { is_let: bool, lhs: String, rhs: Block },
    Expr { inner: String },
    Block { block: Block },
    Inline { block: Block },
    Module { name: String, block: Block },
    DefineFunction { signature: String, block: Block },
    For { condition: String, block: Block },
    Match { input: String, cases: Vec<MatchCase> },
}

/// One arm of a `match`.
pub struct MatchCase {
    pub pattern: String,
    pub block: Block,
}

impl View for Block {
    type V = Seq<Statement>;

    closed spec fn view(&self) -> Seq<Statement> {
        self.0@
    }
}

/// `let ` when the assignment declares its variable.
pub open spec fn let_keyword(is_let: bool) -> Seq<char> {
    if is_let {
        "let "@
    } else {
        Seq::empty()
    }
}

/// The printed form of a block at indentation `level`: its statements, one after another.
pub closed spec fn block_text(b: Block, level: nat) -> Seq<char>
    decreases b, 0nat,
{
    proof {
        assert(decreases_to!(b => b.0));
    }
    stmts_text(b.0@, level)
}

/// A block prints as its statements, and can be printed when each of them can.
pub proof fn lemma_block_unfold(b: Block, level: nat)
    ensures
        block_text(b, level) == stmts_text(b@, level),
        block_ready(b, level) == (forall|i: int| 0 <= i < b@.len() ==> stmt_ready(#[trigger] b@[i], level)),
{
    assert(b@ == b.0@);
}

/// The printed form of a list of statements.
pub open spec fn stmts_text(ss: Seq<Statement>, level: nat) -> Seq<char>
    decreases ss, 0nat,
{
    if ss.len() == 0 {
        Seq::empty()
    } else {
        stmts_text(ss.drop_last(), level) + stmt_text(ss.last(), level)
    }
}

/// The arms of a `match`, each `pattern => { .. },` one level deeper than the `match`.
pub open spec fn cases_text(cs: Seq<MatchCase>, level: nat) -> Seq<char>
    decreases cs, 0nat,
{
    if cs.len() == 0 {
        Seq::empty()
    } else {
        cases_text(cs.drop_last(), level) + indent(level + 1) + cs.last().pattern@ + " => {\n"@
            + block_text(cs.last().block, level + 2) + indent(level + 1) + "},\n"@
    }
}

/// The printed form of a statement at indentation `level`.
pub open spec fn stmt_text(s: Statement, level: nat) -> Seq<char>
    decreases s, 0nat,
{
    match s {
        Statement::Expr { inner } => indent(level) + inner@ + ";\n"@,
        Statement::Inline { block } => block_text(block, level),
        Statement::Block { block } => indent(level) + "{\n"@ + block_text(block, level + 1)
            + indent(level) + "};\n"@,
        Statement::Assign { is_let, lhs, rhs } => indent(level) + let_keyword(is_let) + lhs@
            + " = "@ + rhs@ + ";\n"@,
        Statement::AssignBlock { is_let, lhs, rhs } => indent(level) + let_keyword(is_let) + lhs@
            + " = {"@ + block_text(rhs, level + 1) + "};\n"@,
        Statement::Module { name, block } => indent(level) + "mod "@ + name@ + " {\n"@
            + block_text(block, level + 1) + indent(level) + "}\n"@,
        Statement::DefineFunction { signature, block } => indent(level) + "fn "@ + signature@
            + " {\n"@ + block_text(block, level + 1) + indent(level) + "}\n"@,
        Statement::For { condition, block } => indent(level) + "for "@ + condition@ + " {\n"@
            + block_text(block, level + 1) + indent(level) + "}\n"@,
        Statement::Match { input, cases } => indent(level) + "match "@ + input@ + " {\n"@
            + cases_text(cases@, level) + indent(level) + "};\n"@,
    }
}

/// A block can be printed at `level`: its deepest indentation still fits in a `u64`.
pub closed spec fn block_ready(b: Block, level: nat) -> bool
    decreases b, 0nat,
{
    proof {
        assert(decreases_to!(b => b.0));
    }
    forall|i: int| 0 <= i < b.0@.len() ==> stmt_ready(#[trigger] b.0@[i], level)
}

/// Every arm of a `match` can be printed two levels deeper than `level`.
pub open spec fn cases_ready(cs: Seq<MatchCase>, level: nat) -> bool
    decreases cs, 0nat,
{
    forall|i: int| 0 <= i < cs.len() ==> block_ready(#[trigger] cs[i].block, level + 2)
}

/// A statement can be printed at `level`.
pub open spec fn stmt_ready(s: Statement, level: nat) -> bool
    decreases s, 0nat,
{
    level <= u64::MAX && match s {
        Statement::Inline { block } => block_ready(block, level),
        Statement::Block { block } => level < u64::MAX && block_ready(block, level + 1),
        Statement::AssignBlock { rhs, .. } => level < u64::MAX && block_ready(rhs, level + 1),
        Statement::Module { block, .. } => level < u64::MAX && block_ready(block, level + 1),
        Statement::DefineFunction { block, .. } => level < u64::MAX && block_ready(
            block,
            level + 1,
        ),
        Statement::For { block, .. } => level < u64::MAX && block_ready(block, level + 1),
        Statement::Match { cases, .. } => level + 2 <= u64::MAX && cases_ready(cases@, level),
        _ => true,
    }
}

fn write_block(b: &Block, out: &mut String, level: u64)
    requires
        block_ready(*b, level as nat),
    ensures
        final(out)@ == old(out)@ + block_text(*b, level as nat),
    decreases b, 1nat,
{
    let ghost ss = b.0@;
    let mut i: usize = 0;
    while i < b.0.len()
        invariant
            ss == b.0@,
            block_ready(*b, level as nat),
            i <= ss.len(),
            out@ == old(out)@ + stmts_text(ss.take(i as int), level as nat),
        decreases ss.len() - i,
    {
        write_stmt(&b.0[i], out, level);
        proof {
            assert(ss.take(i + 1).drop_last() =~= ss.take(i as int));
            assert(out@ =~= old(out)@ + stmts_text(ss.take(i + 1), level as nat));
        }
        i += 1;
    }
    proof {
        assert(ss.take(ss.len() as int) =~= ss);
    }
}

fn write_cases(cases: &Vec<MatchCase>, out: &mut String, level: u64)
    requires
        level + 2 <= u64::MAX,
        cases_ready(cases@, level as nat),
    ensures
        final(out)@ == old(out)@ + cases_text(cases@, level as nat),
    decreases cases, 1nat,
{
    let ghost cs = cases@;
    let mut i: usize = 0;
    while i < cases.len()
        invariant
            cs == cases@,
            level + 2 <= u64::MAX,
            cases_ready(cs, level as nat),
            i <= cs.len(),
            out@ == old(out)@ + cases_text(cs.take(i as int), level as nat),
        decreases cs.len() - i,
    {
        let case = &cases[i];
        pad_level(out, level + 1);
        out.append(case.pattern.as_str());
        out.append(" => {\n");
        write_block(&case.block, out, level + 2);
        pad_level(out, level + 1);
        out.append("},\n");
        proof {
            assert(cs.take(i + 1).drop_last() =~= cs.take(i as int));
            assert(cs.take(i + 1).last() == cs[i as int]);
            assert(out@ =~= old(out)@ + cases_text(cs.take(i + 1), level as nat));
        }
        i += 1;
    }
    proof {
        assert(cs.take(cs.len() as int) =~= cs);
    }
}

fn push_let(is_let: bool, out: &mut String)
    ensures
        final(out)@ == old(out)@ + let_keyword(is_let),
{
    if is_let {
        out.append("let ");
    } else {
        proof {
            assert(out@ =~= old(out)@ + let_keyword(is_let));
        }
    }
}

#[verifier::spinoff_prover]
#[verifier::rlimit(60)]
fn write_stmt(s: &Statement, out: &mut String, level: u64)
    requires
        stmt_ready(*s, level as nat),
    ensures
        final(out)@ == old(out)@ + stmt_text(*s, level as nat),
    decreases s, 1nat,
{
    match s {
        Statement::Expr { inner } => {
            pad_level(out, level);
            out.append(inner.as_str());
            out.append(";\n");
            proof {
                assert(out@ =~= old(out)@ + stmt_text(*s, level as nat));
            }
        },
        Statement::Inline { block } => {
            write_block(block, out, level);
        },
        Statement::Block { block } => {
            pad_level(out, level);
            out.append("{\n");
            write_block(block, out, level + 1);
            pad_level(out, level);
            out.append("};\n");
            proof {
                assert(out@ =~= old(out)@ + stmt_text(*s, level as nat));
            }
        },
        Statement::Assign { is_let, lhs, rhs } => {
            pad_level(out, level);
            push_let(*is_let, out);
            out.append(lhs.as_str());
            out.append(" = ");
            out.append(rhs.as_str());
            out.append(";\n");
            proof {
                assert(out@ =~= old(out)@ + stmt_text(*s, level as nat));
            }
        },
        Statement::AssignBlock { is_let, lhs, rhs } => {
            pad_level(out, level);
            push_let(*is_let, out);
            out.append(lhs.as_str());
            out.append(" = {");
            write_block(rhs, out, level + 1);
            out.append("};\n");
            proof {
                assert(out@ =~= old(out)@ + stmt_text(*s, level as nat));
            }
        },
        Statement::Module { name, block } => {
            pad_level(out, level);
            out.append("mod ");
            out.append(name.as_str());
            out.append(" {\n");
            write_block(block, out, level + 1);
            pad_level(out, level);
            out.append("}\n");
            proof {
                assert(out@ =~= old(out)@ + stmt_text(*s, level as nat));
            }
        },
        Statement::DefineFunction { signature, block } => {
            pad_level(out, level);
            out.append("fn ");
            out.append(signature.as_str());
            out.append(" {\n");
            write_block(block, out, level + 1);
            pad_level(out, level);
            out.append("}\n");
            proof {
                assert(out@ =~= old(out)@ + stmt_text(*s, level as nat));
            }
        },
        Statement::For { condition, block } => {
            pad_level(out, level);
            out.append("for ");
            out.append(condition.as_str());
            out.append(" {\n");
            write_block(block, out, level + 1);
            pad_level(out, level);
            out.append("}\n");
            proof {
                assert(out@ =~= old(out)@ + stmt_text(*s, level as nat));
            }
        },
        Statement::Match { input, cases } => {
            pad_level(out, level);
            out.append("match ");
            out.append(input.as_str());
            out.append(" {\n");
            write_cases(cases, out, level);
            pad_level(out, level);
            out.append("};\n");
            proof {
                assert(out@ =~= old(out)@ + stmt_text(*s, level as nat));
            }
        },
    }
}

impl Block {
    pub fn new() -> (res: Block)
        ensures
            res@ == Seq::<Statement>::empty(),
    {
        Block(Vec::new())
    }

    /// Adds `lhs = rhs;`.
    pub fn assign(&mut self, lhs: String, rhs: String)
        ensures
            final(self)@ == old(self)@.push(Statement::Assign { is_let: false, lhs: lhs, rhs: rhs }),
    {
        self.0.push(Statement::Assign { is_let: false, lhs: lhs, rhs: rhs });
    }

    /// Adds `let lhs = rhs;`.
    pub fn let_assign(&mut self, lhs: String, rhs: String)
        ensures
            final(self)@ == old(self)@.push(Statement::Assign { is_let: true, lhs: lhs, rhs: rhs }),
    {
        self.0.push(Statement::Assign { is_let: true, lhs: lhs, rhs: rhs });
    }

    /// Adds the expression statement `string;`.
    pub fn expr(&mut self, string: String)
        ensures
            final(self)@ == old(self)@.push(Statement::Expr { inner: string }),
    {
        self.0.push(Statement::Expr { inner: string });
    }

    /// Adds `{ block };`.
    pub fn block(&mut self, block: Block)
        ensures
            final(self)@ == old(self)@.push(Statement::Block { block: block }),
    {
        self.0.push(Statement::Block { block: block });
    }

    /// Adds the statements of `block` at the current indentation.
    pub fn inline(&mut self, block: Block)
        ensures
            final(self)@ == old(self)@.push(Statement::Inline { block: block }),
    {
        self.0.push(Statement::Inline { block: block });
    }

    /// Adds `fn signature { block }`.
    pub fn decl_fun(&mut self, signature: String, block: Block)
        ensures
            final(self)@ == old(self)@.push(
                Statement::DefineFunction { signature: signature, block: block },
            ),
    {
        self.0.push(Statement::DefineFunction { signature: signature, block: block });
    }

    /// Adds `for cond { block }`.
    pub fn for_(&mut self, cond: String, block: Block)
        ensures
            final(self)@ == old(self)@.push(Statement::For { condition: cond, block: block }),
    {
        self.0.push(Statement::For { condition: cond, block: block });
    }

    /// Adds `match input { cases };`.
    pub fn match_(&mut self, input: String, cases: Vec<MatchCase>)
        ensures
            final(self)@ == old(self)@.push(Statement::Match { input: input, cases: cases }),
    {
        self.0.push(Statement::Match { input: input, cases: cases });
    }
}

/// Prints a syntax tree as Rust source.
pub trait ToRust {
    /// The tree can be printed at indentation `level`.
    spec fn rust_ready(&self, level: nat) -> bool;

    /// The source text of the tree at indentation `level`.
    spec fn rust(&self, level: nat) -> Seq<char>;

    /// Appends the source text at indentation `level` to `out`.
    fn to_rust(&self, out: &mut String, level: u64)
        requires
            self.rust_ready(level as nat),
        ensures
            final(out)@ == old(out)@ + self.rust(level as nat),
    ;
}

impl ToRust for Block {
    open spec fn rust_ready(&self, level: nat) -> bool {
        block_ready(*self, level)
    }

    open spec fn rust(&self, level: nat) -> Seq<char> {
        block_text(*self, level)
    }

    fn to_rust(&self, out: &mut String, level: u64) {
        write_block(self, out, level);
    }
}

impl ToRust for Statement {
    open spec fn rust_ready(&self, level: nat) -> bool {
        stmt_ready(*self, level)
    }

    open spec fn rust(&self, level: nat) -> Seq<char> {
        stmt_text(*self, level)
    }

    fn to_rust(&self, out: &mut String, level: u64) {
        write_stmt(self, out, level);
    }
}

} // verus!
