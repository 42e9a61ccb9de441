//! A small JavaScript syntax tree and its printer.

use vstd::prelude::*;

use crate::text::{
    end_state, indent, join, lemma_end_state_cat, lemma_join_views_pair, lemma_join_no_newline, lemma_no_newline_cat,
    lemma_shift_cat, lemma_shift_flat, lemma_shift_indent, lemma_shift_line, no_newline, pad_level,
    push_joined, shift_from, string_views,
};

verus! {

/// A sequence of statements.
pub struct Block(Vec<Statement>);

/// A JavaScript expression, kept as source text.
pub struct Expr(String);

/// The keyword that starts an assignment.
#[derive(Debug, Copy, Clone)]
pub enum AssignVariant {
    Plain,
    Var,
    Let,
    Const,
}

/// A JavaScript statement.
pub enum Statement {
    Assign { variant: AssignVariant, name: String, expr: Expr },
    If { conds: Vec<(Expr, Block)>, else_: Option<Block> },
    Return { expr: Expr },
    FunctionDeclaration { name: String, args: Vec<String>, block: Block },
    Expr { expr: Expr },
    Scope { block: Block },
    Block { block: Block },
    Comment { text: String },
    For { init: Expr, cond: Expr, incr: Expr, block: Block },
}

impl View for Block {
    type V = Seq<Statement>;

    closed spec fn view(&self) -> Seq<Statement> {
        self.0@
    }
}

impl View for Expr {
    type V = Seq<char>;

    closed spec fn view(&self) -> Seq<char> {
        self.0@
    }
}

/// The text that starts an assignment of the given kind.
pub open spec fn assign_keyword(v: AssignVariant) -> Seq<char> {
    match v {
        AssignVariant::Plain => ""@,
        AssignVariant::Var => "var "@,
        AssignVariant::Let => "let "@,
        AssignVariant::Const => "const "@,
    }
}

/// The printed form of a block at indentation `level`: its statements, one after another.
pub closed spec fn block_text(b: Block, level: nat) -> Seq<char>
    decreases b, 0nat,
{
    proof {
        assert(decreases_to!(b => b.0));
    }
    stmts_text(b.0@, level)
}

/// A block prints as its statements, and can be printed when each of them can.
pub proof fn lemma_block_unfold(b: Block, level: nat)
    ensures
        block_text(b, level) == stmts_text(b@, level),
        block_ready(b, level) == (forall|i: int| 0 <= i < b@.len() ==> stmt_ready(#[trigger] b@[i], level)),
        block_lines_ok(b) == (forall|i: int| 0 <= i < b@.len() ==> stmt_lines_ok(#[trigger] b@[i])),
{
    assert(b@ == b.0@);
}

/// The printed form of a list of statements.
pub open spec fn stmts_text(ss: Seq<Statement>, level: nat) -> Seq<char>
    decreases ss, 0nat,
{
    if ss.len() == 0 {
        Seq::empty()
    } else {
        stmts_text(ss.drop_last(), level) + stmt_text(ss.last(), level)
    }
}

/// The branches of an `if` chain: `if (c0) {..}`, then ` else if (ci) {..}` for the others.
pub open spec fn conds_text(cs: Seq<(Expr, Block)>, level: nat) -> Seq<char>
    decreases cs, 0nat,
{
    if cs.len() == 0 {
        Seq::empty()
    } else {
        conds_text(cs.drop_last(), level) + (if cs.len() == 1 {
            "if ("@
        } else {
            " else if ("@
        }) + cs.last().0@ + ") {\n"@ + block_text(cs.last().1, level + 1) + indent(level)
            + "}"@
    }
}

/// The printed form of a statement at indentation `level`.
pub open spec fn stmt_text(s: Statement, level: nat) -> Seq<char>
    decreases s, 0nat,
{
    match s {
        Statement::Assign { variant, name, expr } => indent(level) + assign_keyword(variant)
            + name@ + " = "@ + expr@ + ";\n"@,
        Statement::If { conds, else_ } => indent(level) + conds_text(conds@, level) + (match else_ {
            Some(b) => " else {\n"@ + block_text(b, level + 1) + indent(level) + "}"@,
            None => Seq::empty(),
        }) + "\n"@,
        Statement::Return { expr } => indent(level) + "return "@ + expr@ + ";\n"@,
        Statement::FunctionDeclaration { name, args, block } => indent(level) + "function "@
            + name@ + "("@ + join(string_views(args@), ", "@) + ") {\n"@ + block_text(
            block,
            level + 1,
        ) + indent(level) + "}\n"@,
        Statement::Expr { expr } => indent(level) + expr@ + ";\n"@,
        Statement::Scope { block } => indent(level) + "{\n"@ + block_text(block, level + 1)
            + indent(level) + "}\n"@,
        Statement::Block { block } => block_text(block, level),
        Statement::Comment { text } => indent(level) + "// "@ + text@ + "\n"@,
        Statement::For { init, cond, incr, block } => indent(level) + "for ("@ + init@ + "; "@
            + cond@ + "; "@ + incr@ + ") {\n"@ + block_text(block, level + 1) + indent(level)
            + "}\n"@,
    }
}

/// A block can be printed at `level`: every `if` in it has a condition and
/// the deepest indentation still fits in a `u64`.
pub closed spec fn block_ready(b: Block, level: nat) -> bool
    decreases b, 0nat,
{
    proof {
        assert(decreases_to!(b => b.0));
    }
    forall|i: int| 0 <= i < b.0@.len() ==> stmt_ready(#[trigger] b.0@[i], level)
}

/// Every branch of an `if` chain can be printed at `level + 1`.
pub open spec fn conds_ready(cs: Seq<(Expr, Block)>, level: nat) -> bool
    decreases cs, 0nat,
{
    forall|i: int| 0 <= i < cs.len() ==> block_ready(#[trigger] cs[i].1, level + 1)
}

/// A statement can be printed at `level`.
pub open spec fn stmt_ready(s: Statement, level: nat) -> bool
    decreases s, 0nat,
{
    level <= u64::MAX && match s {
        Statement::If { conds, else_ } => {
            &&& conds@.len() >= 1
            &&& level < u64::MAX
            &&& conds_ready(conds@, level)
            &&& match else_ {
                Some(b) => block_ready(b, level + 1),
                None => true,
            }
        },
        Statement::FunctionDeclaration { block, .. } => level < u64::MAX && block_ready(
            block,
            level + 1,
        ),
        Statement::Scope { block } => level < u64::MAX && block_ready(block, level + 1),
        Statement::Block { block } => block_ready(block, level),
        Statement::For { block, .. } => level < u64::MAX && block_ready(block, level + 1),
        _ => true,
    }
}

/// No text written for the block (names, expressions, arguments, comments)
/// holds a line break.
pub closed spec fn block_lines_ok(b: Block) -> bool
    decreases b, 0nat,
{
    proof {
        assert(decreases_to!(b => b.0));
    }
    forall|i: int| 0 <= i < b.0@.len() ==> stmt_lines_ok(#[trigger] b.0@[i])
}

/// No text written for the statement holds a line break.
pub open spec fn stmt_lines_ok(s: Statement) -> bool
    decreases s, 0nat,
{
    match s {
        Statement::Assign { name, expr, .. } => no_newline(name@) && no_newline(expr@),
        Statement::If { conds, else_ } => {
            &&& forall|k: int|
                0 <= k < conds@.len() ==> no_newline(#[trigger] conds@[k].0@) && block_lines_ok(
                    conds@[k].1,
                )
            &&& match else_ {
                Some(b) => block_lines_ok(b),
                None => true,
            }
        },
        Statement::Return { expr } => no_newline(expr@),
        Statement::FunctionDeclaration { name, args, block } => {
            &&& no_newline(name@)
            &&& forall|k: int| 0 <= k < args@.len() ==> no_newline(#[trigger] args@[k]@)
            &&& block_lines_ok(block)
        },
        Statement::Expr { expr } => no_newline(expr@),
        Statement::Scope { block } => block_lines_ok(block),
        Statement::Block { block } => block_lines_ok(block),
        Statement::Comment { text } => no_newline(text@),
        Statement::For { init, cond, incr, block } => no_newline(init@) && no_newline(cond@)
            && no_newline(incr@) && block_lines_ok(block),
    }
}

/// A line `x` ended by a break, then a block one level deeper, then `y` at
/// `level`: one more level shifts every line of it by four spaces.
proof fn lemma_braced_shift(x: Seq<char>, b: Block, l: nat, y: Seq<char>)
    requires
        no_newline(x),
        no_newline(y),
        y.len() > 0,
        block_lines_ok(b),
    ensures
        shift_from(x + seq!['\n'] + block_text(b, l + 1) + indent(l) + y, false) == x + seq!['\n']
            + block_text(b, l + 2) + indent(l + 1) + y,
        !end_state(x + seq!['\n'] + block_text(b, l + 1) + indent(l) + y, false),
    decreases b, 1nat,
{
    let nl = seq!['\n'];
    let bt = block_text(b, l + 1);
    lemma_block_shift(b, l + 1);
    lemma_shift_line(x);
    lemma_shift_indent(l, y);
    lemma_shift_flat(y);
    let t = x + nl + bt + indent(l) + y;
    assert(t =~= (x + nl) + (bt + (indent(l) + y)));
    lemma_shift_cat(x + nl, bt + (indent(l) + y), false);
    lemma_shift_cat(bt, indent(l) + y, true);
    lemma_end_state_cat(x + nl, bt + (indent(l) + y), false);
    lemma_end_state_cat(bt, indent(l) + y, true);
    assert((indent(l) + y).last() == y.last());
    assert(y.last() != '\n');
    assert(x + nl + block_text(b, l + 2) + indent(l + 1) + y =~= (x + nl) + (block_text(b, l + 2)
        + (indent(l + 1) + y)));
}

proof fn lemma_block_shift(b: Block, l: nat)
    requires
        block_lines_ok(b),
    ensures
        shift_from(block_text(b, l), true) == block_text(b, l + 1),
        end_state(block_text(b, l), true),
    decreases b, 0nat,
{
    lemma_stmts_shift(b.0@, l);
}

proof fn lemma_stmts_shift(ss: Seq<Statement>, l: nat)
    requires
        forall|i: int| 0 <= i < ss.len() ==> stmt_lines_ok(#[trigger] ss[i]),
    ensures
        shift_from(stmts_text(ss, l), true) == stmts_text(ss, l + 1),
        end_state(stmts_text(ss, l), true),
    decreases ss, 0nat,
{
    if ss.len() > 0 {
        let init = ss.drop_last();
        assert forall|i: int| 0 <= i < init.len() implies stmt_lines_ok(#[trigger] init[i]) by {
            assert(init[i] == ss[i]);
        }
        assert(stmt_lines_ok(ss[ss.len() - 1]));
        lemma_stmts_shift(init, l);
        lemma_stmt_shift(ss.last(), l);
        lemma_shift_cat(stmts_text(init, l), stmt_text(ss.last(), l), true);
        lemma_end_state_cat(stmts_text(init, l), stmt_text(ss.last(), l), true);
    } else {
        assert(shift_from(stmts_text(ss, l), true) =~= Seq::<char>::empty());
    }
}

proof fn lemma_conds_shift(cs: Seq<(Expr, Block)>, l: nat)
    requires
        forall|k: int|
            0 <= k < cs.len() ==> no_newline(#[trigger] cs[k].0@) && block_lines_ok(cs[k].1),
    ensures
        shift_from(conds_text(cs, l), false) == conds_text(cs, l + 1),
        !end_state(conds_text(cs, l), false),
    decreases cs, 0nat,
{
    if cs.len() > 0 {
        let init = cs.drop_last();
        assert forall|k: int| 0 <= k < init.len() implies no_newline(#[trigger] init[k].0@)
            && block_lines_ok(init[k].1) by {
            assert(init[k] == cs[k]);
        }
        assert(no_newline(cs[cs.len() - 1].0@) && block_lines_ok(cs[cs.len() - 1].1));
        lemma_conds_shift(init, l);
        reveal_strlit("if (");
        reveal_strlit(" else if (");
        reveal_strlit(") {\n");
        reveal_strlit(") {");
        reveal_strlit("}");
        let kw = if cs.len() == 1 {
            "if ("@
        } else {
            " else if ("@
        };
        let x = kw + cs.last().0@ + ") {"@;
        lemma_no_newline_cat(kw, cs.last().0@);
        lemma_no_newline_cat(kw + cs.last().0@, ") {"@);
        lemma_braced_shift(x, cs.last().1, l, "}"@);
        let piece = x + seq!['\n'] + block_text(cs.last().1, l + 1) + indent(l) + "}"@;
        assert(conds_text(cs, l) =~= conds_text(init, l) + piece);
        assert(conds_text(cs, l + 1) =~= conds_text(init, l + 1) + (x + seq!['\n'] + block_text(
            cs.last().1,
            l + 2,
        ) + indent(l + 1) + "}"@));
        lemma_shift_cat(conds_text(init, l), piece, false);
        lemma_end_state_cat(conds_text(init, l), piece, false);
    } else {
        assert(shift_from(conds_text(cs, l), false) =~= Seq::<char>::empty());
    }
}

/// A statement written as `x` and a line break after its indentation.
proof fn lemma_line_stmt(x: Seq<char>, l: nat)
    requires
        no_newline(x),
    ensures
        shift_from(indent(l) + (x + seq!['\n']), true) == indent(l + 1) + (x + seq!['\n']),
{
    lemma_shift_indent(l, x + seq!['\n']);
    lemma_shift_line(x);
}

/// A statement written as the line `x`, a block one level deeper, and `}`.
proof fn lemma_braced_stmt(x: Seq<char>, b: Block, l: nat)
    requires
        no_newline(x),
        block_lines_ok(b),
    ensures
        shift_from(
            indent(l) + (x + seq!['\n'] + block_text(b, l + 1) + indent(l) + seq!['}'] + seq!['\n']),
            true,
        ) == indent(l + 1) + (x + seq!['\n'] + block_text(b, l + 2) + indent(l + 1) + seq!['}']
            + seq!['\n']),
    decreases b, 2nat,
{
    let nl = seq!['\n'];
    let body = x + nl + block_text(b, l + 1) + indent(l) + seq!['}'];
    lemma_braced_shift(x, b, l, seq!['}']);
    lemma_shift_indent(l, body + nl);
    lemma_shift_cat(body, nl, false);
    assert(nl.drop_first() =~= Seq::<char>::empty());
    assert(shift_from(nl.drop_first(), true) =~= Seq::<char>::empty());
    assert(shift_from(nl, false) =~= nl);
}

proof fn lemma_stmt_shift(s: Statement, l: nat)
    requires
        stmt_lines_ok(s),
    ensures
        shift_from(stmt_text(s, l), true) == stmt_text(s, l + 1),
        end_state(stmt_text(s, l), true),
    decreases s, 2nat,
{
    match s {
        Statement::Assign { .. } => {
            lemma_stmt_shift_assign(s, l);
        },
        Statement::If { .. } => {
            lemma_stmt_shift_if(s, l);
        },
        Statement::Return { .. } => {
            lemma_stmt_shift_return(s, l);
        },
        Statement::FunctionDeclaration { .. } => {
            lemma_stmt_shift_function_declaration(s, l);
        },
        Statement::Expr { .. } => {
            lemma_stmt_shift_expr(s, l);
        },
        Statement::Scope { .. } => {
            lemma_stmt_shift_scope(s, l);
        },
        Statement::Block { block } => {
            lemma_block_shift(block, l);
        },
        Statement::Comment { .. } => {
            lemma_stmt_shift_comment(s, l);
        },
        Statement::For { .. } => {
            lemma_stmt_shift_for(s, l);
        },
    }
}

proof fn lemma_stmt_shift_assign(s: Statement, l: nat)
    requires
        stmt_lines_ok(s),
        s is Assign,
    ensures
        shift_from(stmt_text(s, l), true) == stmt_text(s, l + 1),
        end_state(stmt_text(s, l), true),
    decreases s, 1nat,
{
    let nl = seq!['\n'];
    reveal_strlit(";\n");
    reveal_strlit(";");
    reveal_strlit("}\n");
    reveal_strlit("}");
    reveal_strlit("\n");
    if let Statement::Assign { variant, name, expr } = s {
        reveal_strlit(" = ");
        reveal_strlit("var ");
        reveal_strlit("let ");
        reveal_strlit("const ");
        reveal_strlit("");
        let x = assign_keyword(variant) + name@ + " = "@ + expr@ + ";"@;
        lemma_no_newline_cat(assign_keyword(variant), name@);
        lemma_no_newline_cat(assign_keyword(variant) + name@, " = "@);
        lemma_no_newline_cat(assign_keyword(variant) + name@ + " = "@, expr@);
        lemma_no_newline_cat(assign_keyword(variant) + name@ + " = "@ + expr@, ";"@);
        lemma_line_stmt(x, l);
        assert(stmt_text(s, l) =~= indent(l) + (x + nl));
        assert(stmt_text(s, l + 1) =~= indent(l + 1) + (x + nl));
    }
}

proof fn lemma_stmt_shift_return(s: Statement, l: nat)
    requires
        stmt_lines_ok(s),
        s is Return,
    ensures
        shift_from(stmt_text(s, l), true) == stmt_text(s, l + 1),
        end_state(stmt_text(s, l), true),
    decreases s, 1nat,
{
    let nl = seq!['\n'];
    reveal_strlit(";\n");
    reveal_strlit(";");
    reveal_strlit("}\n");
    reveal_strlit("}");
    reveal_strlit("\n");
    if let Statement::Return { expr } = s {
        reveal_strlit("return ");
        let x = "return "@ + expr@ + ";"@;
        lemma_no_newline_cat("return "@, expr@);
        lemma_no_newline_cat("return "@ + expr@, ";"@);
        lemma_line_stmt(x, l);
        assert(stmt_text(s, l) =~= indent(l) + (x + nl));
        assert(stmt_text(s, l + 1) =~= indent(l + 1) + (x + nl));
    }
}

proof fn lemma_stmt_shift_function_declaration(s: Statement, l: nat)
    requires
        stmt_lines_ok(s),
        s is FunctionDeclaration,
    ensures
        shift_from(stmt_text(s, l), true) == stmt_text(s, l + 1),
        end_state(stmt_text(s, l), true),
    decreases s, 1nat,
{
    let nl = seq!['\n'];
    reveal_strlit(";\n");
    reveal_strlit(";");
    reveal_strlit("}\n");
    reveal_strlit("}");
    reveal_strlit("\n");
    if let Statement::FunctionDeclaration { name, args, block } = s {
        reveal_strlit("function ");
        reveal_strlit("(");
        reveal_strlit(", ");
        reveal_strlit(") {\n");
        reveal_strlit(") {");
        let j = join(string_views(args@), ", "@);
        assert forall|k: int| 0 <= k < string_views(args@).len() implies no_newline(
            #[trigger] string_views(args@)[k],
        ) by {
            assert(string_views(args@)[k] == args@[k]@);
        }
        lemma_join_no_newline(string_views(args@), ", "@);
        let x = "function "@ + name@ + "("@ + j + ") {"@;
        lemma_no_newline_cat("function "@, name@);
        lemma_no_newline_cat("function "@ + name@, "("@);
        lemma_no_newline_cat("function "@ + name@ + "("@, j);
        lemma_no_newline_cat("function "@ + name@ + "("@ + j, ") {"@);
        lemma_braced_stmt(x, block, l);
        assert(stmt_text(s, l) =~= indent(l) + (x + nl + block_text(block, l + 1) + indent(l)
            + seq!['}'] + nl));
        assert(stmt_text(s, l + 1) =~= indent(l + 1) + (x + nl + block_text(block, l + 2)
            + indent(l + 1) + seq!['}'] + nl));
    }
}

proof fn lemma_stmt_shift_expr(s: Statement, l: nat)
    requires
        stmt_lines_ok(s),
        s is Expr,
    ensures
        shift_from(stmt_text(s, l), true) == stmt_text(s, l + 1),
        end_state(stmt_text(s, l), true),
    decreases s, 1nat,
{
    let nl = seq!['\n'];
    reveal_strlit(";\n");
    reveal_strlit(";");
    reveal_strlit("}\n");
    reveal_strlit("}");
    reveal_strlit("\n");
    if let Statement::Expr { expr } = s {
        let x = expr@ + ";"@;
        lemma_no_newline_cat(expr@, ";"@);
        lemma_line_stmt(x, l);
        assert(stmt_text(s, l) =~= indent(l) + (x + nl));
        assert(stmt_text(s, l + 1) =~= indent(l + 1) + (x + nl));
    }
}

proof fn lemma_stmt_shift_scope(s: Statement, l: nat)
    requires
        stmt_lines_ok(s),
        s is Scope,
    ensures
        shift_from(stmt_text(s, l), true) == stmt_text(s, l + 1),
        end_state(stmt_text(s, l), true),
    decreases s, 1nat,
{
    let nl = seq!['\n'];
    reveal_strlit(";\n");
    reveal_strlit(";");
    reveal_strlit("}\n");
    reveal_strlit("}");
    reveal_strlit("\n");
    if let Statement::Scope { block } = s {
        reveal_strlit("{\n");
        let x = seq!['{'];
        lemma_braced_stmt(x, block, l);
        assert(stmt_text(s, l) =~= indent(l) + (x + nl + block_text(block, l + 1) + indent(l)
            + seq!['}'] + nl));
        assert(stmt_text(s, l + 1) =~= indent(l + 1) + (x + nl + block_text(block, l + 2)
            + indent(l + 1) + seq!['}'] + nl));
    }
}

proof fn lemma_stmt_shift_comment(s: Statement, l: nat)
    requires
        stmt_lines_ok(s),
        s is Comment,
    ensures
        shift_from(stmt_text(s, l), true) == stmt_text(s, l + 1),
        end_state(stmt_text(s, l), true),
    decreases s, 1nat,
{
    let nl = seq!['\n'];
    reveal_strlit(";\n");
    reveal_strlit(";");
    reveal_strlit("}\n");
    reveal_strlit("}");
    reveal_strlit("\n");
    if let Statement::Comment { text } = s {
        reveal_strlit("// ");
        let x = "// "@ + text@;
        lemma_no_newline_cat("// "@, text@);
        lemma_line_stmt(x, l);
        assert(stmt_text(s, l) =~= indent(l) + (x + nl));
        assert(stmt_text(s, l + 1) =~= indent(l + 1) + (x + nl));
    }
}

proof fn lemma_stmt_shift_for(s: Statement, l: nat)
    requires
        stmt_lines_ok(s),
        s is For,
    ensures
        shift_from(stmt_text(s, l), true) == stmt_text(s, l + 1),
        end_state(stmt_text(s, l), true),
    decreases s, 1nat,
{
    let nl = seq!['\n'];
    reveal_strlit(";\n");
    reveal_strlit(";");
    reveal_strlit("}\n");
    reveal_strlit("}");
    reveal_strlit("\n");
    if let Statement::For { init, cond, incr, block } = s {
        reveal_strlit("for (");
        reveal_strlit("; ");
        reveal_strlit(") {\n");
        reveal_strlit(") {");
        let x = "for ("@ + init@ + "; "@ + cond@ + "; "@ + incr@ + ") {"@;
        lemma_no_newline_cat("for ("@, init@);
        lemma_no_newline_cat("for ("@ + init@, "; "@);
        lemma_no_newline_cat("for ("@ + init@ + "; "@, cond@);
        lemma_no_newline_cat("for ("@ + init@ + "; "@ + cond@, "; "@);
        lemma_no_newline_cat("for ("@ + init@ + "; "@ + cond@ + "; "@, incr@);
        lemma_no_newline_cat("for ("@ + init@ + "; "@ + cond@ + "; "@ + incr@, ") {"@);
        lemma_braced_stmt(x, block, l);
        assert(stmt_text(s, l) =~= indent(l) + (x + nl + block_text(block, l + 1) + indent(l)
            + seq!['}'] + nl));
        assert(stmt_text(s, l + 1) =~= indent(l + 1) + (x + nl + block_text(block, l + 2)
            + indent(l + 1) + seq!['}'] + nl));
    }
}

proof fn lemma_stmt_shift_if(s: Statement, l: nat)
    requires
        stmt_lines_ok(s),
        s is If,
    ensures
        shift_from(stmt_text(s, l), true) == stmt_text(s, l + 1),
        end_state(stmt_text(s, l), true),
    decreases s, 1nat,
{
    let nl = seq!['\n'];
    reveal_strlit("\n");
    reveal_strlit(" else {\n");
    reveal_strlit(" else {");
    reveal_strlit("}");
    if let Statement::If { conds, else_ } = s {
        lemma_conds_shift(conds@, l);
        let e0 = match else_ {
            Some(b) => " else {\n"@ + block_text(b, l + 1) + indent(l) + "}"@,
            None => Seq::empty(),
        };
        let e1 = match else_ {
            Some(b) => " else {\n"@ + block_text(b, l + 2) + indent(l + 1) + "}"@,
            None => Seq::empty(),
        };
        match else_ {
            Some(b) => {
                lemma_braced_shift(" else {"@, b, l, "}"@);
                assert(e0 =~= " else {"@ + nl + block_text(b, l + 1) + indent(l) + "}"@);
                assert(e1 =~= " else {"@ + nl + block_text(b, l + 2) + indent(l + 1) + "}"@);
            },
            None => {
                assert(shift_from(e0, false) =~= Seq::<char>::empty());
            },
        }
        let c0 = conds_text(conds@, l);
        let t = c0 + e0 + nl;
        lemma_shift_cat(c0, e0 + nl, false);
        lemma_end_state_cat(c0, e0 + nl, false);
        lemma_shift_cat(e0, nl, false);
        lemma_end_state_cat(e0, nl, false);
        assert(nl.drop_first() =~= Seq::<char>::empty());
        assert(shift_from(nl.drop_first(), true) =~= Seq::<char>::empty());
        assert(shift_from(nl, false) =~= nl);
        assert(t =~= c0 + (e0 + nl));
        lemma_shift_indent(l, t);
        assert(stmt_text(s, l) =~= indent(l) + t);
        assert(stmt_text(s, l + 1) =~= indent(l + 1) + (conds_text(conds@, l + 1) + (e1 + nl)));
    }
}

/// One more level of indentation puts four more spaces at the start of every
/// line that `to_javascript` writes for a block, when no text in the block
/// holds a line break.
pub proof fn law_javascript_block_indent(b: Block, level: nat)
    requires
        block_lines_ok(b),
    ensures
        block_text(b, level + 1) == shift_from(block_text(b, level), true),
{
    lemma_block_shift(b, level);
}

/// One more level of indentation puts four more spaces at the start of every
/// line that `to_javascript` writes for a statement, when no text in it holds
/// a line break.
pub proof fn law_javascript_statement_indent(s: Statement, level: nat)
    requires
        stmt_lines_ok(s),
    ensures
        stmt_text(s, level + 1) == shift_from(stmt_text(s, level), true),
{
    lemma_stmt_shift(s, level);
}

impl AssignVariant {
    fn append(self, out: &mut String)
        ensures
            final(out)@ == old(out)@ + assign_keyword(self),
    {
        let s = match self {
            AssignVariant::Plain => "",
            AssignVariant::Var => "var ",
            AssignVariant::Let => "let ",
            AssignVariant::Const => "const ",
        };
        out.append(s);
    }
}

fn write_block(b: &Block, out: &mut String, level: u64)
    requires
        block_ready(*b, level as nat),
    ensures
        final(out)@ == old(out)@ + block_text(*b, level as nat),
    decreases b, 1nat,
{
    let ghost ss = b.0@;
    let mut i: usize = 0;
    while i < b.0.len()
        invariant
            ss == b.0@,
            block_ready(*b, level as nat),
            i <= ss.len(),
            out@ == old(out)@ + stmts_text(ss.take(i as int), level as nat),
        decreases ss.len() - i,
    {
        write_stmt(&b.0[i], out, level);
        proof {
            assert(ss.take(i + 1).drop_last() =~= ss.take(i as int));
            assert(out@ =~= old(out)@ + stmts_text(ss.take(i + 1), level as nat));
        }
        i += 1;
    }
    proof {
        assert(ss.take(ss.len() as int) =~= ss);
    }
}

fn write_conds(conds: &Vec<(Expr, Block)>, out: &mut String, level: u64)
    requires
        level < u64::MAX,
        conds_ready(conds@, level as nat),
    ensures
        final(out)@ == old(out)@ + conds_text(conds@, level as nat),
    decreases conds, 1nat,
{
    let ghost cs = conds@;
    let mut first = true;
    let mut i: usize = 0;
    while i < conds.len()
        invariant
            cs == conds@,
            level < u64::MAX,
            conds_ready(cs, level as nat),
            i <= cs.len(),
            first == (i == 0),
            out@ == old(out)@ + conds_text(cs.take(i as int), level as nat),
        decreases cs.len() - i,
    {
        if first {
            out.append("if (");
        } else {
            out.append(" else if (");
        }
        first = false;
        out.append(conds[i].0.0.as_str());
        out.append(") {\n");
        write_block(&conds[i].1, out, level + 1);
        pad_level(out, level);
        out.append("}");
        proof {
            assert(cs.take(i + 1).drop_last() =~= cs.take(i as int));
            assert(cs.take(i + 1).last() == cs[i as int]);
            assert(out@ =~= old(out)@ + conds_text(cs.take(i + 1), level as nat));
        }
        i += 1;
    }
    proof {
        assert(cs.take(cs.len() as int) =~= cs);
    }
}

#[verifier::spinoff_prover]
#[verifier::rlimit(60)]
fn write_stmt(s: &Statement, out: &mut String, level: u64)
    requires
        stmt_ready(*s, level as nat),
    ensures
        final(out)@ == old(out)@ + stmt_text(*s, level as nat),
    decreases s, 1nat,
{
    match s {
        Statement::Assign { variant, name, expr } => {
            pad_level(out, level);
            variant.append(out);
            out.append(name.as_str());
            out.append(" = ");
            out.append(expr.0.as_str());
            out.append(";\n");
            proof {
                assert(out@ =~= old(out)@ + stmt_text(*s, level as nat));
            }
        },
        Statement::If { conds, else_ } => {
            pad_level(out, level);
            write_conds(conds, out, level);
            if let Some(block) = else_ {
                out.append(" else {\n");
                write_block(block, out, level + 1);
                pad_level(out, level);
                out.append("}");
            }
            out.append("\n");
            proof {
                assert(out@ =~= old(out)@ + stmt_text(*s, level as nat));
            }
        },
        Statement::FunctionDeclaration { name, args, block } => {
            pad_level(out, level);
            out.append("function ");
            out.append(name.as_str());
            out.append("(");
            push_joined(out, args, ", ");
            out.append(") {\n");
            write_block(block, out, level + 1);
            pad_level(out, level);
            out.append("}\n");
            proof {
                assert(out@ =~= old(out)@ + stmt_text(*s, level as nat));
            }
        },
        Statement::Expr { expr } => {
            pad_level(out, level);
            out.append(expr.0.as_str());
            out.append(";\n");
            proof {
                assert(out@ =~= old(out)@ + stmt_text(*s, level as nat));
            }
        },
        Statement::Scope { block } => {
            pad_level(out, level);
            out.append("{\n");
            write_block(block, out, level + 1);
            pad_level(out, level);
            out.append("}\n");
            proof {
                assert(out@ =~= old(out)@ + stmt_text(*s, level as nat));
            }
        },
        Statement::Block { block } => {
            write_block(block, out, level);
            proof {
                assert(out@ =~= old(out)@ + stmt_text(*s, level as nat));
            }
        },
        Statement::Return { expr } => {
            pad_level(out, level);
            out.append("return ");
            out.append(expr.0.as_str());
            out.append(";\n");
            proof {
                assert(out@ =~= old(out)@ + stmt_text(*s, level as nat));
            }
        },
        Statement::Comment { text } => {
            pad_level(out, level);
            out.append("// ");
            out.append(text.as_str());
            out.append("\n");
            proof {
                assert(out@ =~= old(out)@ + stmt_text(*s, level as nat));
            }
        },
        Statement::For { init, cond, incr, block } => {
            pad_level(out, level);
            out.append("for (");
            out.append(init.0.as_str());
            out.append("; ");
            out.append(cond.0.as_str());
            out.append("; ");
            out.append(incr.0.as_str());
            out.append(") {\n");
            write_block(block, out, level + 1);
            pad_level(out, level);
            out.append("}\n");
            proof {
                assert(out@ =~= old(out)@ + stmt_text(*s, level as nat));
            }
        },
    }
}

impl Block {
    pub fn new() -> (res: Block)
        ensures
            res@ == Seq::<Statement>::empty(),
    {
        Block(Vec::new())
    }

    /// Adds `name = expr;`.
    pub fn assign(&mut self, name: String, expr: Expr)
        ensures
            final(self)@ == old(self)@.push(
                Statement::Assign { variant: AssignVariant::Plain, name: name, expr: expr },
            ),
    {
        self.0.push(Statement::Assign { variant: AssignVariant::Plain, name: name, expr: expr });
    }

    /// Adds `var name = expr;`.
    pub fn var_assign(&mut self, name: String, expr: Expr)
        ensures
            final(self)@ == old(self)@.push(
                Statement::Assign { variant: AssignVariant::Var, name: name, expr: expr },
            ),
    {
        self.0.push(Statement::Assign { variant: AssignVariant::Var, name: name, expr: expr });
    }

    /// Adds `let name = expr;`.
    pub fn let_assign(&mut self, name: String, expr: Expr)
        ensures
            final(self)@ == old(self)@.push(
                Statement::Assign { variant: AssignVariant::Let, name: name, expr: expr },
            ),
    {
        self.0.push(Statement::Assign { variant: AssignVariant::Let, name: name, expr: expr });
    }

    /// Adds `if (cond) { block }`.
    pub fn if_(&mut self, cond: Expr, block: Block)
        ensures
            final(self)@.len() == old(self)@.len() + 1,
            final(self)@.drop_last() == old(self)@,
            final(self)@.last() matches Statement::If { conds, else_ } && else_ is None
                && conds@ == seq![(cond, block)],
    {
        self.0.push(Statement::If { conds: vec![(cond, block)], else_: None });
    }

    /// Adds `expr;`.
    pub fn expr(&mut self, expr: Expr)
        ensures
            final(self)@ == old(self)@.push(Statement::Expr { expr: expr }),
    {
        self.0.push(Statement::Expr { expr: expr });
    }

    /// Adds a function declaration.
    pub fn decl_fun(&mut self, name: String, args: Vec<String>, block: Block)
        ensures
            final(self)@ == old(self)@.push(
                Statement::FunctionDeclaration { name: name, args: args, block: block },
            ),
    {
        self.0.push(Statement::FunctionDeclaration { name: name, args: args, block: block });
    }

    /// Adds `{ block }`.
    pub fn scope(&mut self, block: Block)
        ensures
            final(self)@ == old(self)@.push(Statement::Scope { block: block }),
    {
        self.0.push(Statement::Scope { block: block });
    }

    /// Adds the statements of `block` without braces.
    pub fn block(&mut self, block: Block)
        ensures
            final(self)@ == old(self)@.push(Statement::Block { block: block }),
    {
        self.0.push(Statement::Block { block: block });
    }

    /// Adds `return expr;`.
    pub fn return_(&mut self, expr: Expr)
        ensures
            final(self)@ == old(self)@.push(Statement::Return { expr: expr }),
    {
        self.0.push(Statement::Return { expr: expr });
    }

    /// Adds a line comment.
    pub fn comment(&mut self, text: String)
        ensures
            final(self)@ == old(self)@.push(Statement::Comment { text: text }),
    {
        self.0.push(Statement::Comment { text: text });
    }

    /// Adds `for (init; cond; incr) { block }`.
    pub fn for_(&mut self, init: Expr, cond: Expr, incr: Expr, block: Block)
        ensures
            final(self)@ == old(self)@.push(
                Statement::For { init: init, cond: cond, incr: incr, block: block },
            ),
    {
        self.0.push(Statement::For { init: init, cond: cond, incr: incr, block: block });
    }
}

/// Prints a syntax tree as JavaScript source.
pub trait ToJavascript {
    /// The tree can be printed at indentation `level`.
    spec fn javascript_ready(&self, level: nat) -> bool;

    /// The source text of the tree at indentation `level`.
    spec fn javascript(&self, level: nat) -> Seq<char>;

    /// Appends the source text at indentation `level` to `out`.
    fn to_javascript(&self, out: &mut String, level: u64)
        requires
            self.javascript_ready(level as nat),
        ensures
            final(out)@ == old(out)@ + self.javascript(level as nat),
    ;
}

impl ToJavascript for Block {
    open spec fn javascript_ready(&self, level: nat) -> bool {
        block_ready(*self, level)
    }

    open spec fn javascript(&self, level: nat) -> Seq<char> {
        block_text(*self, level)
    }

    fn to_javascript(&self, out: &mut String, level: u64) {
        write_block(self, out, level);
    }
}

impl ToJavascript for Statement {
    open spec fn javascript_ready(&self, level: nat) -> bool {
        stmt_ready(*self, level)
    }

    open spec fn javascript(&self, level: nat) -> Seq<char> {
        stmt_text(*self, level)
    }

    fn to_javascript(&self, out: &mut String, level: u64) {
        write_stmt(self, out, level);
    }
}

impl From<String> for Expr {
    fn from(string: String) -> (res: Expr)
        ensures
            res@ == string@,
    {
        Expr(string)
    }
}

impl vstd::std_specs::convert::FromSpecImpl<String> for Expr {
    open spec fn obeys_from_spec() -> bool {
        true
    }

    closed spec fn from_spec(string: String) -> Expr {
        Expr(string)
    }
}

impl<'a> From<&'a str> for Expr {
    fn from(string: &'a str) -> (res: Expr)
        ensures
            res@ == string@,
    {
        Expr(string.to_owned())
    }
}

/// A `String` is not determined by its characters in the specification
/// language, so this conversion is specified by the `ensures` of `from` alone.
impl<'a> vstd::std_specs::convert::FromSpecImpl<&'a str> for Expr {
    open spec fn obeys_from_spec() -> bool {
        false
    }

    closed spec fn from_spec(string: &'a str) -> Expr {
        arbitrary()
    }
}

/// A function declaration is printed as `function name(params) {` on a line of
/// its own, then its body one level deeper and a closing brace; the parameters
/// are separated by a comma and a space, so two parameters `a` and `b` read
/// `function name(a, b) {`.
pub proof fn law_javascript_declaration_header(
    name: String,
    args: Vec<String>,
    block: Block,
    level: nat,
)
    ensures
        stmt_text(Statement::FunctionDeclaration { name, args, block }, level) == indent(level)
            + "function "@ + name@ + "("@ + join(string_views(args@), ", "@) + ") {\n"@
            + block_text(block, level + 1) + indent(level) + "}\n"@,
        args@.len() == 2 ==> stmt_text(Statement::FunctionDeclaration { name, args, block }, level)
            == indent(level) + "function "@ + name@ + "("@ + args@[0]@ + ", "@ + args@[1]@
            + ") {\n"@ + block_text(block, level + 1) + indent(level) + "}\n"@,
{
    if args@.len() == 2 {
        lemma_join_views_pair(args@, ", "@);
    }
}

/// An `if` chain of two branches is printed as `if (c0) {` with its block one
/// level deeper, a closing brace, then ` else if (c1) {` with its block and a
/// closing brace.
pub proof fn law_javascript_if_else_if(cs: Seq<(Expr, Block)>, level: nat)
    requires
        cs.len() == 2,
    ensures
        conds_text(cs, level) == "if ("@ + cs[0].0@ + ") {\n"@ + block_text(cs[0].1, level + 1)
            + indent(level) + "}"@ + " else if ("@ + cs[1].0@ + ") {\n"@ + block_text(
            cs[1].1,
            level + 1,
        ) + indent(level) + "}"@,
{
    let first = cs.drop_last();
    assert(first.len() == 1);
    assert(first.last() == cs[0]);
    assert(first.drop_last().len() == 0);
    assert(conds_text(first.drop_last(), level) == Seq::<char>::empty());
    assert(conds_text(first, level) =~= "if ("@ + cs[0].0@ + ") {\n"@ + block_text(
        cs[0].1,
        level + 1,
    ) + indent(level) + "}"@);
    assert(cs.last() == cs[1]);
}

} // verus!
