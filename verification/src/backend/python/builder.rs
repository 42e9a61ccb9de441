//! A small Python syntax tree and its printer.

use vstd::prelude::*;

use crate::text::{indent, join, lemma_join_views_pair, pad_level, push_joined, string_views};

verus! {

/// A sequence of statements.
pub struct Block(Vec<Statement>);

/// A Python statement.
pub enum Statement {
    Assign { name: String, expr: Expr },
    If { conds: Vec<(Expr, Block)>, else_: Option<Block> },
    Return { expr: Expr },
    FunctionDeclaration { name: String, args: Vec<String>, block: Block },
    Expr { expr: Expr },
    Block { block: Block },
    For { expr: Expr, block: Block },
    Comment { text: String },
}

/// A Python expression, kept as source text.
pub struct Expr(pub String);

impl View for Block {
    type V = Seq<Statement>;

    closed spec fn view(&self) -> Seq<Statement> {
        self.0@
    }
}

impl View for Expr {
    type V = Seq<char>;

    open spec fn view(&self) -> Seq<char> {
        self.0@
    }
}

/// The printed form of a block at indentation `level`: its statements, one after another.
pub closed spec fn block_text(b: Block, level: nat) -> Seq<char>
    decreases b, 0nat,
{
    proof {
        assert(decreases_to!(b => b.0));
    }
    stmts_text(b.0@, level)
}

/// A block prints as its statements, and can be printed when each of them can.
pub proof fn lemma_block_unfold(b: Block, level: nat)
    ensures
        block_text(b, level) == stmts_text(b@, level),
        block_ready(b, level) == (forall|i: int| 0 <= i < b@.len() ==> stmt_ready(#[trigger] b@[i], level)),
{
    assert(b@ == b.0@);
}

/// The printed form of a list of statements.
pub open spec fn stmts_text(ss: Seq<Statement>, level: nat) -> Seq<char>
    decreases ss, 0nat,
{
    if ss.len() == 0 {
        Seq::empty()
    } else {
        stmts_text(ss.drop_last(), level) + stmt_text(ss.last(), level)
    }
}

/// The branches of an `if` chain: `if c0:` for the first, `elif ci:` for the others,
/// each on its own line followed by its block.
pub open spec fn conds_text(cs: Seq<(Expr, Block)>, level: nat) -> Seq<char>
    decreases cs, 0nat,
{
    if cs.len() == 0 {
        Seq::empty()
    } else {
        conds_text(cs.drop_last(), level) + indent(level) + (if cs.len() == 1 {
            "if "@
        } else {
            "elif "@
        }) + cs.last().0@ + ":\n"@ + block_text(cs.last().1, level + 1)
    }
}

/// The printed form of a statement at indentation `level`.
pub open spec fn stmt_text(s: Statement, level: nat) -> Seq<char>
    decreases s, 0nat,
{
    match s {
        Statement::Assign { name, expr } => indent(level) + name@ + " = "@ + expr@ + "\n"@,
        Statement::If { conds, else_ } => conds_text(conds@, level) + match else_ {
            Some(b) => indent(level) + "else:\n"@ + block_text(b, level + 1),
            None => Seq::empty(),
        },
        Statement::Return { expr } => indent(level) + "return "@ + expr@ + "\n"@,
        Statement::FunctionDeclaration { name, args, block } => indent(level) + "def "@ + name@
            + "("@ + join(string_views(args@), ", "@) + "):\n"@ + block_text(block, level + 1),
        Statement::Expr { expr } => indent(level) + expr@ + "\n"@,
        Statement::Block { block } => block_text(block, level),
        Statement::For { expr, block } => indent(level) + "for "@ + expr@ + ":\n"@ + block_text(
            block,
            level + 1,
        ),
        Statement::Comment { text } => indent(level) + "# "@ + text@ + "\n"@,
    }
}

/// A block can be printed at `level`: every `if` in it has a condition and
/// the deepest indentation still fits in a `u64`.
pub closed spec fn block_ready(b: Block, level: nat) -> bool
    decreases b, 0nat,
{
    proof {
        assert(decreases_to!(b => b.0));
    }
    forall|i: int| 0 <= i < b.0@.len() ==> stmt_ready(#[trigger] b.0@[i], level)
}

/// Every branch of an `if` chain can be printed at `level + 1`.
pub open spec fn conds_ready(cs: Seq<(Expr, Block)>, level: nat) -> bool
    decreases cs, 0nat,
{
    forall|i: int| 0 <= i < cs.len() ==> block_ready(#[trigger] cs[i].1, level + 1)
}

/// A statement can be printed at `level`.
pub open spec fn stmt_ready(s: Statement, level: nat) -> bool
    decreases s, 0nat,
{
    level <= u64::MAX && match s {
        Statement::If { conds, else_ } => {
            &&& conds@.len() >= 1
            &&& level < u64::MAX
            &&& conds_ready(conds@, level)
            &&& match else_ {
                Some(b) => block_ready(b, level + 1),
                None => true,
            }
        },
        Statement::FunctionDeclaration { block, .. } => level < u64::MAX && block_ready(
            block,
            level + 1,
        ),
        Statement::Block { block } => block_ready(block, level),
        Statement::For { block, .. } => level < u64::MAX && block_ready(block, level + 1),
        _ => true,
    }
}

fn write_block(b: &Block, out: &mut String, level: u64)
    requires
        block_ready(*b, level as nat),
    ensures
        final(out)@ == old(out)@ + block_text(*b, level as nat),
    decreases b, 1nat,
{
    let ghost ss = b.0@;
    let mut i: usize = 0;
    while i < b.0.len()
        invariant
            ss == b.0@,
            block_ready(*b, level as nat),
            i <= ss.len(),
            out@ == old(out)@ + stmts_text(ss.take(i as int), level as nat),
        decreases ss.len() - i,
    {
        write_stmt(&b.0[i], out, level);
        proof {
            assert(ss.take(i + 1).drop_last() =~= ss.take(i as int));
            assert(out@ =~= old(out)@ + stmts_text(ss.take(i + 1), level as nat));
        }
        i += 1;
    }
    proof {
        assert(ss.take(ss.len() as int) =~= ss);
    }
}

fn write_conds(conds: &Vec<(Expr, Block)>, out: &mut String, level: u64)
    requires
        level < u64::MAX,
        conds_ready(conds@, level as nat),
    ensures
        final(out)@ == old(out)@ + conds_text(conds@, level as nat),
    decreases conds, 1nat,
{
    let ghost cs = conds@;
    let mut first = true;
    let mut i: usize = 0;
    while i < conds.len()
        invariant
            cs == conds@,
            level < u64::MAX,
            conds_ready(cs, level as nat),
            i <= cs.len(),
            first == (i == 0),
            out@ == old(out)@ + conds_text(cs.take(i as int), level as nat),
        decreases cs.len() - i,
    {
        pad_level(out, level);
        if first {
            out.append("if ");
        } else {
            out.append("elif ");
        }
        first = false;
        out.append(conds[i].0.0.as_str());
        out.append(":\n");
        write_block(&conds[i].1, out, level + 1);
        proof {
            assert(cs.take(i + 1).drop_last() =~= cs.take(i as int));
            assert(cs.take(i + 1).last() == cs[i as int]);
            assert(out@ =~= old(out)@ + conds_text(cs.take(i + 1), level as nat));
        }
        i += 1;
    }
    proof {
        assert(cs.take(cs.len() as int) =~= cs);
    }
}

#[verifier::spinoff_prover]
#[verifier::rlimit(60)]
fn write_stmt(s: &Statement, out: &mut String, level: u64)
    requires
        stmt_ready(*s, level as nat),
    ensures
        final(out)@ == old(out)@ + stmt_text(*s, level as nat),
    decreases s, 1nat,
{
    match s {
        Statement::Assign { name, expr } => {
            pad_level(out, level);
            out.append(name.as_str());
            out.append(" = ");
            out.append(expr.0.as_str());
            out.append("\n");
            proof {
                assert(out@ =~= old(out)@ + stmt_text(*s, level as nat));
            }
        },
        Statement::If { conds, else_ } => {
            write_conds(conds, out, level);
            if let Some(block) = else_ {
                pad_level(out, level);
                out.append("else:\n");
                write_block(block, out, level + 1);
            }
            proof {
                assert(out@ =~= old(out)@ + stmt_text(*s, level as nat));
            }
        },
        Statement::FunctionDeclaration { name, args, block } => {
            pad_level(out, level);
            out.append("def ");
            out.append(name.as_str());
            out.append("(");
            push_joined(out, args, ", ");
            out.append("):\n");
            write_block(block, out, level + 1);
            proof {
                assert(out@ =~= old(out)@ + stmt_text(*s, level as nat));
            }
        },
        Statement::Expr { expr } => {
            pad_level(out, level);
            out.append(expr.0.as_str());
            out.append("\n");
            proof {
                assert(out@ =~= old(out)@ + stmt_text(*s, level as nat));
            }
        },
        Statement::Block { block } => {
            write_block(block, out, level);
        },
        Statement::Return { expr } => {
            pad_level(out, level);
            out.append("return ");
            out.append(expr.0.as_str());
            out.append("\n");
            proof {
                assert(out@ =~= old(out)@ + stmt_text(*s, level as nat));
            }
        },
        Statement::Comment { text } => {
            pad_level(out, level);
            out.append("# ");
            out.append(text.as_str());
            out.append("\n");
            proof {
                assert(out@ =~= old(out)@ + stmt_text(*s, level as nat));
            }
        },
        Statement::For { expr, block } => {
            pad_level(out, level);
            out.append("for ");
            out.append(expr.0.as_str());
            out.append(":\n");
            write_block(block, out, level + 1);
            proof {
                assert(out@ =~= old(out)@ + stmt_text(*s, level as nat));
            }
        },
    }
}

impl Block {
    pub fn new() -> (res: Block)
        ensures
            res@ == Seq::<Statement>::empty(),
    {
        Block(Vec::new())
    }

    /// Adds `name = expr`.
    pub fn assign(&mut self, name: String, expr: Expr)
        ensures
            final(self)@ == old(self)@.push(Statement::Assign { name: name, expr: expr }),
    {
        self.0.push(Statement::Assign { name: name, expr: expr });
    }

    /// Adds `if cond:` with `block` as its body.
    pub fn if_(&mut self, cond: Expr, block: Block)
        ensures
            final(self)@.len() == old(self)@.len() + 1,
            final(self)@.drop_last() == old(self)@,
            final(self)@.last() matches Statement::If { conds, else_ } && else_ is None
                && conds@ == seq![(cond, block)],
    {
        self.0.push(Statement::If { conds: vec![(cond, block)], else_: None });
    }

    /// Adds an `if`/`elif`/`else` chain. With no condition, only the `else`
    /// block is added (as a plain block), if there is one.
    pub fn if_chain(&mut self, chain: Vec<(Expr, Block)>, else_: Option<Block>)
        ensures
            chain@.len() == 0 ==> match else_ {
                Some(b) => final(self)@ == old(self)@.push(Statement::Block { block: b }),
                None => final(self)@ == old(self)@,
            },
            chain@.len() > 0 ==> final(self)@ == old(self)@.push(
                Statement::If { conds: chain, else_: else_ },
            ),
    {
        if chain.len() == 0 {
            if let Some(block) = else_ {
                self.block(block)
            }
        } else {
            self.0.push(Statement::If { conds: chain, else_: else_ })
        }
    }

    /// Adds the expression statement `expr`.
    pub fn expr(&mut self, expr: Expr)
        ensures
            final(self)@ == old(self)@.push(Statement::Expr { expr: expr }),
    {
        self.0.push(Statement::Expr { expr: expr });
    }

    /// Adds a function definition.
    pub fn decl_fun(&mut self, name: String, args: Vec<String>, block: Block)
        ensures
            final(self)@ == old(self)@.push(
                Statement::FunctionDeclaration { name: name, args: args, block: block },
            ),
    {
        self.0.push(Statement::FunctionDeclaration { name: name, args: args, block: block });
    }

    /// Adds the statements of `block` at the current indentation.
    pub fn block(&mut self, block: Block)
        ensures
            final(self)@ == old(self)@.push(Statement::Block { block: block }),
    {
        self.0.push(Statement::Block { block: block });
    }

    /// Adds `return expr`.
    pub fn return_(&mut self, expr: Expr)
        ensures
            final(self)@ == old(self)@.push(Statement::Return { expr: expr }),
    {
        self.0.push(Statement::Return { expr: expr });
    }

    /// Adds a line comment.
    pub fn comment(&mut self, text: String)
        ensures
            final(self)@ == old(self)@.push(Statement::Comment { text: text }),
    {
        self.0.push(Statement::Comment { text: text });
    }

    /// Adds `for expr:` with `block` as its body.
    pub fn for_(&mut self, expr: Expr, block: Block)
        ensures
            final(self)@ == old(self)@.push(Statement::For { expr: expr, block: block }),
    {
        self.0.push(Statement::For { expr: expr, block: block });
    }
}

/// Prints a syntax tree as Python source.
pub trait ToPython {
    /// The tree can be printed at indentation `level`.
    spec fn python_ready(&self, level: nat) -> bool;

    /// The source text of the tree at indentation `level`.
    spec fn python(&self, level: nat) -> Seq<char>;

    /// Appends the source text at indentation `level` to `out`.
    fn to_python(&self, out: &mut String, level: u64)
        requires
            self.python_ready(level as nat),
        ensures
            final(out)@ == old(out)@ + self.python(level as nat),
    ;
}

impl ToPython for Block {
    open spec fn python_ready(&self, level: nat) -> bool {
        block_ready(*self, level)
    }

    open spec fn python(&self, level: nat) -> Seq<char> {
        block_text(*self, level)
    }

    fn to_python(&self, out: &mut String, level: u64) {
        write_block(self, out, level);
    }
}

impl ToPython for Statement {
    open spec fn python_ready(&self, level: nat) -> bool {
        stmt_ready(*self, level)
    }

    open spec fn python(&self, level: nat) -> Seq<char> {
        stmt_text(*self, level)
    }

    fn to_python(&self, out: &mut String, level: u64) {
        write_stmt(self, out, level);
    }
}

impl From<String> for Expr {
    fn from(string: String) -> (res: Expr)
        ensures
            res@ == string@,
    {
        Expr(string)
    }
}

impl vstd::std_specs::convert::FromSpecImpl<String> for Expr {
    open spec fn obeys_from_spec() -> bool {
        true
    }

    open spec fn from_spec(string: String) -> Expr {
        Expr(string)
    }
}

impl<'a> From<&'a str> for Expr {
    fn from(string: &'a str) -> (res: Expr)
        ensures
            res@ == string@,
    {
        Expr(string.to_owned())
    }
}

/// A `String` is not determined by its characters in the specification
/// language, so this conversion is specified by the `ensures` of `from` alone.
impl<'a> vstd::std_specs::convert::FromSpecImpl<&'a str> for Expr {
    open spec fn obeys_from_spec() -> bool {
        false
    }

    closed spec fn from_spec(string: &'a str) -> Expr {
        arbitrary()
    }
}

/// A function declaration is printed as `def name(params):` on a line of its
/// own, followed by its body one level deeper; the parameters are separated by
/// a comma and a space, so two parameters `a` and `b` read `def name(a, b):`.
pub proof fn law_python_declaration_header(name: String, args: Vec<String>, block: Block, level: nat)
    ensures
        stmt_text(Statement::FunctionDeclaration { name, args, block }, level) == indent(level)
            + "def "@ + name@ + "("@ + join(string_views(args@), ", "@) + "):\n"@ + block_text(
            block,
            level + 1,
        ),
        args@.len() == 2 ==> stmt_text(Statement::FunctionDeclaration { name, args, block }, level)
            == indent(level) + "def "@ + name@ + "("@ + args@[0]@ + ", "@ + args@[1]@ + "):\n"@
            + block_text(block, level + 1),
{
    if args@.len() == 2 {
        lemma_join_views_pair(args@, ", "@);
    }
}

/// An `if` chain of two branches is printed as `if c0:` with its block one
/// level deeper, then `elif c1:` with its block, each condition line at the
/// chain's own indentation.
pub proof fn law_python_if_elif(cs: Seq<(Expr, Block)>, level: nat)
    requires
        cs.len() == 2,
    ensures
        conds_text(cs, level) == indent(level) + "if "@ + cs[0].0@ + ":\n"@ + block_text(
            cs[0].1,
            level + 1,
        ) + indent(level) + "elif "@ + cs[1].0@ + ":\n"@ + block_text(cs[1].1, level + 1),
{
    let first = cs.drop_last();
    assert(first.len() == 1);
    assert(first.last() == cs[0]);
    assert(first.drop_last().len() == 0);
    assert(conds_text(first.drop_last(), level) == Seq::<char>::empty());
    assert(conds_text(first, level) =~= indent(level) + "if "@ + cs[0].0@ + ":\n"@ + block_text(
        cs[0].1,
        level + 1,
    ));
    assert(cs.last() == cs[1]);
}

} // verus!
