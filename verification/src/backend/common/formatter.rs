//! An indenting text writer.

use vstd::prelude::*;

use crate::text::{push_char, spaces};

verus! {

/// Writes text into `out`, indenting by `indent_count` spaces per `level`.
pub struct Formatter {
    pub out: String,
    pub indent_count: u64,
    pub level: u64,
    pub line_started: bool,
}

/// The padding written for `level` levels of `indent_count` spaces each.
pub open spec fn padding(level: nat, indent_count: nat) -> Seq<char> {
    spaces(level * indent_count)
}

/// The text that `push` adds to `out` for a formatter in state `f`.
pub open spec fn pushed_text(f: Formatter, string: Seq<char>) -> Seq<char> {
    if f.line_started {
        padding(f.level as nat, f.indent_count as nat) + string
    } else {
        string
    }
}

/// `f` with its indentation level set to `level`.
pub open spec fn at_level(f: Formatter, level: u64) -> Formatter {
    Formatter { out: f.out, indent_count: f.indent_count, level: level, line_started: f.line_started }
}

/// Indenting one level further and then one level less gives back the
/// formatter as it was.
pub proof fn law_indent_down_then_up(f: Formatter)
    requires
        f.level < u64::MAX,
    ensures
        at_level(at_level(f, (f.level + 1) as u64), f.level) == f,
{
}

proof fn lemma_spaces_push(n: nat)
    ensures
        spaces(n).push(' ') == spaces(n + 1),
{
    assert(spaces(n).push(' ') =~= spaces(n + 1));
}

impl Formatter {
    /// Ends the current line.
    pub fn line(&mut self)
        ensures
            final(self).out@ == old(self).out@.push('\n'),
            !final(self).line_started,
            final(self).level == old(self).level,
            final(self).indent_count == old(self).indent_count,
    {
        push_char(&mut self.out, '\n');
        self.line_started = false;
    }

    fn pad_level(&mut self, level: u64)
        ensures
            final(self).out@ == old(self).out@ + padding(level as nat, old(self).indent_count as nat),
            final(self).level == old(self).level,
            final(self).indent_count == old(self).indent_count,
            final(self).line_started == old(self).line_started,
    {
        let ghost start = self.out@;
        let indent = self.indent_count;
        let mut i: u64 = 0;
        while i < level
            invariant
                i <= level,
                self.indent_count == indent,
                self.level == old(self).level,
                self.line_started == old(self).line_started,
                start == old(self).out@,
                self.out@ == start + spaces((i * indent) as nat),
            decreases level - i,
        {
            let mut j: u64 = 0;
            while j < indent
                invariant
                    i < level,
                    j <= indent,
                    self.indent_count == indent,
                    self.level == old(self).level,
                    self.line_started == old(self).line_started,
                    start == old(self).out@,
                    self.out@ == start + spaces((i * indent + j) as nat),
                decreases indent - j,
            {
                proof {
                    lemma_spaces_push((i * indent + j) as nat);
                    assert(start + spaces((i * indent + j) as nat).push(' ') =~= (start + spaces(
                        (i * indent + j) as nat,
                    )).push(' '));
                }
                push_char(&mut self.out, ' ');
                j += 1;
            }
            proof {
                assert((i + 1) * indent == i * indent + indent) by (nonlinear_arith);
            }
            i += 1;
        }
    }

    /// Writes `string`. If a line was already started, the current padding is
    /// written before it.
    pub fn push(&mut self, string: &str)
        ensures
            final(self).out@ == old(self).out@ + pushed_text(*old(self), string@),
            final(self).line_started,
            final(self).level == old(self).level,
            final(self).indent_count == old(self).indent_count,
    {
        if self.line_started {
            let level = self.level;
            self.pad_level(level);
        }
        self.line_started = true;
        self.out.append(string);
        proof {
            assert(old(self).out@ + pushed_text(*old(self), string@) =~= self.out@);
        }
    }

    /// Indents further.
    pub fn indent_down(&mut self)
        requires
            old(self).level < u64::MAX,
        ensures
            *final(self) == at_level(*old(self), (old(self).level + 1) as u64),
    {
        self.level += 1;
    }

    /// Indents one level less.
    pub fn indent_up(&mut self)
        requires
            old(self).level > 0,
        ensures
            *final(self) == at_level(*old(self), (old(self).level - 1) as u64),
    {
        self.level -= 1;
    }
}

} // verus!
