//! Indented, line-oriented text.

use vstd::prelude::*;

verus! {

/// An indentation level; each level is two spaces.
#[derive(Debug, Clone, Copy, PartialEq, Eq)]
pub struct Indent {
    pub level: usize,
}

/// The text of `level` levels of indentation.
pub open spec fn indent_text(level: nat) -> Seq<char> {
    Seq::new(2 * level, |i: int| ' ')
}

impl Default for Indent {
    fn default() -> (r: Indent)
        ensures
            r.level == 0,
    {
        Indent { level: 0 }
    }
}

impl Indent {
    /// One level deeper.
    pub fn deeper(&self) -> (r: Indent)
        requires
            self.level < usize::MAX,
        ensures
            r.level == self.level + 1,
    {
        Indent { level: self.level + 1 }
    }

    /// Appends the indentation to `out`.
    pub fn fmt(&self, out: &mut String)
        ensures
            final(out)@ == old(out)@ + indent_text(self.level as nat),
    {
        write_indent(out, self.level);
    }
}

/// Appends `level` levels of indentation to `out`.
pub fn write_indent(out: &mut String, level: usize)
    ensures
        final(out)@ == old(out)@ + indent_text(level as nat),
{
    let mut i: usize = 0;
    while i < level
        invariant
            i <= level,
            out@ == old(out)@ + indent_text(i as nat),
        decreases level - i,
    {
        proof {
            reveal_strlit("  ");
        }
        out.append("  ");
        i = i + 1;
        assert(out@ =~= old(out)@ + indent_text(i as nat));
    }
}

/// A line of rendered text, `depth` levels deeper than the block that holds it.
#[derive(Debug, Clone, PartialEq, Eq)]
pub struct Line {
    pub depth: usize,
    pub text: String,
}

/// The text of a line in a block at indentation level `base`, with its line break.
pub open spec fn line_text(line: Line, base: nat) -> Seq<char> {
    indent_text(base) + indent_text(line.depth as nat) + line.text@ + seq!['\n']
}

/// The text of a block of lines at indentation level `base`.
pub open spec fn block_text(lines: Seq<Line>, base: nat) -> Seq<char>
    decreases lines.len(),
{
    if lines.len() == 0 {
        Seq::empty()
    } else {
        block_text(lines.drop_last(), base) + line_text(lines.last(), base)
    }
}

/// Appends `lines` at indentation `indent` to `out`.
pub fn write_block(out: &mut String, lines: &Vec<Line>, indent: &Indent)
    ensures
        final(out)@ == old(out)@ + block_text(lines@, indent.level as nat),
{
    let mut i: usize = 0;
    while i < lines.len()
        invariant
            i <= lines@.len(),
            out@ == old(out)@ + block_text(lines@.take(i as int), indent.level as nat),
        decreases lines@.len() - i,
    {
        let ghost before = out@;
        let line = &lines[i];
        indent.fmt(out);
        write_indent(out, line.depth);
        out.append(line.text.as_str());
        out.append("\n");
        proof {
            reveal_strlit("\n");
            assert(lines@.take(i + 1).drop_last() =~= lines@.take(i as int));
            assert(out@ =~= before + line_text(lines@[i as int], indent.level as nat));
        }
        i = i + 1;
    }
    assert(lines@.take(lines@.len() as int) =~= lines@);
}

} // verus!
