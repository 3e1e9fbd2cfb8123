//! Code generation utilities.

use vstd::prelude::*;
use vstd::string::StringExecFns;

verus! {

/// `unit` repeated `n` times: the indentation of a line at depth `n`.
pub open spec fn indentation(unit: Seq<char>, n: nat) -> Seq<char>
    decreases n,
{
    if n == 0 {
        Seq::empty()
    } else {
        indentation(unit, (n - 1) as nat) + unit
    }
}

/// The text of one line at depth `n`: indentation, `s`, and a newline.
pub open spec fn line(unit: Seq<char>, n: nat, s: Seq<char>) -> Seq<char> {
    indentation(unit, n) + s + seq!['\n']
}

/// The line that opens a block: `{` alone when `s` is empty, else `s {`.
pub open spec fn block_head(unit: Seq<char>, n: nat, s: Seq<char>) -> Seq<char> {
    if s.len() == 0 {
        indentation(unit, n) + seq!['{', '\n']
    } else {
        indentation(unit, n) + s + seq![' ', '{', '\n']
    }
}

/// The line that closes a block.
pub open spec fn block_tail(unit: Seq<char>, n: nat) -> Seq<char> {
    line(unit, n, seq!['}'])
}

/// Text written in two steps is the text of both steps, written at once.
pub proof fn lemma_written_2(a: Seq<char>, x: Seq<char>, y: Seq<char>)
    ensures
        a + x + y == a + (x + y),
{
    assert(a + x + y =~= a + (x + y));
}

/// Text written in three steps is the text of the three, written at once.
pub proof fn lemma_written_3(a: Seq<char>, x: Seq<char>, y: Seq<char>, z: Seq<char>)
    ensures
        a + x + y + z == a + (x + y + z),
{
    assert(a + x + y + z =~= a + (x + y + z));
}

/// Text written in four steps is the text of the four, written at once.
pub proof fn lemma_written_4(a: Seq<char>, w: Seq<char>, x: Seq<char>, y: Seq<char>, z: Seq<char>)
    ensures
        a + w + x + y + z == a + (w + x + y + z),
{
    assert(a + w + x + y + z =~= a + (w + x + y + z));
}

/// Text written in five steps is the text of the five, written at once.
pub proof fn lemma_written_5(
    a: Seq<char>,
    v: Seq<char>,
    w: Seq<char>,
    x: Seq<char>,
    y: Seq<char>,
    z: Seq<char>,
)
    ensures
        a + v + w + x + y + z == a + (v + w + x + y + z),
{
    assert(a + v + w + x + y + z =~= a + (v + w + x + y + z));
}

/// A code generation buffer.
///
/// A `CodegenBuf` collects generated source text. Its value is in the
/// functions it provides to manage indentation: it remembers the current
/// depth and the text of one indentation step.
///
/// The depth is kept in 128 bits: deeper than any nesting that a program
/// can hold in memory.
#[derive(Clone, Debug)]
pub struct CodegenBuf {
    inner: String,
    level: u128,
    indent: String,
}

impl View for CodegenBuf {
    type V = Seq<char>;

    /// The text written so far.
    closed spec fn view(&self) -> Seq<char> {
        self.inner@
    }
}

impl CodegenBuf {
    /// The current indentation depth.
    pub closed spec fn depth(&self) -> nat {
        self.level as nat
    }

    /// The text of one indentation step.
    pub closed spec fn unit(&self) -> Seq<char> {
        self.indent@
    }

    /// Creates a new code generation buffer that indents by four spaces.
    pub fn new() -> (buf: CodegenBuf)
        ensures
            buf@ == Seq::<char>::empty(),
            buf.depth() == 0,
            buf.unit() == seq![' ', ' ', ' ', ' '],
    {
        proof {
            reveal_strlit("    ");
        }
        let buf = CodegenBuf::with_indent("    ");
        assert(buf.unit() =~= seq![' ', ' ', ' ', ' ']);
        buf
    }

    /// Creates a new code generation buffer that indents by `indent`.
    pub fn with_indent(indent: &str) -> (buf: CodegenBuf)
        ensures
            buf@ == Seq::<char>::empty(),
            buf.depth() == 0,
            buf.unit() == indent@,
    {
        CodegenBuf { inner: String::new(), level: 0, indent: indent.to_owned() }
    }

    /// Consumes the buffer, returning its contents.
    pub fn into_string(self) -> (s: String)
        ensures
            s@ == self@,
    {
        self.inner
    }

    /// Writes a string into the buffer directly.
    pub fn write(&mut self, s: &str)
        ensures
            final(self)@ == old(self)@ + s@,
            final(self).depth() == old(self).depth(),
            final(self).unit() == old(self).unit(),
    {
        self.inner.append(s);
    }

    /// Writes a line into the buffer at the current indentation level.
    ///
    /// Specifically, the method writes the indentation, followed by `s`,
    /// followed by a newline character.
    pub fn writeln(&mut self, s: &str)
        ensures
            final(self)@ == old(self)@ + line(old(self).unit(), old(self).depth(), s@),
            final(self).depth() == old(self).depth(),
            final(self).unit() == old(self).unit(),
    {
        self.start_line();
        self.write(s);
        self.end_line();
        assert(self@ =~= old(self)@ + line(old(self).unit(), old(self).depth(), s@));
    }

    /// Starts a new line.
    ///
    /// Specifically, the method writes the indentation of the current level
    /// into the buffer.
    pub fn start_line(&mut self)
        ensures
            final(self)@ == old(self)@ + indentation(old(self).unit(), old(self).depth()),
            final(self).depth() == old(self).depth(),
            final(self).unit() == old(self).unit(),
    {
        let mut i: u128 = 0;
        assert(self@ =~= old(self)@ + indentation(old(self).unit(), 0));
        while i < self.level
            invariant
                0 <= i <= self.level,
                self.level == old(self).level,
                self.indent == old(self).indent,
                self@ == old(self)@ + indentation(old(self).unit(), i as nat),
            decreases self.level - i,
        {
            self.inner.append(self.indent.as_str());
            i = i + 1;
            assert(self@ =~= old(self)@ + indentation(old(self).unit(), i as nat));
        }
    }

    /// Ends the current line.
    ///
    /// Specifically, the method writes a newline character into the buffer.
    pub fn end_line(&mut self)
        ensures
            final(self)@ == old(self)@ + seq!['\n'],
            final(self).depth() == old(self).depth(),
            final(self).unit() == old(self).unit(),
    {
        proof {
            reveal_strlit("\n");
        }
        self.write("\n");
        assert(self@ =~= old(self)@ + seq!['\n']);
    }

    /// Increases the indentation level by one.
    pub fn indent(&mut self)
        requires
            old(self).depth() < u128::MAX,
        ensures
            final(self)@ == old(self)@,
            final(self).depth() == old(self).depth() + 1,
            final(self).unit() == old(self).unit(),
    {
        self.level = self.level + 1;
    }

    /// Decreases the indentation level by one.
    pub fn unindent(&mut self)
        requires
            old(self).depth() > 0,
        ensures
            final(self)@ == old(self)@,
            final(self).depth() == old(self).depth() - 1,
            final(self).unit() == old(self).unit(),
    {
        self.level = self.level - 1;
    }

    /// Opens an indented block.
    ///
    /// Specifically, if `s` is empty, the method writes the line `{` into
    /// the buffer; otherwise it writes the line `s {` at the current
    /// indentation level. Then it increments the indentation level.
    pub fn open_block(&mut self, s: &str)
        requires
            old(self).depth() < u128::MAX,
        ensures
            final(self)@ == old(self)@ + block_head(old(self).unit(), old(self).depth(), s@),
            final(self).depth() == old(self).depth() + 1,
            final(self).unit() == old(self).unit(),
    {
        proof {
            reveal_strlit(" ");
            reveal_strlit("{\n");
        }
        self.start_line();
        self.write(s);
        if s.unicode_len() != 0 {
            self.write(" ");
        }
        self.write("{\n");
        self.level = self.level + 1;
        assert(self@ =~= old(self)@ + block_head(old(self).unit(), old(self).depth(), s@));
    }

    /// Closes an indented block: decrements the indentation level and
    /// writes the line `}`.
    pub fn close_block(&mut self)
        requires
            old(self).depth() > 0,
        ensures
            final(self)@ == old(self)@ + block_tail(
                old(self).unit(),
                (old(self).depth() - 1) as nat,
            ),
            final(self).depth() == old(self).depth() - 1,
            final(self).unit() == old(self).unit(),
    {
        proof {
            reveal_strlit("}");
        }
        self.level = self.level - 1;
        self.writeln("}");
        assert("}"@ =~= seq!['}']);
    }

    /// Writes a new indented block.
    ///
    /// Specifically, the method opens a block headed by `s`, runs the
    /// provided function on the buffer, then closes the block. The function
    /// must leave the indentation level as it found it.
    pub fn write_block<F, R>(&mut self, s: &str, f: F) -> (ret: R) where
        F: FnOnce(&mut CodegenBuf) -> R,

        requires
            old(self).depth() < u128::MAX,
            forall|b: &mut CodegenBuf|
                b.depth() == old(self).depth() + 1 && b.unit() == old(self).unit()
                    ==> #[trigger] f.requires((b,)),
            forall|b: &mut CodegenBuf, r: R| #[trigger]
                f.ensures((b,), r) ==> final(b).depth() == b.depth() && final(b).unit()
                    == b.unit(),
        ensures
            final(self).depth() == old(self).depth(),
            final(self).unit() == old(self).unit(),
            exists|b: &mut CodegenBuf|
                {
                    &&& b@ == old(self)@ + block_head(old(self).unit(), old(self).depth(), s@)
                    &&& b.depth() == old(self).depth() + 1
                    &&& b.unit() == old(self).unit()
                    &&& #[trigger] f.ensures((b,), ret)
                    &&& final(self)@ == final(b)@ + block_tail(
                        old(self).unit(),
                        old(self).depth(),
                    )
                },
    {
        self.open_block(s);
        let ret = f(self);
        self.close_block();
        ret
    }
}

impl Default for CodegenBuf {
    fn default() -> (buf: CodegenBuf)
        ensures
            buf@ == Seq::<char>::empty(),
            buf.depth() == 0,
            buf.unit() == seq![' ', ' ', ' ', ' '],
    {
        CodegenBuf::new()
    }
}

} // verus!
