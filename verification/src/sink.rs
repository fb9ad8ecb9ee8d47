//! The output sink: an ordered buffer of styled writes. The engine appends
//! text runs and style directives; a display backend replays them (mapping
//! the style directives to no-ops for plain-text output).

use vstd::prelude::*;
use vstd::string::StringExecFns;

verus! {

/// Foreground colors the renderer uses.
#[derive(Clone, Copy, Debug, PartialEq, Eq, Structural)]
pub enum Color {
    Red,
    Yellow,
    Green,
    White,
    Blue,
}

/// One styled write: a text run or a style directive.
#[derive(Debug, PartialEq, Eq)]
pub enum Op {
    Text(String),
    Bold,
    Fg(Color),
    Reset,
}

/// Mathematical image of an [`Op`].
pub enum OpV {
    Text(Seq<char>),
    Bold,
    Fg(Color),
    Reset,
}

impl View for Op {
    type V = OpV;

    open spec fn view(&self) -> OpV {
        match self {
            Op::Text(s) => OpV::Text(s@),
            Op::Bold => OpV::Bold,
            Op::Fg(c) => OpV::Fg(*c),
            Op::Reset => OpV::Reset,
        }
    }
}

/// The text an op contributes to plain output: its run for a text op,
/// nothing for a style directive.
pub open spec fn op_text(o: OpV) -> Seq<char> {
    match o {
        OpV::Text(s) => s,
        _ => Seq::empty(),
    }
}

/// The plain text of a write sequence: the text runs concatenated in order,
/// all style directives mapped to no-ops.
pub open spec fn plain_of(ops: Seq<OpV>) -> Seq<char>
    decreases ops.len(),
{
    if ops.len() == 0 {
        Seq::empty()
    } else {
        plain_of(ops.drop_last()) + op_text(ops.last())
    }
}

/// The plain text of concatenated write sequences is the concatenation of
/// their plain texts: style directives never disturb the text runs.
pub proof fn lemma_plain_of_append(a: Seq<OpV>, b: Seq<OpV>)
    ensures
        plain_of(a + b) == plain_of(a) + plain_of(b),
    decreases b.len(),
{
    if b.len() == 0 {
        assert(a + b =~= a);
        assert(plain_of(a) + plain_of(b) =~= plain_of(a));
    } else {
        assert((a + b).drop_last() =~= a + b.drop_last());
        assert((a + b).last() == b.last());
        lemma_plain_of_append(a, b.drop_last());
        assert(plain_of(a) + plain_of(b.drop_last()) + op_text(b.last()) =~= plain_of(a) + (
        plain_of(b.drop_last()) + op_text(b.last())));
    }
}

/// An in-memory sink. Writes are only ever appended, in order; the engine
/// never reads back from it.
pub struct Sink {
    ops: Vec<Op>,
}

impl View for Sink {
    type V = Seq<OpV>;

    closed spec fn view(&self) -> Seq<OpV> {
        self.ops@.map_values(|o: Op| o@)
    }
}

impl Sink {
    /// An empty sink.
    pub fn new() -> (s: Sink)
        ensures
            s@ == Seq::<OpV>::empty(),
    {
        let s = Sink { ops: Vec::new() };
        proof {
            assert(s@ =~= Seq::<OpV>::empty());
        }
        s
    }

    /// Appends a text run.
    pub fn text(&mut self, t: String)
        ensures
            final(self)@ == old(self)@.push(OpV::Text(t@)),
    {
        let ghost tv = t@;
        self.ops.push(Op::Text(t));
        proof {
            assert(self@ =~= old(self)@.push(OpV::Text(tv)));
        }
    }

    /// Appends the bold style directive.
    pub fn bold(&mut self)
        ensures
            final(self)@ == old(self)@.push(OpV::Bold),
    {
        self.ops.push(Op::Bold);
        proof {
            assert(self@ =~= old(self)@.push(OpV::Bold));
        }
    }

    /// Appends a foreground-color directive.
    pub fn fg(&mut self, c: Color)
        ensures
            final(self)@ == old(self)@.push(OpV::Fg(c)),
    {
        self.ops.push(Op::Fg(c));
        proof {
            assert(self@ =~= old(self)@.push(OpV::Fg(c)));
        }
    }

    /// Appends the style-reset directive.
    pub fn reset(&mut self)
        ensures
            final(self)@ == old(self)@.push(OpV::Reset),
    {
        self.ops.push(Op::Reset);
        proof {
            assert(self@ =~= old(self)@.push(OpV::Reset));
        }
    }

    /// The recorded writes, in order.
    pub fn ops(&self) -> (r: &Vec<Op>)
        ensures
            r@.map_values(|o: Op| o@) == self@,
    {
        &self.ops
    }

    /// The plain text of everything written so far: the text runs
    /// concatenated, style directives dropped.
    pub fn plain_text(&self) -> (r: String)
        ensures
            r@ == plain_of(self@),
    {
        let mut r = String::new();
        proof {
            assert(r@ =~= plain_of(self@.take(0)));
        }
        let mut i: usize = 0;
        while i < self.ops.len()
            invariant
                i <= self.ops@.len(),
                self@.len() == self.ops@.len(),
                r@ == plain_of(self@.take(i as int)),
            decreases self.ops@.len() - i,
        {
            match &self.ops[i] {
                Op::Text(s) => {
                    r.append(s.as_str());
                },
                _ => {},
            }
            i = i + 1;
            proof {
                assert(self@.take(i as int).drop_last() =~= self@.take(i - 1));
                assert(self@.take(i as int).last() == self@[i - 1]);
                assert(r@ =~= plain_of(self@.take(i as int)));
            }
        }
        proof {
            assert(self@.take(self.ops@.len() as int) =~= self@);
        }
        r
    }
}

} // verus!
