//! Floating-point results, supplied by the host.
//!
//! The library computes on integers only. A floating-point value is carried
//! as the 64 bits of its IEEE-754 encoding and never looked into. Where a
//! program needs the value of a literal, the result of an arithmetic operation
//! or the outcome of a comparison on such values, the interpreter looks it up
//! in a [`FloatLedger`]. If the ledger does not hold it, evaluation stops,
//! names the [`FloatRequest`] that is missing and leaves the interpreter as it
//! was; the host computes the answer, records it and evaluates again.

use crate::bindings::NameMap;
use vstd::prelude::*;

verus! {

/// The four arithmetic operators.
#[derive(Debug, PartialEq, Eq, Clone, Copy, Structural)]
pub enum ArithmeticOp {
    Add,
    Subtract,
    Multiply,
    Divide,
}

/// The three comparison operators.
#[derive(Debug, PartialEq, Eq, Clone, Copy, Structural)]
pub enum ComparisonOp {
    Less,
    Greater,
    Equal,
}

/// The operator that the symbol `symbol` denotes in an arithmetic node.
pub open spec fn arithmetic_op(symbol: Seq<char>) -> Option<ArithmeticOp> {
    if symbol == seq!['+'] {
        Some(ArithmeticOp::Add)
    } else if symbol == seq!['-'] {
        Some(ArithmeticOp::Subtract)
    } else if symbol == seq!['*'] {
        Some(ArithmeticOp::Multiply)
    } else if symbol == seq!['/'] {
        Some(ArithmeticOp::Divide)
    } else {
        None
    }
}

/// The operator that the symbol `symbol` denotes in a comparison node.
pub open spec fn comparison_op(symbol: Seq<char>) -> Option<ComparisonOp> {
    if symbol == seq!['<'] {
        Some(ComparisonOp::Less)
    } else if symbol == seq!['>'] {
        Some(ComparisonOp::Greater)
    } else if symbol == seq!['=', '='] {
        Some(ComparisonOp::Equal)
    } else {
        None
    }
}

/// Reads an arithmetic operator from its symbol.
pub fn read_arithmetic_op(symbol: &String) -> (r: Option<ArithmeticOp>)
    ensures
        r == arithmetic_op(symbol@),
{
    let s = symbol.as_str();
    if s.unicode_len() != 1 {
        return None;
    }
    let c = s.get_char(0);
    assert(symbol@ =~= seq![c]);
    if c == '+' {
        Some(ArithmeticOp::Add)
    } else if c == '-' {
        Some(ArithmeticOp::Subtract)
    } else if c == '*' {
        Some(ArithmeticOp::Multiply)
    } else if c == '/' {
        Some(ArithmeticOp::Divide)
    } else {
        None
    }
}

/// Reads a comparison operator from its symbol.
pub fn read_comparison_op(symbol: &String) -> (r: Option<ComparisonOp>)
    ensures
        r == comparison_op(symbol@),
{
    let s = symbol.as_str();
    let n = s.unicode_len();
    if n == 1 {
        let c = s.get_char(0);
        assert(symbol@ =~= seq![c]);
        if c == '<' {
            Some(ComparisonOp::Less)
        } else if c == '>' {
            Some(ComparisonOp::Greater)
        } else {
            None
        }
    } else if n == 2 {
        let c = s.get_char(0);
        let d = s.get_char(1);
        assert(symbol@ =~= seq![c, d]);
        if c == '=' && d == '=' {
            Some(ComparisonOp::Equal)
        } else {
            None
        }
    } else {
        None
    }
}

/// A floating-point result that evaluation needs from the host.
#[derive(Debug, PartialEq, Eq)]
pub enum FloatRequest {
    /// The value of the literal with this text.
    Literal(String),
    /// The result of the operator on two values, left operand first.
    Arithmetic(ArithmeticOp, u64, u64),
    /// The outcome of the comparison of two values, left operand first.
    Comparison(ComparisonOp, u64, u64),
}

/// The mathematical model of a [`FloatRequest`].
pub enum FloatRequestView {
    Literal(Seq<char>),
    Arithmetic(ArithmeticOp, u64, u64),
    Comparison(ComparisonOp, u64, u64),
}

impl View for FloatRequest {
    type V = FloatRequestView;

    open spec fn view(&self) -> FloatRequestView {
        match self {
            FloatRequest::Literal(text) => FloatRequestView::Literal(text@),
            FloatRequest::Arithmetic(op, a, b) => FloatRequestView::Arithmetic(*op, *a, *b),
            FloatRequest::Comparison(op, a, b) => FloatRequestView::Comparison(*op, *a, *b),
        }
    }
}

impl Clone for FloatRequest {
    fn clone(&self) -> (r: Self)
        ensures
            r@ == self@,
    {
        match self {
            FloatRequest::Literal(text) => FloatRequest::Literal(text.clone()),
            FloatRequest::Arithmetic(op, a, b) => FloatRequest::Arithmetic(*op, *a, *b),
            FloatRequest::Comparison(op, a, b) => FloatRequest::Comparison(*op, *a, *b),
        }
    }
}

/// The mathematical content of a [`FloatLedger`]: three partial functions.
pub struct FloatFacts {
    /// The value of each literal recorded, by its text.
    pub literals: Map<Seq<char>, u64>,
    /// The result of each arithmetic operation recorded.
    pub arithmetic: Map<(ArithmeticOp, u64, u64), u64>,
    /// The outcome of each comparison recorded.
    pub comparisons: Map<(ComparisonOp, u64, u64), bool>,
}

impl FloatFacts {
    /// No fact at all.
    pub open spec fn empty() -> FloatFacts {
        FloatFacts { literals: Map::empty(), arithmetic: Map::empty(), comparisons: Map::empty() }
    }

    /// Whether these facts hold every fact of `fewer`, with the same answer.
    pub open spec fn extends(self, fewer: FloatFacts) -> bool {
        &&& fewer.literals.submap_of(self.literals)
        &&& fewer.arithmetic.submap_of(self.arithmetic)
        &&& fewer.comparisons.submap_of(self.comparisons)
    }
}

/// One recorded arithmetic result.
struct ArithmeticFact {
    op: ArithmeticOp,
    left: u64,
    right: u64,
    result: u64,
}

/// One recorded comparison outcome.
struct ComparisonFact {
    op: ComparisonOp,
    left: u64,
    right: u64,
    outcome: bool,
}

/// The partial function that a list of arithmetic facts stands for: of two
/// facts on the same operation the later one counts.
spec fn arithmetic_table(facts: Seq<ArithmeticFact>) -> Map<(ArithmeticOp, u64, u64), u64>
    decreases facts.len(),
{
    if facts.len() == 0 {
        Map::empty()
    } else {
        let fact = facts.last();
        arithmetic_table(facts.drop_last()).insert((fact.op, fact.left, fact.right), fact.result)
    }
}

/// The partial function that a list of comparison facts stands for: of two
/// facts on the same comparison the later one counts.
spec fn comparison_table(facts: Seq<ComparisonFact>) -> Map<(ComparisonOp, u64, u64), bool>
    decreases facts.len(),
{
    if facts.len() == 0 {
        Map::empty()
    } else {
        let fact = facts.last();
        comparison_table(facts.drop_last()).insert((fact.op, fact.left, fact.right), fact.outcome)
    }
}

/// The floating-point results that the host has supplied so far.
pub struct FloatLedger {
    literals: NameMap<u64>,
    arithmetic: Vec<ArithmeticFact>,
    comparisons: Vec<ComparisonFact>,
}

impl View for FloatLedger {
    type V = FloatFacts;

    closed spec fn view(&self) -> FloatFacts {
        FloatFacts {
            literals: self.literals@,
            arithmetic: arithmetic_table(self.arithmetic@),
            comparisons: comparison_table(self.comparisons@),
        }
    }
}

impl FloatLedger {
    /// Well-formedness of the representation. Every constructor establishes it
    /// and every method preserves it.
    pub closed spec fn wf(self) -> bool {
        self.literals.wf()
    }

    /// A ledger with nothing recorded.
    pub fn new() -> (ledger: Self)
        ensures
            ledger.wf(),
            ledger@ == FloatFacts::empty(),
    {
        FloatLedger { literals: NameMap::new(), arithmetic: Vec::new(), comparisons: Vec::new() }
    }

    /// Records that the literal `text` has the value `bits`. A later record of
    /// the same literal replaces an earlier one.
    pub fn record_literal(&mut self, text: &str, bits: u64)
        requires
            old(self).wf(),
        ensures
            final(self).wf(),
            final(self)@ == (FloatFacts {
                literals: old(self)@.literals.insert(text@, bits),
                ..old(self)@
            }),
    {
        self.literals.insert(text.to_owned(), bits);
    }

    /// Records that `op` on `left` and `right` gives `result`. A later record
    /// of the same operation replaces an earlier one.
    pub fn record_arithmetic(&mut self, op: ArithmeticOp, left: u64, right: u64, result: u64)
        requires
            old(self).wf(),
        ensures
            final(self).wf(),
            final(self)@ == (FloatFacts {
                arithmetic: old(self)@.arithmetic.insert((op, left, right), result),
                ..old(self)@
            }),
    {
        let ghost before = self.arithmetic@;
        self.arithmetic.push(ArithmeticFact { op, left, right, result });
        assert(self.arithmetic@.drop_last() =~= before);
    }

    /// Records that the comparison `op` of `left` with `right` holds or not,
    /// as `outcome` says. A later record of the same comparison replaces an
    /// earlier one.
    pub fn record_comparison(&mut self, op: ComparisonOp, left: u64, right: u64, outcome: bool)
        requires
            old(self).wf(),
        ensures
            final(self).wf(),
            final(self)@ == (FloatFacts {
                comparisons: old(self)@.comparisons.insert((op, left, right), outcome),
                ..old(self)@
            }),
    {
        let ghost before = self.comparisons@;
        self.comparisons.push(ComparisonFact { op, left, right, outcome });
        assert(self.comparisons@.drop_last() =~= before);
    }

    /// Records the answer to `request`: the bits of a value for a literal or
    /// an arithmetic operation, and for a comparison zero where it does not
    /// hold and anything else where it does.
    pub fn record(&mut self, request: &FloatRequest, answer: u64)
        requires
            old(self).wf(),
        ensures
            final(self).wf(),
            final(self)@ == old(self)@.with_answer(request@, answer),
    {
        match request {
            FloatRequest::Literal(text) => {
                self.literals.insert(text.clone(), answer);
            },
            FloatRequest::Arithmetic(op, left, right) => {
                self.record_arithmetic(*op, *left, *right, answer);
            },
            FloatRequest::Comparison(op, left, right) => {
                self.record_comparison(*op, *left, *right, answer != 0);
            },
        }
    }

    /// The value recorded for the literal `text`, if any.
    pub fn literal(&self, text: &String) -> (r: Option<u64>)
        requires
            self.wf(),
        ensures
            r == self@.literals.get(text@),
    {
        match self.literals.get(text) {
            Some(bits) => Some(*bits),
            None => None,
        }
    }

    /// The result recorded for `op` on `left` and `right`, if any.
    pub fn arithmetic(&self, op: ArithmeticOp, left: u64, right: u64) -> (r: Option<u64>)
        ensures
            r == self@.arithmetic.get((op, left, right)),
    {
        let ghost key = (op, left, right);
        let mut i: usize = self.arithmetic.len();
        assert(self.arithmetic@.take(i as int) =~= self.arithmetic@);
        while i > 0
            invariant
                i <= self.arithmetic.len(),
                key == (op, left, right),
                arithmetic_table(self.arithmetic@).get(key) == arithmetic_table(
                    self.arithmetic@.take(i as int),
                ).get(key),
            decreases i,
        {
            proof {
                assert(self.arithmetic@.take(i as int).drop_last() =~= self.arithmetic@.take(i - 1));
            }
            i -= 1;
            let fact = &self.arithmetic[i];
            if fact.op == op && fact.left == left && fact.right == right {
                return Some(fact.result);
            }
        }
        None
    }

    /// The outcome recorded for the comparison `op` of `left` with `right`, if
    /// any.
    pub fn comparison(&self, op: ComparisonOp, left: u64, right: u64) -> (r: Option<bool>)
        ensures
            r == self@.comparisons.get((op, left, right)),
    {
        let ghost key = (op, left, right);
        let mut i: usize = self.comparisons.len();
        assert(self.comparisons@.take(i as int) =~= self.comparisons@);
        while i > 0
            invariant
                i <= self.comparisons.len(),
                key == (op, left, right),
                comparison_table(self.comparisons@).get(key) == comparison_table(
                    self.comparisons@.take(i as int),
                ).get(key),
            decreases i,
        {
            proof {
                assert(self.comparisons@.take(i as int).drop_last() =~= self.comparisons@.take(
                    i - 1,
                ));
            }
            i -= 1;
            let fact = &self.comparisons[i];
            if fact.op == op && fact.left == left && fact.right == right {
                return Some(fact.outcome);
            }
        }
        None
    }
}

impl FloatFacts {
    /// The facts with the answer to `request` added: the bits of a value for
    /// a literal or an arithmetic operation, and for a comparison whether the
    /// answer is not zero.
    pub open spec fn with_answer(self, request: FloatRequestView, answer: u64) -> FloatFacts {
        match request {
            FloatRequestView::Literal(text) => FloatFacts {
                literals: self.literals.insert(text, answer),
                ..self
            },
            FloatRequestView::Arithmetic(op, a, b) => FloatFacts {
                arithmetic: self.arithmetic.insert((op, a, b), answer),
                ..self
            },
            FloatRequestView::Comparison(op, a, b) => FloatFacts {
                comparisons: self.comparisons.insert((op, a, b), answer != 0),
                ..self
            },
        }
    }
}

} // verus!
