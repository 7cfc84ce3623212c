//! Operators of the language.
use vstd::prelude::*;

verus! {

/// An operator. All but `Arrow` carry a flag that is set when the operator
/// is immediately followed by `=` (a compound assignment such as `+=`).
#[derive(Debug, Clone, Copy, PartialEq, Eq, Structural, PartialOrd, Ord, Hash)]
pub enum Operator {
    /// Addition `+`
    Add(bool),
    /// Subtraction `-`
    Sub(bool),
    /// Multiplication `*`
    Mul(bool),
    /// Division `/`
    Div(bool),
    /// Modulus `%`
    Mod(bool),
    /// And `&`
    And(bool),
    /// Or `|`
    Or(bool),
    /// Xor `^`
    Xor(bool),
    /// Equal `=`
    Equal(bool),
    /// Greater than `>`
    GreaterThan(bool),
    /// Less than `<`
    LessThan(bool),
    /// Not `!`
    Not(bool),
    /// Arrow `->`
    Arrow,
}

impl Operator {
    /// Whether the operator carries the compound-assignment flag.
    pub open spec fn spec_is_assignment_op(&self) -> bool {
        match *self {
            Operator::Arrow => false,
            Operator::Add(b) | Operator::Sub(b) | Operator::Mul(b) | Operator::Div(b)
            | Operator::Mod(b) | Operator::And(b) | Operator::Or(b) | Operator::Xor(b)
            | Operator::Equal(b) | Operator::GreaterThan(b) | Operator::LessThan(b)
            | Operator::Not(b) => b,
        }
    }

    /// Whether the operator is a compound assignment (`+=`, `==`, ...).
    #[verifier::when_used_as_spec(spec_is_assignment_op)]
    pub fn is_assignment_op(&self) -> (r: bool)
        ensures
            r == self.spec_is_assignment_op(),
    {
        match self {
            Operator::Arrow => false,
            Operator::Add(b) | Operator::Sub(b) | Operator::Mul(b) | Operator::Div(b)
            | Operator::Mod(b) | Operator::And(b) | Operator::Or(b) | Operator::Xor(b)
            | Operator::Equal(b) | Operator::GreaterThan(b) | Operator::LessThan(b)
            | Operator::Not(b) => *b,
        }
    }

    /// The characters that spell the operator, without the trailing `=`.
    pub open spec fn symbol(self) -> Seq<char> {
        match self {
            Operator::Add(_) => seq!['+'],
            Operator::Sub(_) => seq!['-'],
            Operator::Mul(_) => seq!['*'],
            Operator::Div(_) => seq!['/'],
            Operator::Mod(_) => seq!['%'],
            Operator::And(_) => seq!['&'],
            Operator::Or(_) => seq!['|'],
            Operator::Xor(_) => seq!['^'],
            Operator::Equal(_) => seq!['='],
            Operator::GreaterThan(_) => seq!['>'],
            Operator::LessThan(_) => seq!['<'],
            Operator::Not(_) => seq!['!'],
            Operator::Arrow => seq!['-', '>'],
        }
    }

    /// How the operator is written in source text.
    pub open spec fn spelling(self) -> Seq<char> {
        if self.spec_is_assignment_op() {
            self.symbol().push('=')
        } else {
            self.symbol()
        }
    }

    /// The characters that spell the operator, as written in source text.
    pub fn render(&self) -> (r: Vec<char>)
        ensures
            r@ == self.spelling(),
    {
        let mut r: Vec<char> = match self {
            Operator::Add(_) => vec!['+'],
            Operator::Sub(_) => vec!['-'],
            Operator::Mul(_) => vec!['*'],
            Operator::Div(_) => vec!['/'],
            Operator::Mod(_) => vec!['%'],
            Operator::And(_) => vec!['&'],
            Operator::Or(_) => vec!['|'],
            Operator::Xor(_) => vec!['^'],
            Operator::Equal(_) => vec!['='],
            Operator::GreaterThan(_) => vec!['>'],
            Operator::LessThan(_) => vec!['<'],
            Operator::Not(_) => vec!['!'],
            Operator::Arrow => vec!['-', '>'],
        };
        assert(r@ =~= self.symbol());
        if self.is_assignment_op() {
            r.push('=');
        }
        r
    }
}

} // verus!
