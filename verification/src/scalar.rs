//! Scalar expressions, as far as the plan rewrites and the plan text read them.

use vstd::prelude::*;

verus! {

/// A scalar expression.
#[derive(Debug, Clone, PartialEq, Eq)]
pub enum ScalarExpr {
    /// A reference to an input column.
    Column(usize),
    /// An unsigned integer literal.
    Literal(u64),
    /// Any other expression, given by its rendered text.
    Opaque(String),
}

/// The mathematical value of a scalar expression.
pub enum Scalar {
    Column(usize),
    Literal(u64),
    Opaque(Seq<char>),
}

impl View for ScalarExpr {
    type V = Scalar;

    open spec fn view(&self) -> Scalar {
        match self {
            ScalarExpr::Column(c) => Scalar::Column(*c),
            ScalarExpr::Literal(v) => Scalar::Literal(*v),
            ScalarExpr::Opaque(s) => Scalar::Opaque(s@),
        }
    }
}

/// The value of an expression that is a literal representable as a `usize`.
pub open spec fn literal_usize(e: Scalar) -> Option<nat> {
    match e {
        Scalar::Literal(v) => if v <= usize::MAX { Some(v as nat) } else { None },
        _ => None,
    }
}

impl ScalarExpr {
    /// The value of this expression if it is a literal that fits in a `usize`.
    pub fn as_literal_usize(&self) -> (r: Option<usize>)
        ensures
            match r {
                Some(n) => literal_usize(self@) == Some(n as nat),
                None => literal_usize(self@) is None,
            },
    {
        match self {
            ScalarExpr::Literal(v) => {
                if *v <= usize::MAX as u64 {
                    Some(*v as usize)
                } else {
                    None
                }
            },
            _ => None,
        }
    }
}

/// What the compact rendering of a list of expressions asks of each expression.
pub trait ScalarOps {
    /// The column that the expression is a plain reference to, if it is one.
    spec fn column_ref(&self) -> Option<usize>;

    /// Whether the expression is a plain reference to column `col_ref`.
    spec fn refers_to(&self, col_ref: usize) -> bool;

    fn match_col_ref(&self) -> (r: Option<usize>)
        ensures
            r == self.column_ref(),
    ;

    fn references(&self, col_ref: usize) -> (r: bool)
        ensures
            r == self.refers_to(col_ref),
    ;
}

/// Rendering of a value as `EXPLAIN` text.
pub trait DisplayText {
    /// The text of the value.
    spec fn text(&self) -> Seq<char>;

    /// Appends the text of the value to `out`.
    fn fmt_text(&self, out: &mut String)
        ensures
            final(out)@ == old(out)@ + self.text(),
    ;
}

impl ScalarOps for ScalarExpr {
    open spec fn column_ref(&self) -> Option<usize> {
        match self {
            ScalarExpr::Column(c) => Some(*c),
            _ => None,
        }
    }

    open spec fn refers_to(&self, col_ref: usize) -> bool {
        match self {
            ScalarExpr::Column(c) => *c == col_ref,
            _ => false,
        }
    }

    fn match_col_ref(&self) -> (r: Option<usize>) {
        match self {
            ScalarExpr::Column(c) => Some(*c),
            _ => None,
        }
    }

    fn references(&self, col_ref: usize) -> (r: bool) {
        match self {
            ScalarExpr::Column(c) => *c == col_ref,
            _ => false,
        }
    }
}

/// The character of a decimal digit.
pub open spec fn digit_char(d: nat) -> char {
    if d == 0 {
        '0'
    } else if d == 1 {
        '1'
    } else if d == 2 {
        '2'
    } else if d == 3 {
        '3'
    } else if d == 4 {
        '4'
    } else if d == 5 {
        '5'
    } else if d == 6 {
        '6'
    } else if d == 7 {
        '7'
    } else if d == 8 {
        '8'
    } else {
        '9'
    }
}

/// The decimal notation of a number, without leading zeros.
pub open spec fn decimal(n: nat) -> Seq<char>
    decreases n,
{
    if n < 10 {
        seq![digit_char(n)]
    } else {
        decimal(n / 10) + seq![digit_char(n % 10)]
    }
}

fn digit_str(d: u64) -> (s: &'static str)
    requires
        d < 10,
    ensures
        s@ == seq![digit_char(d as nat)],
{
    if d == 0 {
        proof { reveal_strlit("0"); }
        "0"
    } else if d == 1 {
        proof { reveal_strlit("1"); }
        "1"
    } else if d == 2 {
        proof { reveal_strlit("2"); }
        "2"
    } else if d == 3 {
        proof { reveal_strlit("3"); }
        "3"
    } else if d == 4 {
        proof { reveal_strlit("4"); }
        "4"
    } else if d == 5 {
        proof { reveal_strlit("5"); }
        "5"
    } else if d == 6 {
        proof { reveal_strlit("6"); }
        "6"
    } else if d == 7 {
        proof { reveal_strlit("7"); }
        "7"
    } else if d == 8 {
        proof { reveal_strlit("8"); }
        "8"
    } else {
        proof { reveal_strlit("9"); }
        "9"
    }
}

/// Appends the decimal notation of `n` to `out`.
pub fn write_decimal(out: &mut String, n: u64)
    ensures
        final(out)@ == old(out)@ + decimal(n as nat),
    decreases n,
{
    if n >= 10 {
        write_decimal(out, n / 10);
    }
    out.append(digit_str(n % 10));
    proof {
        if n >= 10 {
            assert(decimal(n as nat) == decimal((n / 10) as nat) + seq![digit_char((n % 10) as nat)]);
        }
    }
}

/// The text of a scalar expression: `#c` for a column reference.
pub open spec fn scalar_text(e: Scalar) -> Seq<char> {
    match e {
        Scalar::Column(c) => seq!['#'] + decimal(c as nat),
        Scalar::Literal(v) => decimal(v as nat),
        Scalar::Opaque(t) => t,
    }
}

impl DisplayText for ScalarExpr {
    open spec fn text(&self) -> Seq<char> {
        scalar_text(self@)
    }

    fn fmt_text(&self, out: &mut String) {
        match self {
            ScalarExpr::Column(c) => {
                proof { reveal_strlit("#"); }
                out.append("#");
                write_decimal(out, *c as u64);
                proof {
                    assert(old(out)@ + (seq!['#'] + decimal(*c as nat)) =~= old(out)@ + seq!['#'] + decimal(*c as nat));
                }
            },
            ScalarExpr::Literal(v) => {
                write_decimal(out, *v);
            },
            ScalarExpr::Opaque(t) => {
                out.append(t.as_str());
            },
        }
    }
}

/// A single digit is written as its character, and a number of two or more digits as the
/// number without its last digit followed by that digit; digits are `0` to `9` in order.
pub proof fn lemma_decimal_digits(n: nat, d: nat)
    requires
        d < 10,
    ensures
        decimal(d) == seq![digit_char(d)],
        n > 0 ==> decimal(10 * n + d) == decimal(n) + seq![digit_char(d)],
        digit_char(d) as int == '0' as int + d,
{
    if n > 0 {
        assert((10 * n + d) / 10 == n);
        assert((10 * n + d) % 10 == d);
    }
}

} // verus!
