use vstd::prelude::*;

verus! {

/// A binary operator of the calculator.
#[derive(Clone, Copy, Debug, PartialEq, Eq, Structural)]
pub enum Operator {
    Add,
    Sub,
    Mul,
    Div,
    Rem,
}

impl Operator {
    /// `+` and `-` bind loosest; `*`, `/` and `%` bind tighter.
    pub open spec fn is_additive(self) -> bool {
        self == Operator::Add || self == Operator::Sub
    }
}

/// Why an expression could not be evaluated.
#[derive(Clone, Copy, Debug, PartialEq, Eq, Structural)]
pub enum CalcError {
    InvalidNumber,
    IncompleteExpression,
    InvalidOperator,
    DivisionByZero,
    ModuloByZero,
}

/// What the evaluator needs to know of a token read as a number.
#[derive(Clone, Copy, Debug, PartialEq, Eq, Structural)]
pub enum NumberClass {
    /// The token is not a number.
    Invalid,
    /// The token is a number equal to zero.
    Zero,
    /// The token is any other number.
    NonZero,
}

/// A tight-binding step of a term: apply `op` with the operand at token index `operand`.
#[derive(Clone, Copy, Debug, PartialEq, Eq, Structural)]
pub struct Factor {
    pub op: Operator,
    pub operand: usize,
}

/// One addend of the expression: the operand at token index `first`, folded left to
/// right with `factors`, then added to (`Add`) or subtracted from (`Sub`) the
/// running sum.
#[derive(Debug)]
pub struct Term {
    pub op: Operator,
    pub first: usize,
    pub factors: Vec<Factor>,
}

pub struct TermView {
    pub op: Operator,
    pub first: usize,
    pub factors: Seq<Factor>,
}

impl View for Term {
    type V = TermView;

    open spec fn view(&self) -> TermView {
        TermView { op: self.op, first: self.first, factors: self.factors@ }
    }
}

pub open spec fn term_views(ts: Seq<Term>) -> Seq<TermView> {
    ts.map_values(|t: Term| t@)
}

pub open spec fn texts(v: Seq<String>) -> Seq<Seq<char>> {
    v.map_values(|s: String| s@)
}

/// The operator that a token spells, if any.
pub open spec fn operator_of(s: Seq<char>) -> Option<Operator> {
    if s.len() != 1 {
        None
    } else if s[0] == '+' {
        Some(Operator::Add)
    } else if s[0] == '-' {
        Some(Operator::Sub)
    } else if s[0] == '*' {
        Some(Operator::Mul)
    } else if s[0] == '/' {
        Some(Operator::Div)
    } else if s[0] == '%' {
        Some(Operator::Rem)
    } else {
        None
    }
}

/// The error raised by the operator at token `i` together with the operand after it.
pub open spec fn step_error(toks: Seq<Seq<char>>, cls: Seq<NumberClass>, i: int) -> Option<
    CalcError,
> {
    if i + 1 >= toks.len() {
        Some(CalcError::IncompleteExpression)
    } else if cls[i + 1] == NumberClass::Invalid {
        Some(CalcError::InvalidNumber)
    } else {
        match operator_of(toks[i]) {
            None => Some(CalcError::InvalidOperator),
            Some(Operator::Div) => if cls[i + 1] == NumberClass::Zero {
                Some(CalcError::DivisionByZero)
            } else {
                None
            },
            Some(Operator::Rem) => if cls[i + 1] == NumberClass::Zero {
                Some(CalcError::ModuloByZero)
            } else {
                None
            },
            Some(_) => None,
        }
    }
}

/// The terms formed by the leading operand and the first `k` (operator, operand) pairs:
/// an additive operator opens a new term, any other extends the last one.
pub open spec fn group(toks: Seq<Seq<char>>, k: nat) -> Seq<TermView>
    decreases k,
{
    if k == 0 {
        seq![TermView { op: Operator::Add, first: 0, factors: seq![] }]
    } else {
        let prev = group(toks, (k - 1) as nat);
        let op = operator_of(toks[2 * k - 1]).unwrap();
        let operand = (2 * k) as usize;
        if op.is_additive() {
            prev.push(TermView { op, first: operand, factors: seq![] })
        } else {
            let last = prev.last();
            prev.update(
                prev.len() - 1,
                TermView {
                    op: last.op,
                    first: last.first,
                    factors: last.factors.push(Factor { op, operand }),
                },
            )
        }
    }
}

/// The outcome after the leading operand and the first `k` pairs: the first error
/// met from the left, or the terms so far.
pub open spec fn scan(toks: Seq<Seq<char>>, cls: Seq<NumberClass>, k: nat) -> Result<
    Seq<TermView>,
    CalcError,
>
    decreases k,
{
    if k == 0 {
        if cls[0] == NumberClass::Invalid {
            Err(CalcError::InvalidNumber)
        } else {
            Ok(group(toks, 0))
        }
    } else {
        match scan(toks, cls, (k - 1) as nat) {
            Err(e) => Err(e),
            Ok(_) => match step_error(toks, cls, 2 * k - 1) {
                Some(e) => Err(e),
                None => Ok(group(toks, k)),
            },
        }
    }
}

/// The outcome of a whole token sequence: one pair for each operator position.
pub open spec fn outcome(toks: Seq<Seq<char>>, cls: Seq<NumberClass>) -> Result<
    Seq<TermView>,
    CalcError,
> {
    scan(toks, cls, (toks.len() / 2) as nat)
}

impl CalcError {
    /// The text shown to a user for this error.
    pub fn message(&self) -> (r: &'static str)
        ensures
            r@ == error_text(*self),
    {
        match self {
            CalcError::InvalidNumber => "Invalid number",
            CalcError::IncompleteExpression => "Invalid expression",
            CalcError::InvalidOperator => "Invalid operation",
            CalcError::DivisionByZero => "Division by zero",
            CalcError::ModuloByZero => "Modulo by zero",
        }
    }
}

pub open spec fn error_text(e: CalcError) -> Seq<char> {
    match e {
        CalcError::InvalidNumber => "Invalid number"@,
        CalcError::IncompleteExpression => "Invalid expression"@,
        CalcError::InvalidOperator => "Invalid operation"@,
        CalcError::DivisionByZero => "Division by zero"@,
        CalcError::ModuloByZero => "Modulo by zero"@,
    }
}

/// Reads an operator token: one of `+ - * / %`, alone.
pub fn parse_operator(tok: &str) -> (r: Option<Operator>)
    ensures
        r == operator_of(tok@),
{
    if tok.unicode_len() != 1 {
        return None;
    }
    let c = tok.get_char(0);
    if c == '+' {
        Some(Operator::Add)
    } else if c == '-' {
        Some(Operator::Sub)
    } else if c == '*' {
        Some(Operator::Mul)
    } else if c == '/' {
        Some(Operator::Div)
    } else if c == '%' {
        Some(Operator::Rem)
    } else {
        None
    }
}


/// What `plan` returns on the given tokens and classes, up to the views of the terms.
pub open spec fn plan_meets(
    tokens: Seq<String>,
    classes: Seq<NumberClass>,
    r: Result<Vec<Term>, CalcError>,
) -> bool {
    match r {
        Ok(ts) => outcome(texts(tokens), classes) == Ok::<Seq<TermView>, CalcError>(
            term_views(ts@),
        ),
        Err(e) => outcome(texts(tokens), classes) == Err::<Seq<TermView>, CalcError>(e),
    }
}

/// Checks a token sequence and groups its operands under the two precedence tiers.
///
/// `classes[i]` says what `tokens[i]` is when read as a number. Tokens alternate
/// operand, operator, operand, ... and are read from the left: the first error met
/// is returned. On success the expression's value is the sum of the terms, each
/// the fold of its factors over its first operand, with `-` terms subtracted.
pub fn plan(tokens: &Vec<String>, classes: &Vec<NumberClass>) -> (r: Result<Vec<Term>, CalcError>)
    requires
        tokens.len() >= 1,
        classes.len() == tokens.len(),
    ensures
        plan_meets(tokens@, classes@, r),
{
    let ghost toks = texts(tokens@);
    let ghost cls = classes@;
    let n = tokens.len();
    if classes[0] == NumberClass::Invalid {
        proof {
            lemma_scan_err_persists(toks, cls, 0, (n / 2) as nat);
        }
        return Err(CalcError::InvalidNumber);
    }
    let mut terms: Vec<Term> = Vec::new();
    terms.push(Term { op: Operator::Add, first: 0, factors: Vec::new() });
    proof {
        assert(term_views(terms@) =~= group(toks, 0));
    }
    let mut i: usize = 1;
    while i < n
        invariant
            n == tokens.len(),
            classes.len() == n,
            toks == texts(tokens@),
            cls == classes@,
            i % 2 == 1,
            i <= n + 1,
            terms.len() >= 1,
            scan(toks, cls, (i / 2) as nat) == Ok::<Seq<TermView>, CalcError>(term_views(terms@)),
        decreases n - i,
    {
        let ghost k: nat = (i / 2 + 1) as nat;
        let ghost prev = terms@;
        if i + 1 >= n {
            proof {
                lemma_scan_err_persists(toks, cls, k, (n / 2) as nat);
            }
            return Err(CalcError::IncompleteExpression);
        }
        let c = classes[i + 1];
        if c == NumberClass::Invalid {
            proof {
                lemma_scan_err_persists(toks, cls, k, (n / 2) as nat);
            }
            return Err(CalcError::InvalidNumber);
        }
        let op = match parse_operator(tokens[i].as_str()) {
            None => {
                proof {
                    lemma_scan_err_persists(toks, cls, k, (n / 2) as nat);
                }
                return Err(CalcError::InvalidOperator);
            },
            Some(op) => op,
        };
        if op == Operator::Div && c == NumberClass::Zero {
            proof {
                lemma_scan_err_persists(toks, cls, k, (n / 2) as nat);
            }
            return Err(CalcError::DivisionByZero);
        }
        if op == Operator::Rem && c == NumberClass::Zero {
            proof {
                lemma_scan_err_persists(toks, cls, k, (n / 2) as nat);
            }
            return Err(CalcError::ModuloByZero);
        }
        if op == Operator::Add || op == Operator::Sub {
            terms.push(Term { op, first: i + 1, factors: Vec::new() });
            proof {
                assert(term_views(terms@) =~= term_views(prev).push(
                    TermView { op, first: (i + 1) as usize, factors: seq![] },
                ));
            }
        } else {
            let mut last = terms.pop().unwrap();
            last.factors.push(Factor { op, operand: i + 1 });
            terms.push(last);
            proof {
                let lv = term_views(prev).last();
                assert(term_views(terms@) =~= term_views(prev).update(
                    prev.len() - 1,
                    TermView {
                        op: lv.op,
                        first: lv.first,
                        factors: lv.factors.push(Factor { op, operand: (i + 1) as usize }),
                    },
                ));
            }
        }
        i = i + 2;
    }
    Ok(terms)
}

/// Once the scan has failed, it stays failed with the same error.
proof fn lemma_scan_err_persists(toks: Seq<Seq<char>>, cls: Seq<NumberClass>, k: nat, m: nat)
    requires
        k <= m,
        scan(toks, cls, k) is Err,
    ensures
        scan(toks, cls, m) == scan(toks, cls, k),
    decreases m - k,
{
    if k < m {
        lemma_scan_err_persists(toks, cls, k, (m - 1) as nat);
    }
}

/// A single operator between two numbers: division and modulo by zero fail with
/// their own errors; otherwise `+` and `-` give two terms (the sum or difference of
/// the operands) and `*`, `/`, `%` one term that applies the operator to them.
pub proof fn lemma_single_operator(toks: Seq<Seq<char>>, cls: Seq<NumberClass>, op: Operator)
    requires
        toks.len() == 3,
        cls.len() == 3,
        cls[0] != NumberClass::Invalid,
        cls[2] != NumberClass::Invalid,
        operator_of(toks[1]) == Some(op),
    ensures
        op == Operator::Div && cls[2] == NumberClass::Zero ==> outcome(toks, cls) == Err::<
            Seq<TermView>,
            CalcError,
        >(CalcError::DivisionByZero),
        op == Operator::Rem && cls[2] == NumberClass::Zero ==> outcome(toks, cls) == Err::<
            Seq<TermView>,
            CalcError,
        >(CalcError::ModuloByZero),
        !((op == Operator::Div || op == Operator::Rem) && cls[2] == NumberClass::Zero)
            ==> outcome(toks, cls) == Ok::<Seq<TermView>, CalcError>(
            if op.is_additive() {
                seq![
                    TermView { op: Operator::Add, first: 0, factors: seq![] },
                    TermView { op, first: 2, factors: seq![] },
                ]
            } else {
                seq![
                    TermView {
                        op: Operator::Add,
                        first: 0,
                        factors: seq![Factor { op, operand: 2 }],
                    },
                ]
            },
        ),
{
    reveal_with_fuel(scan, 2);
    reveal_with_fuel(group, 2);
    assert(toks.len() / 2 == 1);
    let g = group(toks, 1);
    if op.is_additive() {
        assert(g =~= seq![
            TermView { op: Operator::Add, first: 0, factors: seq![] },
            TermView { op, first: 2, factors: seq![] },
        ]);
    } else {
        assert(g =~= seq![
            TermView {
                op: Operator::Add,
                first: 0,
                factors: seq![Factor { op, operand: 2 }],
            },
        ]);
    }
}

/// Planning is a function of its input: two plans of the same tokens and classes
/// fail with the same error or succeed with the same terms.
pub proof fn lemma_plan_deterministic(
    tokens: Seq<String>,
    classes: Seq<NumberClass>,
    r1: Result<Vec<Term>, CalcError>,
    r2: Result<Vec<Term>, CalcError>,
)
    requires
        plan_meets(tokens, classes, r1),
        plan_meets(tokens, classes, r2),
    ensures
        r1 is Ok <==> r2 is Ok,
        r1 is Ok ==> term_views(r1->Ok_0@) == term_views(r2->Ok_0@),
        r1 is Err ==> r1->Err_0 == r2->Err_0,
{
}

} // verus!
