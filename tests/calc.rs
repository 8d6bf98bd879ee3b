use calc_todo::calc::{parse_operator, plan, CalcError, Factor, NumberClass, Operator, Term};

fn classify(tok: &str) -> NumberClass {
    match tok.parse::<f64>() {
        Err(_) => NumberClass::Invalid,
        Ok(x) if x == 0.0 => NumberClass::Zero,
        Ok(_) => NumberClass::NonZero,
    }
}

fn plan_of(toks: &[&str]) -> Result<Vec<Term>, CalcError> {
    let tokens: Vec<String> = toks.iter().map(|t| t.to_string()).collect();
    let classes: Vec<NumberClass> = toks.iter().map(|t| classify(t)).collect();
    plan(&tokens, &classes)
}

fn evaluate(toks: &[&str]) -> Result<f64, CalcError> {
    let terms = plan_of(toks)?;
    let num = |i: usize| toks[i].parse::<f64>().unwrap();
    let mut sum = 0.0;
    for term in &terms {
        let mut acc = num(term.first);
        for f in &term.factors {
            let x = num(f.operand);
            acc = match f.op {
                Operator::Mul => acc * x,
                Operator::Div => acc / x,
                Operator::Rem => acc.rem_euclid(x),
                _ => unreachable!(),
            };
        }
        sum = match term.op {
            Operator::Sub => sum - acc,
            _ => sum + acc,
        };
    }
    Ok(sum)
}

fn shape(terms: &[Term]) -> Vec<(Operator, usize, Vec<Factor>)> {
    terms.iter().map(|t| (t.op, t.first, t.factors.clone())).collect()
}

#[test]
fn addition_of_two_numbers() {
    assert_eq!(evaluate(&["8", "+", "3"]), Ok(11.0));
}

#[test]
fn division_binds_before_addition() {
    assert_eq!(evaluate(&["10", "/", "2", "+", "3"]), Ok(8.0));
    let terms = plan_of(&["10", "/", "2", "+", "3"]).unwrap();
    assert_eq!(
        shape(&terms),
        vec![
            (Operator::Add, 0, vec![Factor { op: Operator::Div, operand: 2 }]),
            (Operator::Add, 4, vec![]),
        ]
    );
}

#[test]
fn modulo_is_euclidean() {
    assert_eq!(evaluate(&["10", "%", "3"]), Ok(1.0));
    assert_eq!(evaluate(&["-7", "%", "3"]), Ok(2.0));
}

#[test]
fn division_by_zero() {
    assert_eq!(evaluate(&["5", "/", "0"]), Err(CalcError::DivisionByZero));
}

#[test]
fn modulo_by_zero() {
    assert_eq!(evaluate(&["5", "%", "0"]), Err(CalcError::ModuloByZero));
}

#[test]
fn invalid_number() {
    assert_eq!(evaluate(&["a", "+", "3"]), Err(CalcError::InvalidNumber));
    assert_eq!(evaluate(&["3", "+", "b"]), Err(CalcError::InvalidNumber));
}

#[test]
fn incomplete_expression() {
    assert_eq!(evaluate(&["5", "+"]), Err(CalcError::IncompleteExpression));
    assert_eq!(evaluate(&["5", "*", "2", "-"]), Err(CalcError::IncompleteExpression));
}

#[test]
fn invalid_operator() {
    assert_eq!(evaluate(&["5", "^", "3"]), Err(CalcError::InvalidOperator));
    assert_eq!(evaluate(&["5", "++", "3"]), Err(CalcError::InvalidOperator));
}

#[test]
fn first_error_from_the_left_wins() {
    assert_eq!(evaluate(&["5", "/", "0", "^", "x"]), Err(CalcError::DivisionByZero));
    assert_eq!(evaluate(&["5", "^", "0", "/", "0"]), Err(CalcError::InvalidOperator));
    assert_eq!(evaluate(&["x", "^"]), Err(CalcError::InvalidNumber));
}

#[test]
fn single_operator_results() {
    assert_eq!(evaluate(&["6", "+", "4"]), Ok(10.0));
    assert_eq!(evaluate(&["6", "-", "4"]), Ok(2.0));
    assert_eq!(evaluate(&["6", "*", "4"]), Ok(24.0));
    assert_eq!(evaluate(&["6", "/", "4"]), Ok(1.5));
    assert_eq!(evaluate(&["6", "%", "4"]), Ok(2.0));
    assert_eq!(evaluate(&["6", "%", "-4"]), Ok(2.0));
}

#[test]
fn single_operator_plans() {
    let add = plan_of(&["6", "-", "4"]).unwrap();
    assert_eq!(shape(&add), vec![(Operator::Add, 0, vec![]), (Operator::Sub, 2, vec![])]);
    let mul = plan_of(&["6", "*", "4"]).unwrap();
    assert_eq!(shape(&mul), vec![(Operator::Add, 0, vec![Factor { op: Operator::Mul, operand: 2 }])]);
}

#[test]
fn mixed_precedence_and_subtraction() {
    assert_eq!(evaluate(&["2", "+", "3", "*", "4", "-", "6", "/", "2"]), Ok(11.0));
    assert_eq!(evaluate(&["10", "-", "2", "-", "3"]), Ok(5.0));
    assert_eq!(evaluate(&["7"]), Ok(7.0));
}

#[test]
fn evaluating_twice_gives_the_same_result() {
    let toks = ["4", "*", "2", "-", "9", "%", "4"];
    assert_eq!(evaluate(&toks), evaluate(&toks));
    assert_eq!(evaluate(&toks), Ok(7.0));
}

#[test]
fn operator_tokens() {
    assert_eq!(parse_operator("+"), Some(Operator::Add));
    assert_eq!(parse_operator("-"), Some(Operator::Sub));
    assert_eq!(parse_operator("*"), Some(Operator::Mul));
    assert_eq!(parse_operator("/"), Some(Operator::Div));
    assert_eq!(parse_operator("%"), Some(Operator::Rem));
    assert_eq!(parse_operator("x"), None);
    assert_eq!(parse_operator(""), None);
    assert_eq!(parse_operator("+ "), None);
}

#[test]
fn error_messages() {
    assert_eq!(CalcError::InvalidNumber.message(), "Invalid number");
    assert_eq!(CalcError::IncompleteExpression.message(), "Invalid expression");
    assert_eq!(CalcError::InvalidOperator.message(), "Invalid operation");
    assert_eq!(CalcError::DivisionByZero.message(), "Division by zero");
    assert_eq!(CalcError::ModuloByZero.message(), "Modulo by zero");
}
