use tagged_eval::err::Error;
use tagged_eval::{clone_expr, Expr, Object, Payload, Thread};

fn number_expr(n: f64) -> Expr {
    Expr::Number(n.to_bits())
}

fn payload_bits(obj: &Object) -> u64 {
    match obj.payload {
        Payload::Immediate { word } => word,
        Payload::Owned { .. } => panic!("expected an immediate payload"),
    }
}

#[test]
fn eval_a_number() {
    let expr = number_expr(123.456);
    let mut thread = Thread::default();

    let obj = thread.eval(expr).unwrap();

    assert_eq!(f64::from_bits(payload_bits(&obj)), 123.456);
    assert_eq!(obj, Object::number(123.456f64.to_bits()));
}

#[test]
fn number_roundtrip() {
    for n in [0.0f64, -0.5, 3.25, 0.1, -123.456, 1e300, -1e-300] {
        let mut thread = Thread::default();
        let obj = thread.eval(number_expr(n)).unwrap();
        assert_eq!(f64::from_bits(payload_bits(&obj)), n);
    }
}

#[test]
fn eval_a_boolean() {
    let mut thread = Thread::default();
    let obj = thread.eval(Expr::Boolean(true)).unwrap();
    assert_eq!(obj, Object::boolean(true));
    let obj = thread.eval(Expr::Boolean(false)).unwrap();
    assert_eq!(obj, Object::boolean(false));
}

#[test]
fn simple_conditional() {
    let expr = Expr::If {
        predicate: Box::new(Expr::Boolean(true)),
        then_clause: Box::new(number_expr(420.69)),
        else_clause: Box::new(Expr::Hcf),
    };

    let mut thread = Thread::default();

    let obj = thread.eval(expr).unwrap();

    assert_eq!(obj, Object::number(420.69f64.to_bits()));
}

#[test]
fn conditional_false_selects_else() {
    let expr = Expr::If {
        predicate: Box::new(Expr::Boolean(false)),
        then_clause: Box::new(Expr::Hcf),
        else_clause: Box::new(number_expr(420.69)),
    };

    let mut thread = Thread::default();

    let obj = thread.eval(expr).unwrap();

    assert_eq!(obj, Object::number(420.69f64.to_bits()));
}

#[test]
fn conditional_on_a_non_boolean_is_absent() {
    let expr = Expr::If {
        predicate: Box::new(number_expr(1.0)),
        then_clause: Box::new(number_expr(2.0)),
        else_clause: Box::new(number_expr(3.0)),
    };

    let mut thread = Thread::default();

    assert!(matches!(thread.eval(expr), Err(Error::Absent)));
}

#[test]
fn halt_and_catch_fire() {
    let expr = Expr::Hcf;
    let mut thread = Thread::default();

    let res = thread.eval(expr);

    assert!(res.is_err());
    assert!(matches!(thread.eval(Expr::Hcf), Err(Error::Hcf)));
}

#[test]
fn hcf_in_taken_branch_fires() {
    let expr = Expr::If {
        predicate: Box::new(Expr::Boolean(true)),
        then_clause: Box::new(Expr::Hcf),
        else_clause: Box::new(number_expr(420.69)),
    };

    let mut thread = Thread::default();

    assert!(matches!(thread.eval(expr), Err(Error::Hcf)));
}

#[test]
fn do_a_binding() {
    let symbol = "foo";

    let expr = Expr::Symbol(symbol.to_string());

    let mut thread = Thread {
        bindings: vec![(symbol.to_string(), Object::number(123.456f64.to_bits()))],
    };

    let obj = thread.eval(expr).unwrap();

    assert_eq!(obj, Object::number(123.456f64.to_bits()));
}

#[test]
fn do_a_let_binding() {
    let symbol = "foo";
    let mut thread = Thread::default();

    let unbound_expr = Expr::Symbol(symbol.to_string());
    let res = thread.eval(unbound_expr.clone());
    assert!(res.is_err());

    let let_expr = Expr::Let {
        binding: symbol.to_string(),
        initial_value: Box::new(number_expr(123.456)),
        body: Box::new(unbound_expr),
    };
    let obj = thread.eval(let_expr).unwrap();
    assert_eq!(obj, Object::number(123.456f64.to_bits()));
}

#[test]
fn unbound_symbol_reports_its_name() {
    let mut thread = Thread::default();

    let res = thread.eval(Expr::Symbol("foo".to_string()));
    assert!(matches!(res, Err(Error::UnboundSymbol(name)) if name == "foo"));

    let let_expr = Expr::Let {
        binding: "foo".to_string(),
        initial_value: Box::new(number_expr(123.456)),
        body: Box::new(Expr::Symbol("foo".to_string())),
    };
    let obj = thread.eval(let_expr).unwrap();
    assert_eq!(obj, Object::number(123.456f64.to_bits()));

    let res = thread.eval(Expr::Symbol("foo".to_string()));
    assert!(matches!(res, Err(Error::UnboundSymbol(name)) if name == "foo"));
}

#[test]
fn shadowing_resolves_to_the_inner_binding() {
    let expr = Expr::Let {
        binding: "foo".to_string(),
        initial_value: Box::new(number_expr(1.0)),
        body: Box::new(Expr::Let {
            binding: "foo".to_string(),
            initial_value: Box::new(number_expr(2.0)),
            body: Box::new(Expr::Symbol("foo".to_string())),
        }),
    };

    let mut thread = Thread::default();

    let obj = thread.eval(expr).unwrap();
    assert_eq!(obj, Object::number(2.0f64.to_bits()));
}

#[test]
fn failed_binding_body_skips_the_pop() {
    // The current design: when the body of a lexical binding fails, the
    // binding's entry is not popped and stays visible afterwards.
    let expr = Expr::Let {
        binding: "foo".to_string(),
        initial_value: Box::new(number_expr(7.0)),
        body: Box::new(Expr::Hcf),
    };

    let mut thread = Thread::default();

    assert!(matches!(thread.eval(expr), Err(Error::Hcf)));
    let obj = thread.eval(Expr::Symbol("foo".to_string())).unwrap();
    assert_eq!(obj, Object::number(7.0f64.to_bits()));
}

#[test]
fn cloning_an_expression_copies_it_exactly() {
    let expr = Expr::If {
        predicate: Box::new(Expr::Boolean(true)),
        then_clause: Box::new(Expr::Let {
            binding: "x".to_string(),
            initial_value: Box::new(number_expr(1.5)),
            body: Box::new(Expr::Symbol("x".to_string())),
        }),
        else_clause: Box::new(Expr::Hcf),
    };
    let copy = clone_expr(&expr);

    let mut thread = Thread::default();
    let a = thread.eval(expr).unwrap();
    let b = thread.eval(copy).unwrap();
    assert_eq!(a, b);
    assert_eq!(a, Object::number(1.5f64.to_bits()));
}
