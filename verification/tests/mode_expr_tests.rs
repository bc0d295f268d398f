//! The symbolic-mode engine on concrete expressions: octal literals,
//! additions, removals, assignments, copy-from-class tokens, the
//! conditional execute token, and every rejection.

use blutils::mode_expr::apply;
use blutils::mode_expr::apply_mode_expression;
use blutils::mode_expr::parse;
use blutils::mode_expr::ModeExpression;
use blutils::mode_expr::ModeParseError;

#[test]
fn octal_literal_ignores_current_bits() {
    assert_eq!(apply_mode_expression(0o000, "644"), Ok(0o644));
    assert_eq!(apply_mode_expression(0o777, "644"), Ok(0o644));
    assert_eq!(apply_mode_expression(0o123, "7"), Ok(0o7));
    assert_eq!(apply_mode_expression(0o123, "7777"), Ok(0o7777));
    assert_eq!(apply_mode_expression(0o123, "0"), Ok(0o0));
    assert_eq!(apply_mode_expression(0o123, "0644"), Ok(0o644));
}

#[test]
fn octal_literal_is_masked_to_twelve_bits() {
    assert_eq!(apply_mode_expression(0, "17777"), Ok(0o7777));
    assert_eq!(apply_mode_expression(0, "10000"), Ok(0o0));
}

#[test]
fn add_sets_the_named_bits() {
    assert_eq!(apply_mode_expression(0o000, "u+rwx"), Ok(0o700));
    assert_eq!(apply_mode_expression(0o600, "g+r"), Ok(0o640));
    assert_eq!(apply_mode_expression(0o644, "a+w"), Ok(0o666));
    assert_eq!(apply_mode_expression(0o644, "ug+x"), Ok(0o754));
}

#[test]
fn remove_clears_the_named_bits() {
    assert_eq!(apply_mode_expression(0o777, "o-x"), Ok(0o776));
    assert_eq!(apply_mode_expression(0o666, "go-w"), Ok(0o644));
    assert_eq!(apply_mode_expression(0o644, "u-r"), Ok(0o244));
}

#[test]
fn assign_rewrites_only_the_named_classes() {
    assert_eq!(apply_mode_expression(0o644, "a=r"), Ok(0o444));
    assert_eq!(apply_mode_expression(0o777, "u=r"), Ok(0o477));
    assert_eq!(apply_mode_expression(0o000, "go=rx"), Ok(0o055));
    assert_eq!(apply_mode_expression(0o777, "=rw"), Ok(0o666));
}

#[test]
fn copy_reference_reads_the_named_class() {
    assert_eq!(apply_mode_expression(0o750, "g=u"), Ok(0o770));
    assert_eq!(apply_mode_expression(0o750, "o=g"), Ok(0o755));
    assert_eq!(apply_mode_expression(0o705, "u=o"), Ok(0o505));
    assert_eq!(apply_mode_expression(0o750, "g+u"), Ok(0o770));
}

#[test]
fn conditional_execute_needs_an_execute_bit() {
    // No execute bit anywhere: `X` contributes nothing.
    assert_eq!(apply_mode_expression(0o644, "+X"), Ok(0o644));
    assert_eq!(apply_mode_expression(0o644, "a+X"), Ok(0o644));
    // Owner execute set: `X` grants execute to every targeted class.
    assert_eq!(apply_mode_expression(0o744, "a+X"), Ok(0o755));
    assert_eq!(apply_mode_expression(0o744, "g+X"), Ok(0o754));
}

#[test]
fn special_bits() {
    assert_eq!(apply_mode_expression(0o000, "u+s"), Ok(0o4000));
    assert_eq!(apply_mode_expression(0o000, "g+s"), Ok(0o2000));
    assert_eq!(apply_mode_expression(0o000, "o+s"), Ok(0o0));
    assert_eq!(apply_mode_expression(0o000, "a+s"), Ok(0o6000));
    assert_eq!(apply_mode_expression(0o000, "+t"), Ok(0o1000));
    assert_eq!(apply_mode_expression(0o7777, "u-s"), Ok(0o3777));
}

#[test]
fn assign_is_idempotent_on_samples() {
    for (current, expr) in [
        (0o777u32, "u=rw"),
        (0o640u32, "a=r"),
        (0o750u32, "g=u"),
        (0o644u32, "a=X"),
        (0o744u32, "u=X"),
        (0o123u32, "644"),
    ] {
        let once = apply_mode_expression(current, expr).unwrap();
        let twice = apply_mode_expression(once, expr).unwrap();
        assert_eq!(twice, once);
    }
}

#[test]
fn add_with_copy_reference_re_reads_each_time() {
    // The copy token is resolved against the bits of the moment: after the
    // first pass the owner triple is unchanged, so a second pass lands on
    // the same result here.
    let once = apply_mode_expression(0o750, "g+u").unwrap();
    assert_eq!(once, 0o770);
    let twice = apply_mode_expression(once, "g+u").unwrap();
    assert_eq!(twice, 0o770);
    // Removing what the owner has, from the owner, empties the triple on
    // the first pass; the second pass then has nothing left to remove.
    let once = apply_mode_expression(0o750, "u-u").unwrap();
    assert_eq!(once, 0o050);
    let twice = apply_mode_expression(once, "u-u").unwrap();
    assert_eq!(twice, 0o050);
}

#[test]
fn file_type_bits_are_ignored_and_dropped() {
    assert_eq!(apply_mode_expression(0o100644, "g+w"), Ok(0o664));
    assert_eq!(apply_mode_expression(0o40755, "o-x"), Ok(0o754));
}

#[test]
fn rejects_without_exactly_one_operator() {
    assert_eq!(apply_mode_expression(0, ""), Err(ModeParseError::InvalidOperator));
    assert_eq!(apply_mode_expression(0, "rwx"), Err(ModeParseError::InvalidOperator));
    assert_eq!(apply_mode_expression(0, "u+r+w"), Err(ModeParseError::InvalidOperator));
    assert_eq!(apply_mode_expression(0, "u+r-w"), Err(ModeParseError::InvalidOperator));
    assert_eq!(apply_mode_expression(0, "9"), Err(ModeParseError::InvalidOperator));
}

#[test]
fn rejects_a_bad_class_letter() {
    assert_eq!(apply_mode_expression(0, "z+r"), Err(ModeParseError::InvalidClass));
    assert_eq!(apply_mode_expression(0, "uz+r"), Err(ModeParseError::InvalidClass));
}

#[test]
fn rejects_a_bad_permission_letter() {
    assert_eq!(apply_mode_expression(0, "u+q"), Err(ModeParseError::InvalidPermission));
    assert_eq!(apply_mode_expression(0, "u+rq"), Err(ModeParseError::InvalidPermission));
}

#[test]
fn rejects_a_second_copy_letter() {
    assert_eq!(apply_mode_expression(0, "a+ug"), Err(ModeParseError::InvalidPermission));
    assert_eq!(apply_mode_expression(0, "a+uu"), Err(ModeParseError::InvalidPermission));
}

#[test]
fn parse_yields_octal_expressions() {
    match parse("644") {
        Ok(ModeExpression::Octal(v)) => assert_eq!(v, 0o644),
        other => panic!("unexpected parse result: {:?}", other),
    }
    match parse("u+rwx") {
        Ok(ModeExpression::Symbolic(_)) => {}
        other => panic!("unexpected parse result: {:?}", other),
    }
}

#[test]
fn apply_works_on_parsed_expressions() {
    let e = parse("go-w").unwrap();
    assert_eq!(apply(0o666, &e), 0o644);
    // The same expression re-evaluated against other bits.
    assert_eq!(apply(0o222, &e), 0o200);
}
