use infix_calc::{atom_number, binop1, binop2, expr, expr1, expr2, expr3, number};
use infix_calc::{BinOp, ChainFailure, Expr, Number, Op, ParseFailure};

fn num(n: i64) -> Expr {
    Expr::Number(Number(n))
}

fn bin(l: Expr, op: Op, r: Expr) -> Expr {
    Expr::BinOp(BinOp { l: Box::new(l), op, r: Box::new(r) })
}

#[test]
fn test_expr_number_pos1() {
    assert_eq!(expr("1 "), Ok((" ", Expr::Number(Number(1)))))
}

#[test]
fn test_expr_number_neg1() {
    assert_eq!(expr("-1 "), Ok((" ", Expr::Number(Number(-1)))))
}

#[test]
fn test_expr_number_negn() {
    assert_eq!(expr("-10 "), Ok((" ", Expr::Number(Number(-10)))))
}

#[test]
fn test_expr_add() {
    assert_eq!(
        expr("1 + 2 "),
        Ok((
            " ",
            Expr::BinOp(BinOp {
                l: Box::new(Expr::Number(Number(1))),
                op: Op::Add,
                r: Box::new(Expr::Number(Number(2))),
            })
        ))
    )
}

#[test]
fn test_expr_add3() {
    assert_eq!(
        expr("1 + 2 + 3 "),
        Ok((
            " ",
            Expr::BinOp(BinOp {
                l: Box::new(Expr::BinOp(BinOp {
                    l: Box::new(Expr::Number(Number(1))),
                    op: Op::Add,
                    r: Box::new(Expr::Number(Number(2))),
                })),
                op: Op::Add,
                r: Box::new(Expr::Number(Number(3)))
            })
        ))
    )
}

#[test]
fn test_expr_add_mul() {
    assert_eq!(
        expr("1 + 2 * 3 "),
        Ok((
            " ",
            Expr::BinOp(BinOp {
                l: Box::new(Expr::Number(Number(1))),
                op: Op::Add,
                r: Box::new(Expr::BinOp(BinOp {
                    l: Box::new(Expr::Number(Number(2))),
                    op: Op::Mul,
                    r: Box::new(Expr::Number(Number(3))),
                }))
            })
        ))
    )
}

#[test]
fn test_expr_mul_add() {
    assert_eq!(
        expr("1 * 2 + 3 "),
        Ok((
            " ",
            Expr::BinOp(BinOp {
                l: Box::new(Expr::BinOp(BinOp {
                    l: Box::new(Expr::Number(Number(1))),
                    op: Op::Mul,
                    r: Box::new(Expr::Number(Number(2))),
                })),
                op: Op::Add,
                r: Box::new(Expr::Number(Number(3)))
            })
        ))
    )
}

#[test]
fn test_atom_number_pos1() {
    assert_eq!(atom_number("1 "), Ok((" ", 1)))
}

#[test]
fn test_atom_number_neg1() {
    assert_eq!(atom_number("-1 "), Ok((" ", -1)))
}

#[test]
fn test_atom_number_negn() {
    assert_eq!(atom_number("-10 "), Ok((" ", -10)))
}

#[test]
fn whole_text_is_read_without_a_trailing_blank() {
    assert_eq!(expr("1"), Ok(("", num(1))));
    assert_eq!(expr("1+2"), Ok(("", bin(num(1), Op::Add, num(2)))));
    assert_eq!(expr("-10"), Ok(("", num(-10))));
}

#[test]
fn subtraction_and_division_lean_left() {
    assert_eq!(
        expr("10 - 4 - 3"),
        Ok(("", bin(bin(num(10), Op::Sub, num(4)), Op::Sub, num(3))))
    );
    assert_eq!(
        expr("100 / 5 / 2"),
        Ok(("", bin(bin(num(100), Op::Div, num(5)), Op::Div, num(2))))
    );
    assert_eq!(
        expr("1 - 2 + 3 - 4"),
        Ok((
            "",
            bin(bin(bin(num(1), Op::Sub, num(2)), Op::Add, num(3)), Op::Sub, num(4))
        ))
    );
}

#[test]
fn products_bind_tighter_on_both_sides() {
    assert_eq!(
        expr("1 * 2 + 3 * 4"),
        Ok((
            "",
            bin(bin(num(1), Op::Mul, num(2)), Op::Add, bin(num(3), Op::Mul, num(4)))
        ))
    );
    assert_eq!(
        expr("1 + 2 * 3 / 4 - 5"),
        Ok((
            "",
            bin(
                bin(num(1), Op::Add, bin(bin(num(2), Op::Mul, num(3)), Op::Div, num(4))),
                Op::Sub,
                num(5)
            )
        ))
    );
}

#[test]
fn blanks_are_optional_around_operators() {
    let tight = expr("1+2");
    let loose = expr("1   +    2");
    let mixed = expr("1\t+\r\n2");
    assert_eq!(tight, Ok(("", bin(num(1), Op::Add, num(2)))));
    assert_eq!(loose, tight);
    assert_eq!(mixed, tight);
}

#[test]
fn blanks_behind_the_last_operand_are_handed_back() {
    assert_eq!(expr("1 + 2 \n"), Ok((" \n", bin(num(1), Op::Add, num(2)))));
    assert_eq!(expr("7\t\t"), Ok(("\t\t", num(7))));
    assert_eq!(expr("7 x"), Ok((" x", num(7))));
    assert_eq!(expr("7 8"), Ok((" 8", num(7))));
    assert_eq!(expr("2 * 3 )"), Ok((" )", bin(num(2), Op::Mul, num(3)))));
}

#[test]
fn a_minus_sign_is_an_operator_after_an_operand() {
    assert_eq!(expr("1 -2"), Ok(("", bin(num(1), Op::Sub, num(2)))));
    assert_eq!(expr("1 - -2"), Ok(("", bin(num(1), Op::Sub, num(-2)))));
    assert_eq!(expr("1--2"), Ok(("", bin(num(1), Op::Sub, num(-2)))));
    assert_eq!(expr("3 * -2"), Ok(("", bin(num(3), Op::Mul, num(-2)))));
}

#[test]
fn blanks_may_stand_between_sign_and_digits() {
    assert_eq!(atom_number("- 5"), Ok(("", -5)));
    assert_eq!(atom_number("-\t 12 "), Ok((" ", -12)));
    assert_eq!(atom_number("  5"), Ok(("", 5)));
    assert_eq!(expr("1 - - 2"), Ok(("", bin(num(1), Op::Sub, num(-2)))));
}

#[test]
fn leading_zeros_do_not_change_the_value() {
    assert_eq!(atom_number("007"), Ok(("", 7)));
    assert_eq!(atom_number("-000"), Ok(("", 0)));
    assert_eq!(atom_number("0"), Ok(("", 0)));
}

#[test]
fn the_range_of_an_i64_is_read_to_its_ends() {
    assert_eq!(atom_number("9223372036854775807"), Ok(("", i64::MAX)));
    assert_eq!(atom_number("-9223372036854775808"), Ok(("", i64::MIN)));
    assert_eq!(atom_number("-9223372036854775807"), Ok(("", -i64::MAX)));
    assert_eq!(atom_number("0000000000000000000009223372036854775807"), Ok(("", i64::MAX)));
}

#[test]
fn a_number_outside_the_range_is_a_failure() {
    let over = "9223372036854775808";
    assert_eq!(atom_number(over), Err(ParseFailure { remaining: over }));
    let under = "-9223372036854775809";
    assert_eq!(atom_number(under), Err(ParseFailure { remaining: under }));
    let huge = "123456789012345678901234567890 + 1";
    assert_eq!(expr(huge), Err(ParseFailure { remaining: huge }));
    let wide = "18446744073709551616";
    assert_eq!(atom_number(wide), Err(ParseFailure { remaining: wide }));
    assert_eq!(
        expr("1 + 99999999999999999999"),
        Err(ParseFailure { remaining: "99999999999999999999" })
    );
}

#[test]
fn malformed_texts_fail() {
    assert_eq!(expr("+"), Err(ParseFailure { remaining: "+" }));
    assert_eq!(expr(""), Err(ParseFailure { remaining: "" }));
    assert_eq!(expr("1 +"), Err(ParseFailure { remaining: "" }));
    assert_eq!(expr("abc"), Err(ParseFailure { remaining: "abc" }));
    assert_eq!(expr("-"), Err(ParseFailure { remaining: "-" }));
    assert_eq!(expr(" -1"), Err(ParseFailure { remaining: " -1" }));
    assert_eq!(expr("*2"), Err(ParseFailure { remaining: "*2" }));
    assert_eq!(expr("+5"), Err(ParseFailure { remaining: "+5" }));
    assert_eq!(expr("1 + +5"), Err(ParseFailure { remaining: "+5" }));
    assert_eq!(expr("(1)"), Err(ParseFailure { remaining: "(1)" }));
    assert_eq!(expr("1.5"), Ok((".5", num(1))));
    assert_eq!(expr("1e3"), Ok(("e3", num(1))));
    assert_eq!(expr("1_000"), Ok(("_000", num(1))));
}

#[test]
fn a_dangling_operator_fails_where_the_operand_is_missing() {
    assert_eq!(expr("1 + "), Err(ParseFailure { remaining: "" }));
    assert_eq!(expr("1 + x"), Err(ParseFailure { remaining: "x" }));
    assert_eq!(expr("1 * 2 +   y z"), Err(ParseFailure { remaining: "y z" }));
    assert_eq!(expr("1 + 2 *"), Err(ParseFailure { remaining: "" }));
    assert_eq!(expr("1 + 2 * 3 /  ?"), Err(ParseFailure { remaining: "?" }));
    assert_eq!(expr("1 + +"), Err(ParseFailure { remaining: "+" }));
}

#[test]
fn text_outside_ascii_is_handed_back_whole() {
    assert_eq!(expr("1 + 2é"), Ok(("é", bin(num(1), Op::Add, num(2)))));
    assert_eq!(expr("3 × 4"), Ok((" × 4", num(3))));
    assert_eq!(expr("1 + ß"), Err(ParseFailure { remaining: "ß" }));
    assert_eq!(expr("٣"), Err(ParseFailure { remaining: "٣" }));
    assert_eq!(expr("1\u{a0}+ 2"), Ok(("\u{a0}+ 2", num(1))));
}

#[test]
fn number_and_atom_wrap_the_value() {
    assert_eq!(number("42 rest"), Ok((" rest", Number(42))));
    assert_eq!(expr3("-42"), Ok(("", num(-42))));
    assert_eq!(number("x"), Err(ParseFailure { remaining: "x" }));
    assert_eq!(expr3(""), Err(ParseFailure { remaining: "" }));
}

#[test]
fn a_chain_needs_an_operator_of_its_level() {
    assert_eq!(binop2("1"), Err(ChainFailure::NoOperator));
    assert_eq!(binop2("1 "), Err(ChainFailure::NoOperator));
    assert_eq!(binop2("1 + 2 "), Err(ChainFailure::NoOperator));
    assert_eq!(binop2("1 + 2 * 3"), Err(ChainFailure::NoOperator));
    assert!(binop2("1 + 2 ").is_err());
    assert_eq!(binop1("1"), Err(ChainFailure::NoOperator));
    assert_eq!(binop1("1 * 2"), Err(ChainFailure::NoOperator));
    assert_eq!(binop1("1 * 2 x"), Err(ChainFailure::NoOperator));
}

#[test]
fn a_chain_is_read_as_a_node() {
    assert_eq!(
        binop2("2 * 3 + 4"),
        Ok((" + 4", BinOp { l: Box::new(num(2)), op: Op::Mul, r: Box::new(num(3)) }))
    );
    assert_eq!(
        binop2("8/4/2 "),
        Ok((
            " ",
            BinOp {
                l: Box::new(bin(num(8), Op::Div, num(4))),
                op: Op::Div,
                r: Box::new(num(2))
            }
        ))
    );
    assert_eq!(
        binop1("1 - 2 * 3 "),
        Ok((
            " ",
            BinOp {
                l: Box::new(num(1)),
                op: Op::Sub,
                r: Box::new(bin(num(2), Op::Mul, num(3)))
            }
        ))
    );
}

#[test]
fn a_chain_fails_where_a_number_is_missing() {
    let missing = |at| Err(ChainFailure::Missing(ParseFailure { remaining: at }));
    assert_eq!(binop2("2 /"), missing(""));
    assert_eq!(binop2("2 * 3 * x"), missing("x"));
    assert_eq!(binop2("/"), missing("/"));
    assert_eq!(binop2(""), missing(""));
    assert_eq!(binop1("1 - "), missing(""));
    assert_eq!(binop1("1 + 2 - ?"), missing("?"));
    assert_eq!(binop1("1 + 2 *"), missing(""));
    assert_eq!(binop1("1 * + 2"), missing("+ 2"));
    assert_eq!(binop1("+"), missing("+"));
}

#[test]
fn a_level_falls_back_on_its_operand_and_hands_on_a_missing_number() {
    assert_eq!(binop2("7 + 1"), Err(ChainFailure::NoOperator));
    assert_eq!(expr2("7 + 1"), Ok((" + 1", num(7))));
    assert_eq!(binop1("7 * 2 "), Err(ChainFailure::NoOperator));
    assert_eq!(expr1("7 * 2 "), Ok((" ", bin(num(7), Op::Mul, num(2)))));
    assert_eq!(expr2("7 *"), Err(ParseFailure { remaining: "" }));
    assert_eq!(expr1("7 -"), Err(ParseFailure { remaining: "" }));
}

#[test]
fn each_level_reads_its_own_operators_only() {
    assert_eq!(expr2("1 * 2 + 3"), Ok((" + 3", bin(num(1), Op::Mul, num(2)))));
    assert_eq!(expr2("1 + 2"), Ok((" + 2", num(1))));
    assert_eq!(expr1("1 + 2"), Ok(("", bin(num(1), Op::Add, num(2)))));
    assert_eq!(expr1("8 / 4"), Ok(("", bin(num(8), Op::Div, num(4)))));
}

#[test]
fn reading_twice_gives_equal_trees() {
    let text = "12 - 3 * -4 / 5 + 6 ";
    let first = expr(text);
    let second = expr(text);
    assert!(first.is_ok());
    assert_eq!(first, second);
    let copy = String::from(text);
    assert_eq!(expr(copy.as_str()), first);
}

#[test]
fn a_long_chain_is_read() {
    let mut text = String::from("1");
    let mut want = num(1);
    for i in 2..=2000i64 {
        text.push_str(" + ");
        text.push_str(&i.to_string());
        want = bin(want, Op::Add, num(i));
    }
    let (rest, tree) = expr(&text).unwrap();
    assert_eq!(rest, "");
    assert!(tree == want);
}
