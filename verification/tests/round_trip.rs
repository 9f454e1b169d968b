use infix_calc::{expr, BinOp, Expr, Number, Op};

fn num(n: i64) -> Expr {
    Expr::Number(Number(n))
}

fn bin(l: Expr, op: Op, r: Expr) -> Expr {
    Expr::BinOp(BinOp { l: Box::new(l), op, r: Box::new(r) })
}

fn sign(op: Op) -> char {
    match op {
        Op::Add => '+',
        Op::Sub => '-',
        Op::Mul => '*',
        Op::Div => '/',
    }
}

fn written(e: &Expr, before: &str, behind: &str) -> String {
    match e {
        Expr::Number(Number(n)) => n.to_string(),
        Expr::BinOp(b) => format!(
            "{}{}{}{}{}",
            written(&b.l, before, behind),
            before,
            sign(b.op),
            behind,
            written(&b.r, before, behind)
        ),
    }
}

fn is_product_tree(e: &Expr) -> bool {
    match e {
        Expr::Number(_) => true,
        Expr::BinOp(b) => {
            matches!(b.op, Op::Mul | Op::Div)
                && matches!(*b.r, Expr::Number(_))
                && is_product_tree(&b.l)
        }
    }
}

fn is_sum_tree(e: &Expr) -> bool {
    match e {
        Expr::Number(_) => true,
        Expr::BinOp(b) => {
            is_product_tree(e)
                || (matches!(b.op, Op::Add | Op::Sub) && is_product_tree(&b.r) && is_sum_tree(&b.l))
        }
    }
}

fn samples() -> Vec<Expr> {
    let product = bin(bin(num(2), Op::Mul, num(-3)), Op::Div, num(4));
    vec![
        num(0),
        num(-1),
        num(i64::MAX),
        num(i64::MIN),
        bin(num(1), Op::Add, num(2)),
        bin(num(1), Op::Sub, num(-2)),
        bin(num(-1), Op::Mul, num(-2)),
        product.clone(),
        bin(bin(num(1), Op::Add, num(2)), Op::Add, num(3)),
        bin(num(1), Op::Add, bin(num(2), Op::Mul, num(3))),
        bin(bin(num(1), Op::Mul, num(2)), Op::Add, num(3)),
        bin(bin(product.clone(), Op::Sub, product.clone()), Op::Add, product),
    ]
}

#[test]
fn a_written_tree_is_read_back() {
    for tree in samples() {
        assert!(is_sum_tree(&tree));
        for (before, behind) in [("", ""), (" ", " "), ("   ", "    "), ("\t", "\r\n"), ("", " ")] {
            let text = written(&tree, before, behind);
            assert_eq!(expr(&text), Ok(("", tree.clone())), "{:?}", text);
        }
    }
}

#[test]
fn the_text_behind_a_written_tree_is_left() {
    for tree in samples() {
        for tail in [" ", "\n", " x", ")", " )", " 7", "a"] {
            let text = format!("{}{}", written(&tree, " ", " "), tail);
            assert_eq!(expr(&text), Ok((tail, tree.clone())), "{:?}", text);
        }
    }
}

#[test]
fn what_is_read_has_the_shape_of_the_grammar() {
    for text in [
        "1",
        "1 + 2 + 3",
        "1 * 2 * 3",
        "1 + 2 * 3 - 4 / 5",
        "1 * 2 - 3 * 4 + 5",
        "-1 - -2 * -3",
        "9 / 3 / 3 + 1 - 1 - 1",
    ] {
        let (rest, tree) = expr(text).unwrap();
        assert_eq!(rest, "");
        assert!(is_sum_tree(&tree), "{:?}", text);
        assert_eq!(written(&tree, " ", " "), text);
    }
}

#[test]
fn what_is_left_is_the_end_of_the_input() {
    for text in ["1 + 2 rest", "1 +", "7 * 8 * ", "12", "1 + 2 * x", "  5 five"] {
        match expr(text) {
            Ok((rest, _)) => {
                assert!(text.ends_with(rest));
                assert!(rest.len() < text.len());
            }
            Err(failure) => assert!(text.ends_with(failure.remaining)),
        }
    }
}
