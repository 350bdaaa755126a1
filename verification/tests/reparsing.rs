use minicomp::{parse, GrammarItem, ParseNode};

fn written(node: &ParseNode) -> String {
    match node.entry {
        GrammarItem::Number(n) => format!("{} ", n),
        GrammarItem::Arg(c) => format!("{} ", c),
        GrammarItem::Paren => format!("( {}) ", written(&node.children[0])),
        GrammarItem::Sum => {
            format!("{}+ {}", written(&node.children[0]), written(&node.children[1]))
        }
        GrammarItem::Product => {
            format!("{}* {}", written(&node.children[0]), written(&node.children[1]))
        }
        GrammarItem::Div => {
            format!("{}/ {}", written(&node.children[0]), written(&node.children[1]))
        }
    }
}

fn worth(node: &ParseNode) -> Option<u128> {
    match node.entry {
        GrammarItem::Number(n) => Some(n as u128),
        GrammarItem::Arg(_) => None,
        GrammarItem::Paren => worth(&node.children[0]),
        GrammarItem::Sum => Some(worth(&node.children[0])? + worth(&node.children[1])?),
        GrammarItem::Product => Some(worth(&node.children[0])? * worth(&node.children[1])?),
        GrammarItem::Div => {
            let divisor = worth(&node.children[1])?;
            if divisor == 0 {
                None
            } else {
                Some(worth(&node.children[0])? / divisor)
            }
        }
    }
}

#[test]
fn printed_expression_parses_to_itself() {
    for text in [
        "1",
        "1+2*3",
        "(1+2)*3",
        "8/2+2",
        "100/5/2",
        "3*5/2",
        "((7))",
        "2*2*3+30*4+4",
        "18446744073709551615",
        "12 + 0007",
        "(x+y)/2",
        "a*b+c*d",
    ] {
        let tree = parse(&String::from(text)).unwrap();
        let again = parse(&written(&tree)).unwrap();
        assert_eq!(again, tree);
        assert_eq!(worth(&again), worth(&tree));
    }
}

#[test]
fn literal_expressions_have_their_values() {
    let cases: [(&str, u128); 9] = [
        ("1", 1),
        ("1+2*3", 7),
        ("(1+2)*3", 9),
        ("2*3+4", 10),
        ("8/2+2", 2),
        ("(8/2)+2", 6),
        ("100/5/2", 50),
        ("3*5/2", 6),
        ("2*2*1+30*2+4", 68),
    ];
    for (text, expected) in cases {
        let tree = parse(&String::from(text)).unwrap();
        assert_eq!(worth(&tree), Some(expected));
    }
}

#[test]
fn division_by_zero_has_no_value() {
    let tree = parse(&String::from("1/(2*0)")).unwrap();
    assert_eq!(worth(&tree), None);
}
