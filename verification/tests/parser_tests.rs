use quarter::parser::parse_tokens;
use quarter::{AstNode, Dictionary, Machine};

fn parse(tokens: &[&str]) -> Result<AstNode, String> {
    let dict = Dictionary::new();
    parse_tokens(tokens, &dict, None)
}

#[test]
fn test_parse_simple_number() {
    let tokens = vec!["42"];
    let ast = parse(&tokens).unwrap();
    match ast {
        AstNode::PushNumber(n) => assert_eq!(n, 42),
        _ => panic!("Expected PushNumber"),
    }
}

#[test]
fn test_parse_simple_word() {
    let tokens = vec!["DUP"];
    let ast = parse(&tokens).unwrap();
    match ast {
        AstNode::CallWord(s) => assert_eq!(s, "DUP"),
        _ => panic!("Expected CallWord"),
    }
}

#[test]
fn test_parse_sequence() {
    let tokens = vec!["5", "DUP", "*"];
    let ast = parse(&tokens).unwrap();
    match ast {
        AstNode::Sequence(nodes) => {
            assert_eq!(nodes.len(), 3);
            match &nodes[0] {
                AstNode::PushNumber(n) => assert_eq!(*n, 5),
                _ => panic!("Expected PushNumber"),
            }
            match &nodes[1] {
                AstNode::CallWord(s) => assert_eq!(s, "DUP"),
                _ => panic!("Expected CallWord"),
            }
            match &nodes[2] {
                AstNode::CallWord(s) => assert_eq!(s, "*"),
                _ => panic!("Expected CallWord"),
            }
        }
        _ => panic!("Expected Sequence"),
    }
}

#[test]
fn test_parse_if_then() {
    let tokens = vec!["1", "IF", "42", "THEN"];
    let ast = parse(&tokens).unwrap();
    match ast {
        AstNode::Sequence(nodes) => {
            assert_eq!(nodes.len(), 2);
            match &nodes[0] {
                AstNode::PushNumber(n) => assert_eq!(*n, 1),
                _ => panic!("Expected PushNumber"),
            }
            match &nodes[1] {
                AstNode::IfThenElse { then_branch, else_branch } => {
                    assert_eq!(then_branch.len(), 1);
                    assert!(else_branch.is_none());
                }
                _ => panic!("Expected IfThenElse"),
            }
        }
        _ => panic!("Expected Sequence"),
    }
}

#[test]
fn test_parse_if_else_then() {
    let tokens = vec!["1", "IF", "42", "ELSE", "99", "THEN"];
    let ast = parse(&tokens).unwrap();
    match ast {
        AstNode::Sequence(nodes) => {
            assert_eq!(nodes.len(), 2);
            match &nodes[1] {
                AstNode::IfThenElse { then_branch, else_branch } => {
                    assert_eq!(then_branch.len(), 1);
                    assert!(else_branch.is_some());
                    assert_eq!(else_branch.as_ref().unwrap().len(), 1);
                }
                _ => panic!("Expected IfThenElse"),
            }
        }
        _ => panic!("Expected Sequence"),
    }
}

#[test]
fn test_parse_nested_if() {
    let tokens = vec!["1", "IF", "1", "IF", "42", "THEN", "THEN"];
    let result = parse(&tokens);
    assert!(result.is_ok());
}

#[test]
fn test_parse_missing_then() {
    let tokens = vec!["1", "IF", "42"];
    let result = parse(&tokens);
    assert!(result.is_err());
    assert_eq!(result.unwrap_err(), "Missing THEN");
}

#[test]
fn test_parse_unexpected_then() {
    let tokens = vec!["42", "THEN"];
    let result = parse(&tokens);
    assert!(result.is_err());
    assert_eq!(result.unwrap_err(), "Unexpected THEN or ELSE");
}

#[test]
fn test_parse_unexpected_else() {
    let tokens = vec!["42", "ELSE"];
    let result = parse(&tokens);
    assert!(result.is_err());
    assert_eq!(result.unwrap_err(), "Unexpected THEN or ELSE");
}

#[test]
fn test_parse_negative_numbers() {
    let tokens = vec!["-42"];
    let ast = parse(&tokens).unwrap();
    match ast {
        AstNode::PushNumber(n) => assert_eq!(n, -42),
        _ => panic!("Expected PushNumber"),
    }
}

#[test]
fn test_parse_empty_tokens() {
    let tokens: Vec<&str> = vec![];
    let result = parse(&tokens);
    assert!(result.is_ok());
    match result.unwrap() {
        AstNode::Sequence(nodes) => assert_eq!(nodes.len(), 0),
        _ => {}
    }
}

#[test]
fn test_parse_keywords_case_insensitive() {
    let tokens = vec!["1", "if", "dup", "else", "drop", "then"];
    match parse(&tokens).unwrap() {
        AstNode::Sequence(nodes) => match &nodes[1] {
            AstNode::IfThenElse { then_branch, else_branch } => {
                match &then_branch[0] {
                    AstNode::CallWord(s) => assert_eq!(s, "DUP"),
                    _ => panic!("Expected CallWord"),
                }
                assert_eq!(else_branch.as_ref().unwrap().len(), 1);
            }
            _ => panic!("Expected IfThenElse"),
        },
        _ => panic!("Expected Sequence"),
    }
}

#[test]
fn test_parse_loops_and_strings() {
    let tokens = vec!["10", "0", "DO", "I", "2", "+LOOP", ".\"", "a", "b\"", "S\"", "x\""];
    match parse(&tokens).unwrap() {
        AstNode::Sequence(nodes) => {
            assert_eq!(nodes.len(), 5);
            match &nodes[2] {
                AstNode::DoLoop { body, increment, conditional } => {
                    assert_eq!(body.len(), 2);
                    assert_eq!(*increment, 0);
                    assert!(!*conditional);
                }
                _ => panic!("Expected DoLoop"),
            }
            match &nodes[3] {
                AstNode::PrintString(s) => assert_eq!(s, "a b"),
                _ => panic!("Expected PrintString"),
            }
            match &nodes[4] {
                AstNode::StackString(s) => assert_eq!(s, "x"),
                _ => panic!("Expected StackString"),
            }
        }
        _ => panic!("Expected Sequence"),
    }
}

#[test]
fn test_parse_errors() {
    assert_eq!(parse(&vec!["BEGIN", "1"]).unwrap_err(), "Missing UNTIL or REPEAT");
    assert_eq!(parse(&vec!["BEGIN", "1", "REPEAT"]).unwrap_err(), "BEGIN...REPEAT requires WHILE");
    assert_eq!(parse(&vec!["DO", "1"]).unwrap_err(), "Missing LOOP or +LOOP");
    assert_eq!(parse(&vec!["INLINE"]).unwrap_err(), "INLINE requires an instruction name");
    assert_eq!(parse(&vec!["RECURSE"]).unwrap_err(), "RECURSE can only be used inside a word definition");
    match parse(&vec!["9223372036854775808"]).unwrap() {
        AstNode::CallWord(s) => assert_eq!(s, "9223372036854775808"),
        _ => panic!("Expected CallWord"),
    }
    match parse(&vec!["-9223372036854775808"]).unwrap() {
        AstNode::PushNumber(n) => assert_eq!(n, i64::MIN),
        _ => panic!("Expected PushNumber"),
    }
    match parse(&vec!["+7"]).unwrap() {
        AstNode::PushNumber(n) => assert_eq!(n, 7),
        _ => panic!("Expected PushNumber"),
    }
}

#[test]
fn test_word_names_ignore_case() {
    for spelling in ["swap", "Swap", "sWaP", "SWAP"] {
        match parse(&[spelling]).unwrap() {
            AstNode::CallWord(s) => assert_eq!(s, "SWAP"),
            _ => panic!("Expected CallWord"),
        }
    }
}

#[test]
fn test_parse_complex_if_expression() {
    let tokens = vec!["10", "5", ">", "IF", "2", "3", "+", "ELSE", "4", "5", "*", "THEN"];
    let result = parse(&tokens);
    assert!(result.is_ok());
    let mut m = Machine::new();
    let dict = Dictionary::new();
    let ast = result.unwrap();
    ast.execute(&dict, &mut m).unwrap();
    assert_eq!(m.stack.pop(&mut m.memory), Some(5));
}
