use shscript::ast::{Cmd, CmdOp, Expr, Lit};
use shscript::parser::Parser;
use shscript::token::{binding_power, Token, TokenKind};

fn word(text: &str) -> Token {
    Token { kind: TokenKind::Text, lexeme: text.to_string() }
}

fn op(kind: TokenKind) -> Token {
    Token { kind, lexeme: String::new() }
}

fn space() -> Token {
    Token { kind: TokenKind::Space, lexeme: " ".to_string() }
}

/// The single word of an atom that holds exactly one literal fragment.
fn atom_word(c: &Cmd) -> String {
    match c {
        Cmd::Atom(segments) => {
            assert_eq!(segments.len(), 1);
            assert_eq!(segments[0].len(), 1);
            match &*segments[0][0] {
                Expr::Literal(Lit::String(s)) => s.clone(),
                _ => panic!("fragment is not a string literal"),
            }
        }
        Cmd::Op(..) => panic!("expected an atom"),
    }
}

#[test]
fn pipe_binds_tighter_than_and() {
    // a | b && c > f  parses as  (a | b) && (c > f)
    let tokens = vec![
        word("a"),
        space(),
        op(TokenKind::Pipe),
        space(),
        word("b"),
        space(),
        op(TokenKind::AmperAmper),
        space(),
        word("c"),
        space(),
        op(TokenKind::Great),
        space(),
        word("f"),
    ];
    let mut p = Parser::new(tokens);
    let c = p.parse_cmd(0);
    match c {
        Cmd::Op(l, CmdOp::And, r) => {
            match *l {
                Cmd::Op(ll, CmdOp::OutPipe, lr) => {
                    assert_eq!(atom_word(&ll), "a");
                    assert_eq!(atom_word(&lr), "b");
                }
                _ => panic!("left of && is not a pipe"),
            }
            match *r {
                Cmd::Op(rl, CmdOp::OutWrite, rr) => {
                    assert_eq!(atom_word(&rl), "c");
                    assert_eq!(atom_word(&rr), "f");
                }
                _ => panic!("right of && is not a redirection"),
            }
        }
        _ => panic!("top operator is not &&"),
    }
}

#[test]
fn and_binds_tighter_than_or() {
    // a && b || c  parses as  (a && b) || c
    let tokens = vec![
        word("a"),
        space(),
        op(TokenKind::AmperAmper),
        space(),
        word("b"),
        space(),
        op(TokenKind::PipePipe),
        space(),
        word("c"),
    ];
    let mut p = Parser::new(tokens);
    let c = p.parse_cmd(0);
    match c {
        Cmd::Op(l, CmdOp::Or, r) => {
            match *l {
                Cmd::Op(ll, CmdOp::And, lr) => {
                    assert_eq!(atom_word(&ll), "a");
                    assert_eq!(atom_word(&lr), "b");
                }
                _ => panic!("left of || is not &&"),
            }
            assert_eq!(atom_word(&r), "c");
        }
        _ => panic!("top operator is not ||"),
    }
}

#[test]
fn same_tier_groups_left() {
    // a | b | c  parses as  (a | b) | c
    let tokens = vec![
        word("a"),
        space(),
        op(TokenKind::Pipe),
        space(),
        word("b"),
        space(),
        op(TokenKind::Pipe),
        space(),
        word("c"),
    ];
    let mut p = Parser::new(tokens);
    let c = p.parse_cmd(0);
    match c {
        Cmd::Op(l, CmdOp::OutPipe, r) => {
            match *l {
                Cmd::Op(ll, CmdOp::OutPipe, lr) => {
                    assert_eq!(atom_word(&ll), "a");
                    assert_eq!(atom_word(&lr), "b");
                }
                _ => panic!("left of the outer pipe is not the inner pipe"),
            }
            assert_eq!(atom_word(&r), "c");
        }
        _ => panic!("top operator is not a pipe"),
    }
}

#[test]
fn atom_splits_segments_on_spaces_and_joins_fragments() {
    // "git" " " "st" "atus"  is two words, the second of two fragments
    let tokens = vec![word("git"), space(), word("st"), word("atus")];
    let mut p = Parser::new(tokens);
    let c = p.parse_cmd(0);
    match c {
        Cmd::Atom(segments) => {
            assert_eq!(segments.len(), 2);
            assert_eq!(segments[0].len(), 1);
            assert_eq!(segments[1].len(), 2);
        }
        _ => panic!("expected an atom"),
    }
}

#[test]
fn parse_stops_at_newline() {
    let tokens = vec![word("a"), Token { kind: TokenKind::Newline, lexeme: "\n".to_string() }, word("b")];
    let mut p = Parser::new(tokens);
    let c = p.parse_cmd(0);
    assert_eq!(atom_word(&c), "a");
    assert_eq!(p.pos, 1);
}

#[test]
fn redirection_variants_map_to_their_operators() {
    let cases = vec![
        (TokenKind::Great, CmdOp::OutWrite),
        (TokenKind::StarGreat, CmdOp::ErrWrite),
        (TokenKind::AmperGreat, CmdOp::AllWrite),
        (TokenKind::Less, CmdOp::OutRead),
        (TokenKind::StarLess, CmdOp::ErrRead),
        (TokenKind::AmperLess, CmdOp::AllRead),
        (TokenKind::StarPipe, CmdOp::ErrPipe),
        (TokenKind::AmperPipe, CmdOp::AllPipe),
    ];
    for (kind, expected) in cases {
        let tokens = vec![word("a"), space(), op(kind), space(), word("b")];
        let mut p = Parser::new(tokens);
        match p.parse_cmd(0) {
            Cmd::Op(_, got, _) => assert_eq!(got, expected),
            _ => panic!("expected an operator node"),
        }
    }
}

#[test]
fn binding_power_table() {
    assert_eq!(binding_power(&TokenKind::Great), Some((7, 8)));
    assert_eq!(binding_power(&TokenKind::Less), Some((7, 8)));
    assert_eq!(binding_power(&TokenKind::Pipe), Some((5, 6)));
    assert_eq!(binding_power(&TokenKind::AmperAmper), Some((3, 4)));
    assert_eq!(binding_power(&TokenKind::PipePipe), Some((1, 2)));
    assert_eq!(binding_power(&TokenKind::Text), None);
    assert!(op(TokenKind::StarPipe).is_cmd_op());
    assert!(!word("x").is_cmd_op());
}
