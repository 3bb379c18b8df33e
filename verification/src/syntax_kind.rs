//! The kinds of tokens and nodes found in Fjord syntax trees.

use vstd::prelude::*;

verus! {

/// The kind of a token or of a syntax tree node.
#[derive(Debug, Copy, Clone, PartialEq, Eq, Hash, Structural)]
pub enum SyntaxKind {
    Let,
    If,
    Return,
    Atom,
    Digits,
    StringLiteral,
    True,
    False,
    Equals,
    Dollar,
    Pipe,
    Plus,
    Minus,
    Star,
    Slash,
    LParen,
    RParen,
    LBrace,
    RBrace,
    Whitespace,
    Eol,
    Error,
    // Compound kinds, used only for nodes.
    Root,
    BindingDef,
    ReturnStatement,
    BinOp,
    FunctionCall,
    FunctionCallParams,
    Lambda,
    LambdaParams,
    BindingUsage,
}

/// Whether a token of this kind can begin an expression.
pub open spec fn spec_can_start_expr(kind: SyntaxKind) -> bool {
    match kind {
        SyntaxKind::Atom
        | SyntaxKind::Digits
        | SyntaxKind::StringLiteral
        | SyntaxKind::True
        | SyntaxKind::False
        | SyntaxKind::Dollar
        | SyntaxKind::Pipe
        | SyntaxKind::LParen
        | SyntaxKind::LBrace => true,
        _ => false,
    }
}

/// The name of a kind, as it appears in debug output of syntax trees.
pub open spec fn spec_kind_name(kind: SyntaxKind) -> Seq<char> {
    match kind {
        SyntaxKind::Let => seq!['L', 'e', 't'],
        SyntaxKind::If => seq!['I', 'f'],
        SyntaxKind::Return => seq!['R', 'e', 't', 'u', 'r', 'n'],
        SyntaxKind::Atom => seq!['A', 't', 'o', 'm'],
        SyntaxKind::Digits => seq!['D', 'i', 'g', 'i', 't', 's'],
        SyntaxKind::StringLiteral => seq!['S', 't', 'r', 'i', 'n', 'g', 'L', 'i', 't', 'e', 'r', 'a', 'l'],
        SyntaxKind::True => seq!['T', 'r', 'u', 'e'],
        SyntaxKind::False => seq!['F', 'a', 'l', 's', 'e'],
        SyntaxKind::Equals => seq!['E', 'q', 'u', 'a', 'l', 's'],
        SyntaxKind::Dollar => seq!['D', 'o', 'l', 'l', 'a', 'r'],
        SyntaxKind::Pipe => seq!['P', 'i', 'p', 'e'],
        SyntaxKind::Plus => seq!['P', 'l', 'u', 's'],
        SyntaxKind::Minus => seq!['M', 'i', 'n', 'u', 's'],
        SyntaxKind::Star => seq!['S', 't', 'a', 'r'],
        SyntaxKind::Slash => seq!['S', 'l', 'a', 's', 'h'],
        SyntaxKind::LParen => seq!['L', 'P', 'a', 'r', 'e', 'n'],
        SyntaxKind::RParen => seq!['R', 'P', 'a', 'r', 'e', 'n'],
        SyntaxKind::LBrace => seq!['L', 'B', 'r', 'a', 'c', 'e'],
        SyntaxKind::RBrace => seq!['R', 'B', 'r', 'a', 'c', 'e'],
        SyntaxKind::Whitespace => seq!['W', 'h', 'i', 't', 'e', 's', 'p', 'a', 'c', 'e'],
        SyntaxKind::Eol => seq!['E', 'o', 'l'],
        SyntaxKind::Error => seq!['E', 'r', 'r', 'o', 'r'],
        SyntaxKind::Root => seq!['R', 'o', 'o', 't'],
        SyntaxKind::BindingDef => seq!['B', 'i', 'n', 'd', 'i', 'n', 'g', 'D', 'e', 'f'],
        SyntaxKind::ReturnStatement => seq![
            'R', 'e', 't', 'u', 'r', 'n', 'S', 't', 'a', 't', 'e', 'm', 'e', 'n', 't',
        ],
        SyntaxKind::BinOp => seq!['B', 'i', 'n', 'O', 'p'],
        SyntaxKind::FunctionCall => seq![
            'F', 'u', 'n', 'c', 't', 'i', 'o', 'n', 'C', 'a', 'l', 'l',
        ],
        SyntaxKind::FunctionCallParams => seq![
            'F', 'u', 'n', 'c', 't', 'i', 'o', 'n', 'C', 'a', 'l', 'l', 'P', 'a', 'r', 'a', 'm', 's',
        ],
        SyntaxKind::Lambda => seq!['L', 'a', 'm', 'b', 'd', 'a'],
        SyntaxKind::LambdaParams => seq!['L', 'a', 'm', 'b', 'd', 'a', 'P', 'a', 'r', 'a', 'm', 's'],
        SyntaxKind::BindingUsage => seq![
            'B', 'i', 'n', 'd', 'i', 'n', 'g', 'U', 's', 'a', 'g', 'e',
        ],
    }
}

impl SyntaxKind {
    /// Whether a token of this kind can begin an expression.
    pub fn can_start_expr(self) -> (b: bool)
        ensures
            b == spec_can_start_expr(self),
    {
        match self {
            SyntaxKind::Atom
            | SyntaxKind::Digits
            | SyntaxKind::StringLiteral
            | SyntaxKind::True
            | SyntaxKind::False
            | SyntaxKind::Dollar
            | SyntaxKind::Pipe
            | SyntaxKind::LParen
            | SyntaxKind::LBrace => true,
            _ => false,
        }
    }

    /// The name of this kind, as it appears in debug output of syntax trees.
    pub fn name(self) -> (s: &'static str)
        ensures
            s@ == spec_kind_name(self),
    {
        proof {
            reveal_strlit("Let");
            reveal_strlit("If");
            reveal_strlit("Return");
            reveal_strlit("Atom");
            reveal_strlit("Digits");
            reveal_strlit("StringLiteral");
            reveal_strlit("True");
            reveal_strlit("False");
            reveal_strlit("Equals");
            reveal_strlit("Dollar");
            reveal_strlit("Pipe");
            reveal_strlit("Plus");
            reveal_strlit("Minus");
            reveal_strlit("Star");
            reveal_strlit("Slash");
            reveal_strlit("LParen");
            reveal_strlit("RParen");
            reveal_strlit("LBrace");
            reveal_strlit("RBrace");
            reveal_strlit("Whitespace");
            reveal_strlit("Eol");
            reveal_strlit("Error");
            reveal_strlit("Root");
            reveal_strlit("BindingDef");
            reveal_strlit("ReturnStatement");
            reveal_strlit("BinOp");
            reveal_strlit("FunctionCall");
            reveal_strlit("FunctionCallParams");
            reveal_strlit("Lambda");
            reveal_strlit("LambdaParams");
            reveal_strlit("BindingUsage");
        }
        match self {
            SyntaxKind::Let => "Let",
            SyntaxKind::If => "If",
            SyntaxKind::Return => "Return",
            SyntaxKind::Atom => "Atom",
            SyntaxKind::Digits => "Digits",
            SyntaxKind::StringLiteral => "StringLiteral",
            SyntaxKind::True => "True",
            SyntaxKind::False => "False",
            SyntaxKind::Equals => "Equals",
            SyntaxKind::Dollar => "Dollar",
            SyntaxKind::Pipe => "Pipe",
            SyntaxKind::Plus => "Plus",
            SyntaxKind::Minus => "Minus",
            SyntaxKind::Star => "Star",
            SyntaxKind::Slash => "Slash",
            SyntaxKind::LParen => "LParen",
            SyntaxKind::RParen => "RParen",
            SyntaxKind::LBrace => "LBrace",
            SyntaxKind::RBrace => "RBrace",
            SyntaxKind::Whitespace => "Whitespace",
            SyntaxKind::Eol => "Eol",
            SyntaxKind::Error => "Error",
            SyntaxKind::Root => "Root",
            SyntaxKind::BindingDef => "BindingDef",
            SyntaxKind::ReturnStatement => "ReturnStatement",
            SyntaxKind::BinOp => "BinOp",
            SyntaxKind::FunctionCall => "FunctionCall",
            SyntaxKind::FunctionCallParams => "FunctionCallParams",
            SyntaxKind::Lambda => "Lambda",
            SyntaxKind::LambdaParams => "LambdaParams",
            SyntaxKind::BindingUsage => "BindingUsage",
        }
    }
}

} // verus!
