//! The source grammar, as spec functions over token lists: the trees and task
//! definitions that a token list spells, and the errors a parser reports on it.
use vstd::prelude::*;
use crate::node::{BinaryOperator, Item, ItemKind, Node, NodeKind};
use crate::tokenizer::{Token, TokenKind};

verus! {

/// The mathematical content of a syntax tree.
pub enum Tree {
    Body(Seq<Tree>),
    Int(i64),
    Bool(bool),
    Null,
    Array(Seq<Tree>),
    Range(Box<Tree>, Box<Tree>),
    Ident(Seq<char>),
    Binary(Box<Tree>, BinaryOperator, Box<Tree>),
    If(Box<Tree>, Box<Tree>),
    While(Box<Tree>, Box<Tree>),
    /// A value assigned to a destination.
    Assign(Box<Tree>, Box<Tree>),
    Index(Box<Tree>, Box<Tree>),
    Send(Box<Tree>, Box<Tree>),
    Receive(Box<Tree>, Box<Tree>, bool),
    Exit,
}

pub open spec fn tree(n: Node) -> Tree
    decreases n,
{
    match n.kind {
        NodeKind::Body(v) => Tree::Body(trees(v@)),
        NodeKind::IntegerLiteral(i) => Tree::Int(i),
        NodeKind::BooleanLiteral(b) => Tree::Bool(b),
        NodeKind::NullLiteral => Tree::Null,
        NodeKind::ArrayLiteral(v) => Tree::Array(trees(v@)),
        NodeKind::Range { begin, end } => Tree::Range(Box::new(tree(*begin)), Box::new(tree(*end))),
        NodeKind::Identifier(s) => Tree::Ident(s@),
        NodeKind::BinaryOperation { left, op, right } => Tree::Binary(Box::new(tree(*left)), op, Box::new(tree(*right))),
        NodeKind::If { condition, if_true } => Tree::If(Box::new(tree(*condition)), Box::new(tree(*if_true))),
        NodeKind::While { condition, body } => Tree::While(Box::new(tree(*condition)), Box::new(tree(*body))),
        NodeKind::Assign { value, destination } => Tree::Assign(Box::new(tree(*value)), Box::new(tree(*destination))),
        NodeKind::Index { value, index } => Tree::Index(Box::new(tree(*value)), Box::new(tree(*index))),
        NodeKind::Send { value, channel } => Tree::Send(Box::new(tree(*value)), Box::new(tree(*channel))),
        NodeKind::Receive { value, channel, bind_channel } => Tree::Receive(
            Box::new(tree(*value)),
            Box::new(tree(*channel)),
            bind_channel,
        ),
        NodeKind::Exit => Tree::Exit,
    }
}

pub open spec fn trees(s: Seq<Node>) -> Seq<Tree>
    decreases s,
{
    if s.len() == 0 {
        seq![]
    } else {
        trees(s.subrange(0, s.len() - 1)).push(tree(s[s.len() - 1]))
    }
}

/// A task definition: its name, its replica count, and its body.
pub type Definition = (Seq<char>, Option<usize>, Tree);

pub open spec fn definition(item: Item) -> Definition {
    match item.kind {
        ItemKind::TaskDefinition { name, body, instances } => (name@, instances, tree(body)),
    }
}

pub open spec fn definitions(items: Seq<Item>) -> Seq<Definition> {
    items.map_values(|it: Item| definition(it))
}

/// A parse result: the tree, or `None` on failure; where parsing stopped; and
/// how many errors were reported on the way.
pub type Parsed = (Option<Tree>, int, nat);

pub open spec fn kind(t: Seq<Token>, i: int) -> TokenKind {
    t[i].kind
}

/// The next position: one further, but never past `EndOfFile` at the end.
pub open spec fn adv(t: Seq<Token>, i: int) -> int {
    if i + 1 < t.len() { i + 1 } else { i }
}

/// Expects a token of the plain kind `k` at `i`: the position after it, or an error.
pub open spec fn expect_at(t: Seq<Token>, i: int, k: TokenKind) -> Option<int> {
    if t[i].kind == k { Some(adv(t, i)) } else { None }
}

pub open spec fn bin(l: Tree, op: BinaryOperator, r: Tree) -> Tree {
    Tree::Binary(Box::new(l), op, Box::new(r))
}

/// A name, a literal, or an array literal `[a, b, c]`, a trailing comma allowed.
pub open spec fn p_atom(t: Seq<Token>, i: int) -> Parsed
    decreases t.len() - i, 2int,
{
    if !(0 <= i < t.len()) {
        (None, i, 1)
    } else {
        match t[i].kind {
            TokenKind::Identifier(s) => (Some(Tree::Ident(s@)), adv(t, i), 0),
            TokenKind::IntegerLiteral(v) => (Some(Tree::Int(v)), adv(t, i), 0),
            TokenKind::KwTrue => (Some(Tree::Bool(true)), adv(t, i), 0),
            TokenKind::KwFalse => (Some(Tree::Bool(false)), adv(t, i), 0),
            TokenKind::KwNull => (Some(Tree::Null), adv(t, i), 0),
            TokenKind::LeftBrace => if adv(t, i) > i {
                p_array(t, adv(t, i), seq![])
            } else {
                (None, i, 1)
            },
            _ => (None, adv(t, i), 1),
        }
    }
}

/// The rest of an array literal from `j`, with `acc` read so far.
pub open spec fn p_array(t: Seq<Token>, j: int, acc: Seq<Tree>) -> Parsed
    decreases t.len() - j + 1, 0int,
{
    if !(0 <= j < t.len()) {
        (None, j, 1)
    } else if t[j].kind is RightBrace {
        (Some(Tree::Array(acc)), adv(t, j), 0)
    } else if t[j].kind is EndOfFile {
        (None, j, 1)
    } else {
        let (x, e, k) = p_expression(t, j);
        match x {
            None => (None, e, k),
            Some(x) => if 0 <= e < t.len() && t[e].kind is RightBrace {
                if j < e <= t.len() {
                    let (r, e2, k2) = p_array(t, e, acc.push(x));
                    (r, e2, k + k2)
                } else {
                    (None, e, k)
                }
            } else if 0 <= e < t.len() && t[e].kind is Comma {
                if j < adv(t, e) <= t.len() {
                    let (r, e2, k2) = p_array(t, adv(t, e), acc.push(x));
                    (r, e2, k + k2)
                } else {
                    (None, e, k)
                }
            } else {
                (None, e, k + 1)
            },
        }
    }
}

/// `( expression )`, or an atom.
pub open spec fn p_parens(t: Seq<Token>, i: int) -> Parsed
    decreases t.len() - i, 3int,
{
    if 0 <= i < t.len() && t[i].kind is LeftParen && adv(t, i) > i {
        let (x, e, k) = p_expression(t, adv(t, i));
        match x {
            None => (None, e, k),
            Some(x) => if 0 <= e < t.len() && t[e].kind is RightParen {
                (Some(x), adv(t, e), k)
            } else {
                (None, e, k + 1)
            },
        }
    } else {
        p_atom(t, i)
    }
}

/// `value[index]`, any number of times.
pub open spec fn p_index(t: Seq<Token>, i: int) -> Parsed
    decreases t.len() - i, 4int,
{
    let (x, e, k) = p_parens(t, i);
    match x {
        None => (None, e, k),
        Some(x) => if i <= e <= t.len() {
            let (r, e2, k2) = p_index_rest(t, e, x);
            (r, e2, k + k2)
        } else {
            (None, e, k)
        },
    }
}

pub open spec fn p_index_rest(t: Seq<Token>, j: int, left: Tree) -> Parsed
    decreases t.len() - j, 1int,
{
    if 0 <= j < t.len() && t[j].kind is LeftBrace && adv(t, j) > j {
        let (x, e, k) = p_expression(t, adv(t, j));
        match x {
            None => (None, e, k),
            Some(ix) => {
                let node = Tree::Index(Box::new(left), Box::new(ix));
                if 0 <= e < t.len() && t[e].kind is RightBrace && adv(t, e) > j {
                    let (r, e2, k2) = p_index_rest(t, adv(t, e), node);
                    (r, e2, k + k2)
                } else {
                    (None, e, k + 1)
                }
            },
        }
    } else {
        (Some(left), j, 0)
    }
}

/// `begin .. end`, where `end` is a whole expression.
pub open spec fn p_range(t: Seq<Token>, i: int) -> Parsed
    decreases t.len() - i, 5int,
{
    let (x, e, k) = p_index(t, i);
    match x {
        None => (None, e, k),
        Some(x) => if i <= e <= t.len() {
            let (r, e2, k2) = p_range_rest(t, e, x);
            (r, e2, k + k2)
        } else {
            (None, e, k)
        },
    }
}

pub open spec fn p_range_rest(t: Seq<Token>, j: int, left: Tree) -> Parsed
    decreases t.len() - j, 1int,
{
    if 0 <= j < t.len() && t[j].kind is Range && adv(t, j) > j {
        let (x, e, k) = p_expression(t, adv(t, j));
        match x {
            None => (None, e, k),
            Some(end) => if j < e <= t.len() {
                let (r, e2, k2) = p_range_rest(t, e, Tree::Range(Box::new(left), Box::new(end)));
                (r, e2, k + k2)
            } else {
                (None, e, k)
            },
        }
    } else {
        (Some(left), j, 0)
    }
}

/// The operator that a token stands for at precedence `level`: 0 for `* /`,
/// 1 for `+ -`, 2 for `== < >`.
pub open spec fn operator_at(level: int, k: TokenKind) -> Option<BinaryOperator> {
    if level == 0 {
        match k {
            TokenKind::Multiply => Some(BinaryOperator::Multiply),
            TokenKind::Divide => Some(BinaryOperator::Divide),
            _ => None,
        }
    } else if level == 1 {
        match k {
            TokenKind::Add => Some(BinaryOperator::Add),
            TokenKind::Subtract => Some(BinaryOperator::Subtract),
            _ => None,
        }
    } else {
        match k {
            TokenKind::Equals => Some(BinaryOperator::Equals),
            TokenKind::LessThan => Some(BinaryOperator::LessThan),
            TokenKind::GreaterThan => Some(BinaryOperator::GreaterThan),
            _ => None,
        }
    }
}

/// Operands of one precedence level, joined to the left.
pub open spec fn p_level(t: Seq<Token>, i: int, level: int) -> Parsed
    decreases t.len() - i, 7 + 2 * level,
{
    if level < 0 || level > 2 {
        (None, i, 1)
    } else {
        let (x, e, k) = p_operand(t, i, level);
        match x {
            None => (None, e, k),
            Some(x) => if i <= e <= t.len() {
                let (r, e2, k2) = p_level_rest(t, e, x, level);
                (r, e2, k + k2)
            } else {
                (None, e, k)
            },
        }
    }
}

/// An operand of level `level`: one of the level below, or a range.
pub open spec fn p_operand(t: Seq<Token>, i: int, level: int) -> Parsed
    decreases t.len() - i, 6 + 2 * level,
{
    if level == 0 { p_range(t, i) } else if 1 <= level <= 2 { p_level(t, i, level - 1) } else { (None, i, 1) }
}

pub open spec fn p_level_rest(t: Seq<Token>, j: int, left: Tree, level: int) -> Parsed
    decreases t.len() - j, 1int,
{
    if 0 <= level <= 2 && 0 <= j < t.len() && operator_at(level, t[j].kind) is Some && adv(t, j) > j {
        let op = operator_at(level, t[j].kind)->Some_0;
        let (x, e, k) = p_operand(t, adv(t, j), level);
        match x {
            None => (None, e, k),
            Some(right) => if j < e <= t.len() {
                let (r, e2, k2) = p_level_rest(t, e, bin(left, op, right), level);
                (r, e2, k + k2)
            } else {
                (None, e, k)
            },
        }
    } else {
        (Some(left), j, 0)
    }
}

/// A comparison, optionally assigned a value: `a = b = c` assigns `b = c` to `a`.
pub open spec fn p_assign(t: Seq<Token>, i: int) -> Parsed
    decreases t.len() - i, 12int,
{
    let (x, e, k) = p_level(t, i, 2);
    match x {
        None => (None, e, k),
        Some(dest) => if 0 <= e < t.len() && t[e].kind is Assign && e >= i && adv(t, e) > e {
            let (v, e2, k2) = p_assign(t, adv(t, e));
            match v {
                None => (None, e2, k + k2),
                Some(v) => (Some(Tree::Assign(Box::new(v), Box::new(dest))), e2, k + k2),
            }
        } else {
            (Some(dest), e, k)
        },
    }
}

pub open spec fn p_expression(t: Seq<Token>, i: int) -> Parsed
    decreases t.len() - i, 13int,
{
    p_assign(t, i)
}

/// An expression, optionally followed by `-> channel`, `<- channel` or `<- ?name`.
pub open spec fn p_send_receive(t: Seq<Token>, i: int) -> Parsed
    decreases t.len() - i, 16int,
{
    let (x, e, k) = p_expression(t, i);
    match x {
        None => (None, e, k),
        Some(left) => if !(i <= e < t.len()) {
            (None, e, k)
        } else if t[e].kind is SendArrow && adv(t, e) > e {
            let (y, e2, k2) = p_expression(t, adv(t, e));
            match y {
                None => (None, e2, k + k2),
                Some(right) => (Some(Tree::Send(Box::new(left), Box::new(right))), e2, k + k2),
            }
        } else if t[e].kind is ReceiveArrow && adv(t, e) > e {
            let j = adv(t, e);
            let bind = t[j].kind is QuestionMark;
            let j2 = if bind { adv(t, j) } else { j };
            let (y, e2, k2) = p_expression(t, j2);
            match y {
                None => (None, e2, k + k2),
                Some(right) => (Some(Tree::Receive(Box::new(left), Box::new(right), bind)), e2, k + k2),
            }
        } else {
            (Some(left), e, k)
        },
    }
}

/// Where a run of `NewLine` tokens from `j` ends.
pub open spec fn skip_newlines(t: Seq<Token>, j: int) -> int
    decreases t.len() - j,
{
    if 0 <= j < t.len() && t[j].kind is NewLine && adv(t, j) > j { skip_newlines(t, adv(t, j)) } else { j }
}

/// A new line and an indented block, from `j`, after a statement header
/// that began at `i`; `cond` is the header's condition.
pub open spec fn p_block(t: Seq<Token>, i: int, j: int, k: nat) -> (Option<Tree>, int, nat)
    decreases t.len() - i, 17int,
{
    if !(0 <= j < t.len()) || !(t[j].kind is NewLine) {
        (None, j, k + 1)
    } else if !(t[adv(t, j)].kind is Indent) {
        (None, adv(t, j), k + 1)
    } else if i < adv(t, adv(t, j)) <= t.len() {
        let (b, e, k2) = p_body(t, adv(t, adv(t, j)));
        (b, e, k + k2)
    } else {
        (None, j, k + 1)
    }
}

/// `if condition` and a block.
pub open spec fn p_if(t: Seq<Token>, i: int) -> Parsed
    decreases t.len() - i, 18int,
{
    let (c, e, k) = p_expression(t, adv(t, i));
    match c {
        None => (None, e, k),
        Some(c) => if adv(t, i) <= e <= t.len() && i < adv(t, i) {
            let (b, e2, k2) = p_block(t, i, e, k);
            match b {
                None => (None, e2, k2),
                Some(b) => (Some(Tree::If(Box::new(c), Box::new(b))), e2, k2),
            }
        } else {
            (None, e, k)
        },
    }
}

/// The condition of `while condition`, or `true` for `loop`.
pub open spec fn while_head(t: Seq<Token>, i: int) -> Parsed
    decreases t.len() - i, 18int,
{
    if 0 <= i < t.len() && t[i].kind is KwWhile && adv(t, i) > i {
        p_expression(t, adv(t, i))
    } else {
        (Some(Tree::Bool(true)), adv(t, i), 0)
    }
}

/// `while condition` or `loop` (a loop on `true`), and a block.
pub open spec fn p_while(t: Seq<Token>, i: int) -> Parsed
    decreases t.len() - i, 19int,
{
    let (c, e, k) = while_head(t, i);
    match c {
        None => (None, e, k),
        Some(c) => if i < adv(t, i) <= e <= t.len() {
            let (b, e2, k2) = p_block(t, i, e, k);
            match b {
                None => (None, e2, k2),
                Some(b) => (Some(Tree::While(Box::new(c), Box::new(b))), e2, k2),
            }
        } else {
            (None, e, k)
        },
    }
}

/// One statement, and the line breaks after it.
pub open spec fn p_statement(t: Seq<Token>, i: int) -> Parsed
    decreases t.len() - i, 20int,
{
    let (x, e, k) = if !(0 <= i < t.len()) {
        (None, i, 1)
    } else if t[i].kind is KwIf {
        p_if(t, i)
    } else if t[i].kind is KwWhile || t[i].kind is KwLoop {
        p_while(t, i)
    } else if t[i].kind is KwExit {
        (Some(Tree::Exit), adv(t, i), 0)
    } else {
        p_send_receive(t, i)
    };
    (x, skip_newlines(t, e), k)
}

/// Statements up to the `Dedent` that closes the block; `EndOfFile` before it
/// is an error. A statement that fails is reported and left out.
pub open spec fn p_body(t: Seq<Token>, i: int) -> Parsed
    decreases t.len() - i, 22int,
{
    p_body_rest(t, i, seq![])
}

pub open spec fn p_body_rest(t: Seq<Token>, j: int, acc: Seq<Tree>) -> Parsed
    decreases t.len() - j, 21int,
{
    if !(0 <= j < t.len()) {
        (Some(Tree::Body(acc)), j, 1)
    } else if t[j].kind is Dedent {
        (Some(Tree::Body(acc)), adv(t, j), 0)
    } else if t[j].kind is EndOfFile {
        (Some(Tree::Body(acc)), j, 1)
    } else {
        let (x, e, k) = p_statement(t, j);
        let acc2 = match x {
            Some(x) => acc.push(x),
            None => acc,
        };
        if j < e <= t.len() {
            let (r, e2, k2) = p_body_rest(t, e, acc2);
            (r, e2, k + k2)
        } else {
            (Some(Tree::Body(acc2)), e, k)
        }
    }
}

/// `task name` or `task name[count]` with `count >= 1`, and a block.
pub open spec fn p_task(t: Seq<Token>, i: int) -> (Option<Definition>, int, nat)
    decreases t.len() - i, 23int,
{
    let j = adv(t, i);
    match t[j].kind {
        TokenKind::Identifier(name) => {
            let j2 = adv(t, j);
            let (ok, inst, j5, k) = if t[j2].kind is LeftBrace {
                let j3 = adv(t, j2);
                match t[j3].kind {
                    TokenKind::IntegerLiteral(c) => if c < 1 || c > usize::MAX {
                        (false, None, j3, 1nat)
                    } else if t[adv(t, j3)].kind is RightBrace {
                        (true, Some(c as usize), adv(t, adv(t, j3)), 0nat)
                    } else {
                        (false, None, adv(t, j3), 1nat)
                    },
                    _ => (false, None, j3, 1nat),
                }
            } else {
                (true, None, j2, 0nat)
            };
            if !ok {
                (None, j5, k)
            } else if i < j5 <= t.len() {
                let (b, e, k2) = p_block(t, i, j5, 0);
                match b {
                    None => (None, e, k2),
                    Some(b) => (Some((name@, inst, b)), e, k2),
                }
            } else {
                (None, j5, 1)
            }
        },
        _ => (None, j, 1),
    }
}

/// Task definitions up to `EndOfFile`, or up to the first token that cannot
/// start one, which is an error; `acc` holds those read so far.
pub open spec fn p_items(t: Seq<Token>, i: int, acc: Seq<Definition>) -> (Seq<Definition>, int, nat)
    decreases t.len() - i, 24int,
{
    if !(0 <= i < t.len()) {
        (acc, i, 0)
    } else if t[i].kind is KwTask {
        let (d, e, k) = p_task(t, i);
        let acc2 = match d {
            Some(d) => acc.push(d),
            None => acc,
        };
        if i < e <= t.len() {
            let (r, e2, k2) = p_items(t, e, acc2);
            (r, e2, k + k2)
        } else {
            (acc2, e, k)
        }
    } else if t[i].kind is NewLine && adv(t, i) > i {
        p_items(t, adv(t, i), acc)
    } else if t[i].kind is EndOfFile {
        (acc, i, 0)
    } else {
        (acc, i, 1)
    }
}

/// The task definitions that a token list spells, and how many errors
/// reading it reports: none exactly when it is a well-formed program.
pub open spec fn program(t: Seq<Token>) -> (Seq<Definition>, nat) {
    let (defs, _, errs) = p_items(t, 0, seq![]);
    (defs, errs)
}

} // verus!
