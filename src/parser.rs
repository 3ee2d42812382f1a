use vstd::prelude::*;
use crate::node::{BinaryOperator, Item, ItemKind, Node, NodeKind};
use crate::tokenizer::{same_kind, same_kind_spec, Token, TokenKind};
use crate::tokenizer::grows;
use crate::grammar::{
    adv, definitions, operator_at, p_array, p_assign, p_atom, p_block, p_body, p_body_rest, p_expression,
    p_if, p_index, p_index_rest, p_items, p_level, p_level_rest, p_operand, p_parens, p_range,
    p_range_rest, p_send_receive, p_statement, p_task, p_while, skip_newlines, while_head, trees, tree, Parsed,
};

verus! {

/// Builds task definitions from tokens by recursive descent.
pub struct Parser<'t> {
    tokens: &'t [Token],
    index: usize,
    pub items: Vec<Item>,
    pub errors: Vec<ParserError>,
}

#[derive(Debug, Clone)]
pub struct ParserError {
    pub message: String,
}

impl ParserError {
    fn new(message: &str) -> (r: Self)
        ensures
            r.message@ == message@,
    {
        Self { message: message.to_owned() }
    }
}

/// A token list that a parser can read: it ends with `EndOfFile`.
pub open spec fn ends_with_eof(tokens: Seq<Token>) -> bool {
    tokens.len() > 0 && tokens.last().kind is EndOfFile
}

impl<'t> Parser<'t> {
    pub closed spec fn wf(&self) -> bool {
        &&& ends_with_eof(self.tokens@)
        &&& self.index < self.tokens@.len()
    }

    pub closed spec fn item_list(&self) -> Seq<Item> {
        self.items@
    }

    pub closed spec fn error_list(&self) -> Seq<ParserError> {
        self.errors@
    }

    pub closed spec fn cursor(&self) -> int {
        self.index as int
    }

    /// `after` (this) stands where `p` says, with `p`'s errors added to
    /// `before`'s, and `r` is `p`'s tree.
    closed spec fn follows(&self, before: &Self, r: Option<Node>, p: Parsed) -> bool {
        &&& self.index == p.1
        &&& self.errors@.len() == before.errors@.len() + p.2
        &&& match r {
            Some(n) => p.0 == Some(tree(n)),
            None => p.0 is None,
        }
    }

    pub closed spec fn source(&self) -> Seq<Token> {
        self.tokens@
    }

    /// Whether the parser stands on `EndOfFile`.
    pub closed spec fn at_end(&self) -> bool {
        self.tokens@[self.index as int].kind is EndOfFile
    }

    pub closed spec fn remaining(&self) -> int {
        self.tokens@.len() - self.index
    }

    /// Well formed, over the same tokens, no further back than `old`, and with
    /// items and errors only added to.
    pub closed spec fn steps(&self, old: &Self) -> bool {
        &&& self.wf()
        &&& self.tokens == old.tokens
        &&& self.index >= old.index
        &&& grows(old.items@, self.items@)
        &&& grows(old.errors@, self.errors@)
    }

    /// The items and the errors, taken out.
    pub fn into_results(self) -> (r: (Vec<Item>, Vec<ParserError>))
        ensures
            r.0@ == self.item_list(),
            r.1@ == self.error_list(),
    {
        (self.items, self.errors)
    }

    pub fn new(tokens: &'t [Token]) -> (r: Self)
        requires
            ends_with_eof(tokens@),
        ensures
            r.wf(),
            r.source() == tokens@,
            r.cursor() == 0,
            r.item_list().len() == 0,
            r.error_list().len() == 0,
    {
        Self { tokens, index: 0, items: Vec::new(), errors: Vec::new() }
    }

    /// Parses task definitions up to `EndOfFile`, or up to the first token
    /// that cannot start one: the definitions added and the errors reported
    /// are what the grammar (`p_items`, and `program` from the start) gives.
    pub fn parse_top_level(&mut self)
        requires
            old(self).wf(),
        ensures
            final(self).steps(old(self)),
            definitions(final(self).item_list())
                == p_items(old(self).source(), old(self).cursor(), definitions(old(self).item_list())).0,
            final(self).error_list().len() == old(self).error_list().len()
                + p_items(old(self).source(), old(self).cursor(), definitions(old(self).item_list())).2,
    {
        self.parse_items();
    }

    fn parse_items(&mut self)
        requires
            old(self).wf(),
        ensures
            final(self).steps(old(self)),
            ({
                let (d, e, k) = p_items(old(self).tokens@, old(self).index as int, definitions(old(self).items@));
                &&& definitions(final(self).items@) == d
                &&& final(self).errors@.len() == old(self).errors@.len() + k
            }),
    {
        let ghost t = self.tokens@;
        let ghost total = p_items(t, self.index as int, definitions(self.items@));
        loop
            invariant_except_break
                self.steps(old(self)),
                t == self.tokens@,
                total == p_items(t, old(self).index as int, definitions(old(self).items@)),
                ({
                    let (d, e, k) = p_items(t, self.index as int, definitions(self.items@));
                    &&& total.0 == d
                    &&& total.2 == self.errors@.len() - old(self).errors@.len() + k
                }),
            ensures
                self.steps(old(self)),
                definitions(self.items@) == total.0,
                self.errors@.len() == old(self).errors@.len() + total.2,
            decreases self.remaining(),
        {
            match self.this().kind {
                TokenKind::KwTask => {
                    let _ = self.parse_task();
                },
                TokenKind::NewLine => self.advance(),
                TokenKind::EndOfFile => break,
                _ => {
                    self.push_unexpected_error();
                    break;
                },
            }
        }
    }

    /// `task name` or `task name[count]`, a new line, and an indented body.
    fn parse_task(&mut self) -> (r: Option<()>)
        requires
            old(self).wf(),
            old(self).tokens@[old(self).index as int].kind is KwTask,
        ensures
            final(self).steps(old(self)),
            final(self).index > old(self).index,
            ({
                let (d, e, k) = p_task(old(self).tokens@, old(self).index as int);
                &&& final(self).index == e
                &&& final(self).errors@.len() == old(self).errors@.len() + k
                &&& definitions(final(self).items@) == match d {
                    Some(d) => definitions(old(self).items@).push(d),
                    None => definitions(old(self).items@),
                }
            }),
        decreases old(self).remaining(), 20int,
    {
        let ghost t = self.tokens@;
        let ghost i = self.index as int;
        self.advance();
        let name = match &self.this().kind {
            TokenKind::Identifier(name) => name.clone(),
            _ => {
                self.push_unexpected_error();
                return None;
            },
        };
        self.advance();
        let mut instances: Option<usize> = None;
        if matches!(self.this().kind, TokenKind::LeftBrace) {
            self.advance();
            let count = match &self.this().kind {
                TokenKind::IntegerLiteral(n) => *n,
                _ => {
                    self.push_unexpected_error();
                    return None;
                },
            };
            if count < 1 {
                self.errors.push(ParserError::new("task must have 1 or more instances"));
                return None;
            }
            if count as u64 > usize::MAX as u64 {
                self.errors.push(ParserError::new("task has too many instances"));
                return None;
            }
            instances = Some(count as usize);
            self.advance();
            match self.expect(TokenKind::RightBrace) {
                Some(()) => {},
                None => return None,
            }
        }
        let ghost j5 = self.index as int;
        let ghost e5 = self.errors@.len();
        match self.expect(TokenKind::NewLine) {
            Some(()) => {},
            None => return None,
        }
        match self.expect(TokenKind::Indent) {
            Some(()) => {},
            None => return None,
        }
        let body = self.parse_body();
        let ghost before = self.items@;
        self.items.push(Item { kind: ItemKind::TaskDefinition { name, body, instances } });
        proof {
            assert(definitions(self.items@) =~= definitions(before).push(definitions(self.items@).last()));
        }
        Some(())
    }

    /// Statements up to the `Dedent` that closes the block, which is skipped;
    /// `EndOfFile` before it is reported.
    fn parse_body(&mut self) -> (r: Node)
        requires
            old(self).wf(),
        ensures
            final(self).steps(old(self)),
            final(self).items == old(self).items,
            final(self).follows(old(self), Some(r), p_body(old(self).tokens@, old(self).index as int)),
        decreases old(self).remaining(), 19int,
    {
        let ghost t = self.tokens@;
        let ghost total = p_body(t, self.index as int);
        let mut body_nodes: Vec<Node> = Vec::new();
        while !matches!(self.this().kind, TokenKind::Dedent) && !matches!(self.this().kind, TokenKind::EndOfFile)
            invariant
                self.steps(old(self)),
                self.items == old(self).items,
                t == self.tokens@,
                total == p_body(t, old(self).index as int),
                ({
                    let (b, e, k) = p_body_rest(t, self.index as int, trees(body_nodes@));
                    &&& total.0 == b
                    &&& total.1 == e
                    &&& total.2 == self.errors@.len() - old(self).errors@.len() + k
                }),
            decreases self.remaining(),
        {
            let ghost before = body_nodes@;
            match self.parse_statement() {
                Some(node) => {
                    body_nodes.push(node);
                    proof {
                        assert(body_nodes@.subrange(0, body_nodes@.len() - 1) =~= before);
                    }
                },
                None => {},
            }
        }
        if matches!(self.this().kind, TokenKind::EndOfFile) {
            self.push_unexpected_error();
        } else {
            self.advance();
        }
        Node::new(NodeKind::Body(body_nodes))
    }

    fn parse_statement(&mut self) -> (r: Option<Node>)
        requires
            old(self).wf(),
        ensures
            final(self).steps(old(self)),
            final(self).items == old(self).items,
            !old(self).at_end() ==> final(self).index > old(self).index,
            final(self).follows(old(self), r, p_statement(old(self).tokens@, old(self).index as int)),
        decreases old(self).remaining(), 18int,
    {
        let stmt = match self.this().kind {
            TokenKind::KwIf => self.parse_if(),
            TokenKind::KwWhile | TokenKind::KwLoop => self.parse_while(),
            TokenKind::KwExit => {
                self.advance();
                Some(Node::new(NodeKind::Exit))
            },
            _ => self.parse_send_receive(),
        };
        let ghost t = self.tokens@;
        let ghost e0 = self.index as int;
        while matches!(self.this().kind, TokenKind::NewLine)
            invariant
                self.steps(old(self)),
                self.items == old(self).items,
                !old(self).at_end() ==> self.index > old(self).index,
                t == self.tokens@,
                self.errors@.len() == old(self).errors@.len() + p_statement(t, old(self).index as int).2,
                skip_newlines(t, e0) == skip_newlines(t, self.index as int),
                p_statement(t, old(self).index as int).1 == skip_newlines(t, e0),
            decreases self.remaining(),
        {
            self.advance();
        }
        stmt
    }

    /// `if condition`, a new line, and an indented body.
    fn parse_if(&mut self) -> (r: Option<Node>)
        requires
            old(self).wf(),
            old(self).tokens@[old(self).index as int].kind is KwIf,
        ensures
            final(self).steps(old(self)),
            final(self).items == old(self).items,
            final(self).index > old(self).index,
            final(self).follows(old(self), r, p_if(old(self).tokens@, old(self).index as int)),
        decreases old(self).remaining(), 17int,
    {
        self.advance();
        let condition = match self.parse_expression() {
            Some(c) => c,
            None => return None,
        };
        match self.expect(TokenKind::NewLine) {
            Some(()) => {},
            None => return None,
        }
        match self.expect(TokenKind::Indent) {
            Some(()) => {},
            None => return None,
        }
        let body = self.parse_body();
        Some(Node::new(NodeKind::If { condition: Box::new(condition), if_true: Box::new(body) }))
    }

    /// `while condition` or `loop`, a new line, and an indented body.
    #[verifier::rlimit(100)]
    #[verifier::spinoff_prover]
    fn parse_while(&mut self) -> (r: Option<Node>)
        requires
            old(self).wf(),
            old(self).tokens@[old(self).index as int].kind is KwWhile
                || old(self).tokens@[old(self).index as int].kind is KwLoop,
        ensures
            final(self).steps(old(self)),
            final(self).items == old(self).items,
            final(self).index > old(self).index,
            final(self).follows(old(self), r, p_while(old(self).tokens@, old(self).index as int)),
        decreases old(self).remaining(), 17int,
    {
        let ghost t = self.tokens@;
        let ghost i = self.index as int;
        let condition = if matches!(self.this().kind, TokenKind::KwWhile) {
            self.advance();
            match self.parse_expression() {
                Some(c) => c,
                None => return None,
            }
        } else {
            self.advance();
            Node::new(NodeKind::BooleanLiteral(true))
        };
        proof {
            let (c, e, k) = while_head(t, i);
            assert(c == Some(tree(condition)));
            assert(e == self.index);
            assert(self.errors@.len() == old(self).errors@.len() + k);
        }
        match self.expect(TokenKind::NewLine) {
            Some(()) => {},
            None => return None,
        }
        match self.expect(TokenKind::Indent) {
            Some(()) => {},
            None => return None,
        }
        let body = self.parse_body();
        Some(Node::new(NodeKind::While { condition: Box::new(condition), body: Box::new(body) }))
    }

    /// An expression, optionally followed by `-> channel` or `<- channel` / `<- ?name`.
    fn parse_send_receive(&mut self) -> (r: Option<Node>)
        requires
            old(self).wf(),
        ensures
            final(self).steps(old(self)),
            final(self).items == old(self).items,
            !old(self).at_end() ==> final(self).index > old(self).index,
            final(self).follows(old(self), r, p_send_receive(old(self).tokens@, old(self).index as int)),
        decreases old(self).remaining(), 16int,
    {
        let left = match self.parse_expression() {
            Some(l) => l,
            None => return None,
        };
        match self.this().kind {
            TokenKind::SendArrow => {
                self.advance();
                let right = match self.parse_expression() {
                    Some(r) => r,
                    None => return None,
                };
                Some(Node::new(NodeKind::Send { value: Box::new(left), channel: Box::new(right) }))
            },
            TokenKind::ReceiveArrow => {
                self.advance();
                let mut bind_channel = false;
                if matches!(self.this().kind, TokenKind::QuestionMark) {
                    bind_channel = true;
                    self.advance();
                }
                let right = match self.parse_expression() {
                    Some(r) => r,
                    None => return None,
                };
                Some(Node::new(NodeKind::Receive {
                    value: Box::new(left),
                    channel: Box::new(right),
                    bind_channel,
                }))
            },
            _ => Some(left),
        }
    }

    fn parse_expression(&mut self) -> (r: Option<Node>)
        requires
            old(self).wf(),
        ensures
            final(self).steps(old(self)),
            final(self).items == old(self).items,
            !old(self).at_end() ==> final(self).index > old(self).index,
            final(self).follows(old(self), r, p_expression(old(self).tokens@, old(self).index as int)),
        decreases old(self).remaining(), 10int,
    {
        self.parse_assign()
    }

    /// Assignments chain to the right: `a = b = c` assigns `b = c` to `a`.
    fn parse_assign(&mut self) -> (r: Option<Node>)
        requires
            old(self).wf(),
        ensures
            final(self).steps(old(self)),
            final(self).items == old(self).items,
            !old(self).at_end() ==> final(self).index > old(self).index,
            final(self).follows(old(self), r, p_assign(old(self).tokens@, old(self).index as int)),
        decreases old(self).remaining(), 9int,
    {
        let left = match self.parse_comparison() {
            Some(l) => l,
            None => return None,
        };
        if matches!(self.this().kind, TokenKind::Assign) {
            self.advance();
            let value = match self.parse_assign() {
                Some(v) => v,
                None => return None,
            };
            Some(Node::new(NodeKind::Assign { destination: Box::new(left), value: Box::new(value) }))
        } else {
            Some(left)
        }
    }

    fn parse_comparison(&mut self) -> (r: Option<Node>)
        requires
            old(self).wf(),
        ensures
            final(self).steps(old(self)),
            final(self).items == old(self).items,
            !old(self).at_end() ==> final(self).index > old(self).index,
            final(self).follows(old(self), r, p_level(old(self).tokens@, old(self).index as int, 2)),
        decreases old(self).remaining(), 8int,
    {
        let ghost t = self.tokens@;
        let ghost total = p_level(t, self.index as int, 2);
        proof {
            assert(p_operand(t, self.index as int, 2) == p_level(t, old(self).index as int, 1));
        }
        let mut left = match self.parse_add_sub() {
            Some(l) => l,
            None => return None,
        };
        while matches!(self.this().kind, TokenKind::Equals | TokenKind::LessThan | TokenKind::GreaterThan)
            invariant
                self.steps(old(self)),
                self.items == old(self).items,
                !old(self).at_end() ==> self.index > old(self).index,
                t == self.tokens@,
                total == p_level(t, old(self).index as int, 2),
                ({
                    let (x, e, k) = p_level_rest(t, self.index as int, tree(left), 2);
                    &&& total.0 == x
                    &&& total.1 == e
                    &&& total.2 == self.errors@.len() - old(self).errors@.len() + k
                }),
            decreases self.remaining(),
        {
            let op = match self.this().kind {
                TokenKind::Equals => BinaryOperator::Equals,
                TokenKind::LessThan => BinaryOperator::LessThan,
                _ => BinaryOperator::GreaterThan,
            };
            let ghost j = self.index as int;
            proof {
                assert(operator_at(2, t[j].kind) == Some(op));
                assert(p_operand(t, adv(t, j), 2) == p_level(t, adv(t, j), 1));
            }
            self.advance();
            let right = match self.parse_add_sub() {
                Some(r) => r,
                None => return None,
            };
            left = Node::new(NodeKind::BinaryOperation { left: Box::new(left), op, right: Box::new(right) });
        }
        Some(left)
    }

    fn parse_add_sub(&mut self) -> (r: Option<Node>)
        requires
            old(self).wf(),
        ensures
            final(self).steps(old(self)),
            final(self).items == old(self).items,
            !old(self).at_end() ==> final(self).index > old(self).index,
            final(self).follows(old(self), r, p_level(old(self).tokens@, old(self).index as int, 1)),
        decreases old(self).remaining(), 7int,
    {
        let ghost t = self.tokens@;
        let ghost total = p_level(t, self.index as int, 1);
        proof {
            assert(p_operand(t, self.index as int, 1) == p_level(t, old(self).index as int, 0));
        }
        let mut left = match self.parse_mul_div() {
            Some(l) => l,
            None => return None,
        };
        while matches!(self.this().kind, TokenKind::Add | TokenKind::Subtract)
            invariant
                self.steps(old(self)),
                self.items == old(self).items,
                !old(self).at_end() ==> self.index > old(self).index,
                t == self.tokens@,
                total == p_level(t, old(self).index as int, 1),
                ({
                    let (x, e, k) = p_level_rest(t, self.index as int, tree(left), 1);
                    &&& total.0 == x
                    &&& total.1 == e
                    &&& total.2 == self.errors@.len() - old(self).errors@.len() + k
                }),
            decreases self.remaining(),
        {
            let op = match self.this().kind {
                TokenKind::Add => BinaryOperator::Add,
                _ => BinaryOperator::Subtract,
            };
            let ghost j = self.index as int;
            proof {
                assert(operator_at(1, t[j].kind) == Some(op));
                assert(p_operand(t, adv(t, j), 1) == p_level(t, adv(t, j), 0));
            }
            self.advance();
            let right = match self.parse_mul_div() {
                Some(r) => r,
                None => return None,
            };
            left = Node::new(NodeKind::BinaryOperation { left: Box::new(left), op, right: Box::new(right) });
        }
        Some(left)
    }

    fn parse_mul_div(&mut self) -> (r: Option<Node>)
        requires
            old(self).wf(),
        ensures
            final(self).steps(old(self)),
            final(self).items == old(self).items,
            !old(self).at_end() ==> final(self).index > old(self).index,
            final(self).follows(old(self), r, p_level(old(self).tokens@, old(self).index as int, 0)),
        decreases old(self).remaining(), 6int,
    {
        let ghost t = self.tokens@;
        let ghost total = p_level(t, self.index as int, 0);
        proof {
            assert(p_operand(t, self.index as int, 0) == p_range(t, old(self).index as int));
        }
        let mut left = match self.parse_range() {
            Some(l) => l,
            None => return None,
        };
        while matches!(self.this().kind, TokenKind::Multiply | TokenKind::Divide)
            invariant
                self.steps(old(self)),
                self.items == old(self).items,
                !old(self).at_end() ==> self.index > old(self).index,
                t == self.tokens@,
                total == p_level(t, old(self).index as int, 0),
                ({
                    let (x, e, k) = p_level_rest(t, self.index as int, tree(left), 0);
                    &&& total.0 == x
                    &&& total.1 == e
                    &&& total.2 == self.errors@.len() - old(self).errors@.len() + k
                }),
            decreases self.remaining(),
        {
            let op = match self.this().kind {
                TokenKind::Multiply => BinaryOperator::Multiply,
                _ => BinaryOperator::Divide,
            };
            let ghost j = self.index as int;
            proof {
                assert(operator_at(0, t[j].kind) == Some(op));
                assert(p_operand(t, adv(t, j), 0) == p_range(t, adv(t, j)));
            }
            self.advance();
            let right = match self.parse_range() {
                Some(r) => r,
                None => return None,
            };
            left = Node::new(NodeKind::BinaryOperation { left: Box::new(left), op, right: Box::new(right) });
        }
        Some(left)
    }

    /// `begin .. end`, where `end` is a whole expression.
    fn parse_range(&mut self) -> (r: Option<Node>)
        requires
            old(self).wf(),
        ensures
            final(self).steps(old(self)),
            final(self).items == old(self).items,
            !old(self).at_end() ==> final(self).index > old(self).index,
            final(self).follows(old(self), r, p_range(old(self).tokens@, old(self).index as int)),
        decreases old(self).remaining(), 5int,
    {
        let ghost t = self.tokens@;
        let ghost total = p_range(t, self.index as int);
        let mut left = match self.parse_index() {
            Some(l) => l,
            None => return None,
        };
        while matches!(self.this().kind, TokenKind::Range)
            invariant
                self.steps(old(self)),
                self.items == old(self).items,
                !old(self).at_end() ==> self.index > old(self).index,
                t == self.tokens@,
                total == p_range(t, old(self).index as int),
                ({
                    let (x, e, k) = p_range_rest(t, self.index as int, tree(left));
                    &&& total.0 == x
                    &&& total.1 == e
                    &&& total.2 == self.errors@.len() - old(self).errors@.len() + k
                }),
            decreases self.remaining(),
        {
            self.advance();
            let end = match self.parse_expression() {
                Some(e) => e,
                None => return None,
            };
            left = Node::new(NodeKind::Range { begin: Box::new(left), end: Box::new(end) });
        }
        Some(left)
    }

    /// `value[index]`, any number of times.
    fn parse_index(&mut self) -> (r: Option<Node>)
        requires
            old(self).wf(),
        ensures
            final(self).steps(old(self)),
            final(self).items == old(self).items,
            !old(self).at_end() ==> final(self).index > old(self).index,
            final(self).follows(old(self), r, p_index(old(self).tokens@, old(self).index as int)),
        decreases old(self).remaining(), 4int,
    {
        let ghost t = self.tokens@;
        let ghost total = p_index(t, self.index as int);
        let mut left = match self.parse_parens() {
            Some(l) => l,
            None => return None,
        };
        while matches!(self.this().kind, TokenKind::LeftBrace)
            invariant
                self.steps(old(self)),
                self.items == old(self).items,
                !old(self).at_end() ==> self.index > old(self).index,
                t == self.tokens@,
                total == p_index(t, old(self).index as int),
                ({
                    let (x, e, k) = p_index_rest(t, self.index as int, tree(left));
                    &&& total.0 == x
                    &&& total.1 == e
                    &&& total.2 == self.errors@.len() - old(self).errors@.len() + k
                }),
            decreases self.remaining(),
        {
            self.advance();
            let index = match self.parse_expression() {
                Some(i) => i,
                None => return None,
            };
            left = Node::new(NodeKind::Index { value: Box::new(left), index: Box::new(index) });
            match self.expect(TokenKind::RightBrace) {
                Some(()) => {},
                None => return None,
            }
        }
        Some(left)
    }

    /// `( expression )`, or an atom.
    fn parse_parens(&mut self) -> (r: Option<Node>)
        requires
            old(self).wf(),
        ensures
            final(self).steps(old(self)),
            final(self).items == old(self).items,
            !old(self).at_end() ==> final(self).index > old(self).index,
            final(self).follows(old(self), r, p_parens(old(self).tokens@, old(self).index as int)),
        decreases old(self).remaining(), 3int,
    {
        if matches!(self.this().kind, TokenKind::LeftParen) {
            self.advance();
            let result = match self.parse_expression() {
                Some(e) => e,
                None => return None,
            };
            if !matches!(self.this().kind, TokenKind::RightParen) {
                self.push_unexpected_error();
                return None;
            }
            self.advance();
            Some(result)
        } else {
            self.parse_atom()
        }
    }

    /// A name, a literal, or an array literal `[a, b, c]` (a trailing comma allowed).
    fn parse_atom(&mut self) -> (r: Option<Node>)
        requires
            old(self).wf(),
        ensures
            final(self).steps(old(self)),
            final(self).items == old(self).items,
            !old(self).at_end() ==> final(self).index > old(self).index,
            final(self).follows(old(self), r, p_atom(old(self).tokens@, old(self).index as int)),
        decreases old(self).remaining(), 2int,
    {
        let ghost t = self.tokens@;
        match &self.this().kind {
            TokenKind::Identifier(id) => {
                let x = Node::new(NodeKind::Identifier(id.clone()));
                self.advance();
                Some(x)
            },
            TokenKind::IntegerLiteral(value) => {
                let x = Node::new(NodeKind::IntegerLiteral(*value));
                self.advance();
                Some(x)
            },
            TokenKind::KwTrue => {
                self.advance();
                Some(Node::new(NodeKind::BooleanLiteral(true)))
            },
            TokenKind::KwFalse => {
                self.advance();
                Some(Node::new(NodeKind::BooleanLiteral(false)))
            },
            TokenKind::KwNull => {
                self.advance();
                Some(Node::new(NodeKind::NullLiteral))
            },
            TokenKind::LeftBrace => {
                self.advance();
                let ghost total = p_atom(t, old(self).index as int);
                let mut items: Vec<Node> = Vec::new();
                while !matches!(self.this().kind, TokenKind::RightBrace)
                    invariant
                        self.steps(old(self)),
                        self.items == old(self).items,
                        self.index > old(self).index,
                        t == self.tokens@,
                        total == p_atom(t, old(self).index as int),
                        ({
                            let (x, e, k) = p_array(t, self.index as int, trees(items@));
                            &&& total.0 == x
                            &&& total.1 == e
                            &&& total.2 == self.errors@.len() - old(self).errors@.len() + k
                        }),
                    decreases self.remaining(),
                {
                    if self.at_end_exec() {
                        self.push_unexpected_error();
                        return None;
                    }
                    let item = match self.parse_expression() {
                        Some(e) => e,
                        None => return None,
                    };
                    let ghost before = items@;
                    items.push(item);
                    proof {
                        assert(items@.subrange(0, items@.len() - 1) =~= before);
                    }
                    if !matches!(self.this().kind, TokenKind::RightBrace) {
                        match self.expect(TokenKind::Comma) {
                            Some(()) => {},
                            None => return None,
                        }
                    }
                }
                self.advance();
                Some(Node::new(NodeKind::ArrayLiteral(items)))
            },
            _ => {
                self.push_unexpected_error();
                self.advance();
                None
            },
        }
    }

    fn at_end_exec(&self) -> (r: bool)
        requires
            self.wf(),
        ensures
            r == self.at_end(),
    {
        matches!(self.this().kind, TokenKind::EndOfFile)
    }

    /// Moves to the next token; `EndOfFile` is never left.
    fn advance(&mut self)
        requires
            old(self).wf(),
        ensures
            final(self).wf(),
            final(self).tokens == old(self).tokens,
            final(self).items == old(self).items,
            final(self).errors == old(self).errors,
            final(self).index >= old(self).index,
            !old(self).at_end() ==> final(self).index == old(self).index + 1,
            final(self).index == adv(old(self).tokens@, old(self).index as int),
    {
        if self.tokens.len() - self.index > 1 {
            self.index = self.index + 1;
        }
    }

    fn this(&self) -> (r: &Token)
        requires
            self.wf(),
        ensures
            *r == self.tokens@[self.index as int],
    {
        &self.tokens[self.index]
    }

    /// Skips a token of `kind`, or reports the token that stands there instead.
    fn expect(&mut self, kind: TokenKind) -> (r: Option<()>)
        requires
            old(self).wf(),
        ensures
            final(self).steps(old(self)),
            final(self).items == old(self).items,
            r is Some <==> same_kind_spec(old(self).tokens@[old(self).index as int].kind, kind),
            r is Some && !old(self).at_end() ==> final(self).index == old(self).index + 1,
            r is None ==> final(self).index == old(self).index,
            r is None ==> final(self).errors@.len() == old(self).errors@.len() + 1,
            r is Some ==> final(self).index == adv(old(self).tokens@, old(self).index as int),
            r is Some ==> final(self).errors == old(self).errors,
    {
        if !same_kind(&self.this().kind, &kind) {
            self.push_unexpected_error();
            return None;
        }
        self.advance();
        Some(())
    }

    fn push_unexpected_error(&mut self)
        requires
            old(self).wf(),
        ensures
            final(self).steps(old(self)),
            final(self).index == old(self).index,
            final(self).items == old(self).items,
            final(self).errors@.len() == old(self).errors@.len() + 1,
    {
        self.errors.push(ParserError::new("unexpected token"));
    }
}

} // verus!
