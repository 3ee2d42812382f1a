use vstd::prelude::*;

verus! {

/// A node of the syntax tree that the evaluator walks.
#[derive(Debug)]
pub struct Node {
    pub kind: NodeKind,
}

impl Node {
    pub fn new(kind: NodeKind) -> (r: Self)
        ensures
            r.kind == kind,
    {
        Self { kind }
    }
}

#[derive(Debug)]
pub enum NodeKind {
    Body(Vec<Node>),
    IntegerLiteral(i64),
    BooleanLiteral(bool),
    NullLiteral,
    ArrayLiteral(Vec<Node>),
    Range { begin: Box<Node>, end: Box<Node> },
    Identifier(String),
    BinaryOperation { left: Box<Node>, op: BinaryOperator, right: Box<Node> },
    If { condition: Box<Node>, if_true: Box<Node> },
    While { condition: Box<Node>, body: Box<Node> },
    Assign { value: Box<Node>, destination: Box<Node> },
    Index { value: Box<Node>, index: Box<Node> },
    Send { value: Box<Node>, channel: Box<Node> },
    Receive { value: Box<Node>, channel: Box<Node>, bind_channel: bool },
    Exit,
}

/// `a` and `b` are the same tree: same kinds, same payloads, same children.
/// (Equality of the nodes themselves would also compare the vectors that hold
/// the children, which two copies need not share.)
pub open spec fn same_tree(a: Node, b: Node) -> bool
    decreases a,
{
    match (a.kind, b.kind) {
        (NodeKind::Body(x), NodeKind::Body(y)) => same_trees(x@, y@),
        (NodeKind::ArrayLiteral(x), NodeKind::ArrayLiteral(y)) => same_trees(x@, y@),
        (NodeKind::Range { begin: a1, end: a2 }, NodeKind::Range { begin: b1, end: b2 }) =>
            same_tree(*a1, *b1) && same_tree(*a2, *b2),
        (NodeKind::BinaryOperation { left: a1, op: o1, right: a2 }, NodeKind::BinaryOperation { left: b1, op: o2, right: b2 }) =>
            o1 == o2 && same_tree(*a1, *b1) && same_tree(*a2, *b2),
        (NodeKind::If { condition: a1, if_true: a2 }, NodeKind::If { condition: b1, if_true: b2 }) =>
            same_tree(*a1, *b1) && same_tree(*a2, *b2),
        (NodeKind::While { condition: a1, body: a2 }, NodeKind::While { condition: b1, body: b2 }) =>
            same_tree(*a1, *b1) && same_tree(*a2, *b2),
        (NodeKind::Assign { value: a1, destination: a2 }, NodeKind::Assign { value: b1, destination: b2 }) =>
            same_tree(*a1, *b1) && same_tree(*a2, *b2),
        (NodeKind::Index { value: a1, index: a2 }, NodeKind::Index { value: b1, index: b2 }) =>
            same_tree(*a1, *b1) && same_tree(*a2, *b2),
        (NodeKind::Send { value: a1, channel: a2 }, NodeKind::Send { value: b1, channel: b2 }) =>
            same_tree(*a1, *b1) && same_tree(*a2, *b2),
        (NodeKind::Receive { value: a1, channel: a2, bind_channel: c1 }, NodeKind::Receive { value: b1, channel: b2, bind_channel: c2 }) =>
            c1 == c2 && same_tree(*a1, *b1) && same_tree(*a2, *b2),
        (NodeKind::Identifier(x), NodeKind::Identifier(y)) => x == y,
        (NodeKind::IntegerLiteral(x), NodeKind::IntegerLiteral(y)) => x == y,
        (NodeKind::BooleanLiteral(x), NodeKind::BooleanLiteral(y)) => x == y,
        (NodeKind::NullLiteral, NodeKind::NullLiteral) => true,
        (NodeKind::Exit, NodeKind::Exit) => true,
        _ => false,
    }
}

/// The same trees, one for one.
pub open spec fn same_trees(x: Seq<Node>, y: Seq<Node>) -> bool
    decreases x,
{
    if x.len() == 0 {
        y.len() == 0
    } else {
        y.len() == x.len() && same_trees(x.subrange(0, x.len() - 1), y.subrange(0, y.len() - 1))
            && same_tree(x[x.len() - 1], y[y.len() - 1])
    }
}

pub proof fn lemma_same_tree_refl(a: Node)
    ensures
        same_tree(a, a),
    decreases a,
{
    match a.kind {
        NodeKind::Body(x) => lemma_same_trees_refl(x@),
        NodeKind::ArrayLiteral(x) => lemma_same_trees_refl(x@),
        NodeKind::Range { begin, end } => {
            lemma_same_tree_refl(*begin);
            lemma_same_tree_refl(*end);
        },
        NodeKind::BinaryOperation { left, right, .. } => {
            lemma_same_tree_refl(*left);
            lemma_same_tree_refl(*right);
        },
        NodeKind::If { condition, if_true } => {
            lemma_same_tree_refl(*condition);
            lemma_same_tree_refl(*if_true);
        },
        NodeKind::While { condition, body } => {
            lemma_same_tree_refl(*condition);
            lemma_same_tree_refl(*body);
        },
        NodeKind::Assign { value, destination } => {
            lemma_same_tree_refl(*value);
            lemma_same_tree_refl(*destination);
        },
        NodeKind::Index { value, index } => {
            lemma_same_tree_refl(*value);
            lemma_same_tree_refl(*index);
        },
        NodeKind::Send { value, channel } => {
            lemma_same_tree_refl(*value);
            lemma_same_tree_refl(*channel);
        },
        NodeKind::Receive { value, channel, .. } => {
            lemma_same_tree_refl(*value);
            lemma_same_tree_refl(*channel);
        },
        _ => {},
    }
}

pub proof fn lemma_same_trees_refl(x: Seq<Node>)
    ensures
        same_trees(x, x),
    decreases x,
{
    if x.len() > 0 {
        lemma_same_trees_refl(x.subrange(0, x.len() - 1));
        lemma_same_tree_refl(x[x.len() - 1]);
    }
}

pub proof fn lemma_same_tree_trans(a: Node, b: Node, c: Node)
    requires
        same_tree(a, b),
        same_tree(b, c),
    ensures
        same_tree(a, c),
    decreases a,
{
    match (a.kind, b.kind, c.kind) {
        (NodeKind::Body(x), NodeKind::Body(y), NodeKind::Body(z)) => lemma_same_trees_trans(x@, y@, z@),
        (NodeKind::ArrayLiteral(x), NodeKind::ArrayLiteral(y), NodeKind::ArrayLiteral(z)) => lemma_same_trees_trans(x@, y@, z@),
        (NodeKind::Range { begin: a1, end: a2, .. }, NodeKind::Range { begin: b1, end: b2, .. }, NodeKind::Range { begin: c1, end: c2, .. }) => {
            lemma_same_tree_trans(*a1, *b1, *c1);
            lemma_same_tree_trans(*a2, *b2, *c2);
        },
        (NodeKind::BinaryOperation { left: a1, right: a2, .. }, NodeKind::BinaryOperation { left: b1, right: b2, .. }, NodeKind::BinaryOperation { left: c1, right: c2, .. }) => {
            lemma_same_tree_trans(*a1, *b1, *c1);
            lemma_same_tree_trans(*a2, *b2, *c2);
        },
        (NodeKind::If { condition: a1, if_true: a2, .. }, NodeKind::If { condition: b1, if_true: b2, .. }, NodeKind::If { condition: c1, if_true: c2, .. }) => {
            lemma_same_tree_trans(*a1, *b1, *c1);
            lemma_same_tree_trans(*a2, *b2, *c2);
        },
        (NodeKind::While { condition: a1, body: a2, .. }, NodeKind::While { condition: b1, body: b2, .. }, NodeKind::While { condition: c1, body: c2, .. }) => {
            lemma_same_tree_trans(*a1, *b1, *c1);
            lemma_same_tree_trans(*a2, *b2, *c2);
        },
        (NodeKind::Assign { value: a1, destination: a2, .. }, NodeKind::Assign { value: b1, destination: b2, .. }, NodeKind::Assign { value: c1, destination: c2, .. }) => {
            lemma_same_tree_trans(*a1, *b1, *c1);
            lemma_same_tree_trans(*a2, *b2, *c2);
        },
        (NodeKind::Index { value: a1, index: a2, .. }, NodeKind::Index { value: b1, index: b2, .. }, NodeKind::Index { value: c1, index: c2, .. }) => {
            lemma_same_tree_trans(*a1, *b1, *c1);
            lemma_same_tree_trans(*a2, *b2, *c2);
        },
        (NodeKind::Send { value: a1, channel: a2, .. }, NodeKind::Send { value: b1, channel: b2, .. }, NodeKind::Send { value: c1, channel: c2, .. }) => {
            lemma_same_tree_trans(*a1, *b1, *c1);
            lemma_same_tree_trans(*a2, *b2, *c2);
        },
        (NodeKind::Receive { value: a1, channel: a2, .. }, NodeKind::Receive { value: b1, channel: b2, .. }, NodeKind::Receive { value: c1, channel: c2, .. }) => {
            lemma_same_tree_trans(*a1, *b1, *c1);
            lemma_same_tree_trans(*a2, *b2, *c2);
        },
        _ => {},
    }
}

pub proof fn lemma_same_trees_trans(x: Seq<Node>, y: Seq<Node>, z: Seq<Node>)
    requires
        same_trees(x, y),
        same_trees(y, z),
    ensures
        same_trees(x, z),
    decreases x,
{
    if x.len() > 0 {
        lemma_same_trees_trans(x.subrange(0, x.len() - 1), y.subrange(0, y.len() - 1), z.subrange(0, z.len() - 1));
        lemma_same_tree_trans(x[x.len() - 1], y[y.len() - 1], z[z.len() - 1]);
    }
}

impl Clone for Node {
    fn clone(&self) -> (r: Self)
        ensures
            same_tree(r, *self),
        decreases self,
    {
        Node { kind: self.kind.clone() }
    }
}

fn clone_nodes(v: &Vec<Node>) -> (r: Vec<Node>)
    ensures
        same_trees(r@, v@),
    decreases v,
{
    let mut out: Vec<Node> = Vec::new();
    let mut i: usize = 0;
    while i < v.len()
        invariant
            i <= v.len(),
            same_trees(out@, v@.subrange(0, i as int)),
        decreases v.len() - i,
    {
        let c = v[i].clone();
        let ghost before = out@;
        out.push(c);
        proof {
            assert(out@.subrange(0, i as int) =~= before);
            assert(v@.subrange(0, i + 1).subrange(0, i as int) =~= v@.subrange(0, i as int));
        }
        i = i + 1;
    }
    proof {
        assert(v@.subrange(0, v@.len() as int) =~= v@);
    }
    out
}

impl Clone for NodeKind {
    fn clone(&self) -> (r: Self)
        ensures
            same_tree(Node { kind: r }, Node { kind: *self }),
        decreases self,
    {
        match self {
            NodeKind::Body(v) => NodeKind::Body(clone_nodes(v)),
            NodeKind::IntegerLiteral(i) => NodeKind::IntegerLiteral(*i),
            NodeKind::BooleanLiteral(b) => NodeKind::BooleanLiteral(*b),
            NodeKind::NullLiteral => NodeKind::NullLiteral,
            NodeKind::ArrayLiteral(v) => NodeKind::ArrayLiteral(clone_nodes(v)),
            NodeKind::Range { begin, end } => NodeKind::Range {
                begin: Box::new((**begin).clone()),
                end: Box::new((**end).clone()),
            },
            NodeKind::Identifier(s) => NodeKind::Identifier(s.clone()),
            NodeKind::BinaryOperation { left, op, right } => NodeKind::BinaryOperation {
                left: Box::new((**left).clone()),
                op: *op,
                right: Box::new((**right).clone()),
            },
            NodeKind::If { condition, if_true } => NodeKind::If {
                condition: Box::new((**condition).clone()),
                if_true: Box::new((**if_true).clone()),
            },
            NodeKind::While { condition, body } => NodeKind::While {
                condition: Box::new((**condition).clone()),
                body: Box::new((**body).clone()),
            },
            NodeKind::Assign { value, destination } => NodeKind::Assign {
                value: Box::new((**value).clone()),
                destination: Box::new((**destination).clone()),
            },
            NodeKind::Index { value, index } => NodeKind::Index {
                value: Box::new((**value).clone()),
                index: Box::new((**index).clone()),
            },
            NodeKind::Send { value, channel } => NodeKind::Send {
                value: Box::new((**value).clone()),
                channel: Box::new((**channel).clone()),
            },
            NodeKind::Receive { value, channel, bind_channel } => NodeKind::Receive {
                value: Box::new((**value).clone()),
                channel: Box::new((**channel).clone()),
                bind_channel: *bind_channel,
            },
            NodeKind::Exit => NodeKind::Exit,
        }
    }
}

#[derive(Debug, Copy, Clone, PartialEq, Eq, Structural)]
pub enum BinaryOperator {
    Add,
    Subtract,
    Multiply,
    Divide,
    Equals,
    LessThan,
    GreaterThan,
}

/// A top-level item of a program.
#[derive(Debug, Clone)]
pub struct Item {
    pub kind: ItemKind,
}

#[derive(Debug, Clone)]
pub enum ItemKind {
    /// `task name` or, with `instances`, `task name[instances]`.
    TaskDefinition { name: String, body: Node, instances: Option<usize> },
}

} // verus!
