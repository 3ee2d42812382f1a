use vstd::prelude::*;
use crossbeam_channel::{Receiver, Sender};
use crate::node::{BinaryOperator, Node, NodeKind};
use crate::fabric;
use crate::text::{concat, formatted, int_text, joined, printable, texts};

verus! {

/// Identity of one running task frame; replicas of a task get distinct ids.
#[derive(Debug, Copy, Clone, PartialEq, Eq, Hash, Structural)]
pub struct TaskID(pub usize);

/// What went wrong while a task frame was evaluated.
#[derive(Debug, Copy, Clone, PartialEq, Eq, Structural)]
pub enum ErrorKind {
    /// An unknown identifier.
    Resolve,
    /// An operand of the wrong kind.
    Type,
    /// A tree of the wrong shape, such as an assignment to a non-identifier.
    Form,
    /// An index or a slice outside an array.
    Bounds,
    /// A division by zero.
    Arithmetic,
    /// A send or receive on a channel whose other end is gone.
    Channel,
    /// A receive that could never complete, such as a select over no peers.
    Deadlock,
    /// A loop ran through its whole iteration budget.
    Limit,
}

#[derive(Debug, Clone, PartialEq, Eq)]
pub struct InterpreterError {
    pub kind: ErrorKind,
    pub message: String,
}

impl InterpreterError {
    pub fn new(kind: ErrorKind, message: &str) -> (r: Self)
        ensures
            r.kind == kind,
            r.message@ == message@,
    {
        Self { kind, message: message.to_owned() }
    }
}

#[derive(Debug, Copy, Clone, PartialEq, Eq, Structural)]
pub enum MagicTask {
    Out,
}

/// A runtime value.
#[derive(Debug, PartialEq, Eq)]
pub enum Value {
    Null,
    Integer(i64),
    Boolean(bool),
    TaskReference(TaskID, String),
    MagicTaskReference(MagicTask),
    Array(Vec<Value>),
    Range { begin: Box<Value>, end: Box<Value> },
}

/// The mathematical content of a `Value`.
pub enum VModel {
    Null,
    Integer(i64),
    Boolean(bool),
    TaskReference(TaskID, Seq<char>),
    MagicTaskReference(MagicTask),
    Array(Seq<VModel>),
    Range(Box<VModel>, Box<VModel>),
}

impl Value {
    pub open spec fn model(&self) -> VModel
        decreases self,
    {
        match self {
            Value::Null => VModel::Null,
            Value::Integer(i) => VModel::Integer(*i),
            Value::Boolean(b) => VModel::Boolean(*b),
            Value::TaskReference(id, name) => VModel::TaskReference(*id, name@),
            Value::MagicTaskReference(m) => VModel::MagicTaskReference(*m),
            Value::Array(vs) => VModel::Array(models(vs@)),
            Value::Range { begin, end } => VModel::Range(
                Box::new(begin.model()),
                Box::new(end.model()),
            ),
        }
    }
}

/// The models of a sequence of values, element by element.
pub open spec fn models(s: Seq<Value>) -> Seq<VModel>
    decreases s,
{
    if s.len() == 0 {
        Seq::empty()
    } else {
        models(s.drop_last()).push(s.last().model())
    }
}

impl Clone for Value {
    fn clone(&self) -> (r: Self)
        ensures
            r.model() == self.model(),
        decreases self,
    {
        match self {
            Value::Null => Value::Null,
            Value::Integer(i) => Value::Integer(*i),
            Value::Boolean(b) => Value::Boolean(*b),
            Value::TaskReference(id, name) => Value::TaskReference(*id, name.clone()),
            Value::MagicTaskReference(m) => Value::MagicTaskReference(*m),
            Value::Array(vs) => Value::Array(clone_values(vs)),
            Value::Range { begin, end } => Value::Range {
                begin: Box::new((**begin).clone()),
                end: Box::new((**end).clone()),
            },
        }
    }
}

/// A copy of `vs` whose elements have the same models.
pub fn clone_values(vs: &Vec<Value>) -> (r: Vec<Value>)
    ensures
        models(r@) == models(vs@),
    decreases vs,
{
    let mut out: Vec<Value> = Vec::new();
    let mut i: usize = 0;
    while i < vs.len()
        invariant
            i <= vs.len(),
            out@.len() == i,
            forall|j: int| 0 <= j < i ==> #[trigger] out@[j].model() == vs@[j].model(),
        decreases vs.len() - i,
    {
        let c = vs[i].clone();
        out.push(c);
        i = i + 1;
    }
    proof {
        lemma_models(out@);
        lemma_models(vs@);
        assert(models(out@) =~= models(vs@));
    }
    out
}

impl Value {
    /// Null and false are false; everything else is true.
    pub fn is_truthy(&self) -> (r: bool)
        ensures
            r == truthy(self.model()),
    {
        match self {
            Value::Boolean(false) => false,
            Value::Null => false,
            _ => true,
        }
    }

    /// The integer this value holds.
    pub fn get_integer(&self) -> (r: Result<i64, InterpreterError>)
        ensures
            match self.model() {
                VModel::Integer(i) => r == Ok::<i64, InterpreterError>(i),
                _ => r matches Err(e) && e.kind == ErrorKind::Type,
            },
    {
        match self {
            Value::Integer(i) => Ok(*i),
            _ => Err(InterpreterError::new(ErrorKind::Type, "expected an integer")),
        }
    }

    /// The id of the task this value refers to.
    pub fn get_task_id(&self) -> (r: Result<TaskID, InterpreterError>)
        ensures
            match self.model() {
                VModel::TaskReference(id, _) => r == Ok::<TaskID, InterpreterError>(id),
                _ => r matches Err(e) && e.kind == ErrorKind::Type,
            },
    {
        match self {
            Value::TaskReference(id, _) => Ok(*id),
            _ => Err(InterpreterError::new(ErrorKind::Type, "expected a task")),
        }
    }

    /// The text that `$out` shows for this value.
    pub fn to_printable_string(&self) -> (r: String)
        ensures
            r@ == printable(self.model()),
        decreases self,
    {
        match self {
            Value::Null => "null".to_owned(),
            Value::Integer(i) => int_text(*i),
            Value::Boolean(b) => if *b { "true".to_owned() } else { "false".to_owned() },
            Value::TaskReference(_, name) => {
                let parts = vec!["<task ".to_owned(), name.clone(), ">".to_owned()];
                proof {
                    reveal_with_fuel(Seq::flatten, 4);
                    assert(texts(parts@).flatten() =~= "<task "@ + name@ + ">"@);
                }
                concat(&parts)
            },
            Value::MagicTaskReference(MagicTask::Out) => "<task (magic) $out>".to_owned(),
            Value::Array(items) => {
                proof {
                    lemma_models(items@);
                }
                items_text(items)
            },
            Value::Range { begin, end } => {
                let parts = vec![(**begin).to_printable_string(), " .. ".to_owned(), (**end).to_printable_string()];
                proof {
                    reveal_with_fuel(Seq::flatten, 4);
                    assert(texts(parts@).flatten() =~= printable(begin.model()) + " .. "@ + printable(end.model()));
                }
                concat(&parts)
            },
        }
    }
}

/// The text of an array of values, as `$out` shows it.
fn items_text(items: &Vec<Value>) -> (r: String)
    ensures
        r@ == "[ "@ + joined(models(items@)) + " ]"@,
    decreases items,
{
    let ghost ms = models(items@);
    proof {
        lemma_models(items@);
    }
    let mut parts: Vec<String> = vec!["[ ".to_owned()];
    proof {
        reveal_with_fuel(Seq::flatten, 2);
        assert(texts(parts@).flatten() =~= "[ "@ + joined(ms.subrange(0, 0)));
    }
    let mut i: usize = 0;
    while i < items.len()
        invariant
            i <= items.len(),
            ms == models(items@),
            ms.len() == items.len(),
            forall|j: int| 0 <= j < items.len() ==> #[trigger] ms[j] == items@[j].model(),
            texts(parts@).flatten() == "[ "@ + joined(ms.subrange(0, i as int)),
        decreases items.len() - i,
    {
        let t = items[i].to_printable_string();
        let ghost before = texts(parts@);
        if i > 0 {
            parts.push(", ".to_owned());
            parts.push(t);
            proof {
                assert(texts(parts@) =~= before.push(", "@).push(t@));
                before.lemma_flatten_push(", "@);
                before.push(", "@).lemma_flatten_push(t@);
                assert(ms.subrange(0, i + 1).subrange(0, i as int) =~= ms.subrange(0, i as int));
                assert(texts(parts@).flatten() =~= "[ "@ + joined(ms.subrange(0, i + 1)));
            }
        } else {
            parts.push(t);
            proof {
                assert(texts(parts@) =~= before.push(t@));
                before.lemma_flatten_push(t@);
                assert(texts(parts@).flatten() =~= "[ "@ + joined(ms.subrange(0, i + 1)));
            }
        }
        i = i + 1;
    }
    let ghost before = texts(parts@);
    parts.push(" ]".to_owned());
    proof {
        assert(texts(parts@) =~= before.push(" ]"@));
        before.lemma_flatten_push(" ]"@);
        assert(ms.subrange(0, ms.len() as int) =~= ms);
        assert(texts(parts@).flatten() =~= "[ "@ + joined(ms) + " ]"@);
    }
    concat(&parts)
}

/// How many times one `while` may run its body before it gives up.
pub const LOOP_BUDGET: u64 = 18446744073709551615;

pub proof fn lemma_all_local(s: Seq<Node>)
    ensures
        all_local(s) <==> forall|i: int| 0 <= i < s.len() ==> #[trigger] is_local(s[i]),
    decreases s.len(),
{
    if s.len() > 0 {
        let t = s.subrange(0, s.len() - 1);
        lemma_all_local(t);
        assert(all_local(s) == (all_local(t) && is_local(s[s.len() - 1])));
        if all_local(s) {
            assert forall|i: int| 0 <= i < s.len() implies #[trigger] is_local(s[i]) by {
                if i < s.len() - 1 {
                    assert(t[i] == s[i]);
                }
            }
        }
        if forall|i: int| 0 <= i < s.len() ==> #[trigger] is_local(s[i]) {
            assert forall|i: int| 0 <= i < t.len() implies #[trigger] is_local(t[i]) by {
                assert(t[i] == s[i]);
            }
            assert(is_local(s[s.len() - 1]));
        }
    }
}

/// Once a prefix fails, the whole sequence fails the same way.
pub proof fn lemma_eval_all_prefix_err(
    s: Seq<Node>,
    k: int,
    index: Option<usize>,
    locals: Bindings,
    globals: Bindings,
)
    requires
        0 <= k <= s.len(),
        eval_all(s.subrange(0, k), index, locals, globals).0 is Err,
    ensures
        eval_all(s, index, locals, globals) == eval_all(s.subrange(0, k), index, locals, globals),
    decreases s.len(),
{
    if k < s.len() {
        let t = s.subrange(0, s.len() - 1);
        assert(t.subrange(0, k) =~= s.subrange(0, k));
        lemma_eval_all_prefix_err(t, k, index, locals, globals);
    } else {
        assert(s.subrange(0, k) =~= s);
    }
}

/// One more step of `eval_all` over a prefix.
pub proof fn lemma_eval_all_step(s: Seq<Node>, i: int, index: Option<usize>, locals: Bindings, globals: Bindings)
    requires
        0 <= i < s.len(),
    ensures
        eval_all(s.subrange(0, i + 1), index, locals, globals) == ({
            let (r, l) = eval_all(s.subrange(0, i), index, locals, globals);
            match r {
                Err(k) => (Err(k), l),
                Ok(vs) => {
                    let (x, l2) = eval(s[i], index, l, globals);
                    match x {
                        Err(k) => (Err(k), l2),
                        Ok(v) => (Ok(vs.push(v)), l2),
                    }
                },
            }
        }),
{
    assert(s.subrange(0, i + 1).subrange(0, i) =~= s.subrange(0, i));
}

pub proof fn lemma_models(s: Seq<Value>)
    ensures
        models(s).len() == s.len(),
        forall|i: int| 0 <= i < s.len() ==> #[trigger] models(s)[i] == s[i].model(),
    decreases s.len(),
{
    if s.len() > 0 {
        lemma_models(s.drop_last());
    }
}

/// Bindings from a name to the model of a value; the first binding of a name wins.
pub type Bindings = Seq<(Seq<char>, VModel)>;

/// The models of `(name, value)` entries.
pub open spec fn bindings_of(s: Seq<(String, Value)>) -> Bindings {
    s.map_values(|e: (String, Value)| (e.0@, e.1.model()))
}

/// The first position at or after `k` that binds `n`, or -1.
pub open spec fn position_from(s: Bindings, n: Seq<char>, k: int) -> int
    decreases s.len() - k,
{
    if k < 0 || k >= s.len() {
        -1
    } else if s[k].0 == n {
        k
    } else {
        position_from(s, n, k + 1)
    }
}

pub open spec fn position(s: Bindings, n: Seq<char>) -> int {
    position_from(s, n, 0)
}

pub proof fn lemma_position_from(s: Bindings, n: Seq<char>, k: int)
    requires
        0 <= k,
    ensures
        position_from(s, n, k) == -1 || (k <= position_from(s, n, k) < s.len() && s[position_from(s, n, k)].0 == n),
        position_from(s, n, k) == -1 ==> forall|j: int| k <= j < s.len() ==> s[j].0 != n,
    decreases s.len() - k,
{
    if k < s.len() && s[k].0 != n {
        lemma_position_from(s, n, k + 1);
    }
}

/// What `n` is bound to in `s`.
pub open spec fn lookup(s: Bindings, n: Seq<char>) -> Option<VModel> {
    let p = position(s, n);
    if p >= 0 { Some(s[p].1) } else { None }
}

/// `s` with `n` bound to `v`: the binding is replaced in place, or added at the end.
pub open spec fn assign(s: Bindings, n: Seq<char>, v: VModel) -> Bindings {
    let p = position(s, n);
    if p >= 0 { s.update(p, (n, v)) } else { s.push((n, v)) }
}

/// No name is bound twice.
pub open spec fn unique_names(s: Bindings) -> bool {
    forall|a: int, b: int| 0 <= a < b < s.len() ==> (#[trigger] s[a]).0 != (#[trigger] s[b]).0
}

/// Binding a name keeps names unique.
pub proof fn lemma_assign_unique(s: Bindings, n: Seq<char>, v: VModel)
    requires
        unique_names(s),
    ensures
        unique_names(assign(s, n, v)),
{
    lemma_position_from(s, n, 0);
    let t = assign(s, n, v);
    assert forall|a: int, b: int| 0 <= a < b < t.len() implies (#[trigger] t[a]).0 != (#[trigger] t[b]).0 by {
        if position(s, n) < 0 && b == s.len() {
            assert(s[a].0 != n);
        }
    }
}

/// Null and false are false; every other value, zero and `[ ]` included, is true.
pub open spec fn truthy(v: VModel) -> bool {
    !(v is Null || v == VModel::Boolean(false))
}

/// Division truncating toward zero; the one overflowing case wraps.
pub open spec fn quotient(l: i64, r: i64) -> i64 {
    match l.checked_div(r) {
        Some(q) => q,
        None => i64::MIN,
    }
}

/// What a binary operator gives on two integers.
pub open spec fn binary_result(op: BinaryOperator, l: i64, r: i64) -> Result<VModel, ErrorKind> {
    match op {
        BinaryOperator::Add => Ok(VModel::Integer(l.wrapping_add(r))),
        BinaryOperator::Subtract => Ok(VModel::Integer(l.wrapping_sub(r))),
        BinaryOperator::Multiply => Ok(VModel::Integer(l.wrapping_mul(r))),
        BinaryOperator::Divide => if r == 0 {
            Err(ErrorKind::Arithmetic)
        } else {
            Ok(VModel::Integer(quotient(l, r)))
        },
        BinaryOperator::Equals => Ok(VModel::Boolean(l == r)),
        BinaryOperator::LessThan => Ok(VModel::Boolean(l < r)),
        BinaryOperator::GreaterThan => Ok(VModel::Boolean(l > r)),
    }
}

/// An index counted from the end when negative.
pub open spec fn wrapped(k: i64, len: int) -> int {
    if k < 0 { len + k } else { k as int }
}

/// `items[k]`, with a negative `k` counted from the end.
pub open spec fn index_item(items: Seq<VModel>, k: i64) -> Result<VModel, ErrorKind> {
    let w = wrapped(k, items.len() as int);
    if 0 <= w < items.len() { Ok(items[w]) } else { Err(ErrorKind::Bounds) }
}

/// `items[b .. e]`, each end counted from the end when negative.
pub open spec fn slice_items(items: Seq<VModel>, b: i64, e: i64) -> Result<VModel, ErrorKind> {
    let wb = wrapped(b, items.len() as int);
    let we = wrapped(e, items.len() as int);
    if 0 <= wb <= we <= items.len() {
        Ok(VModel::Array(items.subrange(wb, we)))
    } else {
        Err(ErrorKind::Bounds)
    }
}

/// Indexing a value by a value.
pub open spec fn index_value(target: VModel, ix: VModel) -> Result<VModel, ErrorKind> {
    match target {
        VModel::Array(items) => match ix {
            VModel::Integer(k) => index_item(items, k),
            VModel::Range(b, e) => match (*b, *e) {
                (VModel::Integer(bi), VModel::Integer(ei)) => slice_items(items, bi, ei),
                _ => Err(ErrorKind::Type),
            },
            _ => Err(ErrorKind::Type),
        },
        _ => Err(ErrorKind::Type),
    }
}

/// What a name means in a frame: the magic names, then locals, then globals.
pub open spec fn resolve_name(
    index: Option<usize>,
    locals: Bindings,
    globals: Bindings,
    n: Seq<char>,
) -> Result<VModel, ErrorKind> {
    if n == "$out"@ {
        Ok(VModel::MagicTaskReference(MagicTask::Out))
    } else if n == "$index"@ {
        match index {
            Some(i) => Ok(VModel::Integer(i as i64)),
            None => Ok(VModel::Null),
        }
    } else if lookup(locals, n) is Some {
        Ok(lookup(locals, n)->Some_0)
    } else if lookup(globals, n) is Some {
        Ok(lookup(globals, n)->Some_0)
    } else {
        Err(ErrorKind::Resolve)
    }
}

/// A node that neither touches a channel nor exits.
pub open spec fn is_local(node: Node) -> bool
    decreases node,
{
    match node.kind {
        NodeKind::Body(v) => all_local(v@),
        NodeKind::ArrayLiteral(v) => all_local(v@),
        NodeKind::Range { begin, end } => is_local(*begin) && is_local(*end),
        NodeKind::BinaryOperation { left, op, right } => is_local(*left) && is_local(*right),
        NodeKind::If { condition, if_true } => is_local(*condition) && is_local(*if_true),
        NodeKind::Assign { value, destination } => is_local(*value),
        NodeKind::Index { value, index } => is_local(*value) && is_local(*index),
        NodeKind::While { condition, body } => is_local(*condition) && is_local(*body),
        NodeKind::Send { .. } | NodeKind::Receive { .. } | NodeKind::Exit => false,
        _ => true,
    }
}

pub open spec fn all_local(s: Seq<Node>) -> bool
    decreases s,
{
    if s.len() == 0 {
        true
    } else {
        all_local(s.subrange(0, s.len() - 1)) && is_local(s[s.len() - 1])
    }
}

/// The outcome of a local node and the locals after it.
pub open spec fn eval(node: Node, index: Option<usize>, locals: Bindings, globals: Bindings) -> (
    Result<VModel, ErrorKind>,
    Bindings,
)
    decreases node, LOOP_BUDGET as int + 1,
{
    match node.kind {
        NodeKind::Body(v) => {
            let (r, l) = eval_all(v@, index, locals, globals);
            match r {
                Ok(vs) => (Ok(if vs.len() == 0 { VModel::Null } else { vs.last() }), l),
                Err(k) => (Err(k), l),
            }
        },
        NodeKind::IntegerLiteral(i) => (Ok(VModel::Integer(i)), locals),
        NodeKind::BooleanLiteral(b) => (Ok(VModel::Boolean(b)), locals),
        NodeKind::NullLiteral => (Ok(VModel::Null), locals),
        NodeKind::ArrayLiteral(v) => {
            let (r, l) = eval_all(v@, index, locals, globals);
            match r {
                Ok(vs) => (Ok(VModel::Array(vs)), l),
                Err(k) => (Err(k), l),
            }
        },
        NodeKind::Range { begin, end } => {
            let (b, l1) = eval(*begin, index, locals, globals);
            match b {
                Err(k) => (Err(k), l1),
                Ok(bv) => {
                    let (e, l2) = eval(*end, index, l1, globals);
                    match e {
                        Err(k) => (Err(k), l2),
                        Ok(ev) => (Ok(VModel::Range(Box::new(bv), Box::new(ev))), l2),
                    }
                },
            }
        },
        NodeKind::Identifier(n) => (resolve_name(index, locals, globals, n@), locals),
        NodeKind::BinaryOperation { left, op, right } => {
            let (a, l1) = eval(*left, index, locals, globals);
            match a {
                Err(k) => (Err(k), l1),
                Ok(av) => {
                    let (b, l2) = eval(*right, index, l1, globals);
                    match (b, av) {
                        (Err(k), _) => (Err(k), l2),
                        (Ok(VModel::Integer(y)), VModel::Integer(x)) => (binary_result(op, x, y), l2),
                        _ => (Err(ErrorKind::Type), l2),
                    }
                },
            }
        },
        NodeKind::If { condition, if_true } => {
            let (c, l1) = eval(*condition, index, locals, globals);
            match c {
                Err(k) => (Err(k), l1),
                Ok(cv) => if truthy(cv) {
                    eval(*if_true, index, l1, globals)
                } else {
                    (Ok(VModel::Null), l1)
                },
            }
        },
        NodeKind::While { .. } => eval_loop(node, LOOP_BUDGET as int, VModel::Null, index, locals, globals),
        NodeKind::Assign { value, destination } => {
            let (a, l1) = eval(*value, index, locals, globals);
            match a {
                Err(k) => (Err(k), l1),
                Ok(v) => match destination.kind {
                    NodeKind::Identifier(n) => (Ok(VModel::Null), assign(l1, n@, v)),
                    _ => (Err(ErrorKind::Form), l1),
                },
            }
        },
        NodeKind::Index { value, index: ix } => {
            let (t, l1) = eval(*value, index, locals, globals);
            match t {
                Err(k) => (Err(k), l1),
                Ok(tv) => {
                    let (i, l2) = eval(*ix, index, l1, globals);
                    match i {
                        Err(k) => (Err(k), l2),
                        Ok(iv) => (index_value(tv, iv), l2),
                    }
                },
            }
        },
        _ => (Err(ErrorKind::Form), locals),
    }
}

/// A `while` node `w` with `budget` iterations left, whose last body gave `last`.
pub open spec fn eval_loop(
    w: Node,
    budget: int,
    last: VModel,
    index: Option<usize>,
    locals: Bindings,
    globals: Bindings,
) -> (Result<VModel, ErrorKind>, Bindings)
    decreases w, budget,
{
    match w.kind {
        NodeKind::While { condition, body } => {
            let (c, l1) = eval(*condition, index, locals, globals);
            match c {
                Err(k) => (Err(k), l1),
                Ok(cv) => if !truthy(cv) {
                    (Ok(last), l1)
                } else if budget <= 0 {
                    (Err(ErrorKind::Limit), l1)
                } else {
                    let (b, l2) = eval(*body, index, l1, globals);
                    match b {
                        Err(k) => (Err(k), l2),
                        Ok(bv) => eval_loop(w, budget - 1, bv, index, l2, globals),
                    }
                },
            }
        },
        _ => (Err(ErrorKind::Form), locals),
    }
}

/// The outcomes of local nodes in order, stopping at the first error.
pub open spec fn eval_all(s: Seq<Node>, index: Option<usize>, locals: Bindings, globals: Bindings) -> (
    Result<Seq<VModel>, ErrorKind>,
    Bindings,
)
    decreases s, 0int,
{
    if s.len() == 0 {
        (Ok(Seq::empty()), locals)
    } else {
        let (r, l) = eval_all(s.subrange(0, s.len() - 1), index, locals, globals);
        match r {
            Err(k) => (Err(k), l),
            Ok(vs) => {
                let (x, l2) = eval(s[s.len() - 1], index, l, globals);
                match x {
                    Err(k) => (Err(k), l2),
                    Ok(v) => (Ok(vs.push(v)), l2),
                }
            },
        }
    }
}

/// Bindings visible to every task: each task's name, and each frame's display name.
#[derive(Debug)]
pub struct Globals {
    pub task_values_by_name: Vec<(String, Value)>,
    pub task_descriptions_by_id: Vec<(TaskID, String)>,
}

impl Globals {
    pub open spec fn values(&self) -> Bindings {
        bindings_of(self.task_values_by_name@)
    }
}

/// Why an evaluation stopped early.
#[derive(Debug, Clone, PartialEq, Eq)]
pub enum Halt {
    /// A runtime error, which ends this frame only.
    Error(InterpreterError),
    /// `exit`, which ends the whole program.
    Exit,
}

/// One running task frame.
pub struct TaskState {
    pub name: String,
    pub id: TaskID,
    pub index: Option<usize>,
    pub locals: Vec<(String, Value)>,
    /// The receive end from each other frame, by ascending id.
    pub receivers: Vec<(TaskID, Receiver<Value>)>,
    /// The send end to each other frame.
    pub senders: Vec<(TaskID, Sender<Value>)>,
    /// Where lines sent to `$out` go.
    pub output: Sender<String>,
}

pub open spec fn agrees(r: Result<Value, InterpreterError>, e: Result<VModel, ErrorKind>) -> bool {
    match r {
        Ok(v) => e == Ok::<VModel, ErrorKind>(v.model()),
        Err(err) => e == Err::<VModel, ErrorKind>(err.kind),
    }
}

pub open spec fn halts_as(r: Result<Value, Halt>, e: Result<VModel, ErrorKind>) -> bool {
    match r {
        Ok(v) => e == Ok::<VModel, ErrorKind>(v.model()),
        Err(Halt::Error(err)) => e == Err::<VModel, ErrorKind>(err.kind),
        Err(Halt::Exit) => false,
    }
}

/// Whether some entry of `entries` is for task `id`.
pub open spec fn holds_id<T>(entries: Seq<(TaskID, T)>, id: TaskID) -> bool {
    exists|j: int| 0 <= j < entries.len() && (#[trigger] entries[j]).0 == id
}

pub open spec fn fails_with(r: Result<Value, Halt>, kind: ErrorKind) -> bool {
    r matches Err(Halt::Error(e)) && e.kind == kind
}

/// A send of `value` to `channel` from `frame`: a send to `$out` or to a task the
/// frame has a channel to gives `Null` or a channel failure; to a task it has no
/// channel to, a channel failure; to anything else, a type error.
pub open spec fn send_outcome(
    r: Result<Value, Halt>,
    after: Bindings,
    frame: TaskState,
    value: Node,
    channel: Node,
    g: Bindings,
) -> bool {
    let (a, l1) = eval(value, frame.index, frame.bindings(), g);
    match a {
        Err(k) => halts_as(r, Err(k)) && after == l1,
        Ok(_) => {
            let (c, l2) = eval(channel, frame.index, l1, g);
            &&& after == l2
            &&& match c {
                Err(k) => halts_as(r, Err(k)),
                Ok(VModel::MagicTaskReference(_)) => r == Ok::<Value, Halt>(Value::Null) || fails_with(r, ErrorKind::Channel),
                Ok(VModel::TaskReference(id, _)) => if holds_id(frame.senders@, id) {
                    r == Ok::<Value, Halt>(Value::Null) || fails_with(r, ErrorKind::Channel)
                } else {
                    fails_with(r, ErrorKind::Channel)
                },
                Ok(_) => fails_with(r, ErrorKind::Type),
            }
        },
    }
}

/// A directed receive into `value` from `channel`: on success the name is bound
/// to the value received from that task.
pub open spec fn receive_outcome(
    r: Result<Value, Halt>,
    after: Bindings,
    frame: TaskState,
    value: Node,
    channel: Node,
    g: Bindings,
) -> bool {
    let (c, l1) = eval(channel, frame.index, frame.bindings(), g);
    match c {
        Err(k) => halts_as(r, Err(k)) && after == l1,
        Ok(VModel::TaskReference(id, _)) => if holds_id(frame.receivers@, id) {
            &&& r is Ok ==> (value.kind matches NodeKind::Identifier(d) && r == Ok::<Value, Halt>(Value::Null)
                && exists|v: VModel| after == #[trigger] assign(l1, d@, v))
            &&& !(value.kind is Identifier) ==> r is Err
            &&& r is Err ==> after == l1
        } else {
            fails_with(r, ErrorKind::Channel) && after == l1
        },
        Ok(_) => fails_with(r, ErrorKind::Type) && after == l1,
    }
}

/// A select-receive into `value`, binding `channel`: on success, for some peer
/// `p` the frame receives from, `channel` is bound to `p` with its display
/// name, then `value` to what `p` sent.
pub open spec fn select_outcome(
    r: Result<Value, Halt>,
    after: Bindings,
    frame: TaskState,
    value: Node,
    channel: Node,
    descriptions: Seq<(TaskID, String)>,
) -> bool {
    &&& frame.receivers@.len() == 0 ==> fails_with(r, ErrorKind::Deadlock)
    &&& r is Ok ==> (value.kind matches NodeKind::Identifier(d) && (channel.kind matches NodeKind::Identifier(c)
        && r == Ok::<Value, Halt>(Value::Null)
        && exists|j: int, k: int, v: VModel|
            0 <= j < frame.receivers@.len() && 0 <= k < descriptions.len()
            && descriptions[k].0 == frame.receivers@[j].0
            && after == #[trigger] assign(
                assign(frame.bindings(), c@, VModel::TaskReference(frame.receivers@[j].0, descriptions[k].1@)),
                d@,
                v,
            )))
    &&& r is Err ==> after == frame.bindings()
}

fn fail<T>(kind: ErrorKind, message: &str) -> (r: Result<T, Halt>)
    ensures
        r matches Err(Halt::Error(e)) && e.kind == kind,
{
    Err(Halt::Error(InterpreterError::new(kind, message)))
}

/// The position of the first entry named `name`.
pub(crate) fn find_name(entries: &Vec<(String, Value)>, name: &String) -> (r: Option<usize>)
    ensures
        match r {
            Some(i) => i < entries.len() && i as int == position(bindings_of(entries@), name@),
            None => position(bindings_of(entries@), name@) == -1,
        },
{
    let ghost m = bindings_of(entries@);
    let mut i: usize = 0;
    while i < entries.len()
        invariant
            i <= entries.len(),
            m == bindings_of(entries@),
            position(m, name@) == position_from(m, name@, i as int),
        decreases entries.len() - i,
    {
        if entries[i].0 == *name {
            return Some(i);
        }
        i = i + 1;
    }
    None
}

/// An index counted from the end when negative; `None` when it is negative even so.
fn wrap_as_index(index: i64, len: usize) -> (r: Option<usize>)
    ensures
        match r {
            Some(u) => u as int == wrapped(index, len as int),
            None => wrapped(index, len as int) < 0 || wrapped(index, len as int) > len,
        },
{
    if index < 0 {
        let w: i128 = len as i128 + index as i128;
        if w < 0 {
            None
        } else {
            Some(w as usize)
        }
    } else if index as u64 > len as u64 {
        None
    } else {
        Some(index as usize)
    }
}

/// A copy of `items[b .. e]`.
fn values_slice(items: &Vec<Value>, b: usize, e: usize) -> (r: Vec<Value>)
    requires
        b <= e <= items.len(),
    ensures
        models(r@) == models(items@).subrange(b as int, e as int),
{
    proof {
        lemma_models(items@);
    }
    let mut out: Vec<Value> = Vec::new();
    let mut j: usize = b;
    while j < e
        invariant
            b <= j <= e <= items.len(),
            out@.len() == j - b,
            forall|t: int| 0 <= t < out@.len() ==> #[trigger] out@[t].model() == items@[b + t].model(),
        decreases e - j,
    {
        out.push(items[j].clone());
        j = j + 1;
    }
    proof {
        lemma_models(out@);
        lemma_models(items@);
        assert(models(out@) =~= models(items@).subrange(b as int, e as int));
    }
    out
}

/// Indexes `target` by `ix`: an integer picks an element, a range a slice.
fn index_into(target: &Value, ix: &Value) -> (r: Result<Value, Halt>)
    ensures
        halts_as(r, index_value(target.model(), ix.model())),
{
    let items = match target {
        Value::Array(items) => items,
        _ => return fail(ErrorKind::Type, "expected array"),
    };
    proof {
        lemma_models(items@);
    }
    match ix {
        Value::Integer(k) => match wrap_as_index(*k, items.len()) {
            Some(u) if u < items.len() => {
                let r = items[u].clone();
                assert(r.model() == models(items@)[u as int]);
                assert(index_value(target.model(), ix.model()) == index_item(models(items@), *k));
                Ok(r)
            },
            _ => fail(ErrorKind::Bounds, "index is out of range"),
        },
        Value::Range { begin, end } => {
            let b = match &**begin {
                Value::Integer(b) => *b,
                _ => {
                    assert(!(begin.model() is Integer));
                    assert(ix.model() == VModel::Range(Box::new(begin.model()), Box::new(end.model())));
                    return fail(ErrorKind::Type, "expected an integer");
                },
            };
            let e = match &**end {
                Value::Integer(e) => *e,
                _ => return fail(ErrorKind::Type, "expected an integer"),
            };
            match (wrap_as_index(b, items.len()), wrap_as_index(e, items.len())) {
                (Some(wb), Some(we)) if wb <= we && we <= items.len() => {
                    let out = values_slice(items, wb, we);
                    Ok(Value::Array(out))
                },
                _ => fail(ErrorKind::Bounds, "indices are out of range"),
            }
        },
        _ => fail(ErrorKind::Type, "expected integer or range as index"),
    }
}

/// Applies `op` to two integers; overflow wraps and division truncates.
fn binary(op: BinaryOperator, x: i64, y: i64) -> (r: Result<Value, Halt>)
    ensures
        halts_as(r, binary_result(op, x, y)),
{
    match op {
        BinaryOperator::Add => Ok(Value::Integer(x.wrapping_add(y))),
        BinaryOperator::Subtract => Ok(Value::Integer(x.wrapping_sub(y))),
        BinaryOperator::Multiply => Ok(Value::Integer(x.wrapping_mul(y))),
        BinaryOperator::Divide => if y == 0 {
            fail(ErrorKind::Arithmetic, "division by zero")
        } else {
            match x.checked_div(y) {
                Some(q) => Ok(Value::Integer(q)),
                None => Ok(Value::Integer(i64::MIN)),
            }
        },
        BinaryOperator::Equals => Ok(Value::Boolean(x == y)),
        BinaryOperator::LessThan => Ok(Value::Boolean(x < y)),
        BinaryOperator::GreaterThan => Ok(Value::Boolean(x > y)),
    }
}

fn find_sender(entries: &Vec<(TaskID, Sender<Value>)>, id: TaskID) -> (r: Option<usize>)
    ensures
        match r {
            Some(i) => i < entries.len() && entries@[i as int].0 == id,
            None => forall|i: int| 0 <= i < entries.len() ==> entries@[i].0 != id,
        },
{
    let mut i: usize = 0;
    while i < entries.len()
        invariant
            i <= entries.len(),
            forall|j: int| 0 <= j < i ==> entries@[j].0 != id,
        decreases entries.len() - i,
    {
        if entries[i].0 == id {
            return Some(i);
        }
        i = i + 1;
    }
    None
}

fn find_receiver(entries: &Vec<(TaskID, Receiver<Value>)>, id: TaskID) -> (r: Option<usize>)
    ensures
        match r {
            Some(i) => i < entries.len() && entries@[i as int].0 == id,
            None => forall|i: int| 0 <= i < entries.len() ==> entries@[i].0 != id,
        },
{
    let mut i: usize = 0;
    while i < entries.len()
        invariant
            i <= entries.len(),
            forall|j: int| 0 <= j < i ==> entries@[j].0 != id,
        decreases entries.len() - i,
    {
        if entries[i].0 == id {
            return Some(i);
        }
        i = i + 1;
    }
    None
}

fn find_description(entries: &Vec<(TaskID, String)>, id: TaskID) -> (r: Option<usize>)
    ensures
        match r {
            Some(i) => i < entries.len() && entries@[i as int].0 == id,
            None => forall|i: int| 0 <= i < entries.len() ==> entries@[i].0 != id,
        },
{
    let mut i: usize = 0;
    while i < entries.len()
        invariant
            i <= entries.len(),
            forall|j: int| 0 <= j < i ==> entries@[j].0 != id,
        decreases entries.len() - i,
    {
        if entries[i].0 == id {
            return Some(i);
        }
        i = i + 1;
    }
    None
}

impl TaskState {
    pub open spec fn bindings(&self) -> Bindings {
        bindings_of(self.locals@)
    }

    /// The frame apart from its locals, which evaluation leaves as it was.
    pub open spec fn same_frame(&self, other: &TaskState) -> bool {
        &&& self.name == other.name
        &&& self.id == other.id
        &&& self.index == other.index
        &&& self.receivers == other.receivers
        &&& self.senders == other.senders
        &&& self.output == other.output
    }

    /// Looks `name` up: `$out`, `$index`, then locals, then globals.
    pub fn resolve(&self, name: &String, globals: &Globals) -> (r: Result<Value, InterpreterError>)
        ensures
            agrees(r, resolve_name(self.index, self.bindings(), globals.values(), name@)),
    {
        let out = "$out".to_owned();
        let index_name = "$index".to_owned();
        if *name == out {
            return Ok(Value::MagicTaskReference(MagicTask::Out));
        }
        if *name == index_name {
            return match self.index {
                Some(i) => Ok(Value::Integer(i as i64)),
                None => Ok(Value::Null),
            };
        }
        proof {
            lemma_position_from(self.bindings(), name@, 0);
            lemma_position_from(globals.values(), name@, 0);
        }
        match find_name(&self.locals, name) {
            Some(i) => {
                return Ok(self.locals[i].1.clone());
            },
            None => {},
        }
        match find_name(&globals.task_values_by_name, name) {
            Some(i) => Ok(globals.task_values_by_name[i].1.clone()),
            None => Err(InterpreterError::new(ErrorKind::Resolve, "could not find a name")),
        }
    }

    /// Evaluates `node` in this frame. A node that touches no channel and does
    /// not exit gives exactly what `eval` says, locals included; `exit` halts.
    #[verifier::rlimit(100)]
    #[verifier::spinoff_prover]
    pub fn evaluate(&mut self, node: &Node, globals: &Globals) -> (r: Result<Value, Halt>)
        ensures
            final(self).same_frame(old(self)),
            is_local(*node) ==> halts_as(r, eval(*node, old(self).index, old(self).bindings(), globals.values()).0),
            is_local(*node) ==> final(self).bindings() == eval(*node, old(self).index, old(self).bindings(), globals.values()).1,
            node.kind is Exit ==> r == Err::<Value, Halt>(Halt::Exit),
            node.kind matches NodeKind::Send { value, channel } ==> (is_local(*value) && is_local(*channel)
                ==> send_outcome(r, final(self).bindings(), *old(self), *value, *channel, globals.values())),
            node.kind matches NodeKind::Receive { value, channel, bind_channel } ==> (!bind_channel && is_local(*channel)
                ==> receive_outcome(r, final(self).bindings(), *old(self), *value, *channel, globals.values())),
            node.kind matches NodeKind::Receive { value, channel, bind_channel } ==> (bind_channel
                ==> select_outcome(r, final(self).bindings(), *old(self), *value, *channel, globals.task_descriptions_by_id@)),
        decreases node,
    {
        let ghost index = self.index;
        let ghost g = globals.values();
        let ghost l0 = self.bindings();
        match &node.kind {
            NodeKind::Body(v) => {
                let vs = match self.evaluate_all(v, globals) {
                    Ok(vs) => vs,
                    Err(h) => return Err(h),
                };
                proof {
                    lemma_models(vs@);
                }
                if vs.len() == 0 {
                    Ok(Value::Null)
                } else {
                    Ok(vs[vs.len() - 1].clone())
                }
            },
            NodeKind::IntegerLiteral(i) => Ok(Value::Integer(*i)),
            NodeKind::BooleanLiteral(b) => Ok(Value::Boolean(*b)),
            NodeKind::NullLiteral => Ok(Value::Null),
            NodeKind::ArrayLiteral(v) => match self.evaluate_all(v, globals) {
                Ok(vs) => Ok(Value::Array(vs)),
                Err(h) => Err(h),
            },
            NodeKind::Range { begin, end } => {
                let b = match self.evaluate(begin, globals) {
                    Ok(b) => b,
                    Err(h) => return Err(h),
                };
                let e = match self.evaluate(end, globals) {
                    Ok(e) => e,
                    Err(h) => return Err(h),
                };
                Ok(Value::Range { begin: Box::new(b), end: Box::new(e) })
            },
            NodeKind::Identifier(name) => match self.resolve(name, globals) {
                Ok(v) => Ok(v),
                Err(e) => Err(Halt::Error(e)),
            },
            NodeKind::BinaryOperation { left, op, right } => {
                let a = match self.evaluate(left, globals) {
                    Ok(a) => a,
                    Err(h) => return Err(h),
                };
                let b = match self.evaluate(right, globals) {
                    Ok(b) => b,
                    Err(h) => return Err(h),
                };
                let x = match a.get_integer() {
                    Ok(x) => x,
                    Err(e) => return Err(Halt::Error(e)),
                };
                let y = match b.get_integer() {
                    Ok(y) => y,
                    Err(e) => return Err(Halt::Error(e)),
                };
                binary(*op, x, y)
            },
            NodeKind::If { condition, if_true } => {
                let c = match self.evaluate(condition, globals) {
                    Ok(c) => c,
                    Err(h) => return Err(h),
                };
                if c.is_truthy() {
                    self.evaluate(if_true, globals)
                } else {
                    Ok(Value::Null)
                }
            },
            NodeKind::While { .. } => {
                let mut result = Value::Null;
                let mut budget: u64 = LOOP_BUDGET;
                let mut going = true;
                while going
                    invariant
                        self.same_frame(old(self)),
                        node.kind is While,
                        index == self.index,
                        index == old(self).index,
                        l0 == old(self).bindings(),
                        g == globals.values(),
                        is_local(*node) ==> eval(*node, index, l0, g) == if going {
                            eval_loop(*node, budget as int, result.model(), index, self.bindings(), g)
                        } else {
                            (Ok(result.model()), self.bindings())
                        },
                    decreases budget as int + if going { 1int } else { 0int },
                {
                    let (condition, body) = match &node.kind {
                        NodeKind::While { condition, body } => (condition, body),
                        _ => {
                            proof {
                                assert(false);
                            }
                            return Ok(result);
                        },
                    };
                    let c = match self.evaluate(condition, globals) {
                        Ok(c) => c,
                        Err(h) => return Err(h),
                    };
                    if !c.is_truthy() {
                        going = false;
                    } else if budget == 0 {
                        return fail(ErrorKind::Limit, "loop ran through its iteration budget");
                    } else {
                        budget = budget - 1;
                        result = match self.evaluate(body, globals) {
                            Ok(v) => v,
                            Err(h) => return Err(h),
                        };
                    }
                }
                Ok(result)
            },
            NodeKind::Assign { value, destination } => {
                let v = match self.evaluate(value, globals) {
                    Ok(v) => v,
                    Err(h) => return Err(h),
                };
                match &destination.kind {
                    NodeKind::Identifier(name) => {
                        self.create_or_assign_local(name, v);
                        Ok(Value::Null)
                    },
                    _ => fail(ErrorKind::Form, "expected identifier for result of assign"),
                }
            },
            NodeKind::Index { value, index: ix } => {
                let t = match self.evaluate(value, globals) {
                    Ok(t) => t,
                    Err(h) => return Err(h),
                };
                let i = match self.evaluate(ix, globals) {
                    Ok(i) => i,
                    Err(h) => return Err(h),
                };
                index_into(&t, &i)
            },
            NodeKind::Send { value, channel } => {
                let v = match self.evaluate(value, globals) {
                    Ok(v) => v,
                    Err(h) => return Err(h),
                };
                let c = match self.evaluate(channel, globals) {
                    Ok(c) => c,
                    Err(h) => return Err(h),
                };
                match c {
                    Value::MagicTaskReference(MagicTask::Out) => {
                        let line = v.to_printable_string();
                        if fabric::send(&self.output, line) {
                            Ok(Value::Null)
                        } else {
                            fail(ErrorKind::Channel, "the output is closed")
                        }
                    },
                    _ => {
                        let id = match c.get_task_id() {
                            Ok(id) => id,
                            Err(e) => return Err(Halt::Error(e)),
                        };
                        match find_sender(&self.senders, id) {
                            Some(j) => if fabric::send(&self.senders[j].1, v) {
                                Ok(Value::Null)
                            } else {
                                fail(ErrorKind::Channel, "send error")
                            },
                            None => fail(ErrorKind::Channel, "no sender for that task"),
                        }
                    },
                }
            },
            NodeKind::Receive { value, channel, bind_channel } => {
                if *bind_channel {
                    if self.receivers.len() == 0 {
                        return fail(ErrorKind::Deadlock, "select-receive with no peers");
                    }
                    let (j, got) = fabric::select_receive(&self.receivers);
                    let peer = self.receivers[j].0;
                    let peer_name = match find_description(&globals.task_descriptions_by_id, peer) {
                        Some(k) => globals.task_descriptions_by_id[k].1.clone(),
                        None => return fail(ErrorKind::Channel, "no name for that task"),
                    };
                    self.bind_selected(value, channel, peer, peer_name, got)
                } else {
                    let c = match self.evaluate(channel, globals) {
                        Ok(c) => c,
                        Err(h) => return Err(h),
                    };
                    let id = match c {
                        Value::TaskReference(id, _) => id,
                        _ => return fail(ErrorKind::Type, "tried to receive from non-channel"),
                    };
                    let got = match find_receiver(&self.receivers, id) {
                        Some(j) => fabric::recv(&self.receivers[j].1),
                        None => return fail(ErrorKind::Channel, "no receiver for that task"),
                    };
                    self.bind_received(value, got)
                }
            },
            NodeKind::Exit => Err(Halt::Exit),
        }
    }

    /// Evaluates `v` in order, stopping at the first failure.
    fn evaluate_all(&mut self, v: &Vec<Node>, globals: &Globals) -> (r: Result<Vec<Value>, Halt>)
        ensures
            final(self).same_frame(old(self)),
            all_local(v@) ==> ({
                let (e, l) = eval_all(v@, old(self).index, old(self).bindings(), globals.values());
                &&& final(self).bindings() == l
                &&& match r {
                    Ok(vs) => e == Ok::<Seq<VModel>, ErrorKind>(models(vs@)),
                    Err(Halt::Error(err)) => e == Err::<Seq<VModel>, ErrorKind>(err.kind),
                    Err(Halt::Exit) => false,
                }
            }),
        decreases v,
    {
        let ghost index = self.index;
        let ghost g = globals.values();
        let ghost l0 = self.bindings();
        proof {
            lemma_all_local(v@);
        }
        let mut out: Vec<Value> = Vec::new();
        let mut i: usize = 0;
        while i < v.len()
            invariant
                i <= v.len(),
                self.same_frame(old(self)),
                index == self.index,
                index == old(self).index,
                l0 == old(self).bindings(),
                g == globals.values(),
                all_local(v@) <==> forall|j: int| 0 <= j < v@.len() ==> #[trigger] is_local(v@[j]),
                all_local(v@) ==> ({
                    let (e, l) = eval_all(v@.subrange(0, i as int), index, l0, g);
                    &&& e == Ok::<Seq<VModel>, ErrorKind>(models(out@))
                    &&& l == self.bindings()
                }),
            decreases v.len() - i,
        {
            proof {
                lemma_eval_all_step(v@, i as int, index, l0, g);
            }
            let x = self.evaluate(&v[i], globals);
            match x {
                Ok(val) => {
                    let ghost before = out@;
                    out.push(val);
                    proof {
                        assert(out@.drop_last() =~= before);
                    }
                },
                Err(h) => {
                    proof {
                        if all_local(v@) {
                            lemma_eval_all_prefix_err(v@, i + 1, index, l0, g);
                        }
                    }
                    return Err(h);
                },
            }
            i = i + 1;
        }
        proof {
            assert(v@.subrange(0, v@.len() as int) =~= v@);
        }
        Ok(out)
    }

    /// Binds a value received for the destination `value`: a failed receive
    /// (`None`) is a channel error; a destination that is not a name is a
    /// form error; otherwise the name is bound to exactly the value received.
    pub fn bind_received(&mut self, value: &Node, got: Option<Value>) -> (r: Result<Value, Halt>)
        ensures
            final(self).same_frame(old(self)),
            got is None ==> fails_with(r, ErrorKind::Channel) && final(self).bindings() == old(self).bindings(),
            got matches Some(v) ==> match value.kind {
                NodeKind::Identifier(d) => r == Ok::<Value, Halt>(Value::Null)
                    && final(self).bindings() == assign(old(self).bindings(), d@, v.model()),
                _ => fails_with(r, ErrorKind::Form) && final(self).bindings() == old(self).bindings(),
            },
    {
        let v = match got {
            Some(v) => v,
            None => return fail(ErrorKind::Channel, "receive error"),
        };
        match &value.kind {
            NodeKind::Identifier(n) => {
                self.create_or_assign_local(n, v);
                Ok(Value::Null)
            },
            _ => fail(ErrorKind::Form, "expected identifier for result of assign"),
        }
    }

    /// Binds what a select-receive gave: `channel` to the peer that sent,
    /// then `value` to exactly the value received from it.
    pub fn bind_selected(
        &mut self,
        value: &Node,
        channel: &Node,
        peer: TaskID,
        peer_name: String,
        got: Option<Value>,
    ) -> (r: Result<Value, Halt>)
        ensures
            final(self).same_frame(old(self)),
            got is None ==> fails_with(r, ErrorKind::Channel) && final(self).bindings() == old(self).bindings(),
            got matches Some(v) ==> match (value.kind, channel.kind) {
                (NodeKind::Identifier(d), NodeKind::Identifier(c)) => r == Ok::<Value, Halt>(Value::Null)
                    && final(self).bindings() == assign(
                        assign(old(self).bindings(), c@, VModel::TaskReference(peer, peer_name@)),
                        d@,
                        v.model(),
                    ),
                _ => fails_with(r, ErrorKind::Form) && final(self).bindings() == old(self).bindings(),
            },
    {
        let v = match got {
            Some(v) => v,
            None => return fail(ErrorKind::Channel, "receive error"),
        };
        let value_name = match &value.kind {
            NodeKind::Identifier(n) => n,
            _ => return fail(ErrorKind::Form, "expected identifier for result of assign"),
        };
        let channel_name = match &channel.kind {
            NodeKind::Identifier(n) => n,
            _ => return fail(ErrorKind::Form, "expected identifier to bind the sender to"),
        };
        self.create_or_assign_local(channel_name, Value::TaskReference(peer, peer_name));
        self.create_or_assign_local(value_name, v);
        Ok(Value::Null)
    }

    /// `name`, or `name[index]` for a replica.
    pub fn formatted_name(&self) -> (r: String)
        ensures
            r@ == formatted(self.name@, self.index),
    {
        crate::text::formatted_name(&self.name, self.index)
    }

    /// Binds `name` to `value`, in place when it is bound already.
    pub fn create_or_assign_local(&mut self, name: &String, value: Value)
        ensures
            final(self).same_frame(old(self)),
            final(self).bindings() == assign(old(self).bindings(), name@, value.model()),
            unique_names(old(self).bindings()) ==> unique_names(final(self).bindings()),
    {
        proof {
            lemma_position_from(self.bindings(), name@, 0);
            if unique_names(self.bindings()) {
                lemma_assign_unique(self.bindings(), name@, value.model());
            }
        }
        match find_name(&self.locals, name) {
            Some(i) => {
                let ghost v = value.model();
                self.locals.set(i, (name.clone(), value));
                assert(self.bindings() =~= assign(old(self).bindings(), name@, v));
            },
            None => {
                let ghost v = value.model();
                self.locals.push((name.clone(), value));
                assert(self.bindings() =~= assign(old(self).bindings(), name@, v));
            },
        }
    }
}

/// For `b != 0`, `(a + b) * b / b` gives back `a + b` under wrapping
/// arithmetic, whenever the product `(a + b) * b` does not itself overflow.
pub proof fn law_sum_times_divided(a: i64, b: i64)
    requires
        b != 0,
        i64::MIN <= (a.wrapping_add(b) as int) * (b as int) <= i64::MAX,
    ensures
        binary_result(BinaryOperator::Add, a, b) == Ok::<VModel, ErrorKind>(VModel::Integer(a.wrapping_add(b))),
        binary_result(BinaryOperator::Multiply, a.wrapping_add(b), b) == Ok::<VModel, ErrorKind>(
            VModel::Integer(a.wrapping_add(b).wrapping_mul(b)),
        ),
        binary_result(BinaryOperator::Divide, a.wrapping_add(b).wrapping_mul(b), b) == Ok::<VModel, ErrorKind>(
            VModel::Integer(a.wrapping_add(b)),
        ),
{
    let s = a.wrapping_add(b);
    let x = (s as int) * (b as int);
    let m = 0x1_0000_0000_0000_0000int;
    if x >= 0 {
        assert(x % m == x) by (nonlinear_arith)
            requires 0 <= x <= i64::MAX, m == 0x1_0000_0000_0000_0000int;
    } else {
        assert(x % m == x + m) by (nonlinear_arith)
            requires i64::MIN <= x < 0, m == 0x1_0000_0000_0000_0000int;
    }
    assert(s.wrapping_mul(b) == x);
    let p = s.wrapping_mul(b) as int;
    let d = b as int;
    if p == 0 {
        assert(s == 0) by (nonlinear_arith)
            requires p == (s as int) * d, p == 0, d != 0;
    } else if p > 0 && d > 0 {
        assert(p / d == s as int) by (nonlinear_arith)
            requires p == (s as int) * d, d > 0;
    } else if p < 0 && d < 0 {
        assert((p * -1) / (d * -1) == s as int) by (nonlinear_arith)
            requires p == (s as int) * d, d < 0;
    } else if p < 0 {
        assert(((p * -1) / d) * -1 == s as int) by (nonlinear_arith)
            requires p == (s as int) * d, d > 0, p < 0;
    } else {
        assert((p / (d * -1)) * -1 == s as int) by (nonlinear_arith)
            requires p == (s as int) * d, d < 0, p > 0;
    }
}

/// For `-len <= i < len`, indexing by `i` gives the element at `i mod len`.
pub proof fn law_index_wraps(items: Seq<VModel>, i: i64)
    requires
        -(items.len() as int) <= i < items.len(),
    ensures
        index_value(VModel::Array(items), VModel::Integer(i)) == Ok::<VModel, ErrorKind>(
            items[(i as int) % (items.len() as int)],
        ),
{
    let n = items.len() as int;
    if i < 0 {
        assert((i as int) % n == (i as int) + n) by (nonlinear_arith)
            requires -n <= i < 0, n > 0;
    } else {
        assert((i as int) % n == i as int) by (nonlinear_arith)
            requires 0 <= i < n;
    }
}

/// For `0 <= b <= e <= len`, slicing by `b .. e` gives the `e - b` elements
/// from `b` on, in order.
pub proof fn law_slice_window(items: Seq<VModel>, b: i64, e: i64)
    requires
        0 <= b <= e <= items.len(),
    ensures
        index_value(
            VModel::Array(items),
            VModel::Range(Box::new(VModel::Integer(b)), Box::new(VModel::Integer(e))),
        ) == Ok::<VModel, ErrorKind>(VModel::Array(items.subrange(b as int, e as int))),
        items.subrange(b as int, e as int).len() == e - b,
        forall|k: int| 0 <= k < e - b ==> #[trigger] items.subrange(b as int, e as int)[k] == items[b + k],
{
}

} // verus!
