use vstd::prelude::*;
use crossbeam_channel::Sender;
use crate::fabric;
use crate::interpreter::{
    bindings_of, find_name, unique_names, lookup, position, position_from, resolve_name, Bindings, ErrorKind,
    Globals, InterpreterError, TaskID, TaskState, VModel, Value,
};
use crate::node::{lemma_same_tree_trans, same_tree, Item, ItemKind, Node};
use crate::parser::{Parser, ParserError};
use crate::tokenizer::{lex, lexemes, Lexeme, Token, TokenKind, Tokenizer, TokenizerError};
use crate::grammar::{definitions, program};
use crate::text::formatted;

verus! {

/// Why a task could not be registered.
#[derive(Debug, Copy, Clone, PartialEq, Eq, Structural)]
pub enum RegistrationError {
    /// Another task has this name already.
    DuplicateName,
    /// Task ids have run out.
    TooManyTasks,
    /// The channels are wired: the set of tasks is fixed.
    AlreadyWired,
}

/// The task frames of a program, their globals, and the channels between them.
pub struct Runtime {
    globals: Globals,
    tasks: Vec<(TaskState, Node)>,
    next_task_id: TaskID,
    wired: bool,
    output: Sender<String>,
}

/// What a global name of a task is bound to: one reference, or one per replica in
/// index order.
pub open spec fn task_value(name: Seq<char>, first: usize, instances: Option<usize>) -> VModel {
    match instances {
        None => VModel::TaskReference(TaskID(first), name),
        Some(k) => VModel::Array(Seq::new(k as nat, |i: int| replica_ref(name, first, i))),
    }
}

pub open spec fn replica_ref(name: Seq<char>, first: usize, i: int) -> VModel {
    VModel::TaskReference(TaskID((first + i) as usize), formatted(name, Some(i as usize)))
}

/// How many frames a definition makes.
pub open spec fn frame_count(instances: Option<usize>) -> int {
    match instances {
        None => 1,
        Some(k) => k as int,
    }
}

/// The replica index of the `i`-th frame of a definition.
pub open spec fn frame_index(instances: Option<usize>, i: int) -> Option<usize> {
    match instances {
        None => None,
        Some(_) => Some(i as usize),
    }
}

/// The ids that a list of `(id, endpoint)` entries holds, in order.
pub open spec fn ids_of<T>(entries: Seq<(TaskID, T)>) -> Seq<TaskID> {
    entries.map_values(|e: (TaskID, T)| e.0)
}

/// The ids of frames `0 .. n`, frame `t` having id `1 + t`.
pub open spec fn frame_ids(n: int) -> Seq<TaskID> {
    Seq::new(n as nat, |t: int| TaskID((t + 1) as usize))
}

/// The ids among the first `i` of `ids`, without the one at `t`.
pub open spec fn below(ids: Seq<TaskID>, i: int, t: int) -> Seq<TaskID> {
    if t < i { ids.take(t) + ids.subrange(t + 1, i) } else { ids.take(i) }
}

/// Every id of `ids` but the one at `t`.
pub open spec fn all_but(ids: Seq<TaskID>, t: int) -> Seq<TaskID> {
    below(ids, ids.len() as int, t)
}

/// Frame `f` is `g` apart from its channel ends.
pub open spec fn same_task(f: TaskState, g: TaskState) -> bool {
    &&& f.name == g.name
    &&& f.id == g.id
    &&& f.index == g.index
    &&& f.locals == g.locals
    &&& f.output == g.output
}

/// A frame's body is the definition's own (one frame) or a copy of it
/// (replicas).
pub open spec fn body_of(instances: Option<usize>, stored: Node, body: Node) -> bool {
    match instances {
        None => stored == body,
        Some(_) => same_tree(stored, body),
    }
}

/// `after` is `before` with task `name` registered: its frames added with the
/// next ids, its body, and their display names, and `name` bound globally to
/// them.
pub open spec fn registered(
    before: Runtime,
    after: Runtime,
    name: Seq<char>,
    body: Node,
    instances: Option<usize>,
) -> bool {
    let n0 = before.frames().len() as int;
    let d0 = before.descriptions().len() as int;
    &&& position(before.global_values(), name) == -1
    &&& after.global_values() == before.global_values().push((name, task_value(name, before.next_id(), instances)))
    &&& after.frames().len() == n0 + frame_count(instances)
    &&& after.frames().subrange(0, n0) == before.frames()
    &&& after.bodies().subrange(0, n0) == before.bodies()
    &&& after.descriptions().len() == d0 + frame_count(instances)
    &&& after.descriptions().subrange(0, d0) == before.descriptions()
    &&& forall|i: int| 0 <= i < frame_count(instances) ==> {
        let f = #[trigger] after.frames()[n0 + i];
        let d = after.descriptions()[d0 + i];
        &&& f.name@ == name
        &&& f.index == frame_index(instances, i)
        &&& f.id == TaskID((before.next_id() + i) as usize)
        &&& f.locals@.len() == 0
        &&& body_of(instances, after.bodies()[n0 + i], body)
        &&& d.0 == f.id
        &&& d.1@ == formatted(name, f.index)
    }
}

proof fn lemma_position_keeps(s: Bindings, n: Seq<char>, m: Seq<char>, v: VModel)
    requires
        position(s, n) >= 0,
    ensures
        position(s.push((m, v)), n) == position(s, n),
{
    lemma_position_keeps_from(s, n, m, v, 0);
}

proof fn lemma_position_keeps_from(s: Bindings, n: Seq<char>, m: Seq<char>, v: VModel, k: int)
    requires
        0 <= k,
        position_from(s, n, k) >= 0,
    ensures
        position_from(s.push((m, v)), n, k) == position_from(s, n, k),
    decreases s.len() - k,
{
    if k < s.len() && s[k].0 != n {
        lemma_position_keeps_from(s, n, m, v, k + 1);
    }
}

proof fn lemma_position_push_other(s: Bindings, n: Seq<char>, m: Seq<char>, v: VModel)
    requires
        position(s, n) == -1,
        position(s.push((m, v)), n) >= 0,
    ensures
        n == m,
{
    lemma_position_other_from(s, n, m, v, 0);
}

proof fn lemma_position_other_from(s: Bindings, n: Seq<char>, m: Seq<char>, v: VModel, k: int)
    requires
        0 <= k <= s.len(),
        position_from(s, n, k) == -1,
        position_from(s.push((m, v)), n, k) >= 0,
    ensures
        n == m,
    decreases s.len() - k,
{
    let t = s.push((m, v));
    if k < s.len() {
        assert(t[k] == s[k]);
        assert(s[k].0 != n);
        assert(position_from(t, n, k) == position_from(t, n, k + 1));
        lemma_position_other_from(s, n, m, v, k + 1);
    } else {
        assert(t[k] == (m, v));
        assert(position_from(t, n, k + 1) == -1);
        assert(t[k].0 == n);
    }
}

proof fn lemma_planned_prefix(items: Seq<Item>, i: int)
    requires
        0 <= i <= items.len(),
    ensures
        planned(items.subrange(0, i)).len() <= planned(items).len(),
    decreases items.len(),
{
    if i < items.len() {
        assert(items.drop_last().subrange(0, i) =~= items.subrange(0, i));
        lemma_planned_prefix(items.drop_last(), i);
    } else {
        assert(items.subrange(0, i) =~= items);
    }
}

proof fn lemma_position_push_fresh(s: Bindings, n: Seq<char>, v: VModel, k: int)
    requires
        0 <= k <= s.len(),
        position_from(s, n, k) == -1,
    ensures
        position_from(s.push((n, v)), n, k) == s.len(),
    decreases s.len() - k,
{
    if k < s.len() {
        lemma_position_push_fresh(s, n, v, k + 1);
    }
}

/// In a definition `task N[k]`, the `i`-th replica's `$index` is `i`, and `N`
/// is bound globally to the references of the `k` replicas in index order.
pub proof fn law_replica_indexing(before: Runtime, after: Runtime, name: Seq<char>, body: Node, k: usize, i: int)
    requires
        registered(before, after, name, body, Some(k)),
        0 <= i < k,
        i <= i64::MAX,
    ensures
        ({
            let f = after.frames()[before.frames().len() + i];
            resolve_name(f.index, f.bindings(), after.global_values(), "$index"@)
                == Ok::<VModel, ErrorKind>(VModel::Integer(i as i64))
        }),
        lookup(after.global_values(), name) == Some(
            VModel::Array(Seq::new(k as nat, |j: int| replica_ref(name, before.next_id(), j))),
        ),
{
    reveal_strlit("$index");
    reveal_strlit("$out");
    let f = after.frames()[before.frames().len() + i];
    assert(f.index == Some(i as usize));
    assert("$index"@ != "$out"@) by {
        assert("$index"@.len() != "$out"@.len());
    }
    lemma_position_push_fresh(
        before.global_values(),
        name,
        task_value(name, before.next_id(), Some(k)),
        0,
    );
}

impl Runtime {
    pub closed spec fn frames(&self) -> Seq<TaskState> {
        self.tasks@.map_values(|p: (TaskState, Node)| p.0)
    }

    pub closed spec fn bodies(&self) -> Seq<Node> {
        self.tasks@.map_values(|p: (TaskState, Node)| p.1)
    }

    pub closed spec fn global_values(&self) -> Bindings {
        self.globals.values()
    }

    pub closed spec fn descriptions(&self) -> Seq<(TaskID, String)> {
        self.globals.task_descriptions_by_id@
    }

    pub closed spec fn next_id(&self) -> usize {
        self.next_task_id.0
    }

    pub closed spec fn is_wired(&self) -> bool {
        self.wired
    }

    /// Ids are dense and in order: frame `i` has id `1 + i`; before wiring no
    /// frame has a channel end.
    pub closed spec fn wf(&self) -> bool {
        &&& unique_names(self.globals.values())
        &&& self.next_task_id.0 == self.tasks@.len() + 1
        &&& forall|i: int| 0 <= i < self.tasks@.len() ==> #[trigger] self.tasks@[i].0.id == TaskID((i + 1) as usize)
        &&& !self.wired ==> forall|i: int| 0 <= i < self.tasks@.len() ==> {
            &&& (#[trigger] self.tasks@[i]).0.senders@.len() == 0
            &&& self.tasks@[i].0.receivers@.len() == 0
        }
    }

    /// A runtime with no tasks, whose frames print to `output`.
    pub fn new(output: Sender<String>) -> (r: Self)
        ensures
            r.wf(),
            r.frames().len() == 0,
            r.global_values().len() == 0,
            r.descriptions().len() == 0,
            !r.is_wired(),
    {
        Self {
            globals: Globals { task_values_by_name: Vec::new(), task_descriptions_by_id: Vec::new() },
            tasks: Vec::new(),
            next_task_id: TaskID(1),
            wired: false,
            output,
        }
    }

    /// Registers a task definition: one frame, or `instances` replicas with
    /// indices `0 .. instances`, each with the next id; binds `name` globally.
    pub fn add_task(&mut self, name: &str, body: Node, instances: Option<usize>) -> (r: Result<(), RegistrationError>)
        requires
            old(self).wf(),
        ensures
            final(self).wf(),
            final(self).is_wired() == old(self).is_wired(),
            r == Err::<(), RegistrationError>(RegistrationError::AlreadyWired) <==> old(self).is_wired(),
            r == Err::<(), RegistrationError>(RegistrationError::DuplicateName) <==> !old(self).is_wired()
                && position(old(self).global_values(), name@) >= 0,
            r == Err::<(), RegistrationError>(RegistrationError::TooManyTasks) <==> !old(self).is_wired()
                && position(old(self).global_values(), name@) < 0
                && old(self).next_id() + frame_count(instances) >= usize::MAX,
            r is Err ==> final(self).frames() == old(self).frames()
                && final(self).global_values() == old(self).global_values()
                && final(self).descriptions() == old(self).descriptions(),
            r is Ok ==> registered(*old(self), *final(self), name@, body, instances),
    {
        if self.wired {
            return Err(RegistrationError::AlreadyWired);
        }
        let key = name.to_owned();
        proof {
            crate::interpreter::lemma_position_from(self.global_values(), name@, 0);
        }
        match find_name(&self.globals.task_values_by_name, &key) {
            Some(_) => return Err(RegistrationError::DuplicateName),
            None => {},
        }
        let count: usize = match instances {
            Some(k) => k,
            None => 1,
        };
        if count >= usize::MAX - self.next_task_id.0 {
            return Err(RegistrationError::TooManyTasks);
        }
        let ghost first = self.next_task_id.0;
        let ghost frames0 = self.frames();
        let global_value = match instances {
            Some(k) => {
                let mut ids: Vec<Value> = Vec::new();
                let mut i: usize = 0;
                while i < k
                    invariant
                        i <= k,
                        k == count,
                        first + k < usize::MAX,
                        self.wf(),
                        !self.wired,
                        self.next_task_id.0 == first + i,
                        self.global_values() == old(self).global_values(),
                        self.frames().len() == frames0.len() + i,
                        self.frames().subrange(0, frames0.len() as int) == frames0,
                        frames0 == old(self).frames(),
                        first == old(self).next_id(),
                        self.bodies().len() == self.frames().len(),
                        self.bodies().subrange(0, frames0.len() as int) == old(self).bodies(),
                        self.descriptions().len() == old(self).descriptions().len() + i,
                        self.descriptions().subrange(0, old(self).descriptions().len() as int) == old(self).descriptions(),
                        ids@.len() == i,
                        forall|j: int| 0 <= j < i ==> #[trigger] ids@[j].model() == replica_ref(name@, first, j),
                        forall|j: int| 0 <= j < i ==> {
                            let f = #[trigger] self.frames()[frames0.len() + j];
                            &&& f.name@ == name@
                            &&& f.index == Some(j as usize)
                            &&& f.id == TaskID((first + j) as usize)
                            &&& f.locals@.len() == 0
                            &&& same_tree(self.bodies()[frames0.len() + j], body)
                            &&& self.descriptions()[old(self).descriptions().len() + j].0 == f.id
                            &&& self.descriptions()[old(self).descriptions().len() + j].1@ == formatted(name@, f.index)
                        },
                    decreases k - i,
                {
                    let (id, display) = self.add_one_task(name, body.clone(), Some(i));
                    ids.push(Value::TaskReference(id, display));
                    i = i + 1;
                }
                proof {
                    crate::interpreter::lemma_models(ids@);
                    assert(crate::interpreter::models(ids@) =~= Seq::new(k as nat, |j: int| replica_ref(name@, first, j)));
                }
                Value::Array(ids)
            },
            None => {
                let (id, display) = self.add_one_task(name, body, None);
                Value::TaskReference(id, display)
            },
        };
        let ghost v = global_value.model();
        let ghost before = self.globals.task_values_by_name@;
        proof {
            crate::interpreter::lemma_assign_unique(self.global_values(), name@, v);
            assert(crate::interpreter::assign(self.global_values(), name@, v) == self.global_values().push((name@, v)));
        }
        self.globals.task_values_by_name.push((key, global_value));
        proof {
            assert(bindings_of(self.globals.task_values_by_name@) =~= bindings_of(before).push((name@, v)));
            assert(self.global_values() == old(self).global_values().push((name@, task_value(name@, old(self).next_id(), instances))));
            assert(self.frames().len() == old(self).frames().len() + frame_count(instances));
            assert(self.frames().subrange(0, old(self).frames().len() as int) == old(self).frames());
            let n0 = old(self).frames().len() as int;
            let d0 = old(self).descriptions().len() as int;
            assert(self.bodies().subrange(0, n0) =~= old(self).bodies());
            assert(self.descriptions().subrange(0, d0) =~= old(self).descriptions());
        }
        Ok(())
    }

    /// Adds one frame with the next id, and records its display name.
    pub fn add_one_task(&mut self, name: &str, body: Node, index: Option<usize>) -> (r: (TaskID, String))
        requires
            old(self).wf(),
            old(self).next_id() + 1 < usize::MAX,
        ensures
            final(self).wf(),
            final(self).is_wired() == old(self).is_wired(),
            r.0 == TaskID(old(self).next_id()),
            r.1@ == formatted(name@, index),
            final(self).frames() == old(self).frames().push(final(self).frames().last()),
            final(self).frames().last().name@ == name@,
            final(self).frames().last().index == index,
            final(self).frames().last().id == r.0,
            final(self).frames().last().locals@.len() == 0,
            final(self).global_values() == old(self).global_values(),
            final(self).descriptions() == old(self).descriptions().push((r.0, final(self).descriptions().last().1)),
            final(self).descriptions().last().1@ == r.1@,
            final(self).bodies() == old(self).bodies().push(body),
            final(self).next_id() == old(self).next_id() + 1,
            forall|j: int| 0 <= j < old(self).frames().len() ==> (#[trigger] old(self).frames()[j]).id.0 < old(self).next_id(),
            final(self).frames().last().senders@.len() == 0,
            final(self).frames().last().receivers@.len() == 0,
    {
        proof {
            assert forall|j: int| 0 <= j < old(self).frames().len() implies (#[trigger] old(self).frames()[j]).id.0 < old(self).next_id() by {
                assert(old(self).frames()[j] == old(self).tasks@[j].0);
            }
        }
        let id = self.take_task_id();
        let state = TaskState {
            name: name.to_owned(),
            id,
            index,
            locals: Vec::new(),
            receivers: Vec::new(),
            senders: Vec::new(),
            output: fabric::clone_sender(&self.output),
        };
        let display = state.formatted_name();
        self.globals.task_descriptions_by_id.push((id, display.clone()));
        self.tasks.push((state, body));
        proof {
            assert(self.frames() =~= old(self).frames().push(self.frames().last()));
            assert(self.bodies() =~= old(self).bodies().push(body));
        }
        (id, display)
    }

    /// Gives every ordered pair of distinct frames a rendezvous channel: frame
    /// `t` can send to and receive from every other frame, in id order. Once
    /// wired, a second call changes nothing.
    pub fn create_task_channels(&mut self)
        requires
            old(self).wf(),
        ensures
            final(self).wf(),
            final(self).is_wired(),
            final(self).global_values() == old(self).global_values(),
            final(self).descriptions() == old(self).descriptions(),
            old(self).is_wired() ==> final(self).frames() == old(self).frames(),
            final(self).bodies() == old(self).bodies(),
            final(self).frames().len() == old(self).frames().len(),
            forall|t: int| 0 <= t < final(self).frames().len() ==> same_task(
                #[trigger] final(self).frames()[t],
                old(self).frames()[t],
            ),
            !old(self).is_wired() ==> forall|t: int| 0 <= t < final(self).frames().len() ==> {
                &&& ids_of((#[trigger] final(self).frames()[t]).senders@) == all_but(frame_ids(final(self).frames().len() as int), t)
                &&& ids_of(final(self).frames()[t].receivers@) == all_but(frame_ids(final(self).frames().len() as int), t)
            },
    {
        if self.wired {
            return;
        }
        let n = self.tasks.len();
        let ghost ids = frame_ids(n as int);
        let ghost old_frames = self.frames();
        proof {
            assert forall|t: int| 0 <= t < n implies (#[trigger] old_frames[t]).id == ids[t] by {
                assert(old_frames[t] == self.tasks@[t].0);
            }
        }
        let mut i: usize = 0;
        while i < n
            invariant
                i <= n,
                n == self.tasks@.len(),
                !self.wired,
                old_frames == old(self).frames(),
                old_frames.len() == n,
                self.globals == old(self).globals,
                self.next_task_id == old(self).next_task_id,
                self.next_task_id.0 == n + 1,
                ids == frame_ids(n as int),
                forall|t: int| 0 <= t < n ==> (#[trigger] old_frames[t]).id == ids[t],
                forall|t: int| 0 <= t < n ==> same_task(#[trigger] self.tasks@[t].0, old_frames[t]),
                forall|t: int| 0 <= t < n ==> #[trigger] self.tasks@[t].1 == old(self).tasks@[t].1,
                forall|t: int| 0 <= t < n ==> {
                    &&& ids_of((#[trigger] self.tasks@[t]).0.senders@) == (if t < i { all_but(ids, t) } else { Seq::empty() })
                    &&& ids_of(self.tasks@[t].0.receivers@) == below(ids, i as int, t)
                },
            decreases n - i,
        {
            let subject = self.tasks[i].0.id;
            assert(same_task(self.tasks@[i as int].0, old_frames[i as int]));
            let mut j: usize = 0;
            while j < n
                invariant
                    i < n,
                    j <= n,
                    n == self.tasks@.len(),
                    !self.wired,
                    old_frames.len() == n,
                    self.globals == old(self).globals,
                    self.next_task_id == old(self).next_task_id,
                    ids == frame_ids(n as int),
                    subject == ids[i as int],
                    forall|t: int| 0 <= t < n ==> (#[trigger] old_frames[t]).id == ids[t],
                    forall|t: int| 0 <= t < n ==> same_task(#[trigger] self.tasks@[t].0, old_frames[t]),
                    forall|t: int| 0 <= t < n ==> #[trigger] self.tasks@[t].1 == old(self).tasks@[t].1,
                    ids_of(self.tasks@[i as int].0.senders@) == below(ids, j as int, i as int),
                    forall|t: int| 0 <= t < n && t != i ==> ids_of((#[trigger] self.tasks@[t]).0.senders@) == (if t < i { all_but(ids, t) } else { Seq::empty() }),
                    forall|t: int| 0 <= t < n ==> ids_of((#[trigger] self.tasks@[t]).0.receivers@) == (if t < j && t != i { below(ids, i + 1, t) } else { below(ids, i as int, t) }),
                decreases n - j,
            {
                if j != i {
                    let other = self.tasks[j].0.id;
                    assert(same_task(self.tasks@[j as int].0, old_frames[j as int]));
                    let (sender, receiver) = fabric::rendezvous();
                    let ghost before = self.tasks@;
                    self.tasks[j].0.receivers.push((subject, receiver));
                    self.tasks[i].0.senders.push((other, sender));
                    proof {
                        assert(ids_of(self.tasks@[j as int].0.receivers@) =~= ids_of(before[j as int].0.receivers@).push(subject));
                        assert(ids_of(self.tasks@[i as int].0.senders@) =~= ids_of(before[i as int].0.senders@).push(other));
                        assert(below(ids, i as int, j as int).push(subject) =~= below(ids, i + 1, j as int));
                        assert(below(ids, j as int, i as int).push(other) =~= below(ids, j + 1, i as int));
                    }
                } else {
                    proof {
                        assert(below(ids, j as int, i as int) =~= below(ids, j + 1, i as int));
                    }
                }
                j = j + 1;
            }
            proof {
                assert(below(ids, n as int, i as int) == all_but(ids, i as int));
                assert forall|t: int| 0 <= t < n implies ids_of((#[trigger] self.tasks@[t]).0.receivers@) == below(ids, i + 1, t) by {
                    if t == i {
                        assert(below(ids, i as int, t) =~= below(ids, i + 1, t));
                    }
                }
            }
            i = i + 1;
        }
        self.wired = true;
        proof {
            assert(self.bodies() =~= old(self).bodies());
            assert forall|t: int| 0 <= t < n implies below(ids, n as int, t) == all_but(ids, t) by {}
        }
    }

    /// The globals, and each frame with its body, ready to run.
    pub fn into_parts(self) -> (r: (Globals, Vec<(TaskState, Node)>))
        ensures
            r.0.values() == self.global_values(),
            r.1@.map_values(|p: (TaskState, Node)| p.0) == self.frames(),
            r.1@.map_values(|p: (TaskState, Node)| p.1) == self.bodies(),
            r.0.task_descriptions_by_id@ == self.descriptions(),
    {
        (self.globals, self.tasks)
    }

    fn take_task_id(&mut self) -> (r: TaskID)
        requires
            old(self).next_task_id.0 < usize::MAX,
        ensures
            r == old(self).next_task_id,
            final(self).next_task_id.0 == old(self).next_task_id.0 + 1,
            final(self).tasks == old(self).tasks,
            final(self).globals == old(self).globals,
            final(self).wired == old(self).wired,
            final(self).output == old(self).output,
    {
        let result = self.next_task_id;
        self.next_task_id = TaskID(self.next_task_id.0 + 1);
        result
    }
}

/// What each frame ended with, by display name, as the frames report in.
pub struct Completion {
    expected: usize,
    results: Vec<(String, Result<Value, InterpreterError>)>,
}

impl Completion {
    pub closed spec fn expected(&self) -> nat {
        self.expected as nat
    }

    pub closed spec fn reports(&self) -> Seq<(String, Result<Value, InterpreterError>)> {
        self.results@
    }

    /// Waits for `expected` frames.
    pub fn new(expected: usize) -> (r: Self)
        ensures
            r.expected() == expected,
            r.reports().len() == 0,
    {
        Self { expected, results: Vec::new() }
    }

    /// Records that frame `name` ended with `result`.
    pub fn record(&mut self, name: String, result: Result<Value, InterpreterError>)
        ensures
            final(self).expected() == old(self).expected(),
            final(self).reports() == old(self).reports().push((name, result)),
    {
        self.results.push((name, result));
    }

    /// Whether every frame has reported.
    pub fn is_complete(&self) -> (r: bool)
        ensures
            r == (self.reports().len() >= self.expected()),
    {
        self.results.len() >= self.expected
    }

    /// The reports, in the order they came.
    pub fn into_results(self) -> (r: Vec<(String, Result<Value, InterpreterError>)>)
        ensures
            r@ == self.reports(),
    {
        self.results
    }
}

/// The status a run ends with: 0 when every frame ended without error, else 1.
pub fn exit_status(results: &Vec<(String, Result<Value, InterpreterError>)>) -> (r: i32)
    ensures
        r == 0 <==> forall|i: int| 0 <= i < results@.len() ==> (#[trigger] results@[i]).1 is Ok,
        r == 0 || r == 1,
{
    let mut i: usize = 0;
    while i < results.len()
        invariant
            i <= results.len(),
            forall|j: int| 0 <= j < i ==> (#[trigger] results@[j]).1 is Ok,
        decreases results.len() - i,
    {
        if results[i].1.is_err() {
            return 1;
        }
        i = i + 1;
    }
    0
}

/// Why a program could not be loaded.
#[derive(Debug)]
pub enum LoadError {
    Tokenizer(Vec<TokenizerError>),
    Parser(Vec<ParserError>),
    Registration(RegistrationError),
}

pub open spec fn item_name(item: Item) -> Seq<char> {
    match item.kind {
        ItemKind::TaskDefinition { name, .. } => name@,
    }
}

pub open spec fn item_body(item: Item) -> Node {
    match item.kind {
        ItemKind::TaskDefinition { body, .. } => body,
    }
}

pub open spec fn item_instances(item: Item) -> Option<usize> {
    match item.kind {
        ItemKind::TaskDefinition { instances, .. } => instances,
    }
}

/// The frames that registering `items` in order makes: each one's name, replica
/// index and body.
pub open spec fn planned(items: Seq<Item>) -> Seq<(Seq<char>, Option<usize>, Node)>
    decreases items.len(),
{
    if items.len() == 0 {
        seq![]
    } else {
        let it = items.last();
        planned(items.drop_last()) + Seq::new(
            frame_count(item_instances(it)) as nat,
            |i: int| (item_name(it), frame_index(item_instances(it), i), item_body(it)),
        )
    }
}

/// No two definitions share a name.
pub open spec fn distinct_names(items: Seq<Item>) -> bool {
    forall|a: int, b: int| 0 <= a < b < items.len() ==> item_name(#[trigger] items[a]) != item_name(#[trigger] items[b])
}

/// `rt` is `items` registered in order and wired: frame `t` has id `1 + t`, the
/// planned name, index and body, and channels to every other frame.
pub open spec fn built_from(items: Seq<Item>, rt: Runtime) -> bool {
    let plan = planned(items);
    &&& rt.wf()
    &&& rt.is_wired()
    &&& rt.frames().len() == plan.len()
    &&& rt.bodies().len() == plan.len()
    &&& forall|t: int| 0 <= t < plan.len() ==> {
        let f = #[trigger] rt.frames()[t];
        &&& f.name@ == plan[t].0
        &&& f.index == plan[t].1
        &&& f.id == TaskID((t + 1) as usize)
        &&& f.locals@.len() == 0
        &&& same_tree(rt.bodies()[t], plan[t].2)
        &&& ids_of(f.senders@) == all_but(frame_ids(plan.len() as int), t)
        &&& ids_of(f.receivers@) == all_but(frame_ids(plan.len() as int), t)
    }
}

/// Registers `items` in order and wires the channels. A name defined twice is
/// refused; with distinct names and ids to spare, it succeeds.
pub fn build_runtime(items: &Vec<Item>, output: Sender<String>) -> (r: Result<Runtime, RegistrationError>)
    ensures
        r matches Ok(rt) ==> built_from(items@, rt),
        r matches Err(e) ==> (e == RegistrationError::DuplicateName ==> !distinct_names(items@)),
        r matches Err(e) ==> e != RegistrationError::AlreadyWired,
        distinct_names(items@) && planned(items@).len() + 2 < usize::MAX ==> r is Ok,
{
    let mut runtime = Runtime::new(output);
    let mut i: usize = 0;
    while i < items.len()
        invariant
            i <= items.len(),
            runtime.wf(),
            !runtime.is_wired(),
            runtime.frames().len() == planned(items@.subrange(0, i as int)).len(),
            runtime.bodies().len() == runtime.frames().len(),
            runtime.next_id() == runtime.frames().len() + 1,
            distinct_names(items@) ==> forall|j: int| 0 <= j < i ==> position(runtime.global_values(), item_name(#[trigger] items@[j])) >= 0,
            forall|n: Seq<char>| position(runtime.global_values(), n) >= 0 ==> exists|j: int| 0 <= j < i && #[trigger] item_name(items@[j]) == n,
            forall|t: int| 0 <= t < runtime.frames().len() ==> {
                let f = #[trigger] runtime.frames()[t];
                let p = planned(items@.subrange(0, i as int))[t];
                &&& f.name@ == p.0
                &&& f.index == p.1
                &&& f.id == TaskID((t + 1) as usize)
                &&& f.locals@.len() == 0
                &&& same_tree(runtime.bodies()[t], p.2)
            },
        decreases items.len() - i,
    {
        let ghost before = runtime;
        let ghost pre = items@.subrange(0, i as int);
        let ghost mut copied = item_body(items@[i as int]);
        match &items[i].kind {
            ItemKind::TaskDefinition { name, body, instances } => {
                let copy = body.clone();
                proof {
                    copied = copy;
                }
                match runtime.add_task(name.as_str(), copy, *instances) {
                    Ok(()) => {},
                    Err(e) => {
                        proof {
                            lemma_planned_prefix(items@, i + 1);
                            let pre2 = items@.subrange(0, i + 1);
                            assert(pre2.drop_last() =~= pre);
                            if e == RegistrationError::DuplicateName {
                                let j = choose|j: int| 0 <= j < i && #[trigger] item_name(items@[j]) == name@;
                                assert(item_name(items@[i as int]) == name@);
                            }
                        }
                        return Err(e);
                    },
                }
            },
        }
        proof {
            let it = items@[i as int];
            let pre2 = items@.subrange(0, i + 1);
            assert(pre2.drop_last() =~= pre);
            assert(pre2.last() == it);
            let n0 = before.frames().len() as int;
            let block = Seq::new(
                frame_count(item_instances(it)) as nat,
                |j: int| (item_name(it), frame_index(item_instances(it), j), item_body(it)),
            );
            assert(planned(pre2) == planned(pre) + block);
            assert forall|t: int| 0 <= t < runtime.frames().len() implies {
                let f = #[trigger] runtime.frames()[t];
                let p = planned(pre2)[t];
                &&& f.name@ == p.0
                &&& f.index == p.1
                &&& f.id == TaskID((t + 1) as usize)
                &&& f.locals@.len() == 0
                &&& same_tree(runtime.bodies()[t], p.2)
            } by {
                if t < n0 {
                    assert(runtime.frames()[t] == runtime.frames().subrange(0, n0)[t]);
                    assert(runtime.bodies()[t] == runtime.bodies().subrange(0, n0)[t]);
                } else {
                    let f = runtime.frames()[n0 + (t - n0)];
                    assert(planned(pre2)[t] == block[t - n0]);
                    if item_instances(it) is Some {
                        lemma_same_tree_trans(runtime.bodies()[t], copied, item_body(it));
                    }
                }
            }
            assert forall|n: Seq<char>| position(runtime.global_values(), n) >= 0 implies exists|j: int| 0 <= j < i + 1 && #[trigger] item_name(items@[j]) == n by {
                crate::interpreter::lemma_position_from(runtime.global_values(), n, 0);
                crate::interpreter::lemma_position_from(before.global_values(), n, 0);
                if position(before.global_values(), n) >= 0 {
                    lemma_position_keeps(before.global_values(), n, item_name(it), task_value(item_name(it), before.next_id(), item_instances(it)));
                    let j = choose|j: int| 0 <= j < i && #[trigger] item_name(items@[j]) == n;
                } else {
                    lemma_position_push_other(before.global_values(), n, item_name(it), task_value(item_name(it), before.next_id(), item_instances(it)));
                }
            }
            if distinct_names(items@) {
                assert forall|j: int| 0 <= j < i + 1 implies position(runtime.global_values(), item_name(#[trigger] items@[j])) >= 0 by {
                    if j < i {
                        lemma_position_keeps(before.global_values(), item_name(items@[j]), item_name(it), task_value(item_name(it), before.next_id(), item_instances(it)));
                    } else {
                        lemma_position_push_fresh(before.global_values(), item_name(it), task_value(item_name(it), before.next_id(), item_instances(it)), 0);
                    }
                }
            }
        }
        i = i + 1;
    }
    runtime.create_task_channels();
    proof {
        assert(items@.subrange(0, items@.len() as int) =~= items@);
    }
    Ok(runtime)
}

/// `toks` are the tokens of `input`, which `lex` reads without error, and
/// `items` are the definitions that the grammar reads from them without error.
pub open spec fn parsed_as(input: Seq<char>, toks: Seq<Token>, items: Seq<Item>) -> bool {
    &&& lex(input).1 == 0
    &&& lexemes(toks) == lex(input).0.push(Lexeme::Plain(TokenKind::EndOfFile))
    &&& program(toks).1 == 0
    &&& definitions(items) == program(toks).0
}

/// Reads a program: tokenizes it; when `lex` counts no error, parses the
/// tokens; when the grammar gives no error, registers the definitions in
/// order and wires the channels.
pub fn load(input: &[char], output: Sender<String>) -> (r: Result<Runtime, LoadError>)
    ensures
        (r matches Err(LoadError::Tokenizer(_))) <==> lex(input@).1 > 0,
        r matches Err(LoadError::Tokenizer(errors)) ==> errors@.len() == lex(input@).1,
        r matches Err(LoadError::Parser(errors)) ==> lex(input@).1 == 0 && exists|toks: Seq<Token>|
            lexemes(toks) == lex(input@).0.push(Lexeme::Plain(TokenKind::EndOfFile))
            && #[trigger] program(toks).1 > 0 && errors@.len() == program(toks).1,
        r is Ok ==> exists|toks: Seq<Token>, items: Seq<Item>|
            #[trigger] parsed_as(input@, toks, items) && built_from(items, r->Ok_0),
        r matches Err(LoadError::Registration(e)) ==> exists|toks: Seq<Token>, items: Seq<Item>|
            #[trigger] parsed_as(input@, toks, items)
            && (e == RegistrationError::DuplicateName ==> !distinct_names(items))
            && !(distinct_names(items) && planned(items).len() + 2 < usize::MAX),
{
    let mut tokenizer = Tokenizer::new(input);
    tokenizer.tokenize();
    let (tokens, errors) = tokenizer.into_results();
    if errors.len() > 0 {
        return Err(LoadError::Tokenizer(errors));
    }
    let ghost toks = tokens@;
    proof {
        assert(lexemes(toks) =~= lex(input@).0.push(Lexeme::Plain(TokenKind::EndOfFile)));
    }
    let mut parser = Parser::new(tokens.as_slice());
    proof {
        assert(definitions(parser.item_list()) =~= seq![]);
    }
    parser.parse_top_level();
    let (items, errors) = parser.into_results();
    if errors.len() > 0 {
        proof {
            assert(program(toks).1 > 0 && errors@.len() == program(toks).1);
        }
        return Err(LoadError::Parser(errors));
    }
    let ghost parsed = items@;
    proof {
        assert(parsed_as(input@, toks, parsed));
    }
    match build_runtime(&items, output) {
        Ok(runtime) => {
            proof {
                let out: Result<Runtime, LoadError> = Ok(runtime);
                assert(built_from(parsed, out->Ok_0));
            }
            Ok(runtime)
        },
        Err(e) => Err(LoadError::Registration(e)),
    }
}

} // verus!
