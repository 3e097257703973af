//! The steps of recording a notification, as a state machine: the caller
//! performs each database statement that `step` asks for, inside one
//! transaction, and reports what it gave.

use vstd::prelude::*;

use crate::db::intermediates::Count;

verus! {

/// A database statement to perform next.
pub enum CreateStep {
    /// Insert the D-Bus notification row, binding `replaces_id` (`None`
    /// stands for SQL `NULL`).
    InsertDbusNotification { replaces_id: Option<u32> },
    /// Insert the action with this index.
    InsertAction { index: usize },
    /// Insert the hint with this index.
    InsertHint { index: usize },
    /// Count the rows of `notifications`.
    CountNotifications,
    /// Insert a new notification row for the new D-Bus notification.
    InsertNotification,
    /// Read the notification row with this id.
    SelectReplaced { id: u32 },
    /// Count the earlier D-Bus notifications of this notification.
    CountPrevious { notification_id: i32 },
    /// Record the replaced D-Bus notification as an earlier one, at `idx`.
    InsertPrevious { notification_id: i32, idx: u32 },
    /// Point the notification with this id at the new D-Bus notification.
    UpdateNotification { id: u32 },
    /// Commit the transaction.
    Commit,
    /// Nothing is left to do; the notification row last written is the
    /// result.
    Finish,
    /// An event came that does not answer the statement asked for; the
    /// transaction is dropped.
    Abort,
}

/// What performing a statement gave.
pub enum CreateEvent {
    /// The flow is asked to begin.
    Started,
    /// The statement ran and nothing of its result is needed.
    Executed,
    /// A count query returned.
    Counted(Count),
    /// The notification row asked for was found, with this id.
    Found { id: i32 },
}

/// Which statement's result the flow waits for.
pub enum Phase {
    Start,
    DbusPending,
    ActionPending(usize),
    HintPending(usize),
    CountPending,
    InsertPending,
    SelectPending,
    PreviousCountPending(i32),
    PreviousInsertPending,
    UpdatePending,
    CommitPending,
    Finished,
    Aborted,
}

/// The state of recording one notification.
pub struct CreateFlow {
    pub replaces_id: u32,
    pub n_actions: usize,
    pub n_hints: usize,
    pub phase: Phase,
}

/// Whether the new notification gets a row of its own rather than replacing
/// the one that `replaces_id` names: it does when `replaces_id` is 0, when
/// there are no notifications, or when `replaces_id` is past their count.
pub open spec fn inserts_new(replaces_id: u32, count: u32) -> bool {
    replaces_id == 0 || count == 0 || replaces_id > count
}

/// The statement after the D-Bus notification row, or after action `done - 1`
/// when `done` actions are written: the next action, else the first hint,
/// else the count.
pub open spec fn after_actions(f: CreateFlow, done: int) -> (Phase, CreateStep) {
    if done < f.n_actions {
        (Phase::ActionPending(done as usize), CreateStep::InsertAction { index: done as usize })
    } else {
        after_hints(f, 0)
    }
}

/// The statement after `done` hints are written: the next hint, else the
/// count.
pub open spec fn after_hints(f: CreateFlow, done: int) -> (Phase, CreateStep) {
    if done < f.n_hints {
        (Phase::HintPending(done as usize), CreateStep::InsertHint { index: done as usize })
    } else {
        (Phase::CountPending, CreateStep::CountNotifications)
    }
}

/// One transition: from a state and the result of the last statement, the
/// next state and the next statement.
pub open spec fn transition(f: CreateFlow, e: CreateEvent) -> (CreateFlow, CreateStep) {
    let (phase, step) = match (f.phase, e) {
        (Phase::Start, CreateEvent::Started) => (
            Phase::DbusPending,
            CreateStep::InsertDbusNotification {
                replaces_id: if f.replaces_id == 0 {
                    None
                } else {
                    Some(f.replaces_id)
                },
            },
        ),
        (Phase::DbusPending, CreateEvent::Executed) => after_actions(f, 0),
        (Phase::ActionPending(i), CreateEvent::Executed) => after_actions(f, i + 1),
        (Phase::HintPending(i), CreateEvent::Executed) => after_hints(f, i + 1),
        (Phase::CountPending, CreateEvent::Counted(c)) => if inserts_new(f.replaces_id, c.count) {
            (Phase::InsertPending, CreateStep::InsertNotification)
        } else {
            (Phase::SelectPending, CreateStep::SelectReplaced { id: f.replaces_id })
        },
        (Phase::InsertPending, CreateEvent::Executed) => (Phase::CommitPending, CreateStep::Commit),
        (Phase::SelectPending, CreateEvent::Found { id }) => (
            Phase::PreviousCountPending(id),
            CreateStep::CountPrevious { notification_id: id },
        ),
        (Phase::PreviousCountPending(id), CreateEvent::Counted(c)) => (
            Phase::PreviousInsertPending,
            CreateStep::InsertPrevious { notification_id: id, idx: c.count },
        ),
        (Phase::PreviousInsertPending, CreateEvent::Executed) => (
            Phase::UpdatePending,
            CreateStep::UpdateNotification { id: f.replaces_id },
        ),
        (Phase::UpdatePending, CreateEvent::Executed) => (Phase::CommitPending, CreateStep::Commit),
        (Phase::CommitPending, CreateEvent::Executed) => (Phase::Finished, CreateStep::Finish),
        (Phase::Finished, _) => (Phase::Finished, CreateStep::Finish),
        _ => (Phase::Aborted, CreateStep::Abort),
    };
    (CreateFlow { phase: phase, ..f }, step)
}

impl CreateFlow {
    /// A flow for a notification with these many actions and hints.
    pub fn new(replaces_id: u32, n_actions: usize, n_hints: usize) -> (f: Self)
        ensures
            f == (CreateFlow { replaces_id, n_actions, n_hints, phase: Phase::Start }),
    {
        CreateFlow { replaces_id, n_actions, n_hints, phase: Phase::Start }
    }

    fn after_actions(&self, done: usize) -> (r: (Phase, CreateStep))
        ensures
            r == after_actions(*self, done as int),
    {
        if done < self.n_actions {
            (Phase::ActionPending(done), CreateStep::InsertAction { index: done })
        } else {
            self.after_hints(0)
        }
    }

    fn after_hints(&self, done: usize) -> (r: (Phase, CreateStep))
        ensures
            r == after_hints(*self, done as int),
    {
        if done < self.n_hints {
            (Phase::HintPending(done), CreateStep::InsertHint { index: done })
        } else {
            (Phase::CountPending, CreateStep::CountNotifications)
        }
    }

    /// Takes the result of the last statement and gives the next one.
    pub fn step(&mut self, event: CreateEvent) -> (s: CreateStep)
        ensures
            (*final(self), s) == transition(*old(self), event),
    {
        let (phase, step) = match (&self.phase, event) {
            (Phase::Start, CreateEvent::Started) => (
                Phase::DbusPending,
                CreateStep::InsertDbusNotification {
                    replaces_id: if self.replaces_id == 0 {
                        None
                    } else {
                        Some(self.replaces_id)
                    },
                },
            ),
            (Phase::DbusPending, CreateEvent::Executed) => self.after_actions(0),
            (Phase::ActionPending(i), CreateEvent::Executed) => {
                if *i < self.n_actions {
                    self.after_actions(*i + 1)
                } else {
                    self.after_hints(0)
                }
            },
            (Phase::HintPending(i), CreateEvent::Executed) => {
                if *i < self.n_hints {
                    self.after_hints(*i + 1)
                } else {
                    (Phase::CountPending, CreateStep::CountNotifications)
                }
            },
            (Phase::CountPending, CreateEvent::Counted(c)) => {
                if self.replaces_id == 0 || c.count == 0 || self.replaces_id > c.count {
                    (Phase::InsertPending, CreateStep::InsertNotification)
                } else {
                    (Phase::SelectPending, CreateStep::SelectReplaced { id: self.replaces_id })
                }
            },
            (Phase::InsertPending, CreateEvent::Executed) => (Phase::CommitPending, CreateStep::Commit),
            (Phase::SelectPending, CreateEvent::Found { id }) => (
                Phase::PreviousCountPending(id),
                CreateStep::CountPrevious { notification_id: id },
            ),
            (Phase::PreviousCountPending(id), CreateEvent::Counted(c)) => (
                Phase::PreviousInsertPending,
                CreateStep::InsertPrevious { notification_id: *id, idx: c.count },
            ),
            (Phase::PreviousInsertPending, CreateEvent::Executed) => (
                Phase::UpdatePending,
                CreateStep::UpdateNotification { id: self.replaces_id },
            ),
            (Phase::UpdatePending, CreateEvent::Executed) => (Phase::CommitPending, CreateStep::Commit),
            (Phase::CommitPending, CreateEvent::Executed) => (Phase::Finished, CreateStep::Finish),
            (Phase::Finished, _) => (Phase::Finished, CreateStep::Finish),
            _ => (Phase::Aborted, CreateStep::Abort),
        };
        self.phase = phase;
        step
    }
}


// ----- The whole write path -----

/// The states and statements that a sequence of events leads through.
pub open spec fn run(f: CreateFlow, events: Seq<CreateEvent>) -> (CreateFlow, Seq<CreateStep>)
    decreases events.len(),
{
    if events.len() == 0 {
        (f, Seq::empty())
    } else {
        let (f1, s) = transition(f, events[0]);
        let (f2, rest) = run(f1, events.drop_first());
        (f2, seq![s] + rest)
    }
}

/// `n` results of statements whose output is not needed.
pub open spec fn executed(n: nat) -> Seq<CreateEvent> {
    Seq::new(n, |i: int| CreateEvent::Executed)
}

/// The `p`-th statement after the D-Bus notification row: the actions in
/// order, then the hints in order, then the count.
pub open spec fn item_step(f: CreateFlow, p: int) -> CreateStep {
    if p < f.n_actions {
        CreateStep::InsertAction { index: p as usize }
    } else if p < f.n_actions + f.n_hints {
        CreateStep::InsertHint { index: (p - f.n_actions) as usize }
    } else {
        CreateStep::CountNotifications
    }
}

pub open spec fn item_phase(f: CreateFlow, p: int) -> Phase {
    if p < f.n_actions {
        Phase::ActionPending(p as usize)
    } else if p < f.n_actions + f.n_hints {
        Phase::HintPending((p - f.n_actions) as usize)
    } else {
        Phase::CountPending
    }
}

/// The events of recording a notification when each statement succeeds:
/// the count of notifications is `count`; where an earlier notification is
/// replaced, its row has id `found_id` and `previous` earlier versions.
pub open spec fn create_events(
    replaces_id: u32,
    n_actions: usize,
    n_hints: usize,
    count: u32,
    found_id: i32,
    previous: u32,
) -> Seq<CreateEvent> {
    seq![CreateEvent::Started] + executed((n_actions + n_hints + 1) as nat) + seq![
        CreateEvent::Counted(Count { count }),
    ] + if replaces_id == 0 || count == 0 || replaces_id > count {
        executed(2)
    } else {
        seq![CreateEvent::Found { id: found_id }, CreateEvent::Counted(Count { count: previous })]
            + executed(3)
    }
}

/// The statements of recording a notification, in order.
pub open spec fn create_steps(
    replaces_id: u32,
    n_actions: usize,
    n_hints: usize,
    count: u32,
    found_id: i32,
    previous: u32,
) -> Seq<CreateStep> {
    let f = CreateFlow { replaces_id, n_actions, n_hints, phase: Phase::Start };
    seq![
        CreateStep::InsertDbusNotification {
            replaces_id: if replaces_id == 0 {
                None
            } else {
                Some(replaces_id)
            },
        },
    ] + Seq::new((n_actions + n_hints + 1) as nat, |p: int| item_step(f, p)) + if replaces_id
        == 0 || count == 0 || replaces_id > count {
        seq![CreateStep::InsertNotification, CreateStep::Commit, CreateStep::Finish]
    } else {
        seq![
            CreateStep::SelectReplaced { id: replaces_id },
            CreateStep::CountPrevious { notification_id: found_id },
            CreateStep::InsertPrevious { notification_id: found_id, idx: previous },
            CreateStep::UpdateNotification { id: replaces_id },
            CreateStep::Commit,
            CreateStep::Finish,
        ]
    }
}

proof fn lemma_run_concat(f: CreateFlow, e1: Seq<CreateEvent>, e2: Seq<CreateEvent>)
    ensures
        run(f, e1 + e2) == ({
            let (f1, s1) = run(f, e1);
            let (f2, s2) = run(f1, e2);
            (f2, s1 + s2)
        }),
    decreases e1.len(),
{
    if e1.len() == 0 {
        assert(e1 + e2 =~= e2);
        let (f2, s2) = run(f, e2);
        assert(Seq::<CreateStep>::empty() + s2 =~= s2);
    } else {
        assert((e1 + e2)[0] == e1[0]);
        assert((e1 + e2).drop_first() =~= e1.drop_first() + e2);
        let (g, s) = transition(f, e1[0]);
        lemma_run_concat(g, e1.drop_first(), e2);
        let (g1, t1) = run(g, e1.drop_first());
        let (g2, t2) = run(g1, e2);
        assert(seq![s] + (t1 + t2) =~= (seq![s] + t1) + t2);
    }
}

proof fn lemma_item_transition(f: CreateFlow, p: int)
    requires
        0 <= p < f.n_actions + f.n_hints,
        f.phase == item_phase(f, p),
    ensures
        transition(f, CreateEvent::Executed) == (
            CreateFlow { phase: item_phase(f, p + 1), ..f },
            item_step(f, p + 1),
        ),
{
}

proof fn lemma_items(f: CreateFlow, p: int)
    requires
        0 <= p <= f.n_actions + f.n_hints,
        f.phase == item_phase(f, p),
    ensures
        run(f, executed((f.n_actions + f.n_hints - p) as nat)) == (
            CreateFlow { phase: Phase::CountPending, ..f },
            Seq::new((f.n_actions + f.n_hints - p) as nat, |j: int| item_step(f, p + 1 + j)),
        ),
    decreases f.n_actions + f.n_hints - p,
{
    let k = (f.n_actions + f.n_hints - p) as nat;
    if k == 0 {
        assert(Seq::new(k, |j: int| item_step(f, p + 1 + j)) =~= Seq::<CreateStep>::empty());
    } else {
        lemma_item_transition(f, p);
        let g = CreateFlow { phase: item_phase(f, p + 1), ..f };
        assert(executed(k).drop_first() =~= executed((k - 1) as nat));
        lemma_items(g, p + 1);
        assert(seq![item_step(f, p + 1)] + Seq::new((k - 1) as nat, |j: int| item_step(g, p + 2 + j))
            =~= Seq::new(k, |j: int| item_step(f, p + 1 + j)));
    }
}

proof fn lemma_run_one(f: CreateFlow, e: CreateEvent)
    ensures
        run(f, seq![e]) == (transition(f, e).0, seq![transition(f, e).1]),
{
    assert(seq![e].drop_first() =~= Seq::<CreateEvent>::empty());
    let (g, s) = transition(f, e);
    assert(run(g, Seq::<CreateEvent>::empty()) == (g, Seq::<CreateStep>::empty()));
    assert(seq![s] + Seq::<CreateStep>::empty() =~= seq![s]);
}

proof fn lemma_run_two(f: CreateFlow, a: CreateEvent, b: CreateEvent)
    ensures
        run(f, seq![a, b]).1 == seq![transition(f, a).1, transition(transition(f, a).0, b).1],
        run(f, seq![a, b]).0 == transition(transition(f, a).0, b).0,
{
    assert(seq![a, b] =~= seq![a] + seq![b]);
    lemma_run_concat(f, seq![a], seq![b]);
    lemma_run_one(f, a);
    lemma_run_one(transition(f, a).0, b);
    assert(seq![transition(f, a).1] + seq![transition(transition(f, a).0, b).1] =~= seq![
        transition(f, a).1,
        transition(transition(f, a).0, b).1,
    ]);
}

/// From the start, the D-Bus row, the actions, the hints and the count.
proof fn lemma_prefix(f: CreateFlow)
    requires
        f.phase == Phase::Start,
    ensures
        run(f, seq![CreateEvent::Started] + executed((f.n_actions + f.n_hints + 1) as nat)) == (
            CreateFlow { phase: Phase::CountPending, ..f },
            seq![transition(f, CreateEvent::Started).1] + Seq::new(
                (f.n_actions + f.n_hints + 1) as nat,
                |p: int| item_step(f, p),
            ),
        ),
{
    let n = (f.n_actions + f.n_hints + 1) as nat;
    let f1 = CreateFlow { phase: Phase::DbusPending, ..f };
    lemma_run_concat(f, seq![CreateEvent::Started], executed(n));
    lemma_run_one(f, CreateEvent::Started);
    let f2 = CreateFlow { phase: item_phase(f, 0), ..f };
    assert(transition(f1, CreateEvent::Executed) == (f2, item_step(f, 0)));
    assert(executed(n) =~= seq![CreateEvent::Executed] + executed((n - 1) as nat));
    lemma_run_concat(f1, seq![CreateEvent::Executed], executed((n - 1) as nat));
    lemma_run_one(f1, CreateEvent::Executed);
    lemma_items(f2, 0);
    assert(seq![item_step(f, 0)] + Seq::new((n - 1) as nat, |j: int| item_step(f2, 1 + j))
        =~= Seq::new(n, |p: int| item_step(f, p)));
}

proof fn lemma_tail_new(f: CreateFlow, count: u32)
    requires
        f.phase == Phase::CountPending,
        inserts_new(f.replaces_id, count),
    ensures
        run(f, seq![CreateEvent::Counted(Count { count })] + executed(2)).1 == seq![
            CreateStep::InsertNotification,
            CreateStep::Commit,
            CreateStep::Finish,
        ],
{
    let c = CreateEvent::Counted(Count { count });
    let f4 = CreateFlow { phase: Phase::InsertPending, ..f };
    let f5 = CreateFlow { phase: Phase::CommitPending, ..f };
    assert(executed(2) =~= seq![CreateEvent::Executed, CreateEvent::Executed]);
    lemma_run_concat(f, seq![c], executed(2));
    lemma_run_one(f, c);
    assert(transition(f, c).0 == f4);
    assert(transition(f4, CreateEvent::Executed).0 == f5);
    lemma_run_two(f4, CreateEvent::Executed, CreateEvent::Executed);
    assert(seq![CreateStep::InsertNotification] + seq![CreateStep::Commit, CreateStep::Finish]
        =~= seq![CreateStep::InsertNotification, CreateStep::Commit, CreateStep::Finish]);
}

proof fn lemma_tail_replace(f: CreateFlow, count: u32, found_id: i32, previous: u32)
    requires
        f.phase == Phase::CountPending,
        !inserts_new(f.replaces_id, count),
    ensures
        run(
            f,
            seq![CreateEvent::Counted(Count { count })] + (seq![
                CreateEvent::Found { id: found_id },
                CreateEvent::Counted(Count { count: previous }),
            ] + executed(3)),
        ).1 == seq![
            CreateStep::SelectReplaced { id: f.replaces_id },
            CreateStep::CountPrevious { notification_id: found_id },
            CreateStep::InsertPrevious { notification_id: found_id, idx: previous },
            CreateStep::UpdateNotification { id: f.replaces_id },
            CreateStep::Commit,
            CreateStep::Finish,
        ],
{
    let c = CreateEvent::Counted(Count { count });
    let fd = CreateEvent::Found { id: found_id };
    let pc = CreateEvent::Counted(Count { count: previous });
    let x = CreateEvent::Executed;
    let f4 = CreateFlow { phase: Phase::SelectPending, ..f };
    let g2 = CreateFlow { phase: Phase::PreviousInsertPending, ..f };
    let g4 = CreateFlow { phase: Phase::CommitPending, ..f };
    assert(executed(3) =~= seq![x] + seq![x, x]);
    assert(seq![c] + (seq![fd, pc] + executed(3)) =~= seq![c] + (seq![fd, pc] + (seq![x] + seq![x, x])));
    lemma_run_concat(f, seq![c], seq![fd, pc] + (seq![x] + seq![x, x]));
    lemma_run_one(f, c);
    lemma_run_concat(f4, seq![fd, pc], seq![x] + seq![x, x]);
    lemma_run_two(f4, fd, pc);
    lemma_run_concat(g2, seq![x], seq![x, x]);
    lemma_run_one(g2, x);
    let g3 = transition(g2, x).0;
    lemma_run_two(g3, x, x);
    assert(transition(g3, x).0 == g4);
}

/// The write path: when each statement succeeds, recording a notification
/// inserts its D-Bus row, then each action and each hint once, in order,
/// then counts the notifications; it then inserts a new notification row
/// exactly when `replaces_id` is 0, the count is 0 or `replaces_id` is past
/// the count, and otherwise files the replaced D-Bus notification as the
/// next earlier version and points notification `replaces_id` at the new
/// one; the transaction is committed last.
pub proof fn law_create_steps(
    replaces_id: u32,
    n_actions: usize,
    n_hints: usize,
    count: u32,
    found_id: i32,
    previous: u32,
)
    ensures
        run(
            CreateFlow { replaces_id, n_actions, n_hints, phase: Phase::Start },
            create_events(replaces_id, n_actions, n_hints, count, found_id, previous),
        ).1 == create_steps(replaces_id, n_actions, n_hints, count, found_id, previous),
{
    let f = CreateFlow { replaces_id, n_actions, n_hints, phase: Phase::Start };
    let n = (n_actions + n_hints + 1) as nat;
    let head = seq![CreateEvent::Started] + executed(n);
    let c = seq![CreateEvent::Counted(Count { count })];
    let tail_events = if replaces_id == 0 || count == 0 || replaces_id > count {
        executed(2)
    } else {
        seq![CreateEvent::Found { id: found_id }, CreateEvent::Counted(Count { count: previous })]
            + executed(3)
    };
    let events = create_events(replaces_id, n_actions, n_hints, count, found_id, previous);
    assert(events =~= head + (c + tail_events));
    lemma_run_concat(f, head, c + tail_events);
    lemma_prefix(f);
    let f3 = CreateFlow { phase: Phase::CountPending, ..f };
    if replaces_id == 0 || count == 0 || replaces_id > count {
        lemma_tail_new(f3, count);
    } else {
        lemma_tail_replace(f3, count, found_id, previous);
    }
    assert(run(f, events).1 =~= create_steps(
        replaces_id,
        n_actions,
        n_hints,
        count,
        found_id,
        previous,
    ));
}


/// The replace decision: once the notifications are counted, the flow asks
/// for a new notification row exactly when `replaces_id` is 0, the count is
/// 0, or `replaces_id` is greater than the count; otherwise it reads the row
/// of notification `replaces_id` to replace it. Either way the D-Bus
/// notification is inserted first, binding `NULL` exactly for a
/// `replaces_id` of 0.
pub proof fn law_replace_decision(f: CreateFlow, count: u32)
    ensures
        f.phase == Phase::CountPending ==> transition(f, CreateEvent::Counted((Count { count }))).1
            == (if f.replaces_id == 0 || count == 0 || f.replaces_id > count {
            CreateStep::InsertNotification
        } else {
            (CreateStep::SelectReplaced { id: f.replaces_id })
        }),
        f.phase == Phase::CountPending && 0 < f.replaces_id <= count ==> transition(
            f,
            CreateEvent::Counted((Count { count })),
        ).1 == (CreateStep::SelectReplaced { id: f.replaces_id }),
        f.phase == Phase::Start ==> transition(f, CreateEvent::Started).1 == (
        CreateStep::InsertDbusNotification {
            replaces_id: if f.replaces_id == 0 {
                None
            } else {
                Some(f.replaces_id)
            },
        }),
{
}

} // verus!
