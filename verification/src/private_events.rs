//! The walk over a circuit body that defines its private-input events: which
//! witness values the private transcript carries, and in which order.
//!
//! An event is the first touch of a witness field, or a call of a witness
//! method. Touches inside a branch are not remembered as cached: a second
//! touch of such a field is refused by the emitter.
use crate::contract::{ContractIR, ContractV};
use crate::expr::{assert_view, expr_view, exprs_view, fields_view, AssertKind, AssertV, ExprIR, ExprV};
use crate::lowering::evaluation_order;
use crate::names::NameSet;
use crate::zkir_emitter::{field_order, ints};
use vstd::prelude::*;

verus! {

/// One private-input event.
pub struct EventV {
    pub name: Seq<char>,
    /// The arguments of a method call; none for a field touch.
    pub args: Option<Seq<ExprV>>,
    /// Whether a branch was active at the event.
    pub in_branch: bool,
}

/// Which witness fields were touched so far.
#[verifier::ext_equal]
pub struct TrackerV {
    pub seen: Set<Seq<char>>,
    pub guarded: Set<Seq<char>>,
    pub in_branch: bool,
}

pub open spec fn fresh_tracker() -> TrackerV {
    TrackerV { seen: Set::empty(), guarded: Set::empty(), in_branch: false }
}

pub open spec fn was_touched(t: TrackerV, field: Seq<char>) -> bool {
    t.seen.contains(field) || t.guarded.contains(field)
}

/// The tracker after a touch.
pub open spec fn touched(t: TrackerV, field: Seq<char>) -> TrackerV {
    if was_touched(t, field) {
        t
    } else if t.in_branch {
        TrackerV { guarded: t.guarded.insert(field), ..t }
    } else {
        TrackerV { seen: t.seen.insert(field), ..t }
    }
}

pub open spec fn touch_events(t: TrackerV, field: Seq<char>) -> Seq<EventV> {
    if was_touched(t, field) {
        seq![]
    } else {
        seq![EventV { name: field, args: None, in_branch: t.in_branch }]
    }
}

/// The tracker and the events after an expression, in the order in which the
/// emitter evaluates it.
pub open spec fn walk(cx: ContractV, t: TrackerV, e: ExprV) -> (TrackerV, Seq<EventV>)
    decreases e, 0nat,
{
    match e {
        ExprV::WitnessAccess { field, .. } => (touched(t, field), touch_events(t, field)),
        ExprV::WitnessCall { name, args, .. } => {
            let a = walk_list(cx, t, args, args.len());
            (a.0, a.1.push(EventV { name, args: Some(args), in_branch: a.0.in_branch }))
        }
        ExprV::LedgerAccess { args, .. } => walk_list(cx, t, args, args.len()),
        ExprV::FnCall { args, .. } => walk_list(cx, t, args, args.len()),
        ExprV::MethodCall { receiver, args, .. } => {
            let a = walk(cx, t, *receiver);
            let b = walk_list(cx, a.0, args, args.len());
            (b.0, a.1 + b.1)
        }
        ExprV::BinaryOp { lhs, rhs, .. } => {
            let a = walk(cx, t, *lhs);
            let b = walk(cx, a.0, *rhs);
            (b.0, a.1 + b.1)
        }
        ExprV::UnaryOp { expr, .. } => walk(cx, t, *expr),
        ExprV::Reference { expr, .. } => walk(cx, t, *expr),
        ExprV::Disclose { value, .. } => walk(cx, t, *value),
        ExprV::Let { value, .. } => walk(cx, t, *value),
        ExprV::Block { stmts, .. } => walk_list(cx, t, stmts, stmts.len()),
        ExprV::Assert { kind, .. } => match kind {
            AssertV::Assert(c) => walk(cx, t, *c),
            AssertV::AssertEq(l, r) => {
                let a = walk(cx, t, *l);
                let b = walk(cx, a.0, *r);
                (b.0, a.1 + b.1)
            }
        },
        ExprV::If { cond, then_branch, else_branch, .. } => {
            let c = walk(cx, t, *cond);
            let inside = TrackerV { in_branch: true, ..c.0 };
            let a = walk_list(cx, inside, then_branch, then_branch.len());
            match else_branch {
                Some(eb) => {
                    let b = walk_list(cx, a.0, eb, eb.len());
                    (TrackerV { in_branch: c.0.in_branch, ..b.0 }, c.1 + a.1 + b.1)
                }
                None => (TrackerV { in_branch: c.0.in_branch, ..a.0 }, c.1 + a.1),
            }
        }
        ExprV::EnumPayload { scrutinee, .. } => walk(cx, t, *scrutinee),
        ExprV::Index { array, .. } => walk(cx, t, *array),
        ExprV::Tuple { elements, .. } => walk_list(cx, t, elements, elements.len()),
        ExprV::ArrayLit { elements, .. } => walk_list(cx, t, elements, elements.len()),
        ExprV::StructInit { name, fields, .. } => {
            let order = evaluation_order(cx, name, fields);
            walk_fields(cx, t, fields, order, order.len())
        }
        ExprV::Return { value, .. } => match value {
            Some(v) => walk(cx, t, *v),
            None => (t, seq![]),
        },
        ExprV::Literal { .. } => (t, seq![]),
        ExprV::Var { .. } => (t, seq![]),
        ExprV::Path { .. } => (t, seq![]),
        ExprV::Unsupported { .. } => (t, seq![]),
    }
}

/// The tracker and the events after the first `n` of `es`.
pub open spec fn walk_list(cx: ContractV, t: TrackerV, es: Seq<ExprV>, n: nat) -> (TrackerV, Seq<EventV>)
    decreases es, n,
{
    if n == 0 || n > es.len() {
        (t, seq![])
    } else {
        let a = walk_list(cx, t, es, (n - 1) as nat);
        let b = walk(cx, a.0, es[n - 1]);
        (b.0, a.1 + b.1)
    }
}

/// The tracker and the events after the initializers at the first `n`
/// positions of `order`.
pub open spec fn walk_fields(cx: ContractV, t: TrackerV, fs: Seq<(Seq<char>, ExprV)>, order: Seq<int>, n: nat) -> (
    TrackerV,
    Seq<EventV>,
)
    decreases fs, n,
{
    if n == 0 || n > order.len() {
        (t, seq![])
    } else {
        let a = walk_fields(cx, t, fs, order, (n - 1) as nat);
        if 0 <= order[n - 1] < fs.len() {
            let b = walk(cx, a.0, fs[order[n - 1]].1);
            (b.0, a.1 + b.1)
        } else {
            a
        }
    }
}

/// One private-input event of a circuit body.
pub enum PrivateEvent<'a> {
    /// First touch of a witness field.
    FieldTouch { field: &'a String, in_branch: bool },
    /// A call of a witness method.
    Call { name: &'a String, args: &'a Vec<ExprIR>, in_branch: bool },
}

pub open spec fn event_view(e: PrivateEvent) -> EventV {
    match e {
        PrivateEvent::FieldTouch { field, in_branch } => EventV { name: field@, args: None, in_branch },
        PrivateEvent::Call { name, args, in_branch } => EventV {
            name: name@,
            args: Some(exprs_view(args@)),
            in_branch,
        },
    }
}

pub open spec fn events_view(s: Seq<PrivateEvent>) -> Seq<EventV> {
    Seq::new(s.len(), |i: int| event_view(s[i]))
}

/// Mirrors the emitter's memory of witness fields: the first touch outside any
/// branch is cached, the first touch inside one is not.
pub struct FirstTouchTracker {
    seen: NameSet,
    guarded: NameSet,
    pub in_branch: bool,
}

impl View for FirstTouchTracker {
    type V = TrackerV;

    closed spec fn view(&self) -> TrackerV {
        TrackerV { seen: self.seen@, guarded: self.guarded@, in_branch: self.in_branch }
    }
}

impl FirstTouchTracker {
    /// A tracker that has seen no touch.
    pub fn new() -> (r: Self)
        ensures
            r@ == fresh_tracker(),
    {
        FirstTouchTracker { seen: NameSet::new(), guarded: NameSet::new(), in_branch: false }
    }

    /// Enters or leaves a branch; the result is where it was before.
    pub fn set_branch(&mut self, in_branch: bool) -> (before: bool)
        ensures
            final(self)@ == (TrackerV { in_branch, ..old(self)@ }),
            before == old(self)@.in_branch,
    {
        let before = self.in_branch;
        self.in_branch = in_branch;
        before
    }

    /// Whether a branch is active.
    pub fn branch(&self) -> (r: bool)
        ensures
            r == self@.in_branch,
    {
        self.in_branch
    }

    /// Records a touch of `field`; whether it is the one that allocates.
    pub fn touch(&mut self, field: &str) -> (first: bool)
        ensures
            final(self)@ == touched(old(self)@, field@),
            first == !was_touched(old(self)@, field@),
    {
        if self.seen.contains(field) || self.guarded.contains(field) {
            return false;
        }
        if self.in_branch {
            self.guarded.insert(crate::text::txt(field));
        } else {
            self.seen.insert(crate::text::txt(field));
        }
        true
    }
}

/// Appends the private-input events of an expression.
pub fn walk_expr_events<'a>(
    cx: &ContractIR,
    tracker: &mut FirstTouchTracker,
    e: &'a ExprIR,
    out: &mut Vec<PrivateEvent<'a>>,
)
    ensures
        final(tracker)@ == walk(cx@, old(tracker)@, e@).0,
        events_view(final(out)@) == events_view(old(out)@) + walk(cx@, old(tracker)@, e@).1,
    decreases e, 0nat,
{
    let ghost start = events_view(out@);
    let ghost t = tracker@;
    match e {
        ExprIR::WitnessAccess { field, .. } => {
            let in_branch = tracker.branch();
            if tracker.touch(field.as_str()) {
                out.push(PrivateEvent::FieldTouch { field, in_branch });
            }
            assert(events_view(out@) =~= start + walk(cx@, t, e@).1);
        }
        ExprIR::WitnessCall { name, args, .. } => {
            walk_list_events(cx, tracker, args, out);
            let in_branch = tracker.branch();
            let ghost mid = events_view(out@);
            let ghost fired = EventV { name: name@, args: Some(exprs_view(args@)), in_branch };
            out.push(PrivateEvent::Call { name, args, in_branch });
            assert(events_view(out@) =~= mid.push(fired));
            assert(walk(cx@, t, e@).1 == walk_list(cx@, t, exprs_view(args@), args@.len()).1.push(fired));
            assert(events_view(out@) =~= start + walk(cx@, t, e@).1);
        }
        ExprIR::LedgerAccess { args, .. } => walk_list_events(cx, tracker, args, out),
        ExprIR::FnCall { args, .. } => walk_list_events(cx, tracker, args, out),
        ExprIR::MethodCall { receiver, args, .. } => {
            walk_expr_events(cx, tracker, receiver, out);
            walk_list_events(cx, tracker, args, out);
            assert(events_view(out@) =~= start + walk(cx@, t, e@).1);
        }
        ExprIR::BinaryOp { lhs, rhs, .. } => {
            walk_expr_events(cx, tracker, lhs, out);
            walk_expr_events(cx, tracker, rhs, out);
            assert(events_view(out@) =~= start + walk(cx@, t, e@).1);
        }
        ExprIR::UnaryOp { expr, .. } => walk_expr_events(cx, tracker, expr, out),
        ExprIR::Reference { expr, .. } => walk_expr_events(cx, tracker, expr, out),
        ExprIR::Disclose { value, .. } => walk_expr_events(cx, tracker, value, out),
        ExprIR::Let { value, .. } => walk_expr_events(cx, tracker, value, out),
        ExprIR::Block { stmts, .. } => walk_list_events(cx, tracker, stmts, out),
        ExprIR::Assert { kind, .. } => match kind {
            AssertKind::Assert(c) => {
                assert(assert_view(*kind) is Assert);
                walk_expr_events(cx, tracker, c, out);
            }
            AssertKind::AssertEq(a, b) => {
                assert(assert_view(*kind) is AssertEq);
                walk_expr_events(cx, tracker, a, out);
                walk_expr_events(cx, tracker, b, out);
                assert(events_view(out@) =~= start + walk(cx@, t, e@).1);
            }
        },
        ExprIR::If { cond, then_branch, else_branch, .. } => {
            walk_expr_events(cx, tracker, cond, out);
            let outer = tracker.set_branch(true);
            walk_list_events(cx, tracker, then_branch, out);
            match else_branch {
                Some(eb) => walk_list_events(cx, tracker, eb, out),
                None => {}
            }
            let _ = tracker.set_branch(outer);
            assert(events_view(out@) =~= start + walk(cx@, t, e@).1);
        }
        ExprIR::EnumPayload { scrutinee, .. } => walk_expr_events(cx, tracker, scrutinee, out),
        ExprIR::Index { array, .. } => walk_expr_events(cx, tracker, array, out),
        ExprIR::Tuple { elements, .. } => walk_list_events(cx, tracker, elements, out),
        ExprIR::ArrayLit { elements, .. } => walk_list_events(cx, tracker, elements, out),
        ExprIR::StructInit { name, fields, .. } => {
            let order = field_order(cx, name.as_str(), fields);
            walk_field_events(cx, tracker, fields, &order, out);
        }
        ExprIR::Return { value, .. } => match value {
            Some(v) => walk_expr_events(cx, tracker, v, out),
            None => {
                assert(events_view(out@) =~= start + walk(cx@, t, e@).1);
            }
        },
        _ => {
            assert(events_view(out@) =~= start + walk(cx@, t, e@).1);
        }
    }
}

/// Appends the private-input events of a list of expressions.
pub fn walk_list_events<'a>(
    cx: &ContractIR,
    tracker: &mut FirstTouchTracker,
    es: &'a Vec<ExprIR>,
    out: &mut Vec<PrivateEvent<'a>>,
)
    ensures
        final(tracker)@ == walk_list(cx@, old(tracker)@, exprs_view(es@), es@.len()).0,
        events_view(final(out)@) == events_view(old(out)@) + walk_list(
            cx@,
            old(tracker)@,
            exprs_view(es@),
            es@.len(),
        ).1,
        exprs_view(es@).len() == es@.len(),
    decreases es, 0nat,
{
    let ghost start = events_view(out@);
    let ghost t = tracker@;
    let ghost v = exprs_view(es@);
    assert(events_view(out@) =~= start + walk_list(cx@, t, v, 0).1);
    let mut i: usize = 0;
    while i < es.len()
        invariant
            i <= es@.len(),
            v == exprs_view(es@),
            v.len() == es@.len(),
            t == old(tracker)@,
            start == events_view(old(out)@),
            tracker@ == walk_list(cx@, t, v, i as nat).0,
            events_view(out@) == start + walk_list(cx@, t, v, i as nat).1,
        decreases es@.len() - i,
    {
        assert(v[i as int] == expr_view(es@[i as int]));
        walk_expr_events(cx, tracker, &es[i], out);
        assert(events_view(out@) =~= start + walk_list(cx@, t, v, (i + 1) as nat).1);
        i += 1;
    }
}

fn walk_field_events<'a>(
    cx: &ContractIR,
    tracker: &mut FirstTouchTracker,
    fs: &'a Vec<(String, ExprIR)>,
    order: &Vec<usize>,
    out: &mut Vec<PrivateEvent<'a>>,
)
    requires
        forall|i: int| 0 <= i < order@.len() ==> #[trigger] order@[i] < fs@.len(),
    ensures
        final(tracker)@ == walk_fields(cx@, old(tracker)@, fields_view(fs@), ints(order@), order@.len()).0,
        events_view(final(out)@) == events_view(old(out)@) + walk_fields(
            cx@,
            old(tracker)@,
            fields_view(fs@),
            ints(order@),
            order@.len(),
        ).1,
    decreases fs, 0nat,
{
    let ghost start = events_view(out@);
    let ghost t = tracker@;
    let ghost v = fields_view(fs@);
    let ghost o = ints(order@);
    assert(events_view(out@) =~= start + walk_fields(cx@, t, v, o, 0).1);
    let mut i: usize = 0;
    while i < order.len()
        invariant
            i <= order@.len(),
            v == fields_view(fs@),
            v.len() == fs@.len(),
            o == ints(order@),
            o.len() == order@.len(),
            t == old(tracker)@,
            start == events_view(old(out)@),
            forall|k: int| 0 <= k < order@.len() ==> #[trigger] order@[k] < fs@.len(),
            tracker@ == walk_fields(cx@, t, v, o, i as nat).0,
            events_view(out@) == start + walk_fields(cx@, t, v, o, i as nat).1,
        decreases order@.len() - i,
    {
        let at: usize = order[i];
        let pair = &fs[at];
        assert(o[i as int] == at as int);
        assert(v[at as int] == (fs@[at as int].0@, expr_view(fs@[at as int].1)));
        walk_expr_events(cx, tracker, &pair.1, out);
        assert(events_view(out@) =~= start + walk_fields(cx@, t, v, o, (i + 1) as nat).1);
        i += 1;
    }
}

/// An event by itself: what fired, and whether a branch was active.
#[derive(Debug, PartialEq, Eq)]
pub struct RecordedEvent {
    pub name: String,
    pub is_call: bool,
    pub in_branch: bool,
}

/// The whole sequence of private-input events of a circuit body.
pub fn body_private_events(cx: &ContractIR, body: &Vec<ExprIR>) -> (r: Vec<RecordedEvent>)
    ensures
        r@.len() == walk_list(cx@, fresh_tracker(), exprs_view(body@), body@.len()).1.len(),
        forall|i: int|
            0 <= i < r@.len() ==> {
                let e = walk_list(cx@, fresh_tracker(), exprs_view(body@), body@.len()).1[i];
                (#[trigger] r@[i]).name@ == e.name && r@[i].is_call == (e.args is Some) && r@[i].in_branch
                    == e.in_branch
            },
{
    let ghost es = walk_list(cx@, fresh_tracker(), exprs_view(body@), body@.len()).1;
    let mut tracker = FirstTouchTracker::new();
    let mut events: Vec<PrivateEvent> = Vec::new();
    walk_list_events(cx, &mut tracker, body, &mut events);
    assert(events_view(events@) =~= es);
    let mut out: Vec<RecordedEvent> = Vec::new();
    let mut i: usize = 0;
    while i < events.len()
        invariant
            i <= events@.len(),
            out@.len() == i,
            events_view(events@) == es,
            es.len() == events@.len(),
            forall|k: int|
                0 <= k < i ==> (#[trigger] out@[k]).name@ == es[k].name && out@[k].is_call == (es[k].args is Some)
                    && out@[k].in_branch == es[k].in_branch,
        decreases events@.len() - i,
    {
        assert(es[i as int] == event_view(events@[i as int]));
        let r = match &events[i] {
            PrivateEvent::FieldTouch { field, in_branch } => RecordedEvent {
                name: (*field).clone(),
                is_call: false,
                in_branch: *in_branch,
            },
            PrivateEvent::Call { name, in_branch, .. } => RecordedEvent {
                name: (*name).clone(),
                is_call: true,
                in_branch: *in_branch,
            },
        };
        out.push(r);
        i += 1;
    }
    out
}

// ---- laws

/// A touched field fires no second event, and touching it again changes
/// nothing.
pub proof fn touch_is_idempotent(t: TrackerV, field: Seq<char>)
    ensures
        was_touched(touched(t, field), field),
        touched(touched(t, field), field) == touched(t, field),
        touch_events(touched(t, field), field) == Seq::<EventV>::empty(),
{
}

} // verus!
