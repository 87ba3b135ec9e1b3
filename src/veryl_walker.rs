//! The traversal protocol: a pre/post-order walk that hands every event to
//! each registered handler in turn.
use crate::syntax_tree::{token_events, tokens_of, Event, NodeKind, SyntaxTree};
use crate::token::Token;
use vstd::prelude::*;

verus! {

/// Whether a handler is called on entering a node or on leaving it.
#[derive(Clone, Copy, Debug, PartialEq, Eq, Structural)]
pub enum HandlerPoint {
    Before,
    After,
}

impl Default for HandlerPoint {
    fn default() -> (r: Self)
        ensures
            r == HandlerPoint::Before,
    {
        HandlerPoint::Before
    }
}

/// An analysis pass driven by the walker. Its state is given by its view,
/// and each callback's effect on that view by the matching spec function.
pub trait Handler: View + Sized {
    /// The state after `set_point(p)`.
    spec fn spec_set_point(v: Self::V, p: HandlerPoint) -> Self::V;

    /// The state after the callback for the node `id` of `tree`.
    spec fn spec_node(v: Self::V, tree: SyntaxTree, id: int) -> Self::V;

    /// The state after the callback for the token `t`.
    spec fn spec_token(v: Self::V, t: Token) -> Self::V;

    /// Tells the handler whether the next node callback enters or leaves.
    fn set_point(&mut self, p: HandlerPoint)
        ensures
            final(self)@ == Self::spec_set_point(old(self)@, p),
    ;

    /// Called for the node `id` of `tree`, on entering and on leaving it.
    fn node(&mut self, tree: &SyntaxTree, id: usize)
        requires
            tree.wf(),
            id < tree.len(),
        ensures
            final(self)@ == Self::spec_node(old(self)@, *tree, id as int),
    ;

    /// Called for each identifier token, after its node was entered.
    fn token(&mut self, t: &Token)
        ensures
            final(self)@ == Self::spec_token(old(self)@, *t),
    ;
}

/// The state of a handler after it observes the event `ev`.
pub open spec fn observe<H: Handler>(v: H::V, tree: SyntaxTree, ev: Event) -> H::V {
    match ev {
        Event::Before(i) => H::spec_node(H::spec_set_point(v, HandlerPoint::Before), tree, i as int),
        Event::Token(t) => H::spec_token(v, t),
        Event::After(i) => H::spec_node(H::spec_set_point(v, HandlerPoint::After), tree, i as int),
    }
}

/// The state of a handler after it observes the events `evs` in order.
pub open spec fn replay<H: Handler>(v: H::V, tree: SyntaxTree, evs: Seq<Event>) -> H::V
    decreases evs.len(),
{
    if evs.len() == 0 {
        v
    } else {
        observe::<H>(replay::<H>(v, tree, evs.drop_last()), tree, evs.last())
    }
}

/// Observing `a` and then `b` is observing `a + b`.
pub proof fn lemma_replay_append<H: Handler>(v: H::V, tree: SyntaxTree, a: Seq<Event>, b: Seq<Event>)
    ensures
        replay::<H>(v, tree, a + b) == replay::<H>(replay::<H>(v, tree, a), tree, b),
    decreases b.len(),
{
    if b.len() == 0 {
        assert(a + b =~= a);
    } else {
        assert((a + b).drop_last() =~= a + b.drop_last());
        lemma_replay_append::<H>(v, tree, a, b.drop_last());
    }
}

/// Observing one more event is observing it after the others.
proof fn lemma_replay_push<H: Handler>(v: H::V, tree: SyntaxTree, a: Seq<Event>, e: Event)
    ensures
        replay::<H>(v, tree, a.push(e)) == observe::<H>(replay::<H>(v, tree, a), tree, e),
{
    assert(a.push(e).drop_last() =~= a);
}

/// The traversal of the subtree at `i`, taken apart: entering `i`, its
/// tokens, its children's traversals, leaving `i`.
pub proof fn lemma_replay_subtree<H: Handler>(v: H::V, tree: SyntaxTree, i: int)
    requires
        0 <= i < tree.len(),
    ensures
        replay::<H>(v, tree, tree.events(i)) == observe::<H>(
            replay::<H>(
                replay::<H>(observe::<H>(v, tree, Event::Before(i as usize)), tree, token_events(tree.kind(i))),
                tree,
                tree.child_events(i, 0),
            ),
            tree,
            Event::After(i as usize),
        ),
{
    let before = seq![Event::Before(i as usize)];
    let te = token_events(tree.kind(i));
    let ce = tree.child_events(i, 0);
    let after = seq![Event::After(i as usize)];
    assert(tree.events(i) == before + te + ce + after);
    lemma_replay_append::<H>(v, tree, before, te);
    lemma_replay_append::<H>(v, tree, before + te, ce);
    lemma_replay_append::<H>(v, tree, before + te + ce, after);
    assert(before.drop_last() =~= Seq::<Event>::empty());
    assert(after.drop_last() =~= Seq::<Event>::empty());
    assert(replay::<H>(v, tree, before) == observe::<H>(replay::<H>(v, tree, before.drop_last()), tree, before.last()));
    assert(replay::<H>(v, tree, Seq::empty()) == v);
    let w = replay::<H>(v, tree, before + te + ce);
    assert(replay::<H>(w, tree, Seq::empty()) == w);
    assert(replay::<H>(w, tree, after) == observe::<H>(replay::<H>(w, tree, after.drop_last()), tree, after.last()));
}

/// The traversals of the children of `i` from the `k`-th on, taken apart:
/// the `k`-th child's, then those of the children after it.
pub proof fn lemma_replay_children<H: Handler>(v: H::V, tree: SyntaxTree, i: int, k: int)
    requires
        tree.wf(),
        0 <= i < tree.len(),
        0 <= k < tree.children(i).len(),
    ensures
        replay::<H>(v, tree, tree.child_events(i, k)) == replay::<H>(
            replay::<H>(v, tree, tree.events(tree.children(i)[k] as int)),
            tree,
            tree.child_events(i, k + 1),
        ),
{
    let c = tree.children(i)[k] as int;
    assert(i < c < tree.len());
    lemma_replay_append::<H>(v, tree, tree.events(c), tree.child_events(i, k + 1));
}

/// The tokens of a node, in visiting order.
fn node_tokens(kind: &NodeKind) -> (r: Vec<Token>)
    ensures
        r@ == tokens_of(*kind),
{
    let r = match kind {
        NodeKind::Veryl => Vec::new(),
        NodeKind::Other => Vec::new(),
        NodeKind::Package(t) => vec![*t],
        NodeKind::Module(t) => vec![*t],
        NodeKind::Interface(t) => vec![*t],
        NodeKind::Function(t) => vec![*t],
        NodeKind::NamedBlock(t) => vec![*t],
        NodeKind::PortDeclaration(t, _) => vec![*t],
        NodeKind::Parameter(t) => vec![*t],
        NodeKind::Variable(t) => vec![*t],
        NodeKind::InstDeclaration(n, m) => vec![*n, *m],
        NodeKind::InstPortItem(t) => vec![*t],
        NodeKind::Identifier(t) => vec![*t],
    };
    assert(r@ =~= tokens_of(*kind));
    r
}

/// Walks syntax trees, handing each event to every handler of `handlers`,
/// in their order.
pub struct VerylWalker<H: Handler> {
    pub handlers: Vec<H>,
}

impl<H: Handler> VerylWalker<H> {
    pub fn new(handlers: Vec<H>) -> (r: Self)
        ensures
            r.handlers@ == handlers@,
    {
        VerylWalker { handlers }
    }

    /// Whether each handler's state is its state in `start` after the events `evs`.
    pub open spec fn observed(&self, start: Seq<H>, tree: SyntaxTree, evs: Seq<Event>) -> bool {
        &&& self.handlers@.len() == start.len()
        &&& forall|k: int|
            0 <= k < start.len() ==> (#[trigger] self.handlers@[k])@ == replay::<H>(start[k]@, tree, evs)
    }

    /// Hands one event to every handler.
    fn dispatch(&mut self, tree: &SyntaxTree, ev: Event)
        requires
            tree.wf(),
            ev matches Event::Before(i) ==> i < tree.len(),
            ev matches Event::After(i) ==> i < tree.len(),
        ensures
            final(self).handlers@.len() == old(self).handlers@.len(),
            forall|k: int|
                0 <= k < old(self).handlers@.len() ==> (#[trigger] final(self).handlers@[k])@
                    == observe::<H>(old(self).handlers@[k]@, *tree, ev),
    {
        let ghost start = self.handlers@;
        let mut k: usize = 0;
        while k < self.handlers.len()
            invariant
                tree.wf(),
                ev matches Event::Before(i) ==> i < tree.len(),
                ev matches Event::After(i) ==> i < tree.len(),
                self.handlers@.len() == start.len(),
                k <= start.len(),
                forall|j: int| 0 <= j < k ==> (#[trigger] self.handlers@[j])@ == observe::<H>(start[j]@, *tree, ev),
                forall|j: int| k <= j < start.len() ==> #[trigger] self.handlers@[j] == start[j],
            decreases start.len() - k,
        {
            match ev {
                Event::Before(i) => {
                    self.handlers[k].set_point(HandlerPoint::Before);
                    self.handlers[k].node(tree, i);
                },
                Event::Token(t) => {
                    self.handlers[k].token(&t);
                },
                Event::After(i) => {
                    self.handlers[k].set_point(HandlerPoint::After);
                    self.handlers[k].node(tree, i);
                },
            }
            k = k + 1;
        }
    }

    /// Hands one more event to every handler, extending what they observed.
    fn advance(&mut self, tree: &SyntaxTree, ev: Event, Ghost(start): Ghost<Seq<H>>, Ghost(done): Ghost<Seq<Event>>)
        requires
            tree.wf(),
            ev matches Event::Before(i) ==> i < tree.len(),
            ev matches Event::After(i) ==> i < tree.len(),
            old(self).observed(start, *tree, done),
        ensures
            final(self).observed(start, *tree, done.push(ev)),
    {
        self.dispatch(tree, ev);
        assert forall|k: int| 0 <= k < start.len() implies (#[trigger] self.handlers@[k])@ == replay::<H>(
            start[k]@,
            *tree,
            done.push(ev),
        ) by {
            lemma_replay_push::<H>(start[k]@, *tree, done, ev);
        }
    }

    /// Walks the subtree at `id`: every handler observes its events in order.
    pub fn walk_node(&mut self, tree: &SyntaxTree, id: usize)
        requires
            tree.wf(),
            id < tree.len(),
        ensures
            final(self).observed(old(self).handlers@, *tree, tree.events(id as int)),
        decreases tree.len() - id,
    {
        let ghost start = self.handlers@;
        assert(self.observed(start, *tree, Seq::empty()));
        self.advance(tree, Event::Before(id), Ghost(start), Ghost(Seq::empty()));
        let ghost head = seq![Event::Before(id)];
        assert(Seq::<Event>::empty().push(Event::Before(id)) =~= head);
        let tokens = node_tokens(&tree.nodes[id].kind);
        let ghost te = crate::syntax_tree::token_events(tree.kind(id as int));
        let mut t: usize = 0;
        while t < tokens.len()
            invariant
                tree.wf(),
                id < tree.len(),
                tokens@ == tokens_of(tree.kind(id as int)),
                te == crate::syntax_tree::token_events(tree.kind(id as int)),
                t <= tokens@.len(),
                self.observed(start, *tree, head + te.subrange(0, t as int)),
            decreases tokens@.len() - t,
        {
            self.advance(tree, Event::Token(tokens[t]), Ghost(start), Ghost(head + te.subrange(0, t as int)));
            assert((head + te.subrange(0, t as int)).push(Event::Token(tokens@[t as int]))
                =~= head + te.subrange(0, t + 1));
            t = t + 1;
        }
        assert(te.subrange(0, t as int) =~= te);
        let ghost prefix = head + te;
        let ghost mut done = prefix;
        let mut k: usize = 0;
        while k < tree.nodes[id].children.len()
            invariant
                tree.wf(),
                id < tree.len(),
                k <= tree.children(id as int).len(),
                done + tree.child_events(id as int, k as int) == prefix + tree.child_events(id as int, 0),
                self.observed(start, *tree, done),
            decreases tree.children(id as int).len() - k,
        {
            let c = tree.nodes[id].children[k];
            assert(id < c < tree.len());
            let ghost mid = self.handlers@;
            self.walk_node(tree, c);
            assert forall|h: int| 0 <= h < start.len() implies (#[trigger] self.handlers@[h])@ == replay::<H>(
                start[h]@,
                *tree,
                done + tree.events(c as int),
            ) by {
                assert(mid[h]@ == replay::<H>(start[h]@, *tree, done));
                lemma_replay_append::<H>(start[h]@, *tree, done, tree.events(c as int));
            }
            proof {
                assert(tree.child_events(id as int, k as int) == tree.events(c as int) + tree.child_events(
                    id as int,
                    k + 1,
                ));
                assert(done + tree.child_events(id as int, k as int) =~= (done + tree.events(c as int))
                    + tree.child_events(id as int, k + 1));
                done = done + tree.events(c as int);
            }
            k = k + 1;
        }
        assert(tree.child_events(id as int, k as int) =~= Seq::<Event>::empty());
        assert(done =~= prefix + tree.child_events(id as int, 0));
        self.advance(tree, Event::After(id), Ghost(start), Ghost(done));
        assert(done.push(Event::After(id)) =~= tree.events(id as int));
    }

    /// Walks the whole tree: every handler observes its traversal in order.
    pub fn veryl(&mut self, tree: &SyntaxTree)
        requires
            tree.wf(),
        ensures
            final(self).observed(old(self).handlers@, *tree, tree.traversal()),
    {
        if tree.nodes.len() > 0 {
            self.walk_node(tree, 0);
        } else {
            assert(tree.traversal() =~= Seq::<Event>::empty());
        }
    }
}

/// The model of an event recorder: what it saw, and the current point.
pub struct EventRecorderView {
    pub events: Seq<Event>,
    pub point: HandlerPoint,
}

/// A handler that records every event it is handed, in order.
pub struct EventRecorder {
    pub events: Vec<Event>,
    point: HandlerPoint,
}

impl View for EventRecorder {
    type V = EventRecorderView;

    closed spec fn view(&self) -> EventRecorderView {
        EventRecorderView { events: self.events@, point: self.point }
    }
}

impl Handler for EventRecorder {
    open spec fn spec_set_point(v: EventRecorderView, p: HandlerPoint) -> EventRecorderView {
        EventRecorderView { point: p, ..v }
    }

    open spec fn spec_node(v: EventRecorderView, tree: SyntaxTree, id: int) -> EventRecorderView {
        EventRecorderView {
            events: v.events.push(
                if v.point == HandlerPoint::Before {
                    Event::Before(id as usize)
                } else {
                    Event::After(id as usize)
                },
            ),
            ..v
        }
    }

    open spec fn spec_token(v: EventRecorderView, t: Token) -> EventRecorderView {
        EventRecorderView { events: v.events.push(Event::Token(t)), ..v }
    }

    fn set_point(&mut self, p: HandlerPoint) {
        self.point = p;
    }

    fn node(&mut self, tree: &SyntaxTree, id: usize) {
        match self.point {
            HandlerPoint::Before => self.events.push(Event::Before(id)),
            HandlerPoint::After => self.events.push(Event::After(id)),
        }
    }

    fn token(&mut self, t: &Token) {
        self.events.push(Event::Token(*t));
    }
}

impl EventRecorder {
    pub fn new() -> (r: Self)
        ensures
            r@.events == Seq::<Event>::empty(),
    {
        EventRecorder { events: Vec::new(), point: HandlerPoint::Before }
    }

    /// The events recorded so far.
    pub fn into_events(self) -> (r: Vec<Event>)
        ensures
            r@ == self@.events,
    {
        self.events
    }
}

/// A recorder that observes `evs` appends exactly `evs` to what it holds.
pub proof fn lemma_recorder_replay(v: EventRecorderView, tree: SyntaxTree, evs: Seq<Event>)
    ensures
        replay::<EventRecorder>(v, tree, evs).events == v.events + evs,
    decreases evs.len(),
{
    if evs.len() == 0 {
        assert(v.events + evs =~= v.events);
    } else {
        lemma_recorder_replay(v, tree, evs.drop_last());
        assert(v.events + evs =~= (v.events + evs.drop_last()).push(evs.last()));
    }
}

/// The events of a traversal of the whole tree, in the order in which the
/// walker hands them to its handlers.
pub fn record_traversal(tree: &SyntaxTree) -> (r: Vec<Event>)
    requires
        tree.wf(),
    ensures
        r@ == tree.traversal(),
{
    let mut walker = VerylWalker::new(vec![EventRecorder::new()]);
    let ghost start = walker.handlers@;
    walker.veryl(tree);
    proof {
        lemma_recorder_replay(start[0]@, *tree, tree.traversal());
    }
    let recorder = walker.handlers.pop().unwrap();
    recorder.into_events()
}

} // verus!
