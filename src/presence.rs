//! Turns voice-channel membership changes into power edges.
use vstd::prelude::*;

verus! {

/// One user's voice state changed: the channel before and after, if any.
#[derive(PartialEq, Eq, Structural, Clone, Copy, Debug)]
pub struct VoiceTransition {
    pub previous_channel: Option<u64>,
    pub new_channel: Option<u64>,
}

/// A crossing of the listener count through zero.
#[derive(PartialEq, Eq, Structural, Clone, Copy, Debug)]
pub enum PowerEdge {
    /// The count rose from zero: the server should come up.
    Activate,
    /// The count fell to zero: the server should go down.
    Deactivate,
}

/// The user was in no channel and now is in one.
pub open spec fn is_join(t: VoiceTransition) -> bool {
    t.previous_channel is None && t.new_channel is Some
}

/// The user was in a channel and now is in none.
pub open spec fn is_quit(t: VoiceTransition) -> bool {
    t.previous_channel is Some && t.new_channel is None
}

/// The count after one transition: up by one on a join (saturating at the
/// largest `usize`), down by one on a quit (saturating at zero), else kept.
pub open spec fn next_count(c: nat, t: VoiceTransition) -> nat {
    if is_join(t) {
        if c < usize::MAX { c + 1 } else { c }
    } else if is_quit(t) {
        if c > 0 { (c - 1) as nat } else { 0 }
    } else {
        c
    }
}

/// The edge, if any, of a change of the count from `before` to `after`.
pub open spec fn edge_between(before: nat, after: nat) -> Option<PowerEdge> {
    if before == 0 && after > 0 {
        Some(PowerEdge::Activate)
    } else if before > 0 && after == 0 {
        Some(PowerEdge::Deactivate)
    } else {
        None
    }
}

/// The count after a sequence of transitions, from zero.
pub open spec fn count_after(ts: Seq<VoiceTransition>) -> nat
    decreases ts.len(),
{
    if ts.len() == 0 {
        0
    } else {
        next_count(count_after(ts.drop_last()), ts.last())
    }
}

/// The edges emitted over a sequence of transitions, from zero.
pub open spec fn edges_after(ts: Seq<VoiceTransition>) -> Seq<PowerEdge>
    decreases ts.len(),
{
    if ts.len() == 0 {
        Seq::empty()
    } else {
        let before = count_after(ts.drop_last());
        let e = edge_between(before, next_count(before, ts.last()));
        match e {
            Some(e) => edges_after(ts.drop_last()).push(e),
            None => edges_after(ts.drop_last()),
        }
    }
}

/// How many of the transitions are joins.
pub open spec fn joins(ts: Seq<VoiceTransition>) -> nat
    decreases ts.len(),
{
    if ts.len() == 0 {
        0
    } else {
        joins(ts.drop_last()) + if is_join(ts.last()) { 1nat } else { 0nat }
    }
}

/// How many of the transitions are quits.
pub open spec fn quits(ts: Seq<VoiceTransition>) -> nat
    decreases ts.len(),
{
    if ts.len() == 0 {
        0
    } else {
        quits(ts.drop_last()) + if is_quit(ts.last()) { 1nat } else { 0nat }
    }
}

/// Counts the users present in voice channels and reports zero crossings.
pub struct PresenceDetector {
    connected: usize,
}

impl View for PresenceDetector {
    type V = nat;

    /// The number of users counted as present.
    closed spec fn view(&self) -> nat {
        self.connected as nat
    }
}

impl PresenceDetector {
    /// A detector that counts nobody.
    pub fn new() -> (r: PresenceDetector)
        ensures
            r@ == 0,
    {
        PresenceDetector { connected: 0 }
    }

    /// The number of users counted as present.
    pub fn connected(&self) -> (r: usize)
        ensures
            r == self@,
    {
        self.connected
    }

    /// Takes in one transition; returns the edge it causes, if any.
    pub fn observe(&mut self, t: VoiceTransition) -> (r: Option<PowerEdge>)
        ensures
            final(self)@ == next_count(old(self)@, t),
            r == edge_between(old(self)@, final(self)@),
    {
        let before = self.connected;
        let joined = t.previous_channel.is_none() && t.new_channel.is_some();
        let quit = t.previous_channel.is_some() && t.new_channel.is_none();
        if joined {
            self.connected = self.connected.saturating_add(1);
        } else if quit {
            self.connected = self.connected.saturating_sub(1);
        }
        if before == 0 && self.connected > 0 {
            Some(PowerEdge::Activate)
        } else if before > 0 && self.connected == 0 {
            Some(PowerEdge::Deactivate)
        } else {
            None
        }
    }
}

/// Where in every prefix of the sequence the quits do not outnumber the
/// joins, and the joins fit in a `usize`, the count is the number of joins
/// less the number of quits.
pub proof fn lemma_count_is_balance(ts: Seq<VoiceTransition>)
    requires
        joins(ts) <= usize::MAX,
        forall|k: int| 0 <= k <= ts.len() ==> quits(#[trigger] ts.take(k)) <= joins(ts.take(k)),
    ensures
        count_after(ts) == joins(ts) - quits(ts),
    decreases ts.len(),
{
    if ts.len() > 0 {
        let p = ts.drop_last();
        assert forall|k: int| 0 <= k <= p.len() implies quits(#[trigger] p.take(k)) <= joins(p.take(k)) by {
            assert(p.take(k) =~= ts.take(k));
        }
        assert(ts.take(ts.len() as int) =~= ts);
        lemma_count_is_balance(p);
    }
}

/// The edges alternate, starting with `Activate`: each rise of the count
/// from zero and each fall to zero is reported once, and the last edge is
/// `Activate` exactly when users are counted now.
pub proof fn lemma_edges_alternate(ts: Seq<VoiceTransition>)
    ensures
        forall|k: int| 0 <= k < edges_after(ts).len() ==>
            #[trigger] edges_after(ts)[k] == if k % 2 == 0 { PowerEdge::Activate } else { PowerEdge::Deactivate },
        (edges_after(ts).len() % 2 == 1) == (count_after(ts) > 0),
    decreases ts.len(),
{
    if ts.len() > 0 {
        lemma_edges_alternate(ts.drop_last());
    }
}

/// A transition that is neither a join nor a quit (a move between two
/// channels, a mute) changes nothing and reports no edge.
pub proof fn lemma_other_transitions_ignored(c: nat, t: VoiceTransition)
    requires
        !is_join(t),
        !is_quit(t),
    ensures
        next_count(c, t) == c,
        edge_between(c, next_count(c, t)) is None,
{
}

} // verus!
