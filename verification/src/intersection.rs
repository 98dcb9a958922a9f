//! Per-intersection arbitration of turn requests.
//!
//! Agents ask to enter a turn; a grant is sticky until the agent reports
//! the turn finished. Conflicting turns are never granted at the same
//! time, whatever the control policy, and a stop sign serves requests in
//! arrival order among non-conflicting candidates.

use vstd::prelude::*;

use crate::map::{ControlType, RoadMap};
use crate::types::{AgentID, TurnID};

verus! {

pub struct IntersectionSimState {
    /// Sticky grants: each agent currently allowed to traverse its turn.
    pub granted: Vec<(AgentID, TurnID)>,
    /// Pending requests in arrival order, oldest first.
    pub waiting: Vec<(AgentID, TurnID)>,
}

/// Whether a request list holds an entry for this agent.
pub open spec fn holds_agent(s: Seq<(AgentID, TurnID)>, a: AgentID) -> bool {
    exists|i: int| 0 <= i < s.len() && (#[trigger] s[i]).0 == a
}

/// Whether a request list holds exactly this entry.
pub open spec fn holds_pair(s: Seq<(AgentID, TurnID)>, a: AgentID, t: TurnID) -> bool {
    exists|i: int| 0 <= i < s.len() && #[trigger] s[i] == (a, t)
}

/// No entry of the list asks for a turn that conflicts with `t`.
pub open spec fn none_conflict(map: RoadMap, s: Seq<(AgentID, TurnID)>, t: TurnID) -> bool {
    forall|i: int| 0 <= i < s.len() ==> !map.turns_conflict((#[trigger] s[i]).1, t)
}

impl IntersectionSimState {
    /// The deadlock-avoidance invariant: all grants are for valid turns,
    /// no two grants conflict, and each agent appears at most once per list.
    pub open spec fn wf(self, map: RoadMap) -> bool {
        &&& forall|i: int|
            0 <= i < self.granted.len() ==> map.valid_turn((#[trigger] self.granted[i]).1)
        &&& forall|i: int|
            0 <= i < self.waiting.len() ==> map.valid_turn((#[trigger] self.waiting[i]).1)
        &&& forall|i: int, j: int|
            0 <= i < self.granted.len() && 0 <= j < self.granted.len() && i != j
                ==> !map.turns_conflict(
                (#[trigger] self.granted[i]).1,
                (#[trigger] self.granted[j]).1,
            )
        &&& forall|i: int, j: int|
            0 <= i < self.granted.len() && 0 <= j < self.granted.len() && i != j ==> (
            #[trigger] self.granted[i]).0 != (#[trigger] self.granted[j]).0
        &&& forall|i: int, j: int|
            0 <= i < self.waiting.len() && 0 <= j < self.waiting.len() && i != j ==> (
            #[trigger] self.waiting[i]).0 != (#[trigger] self.waiting[j]).0
        &&& forall|i: int, j: int|
            0 <= i < self.granted.len() && 0 <= j < self.waiting.len() ==> (
            #[trigger] self.granted[i]).0 != (#[trigger] self.waiting[j]).0
    }

    pub open spec fn is_granted(self, a: AgentID, t: TurnID) -> bool {
        holds_pair(self.granted@, a, t)
    }

    pub fn new(_map: &RoadMap) -> (r: IntersectionSimState)
        ensures
            r.wf(*_map),
            r.granted@ =~= Seq::<(AgentID, TurnID)>::empty(),
            r.waiting@ =~= Seq::<(AgentID, TurnID)>::empty(),
    {
        IntersectionSimState { granted: Vec::new(), waiting: Vec::new() }
    }

    /// Scans the grant list for any entry conflicting with `t`.
    #[verifier::loop_isolation(false)]
    fn any_granted_conflict(&self, map: &RoadMap, t: TurnID) -> (r: bool)
        ensures
            r == !none_conflict(*map, self.granted@, t),
    {
        let mut i: usize = 0;
        while i < self.granted.len()
            invariant
                i <= self.granted.len(),
                forall|j: int| 0 <= j < i ==> !map.turns_conflict((#[trigger] self.granted[j]).1, t),
            decreases self.granted.len() - i,
        {
            if map.conflict(self.granted[i].1, t) {
                return true;
            }
            i = i + 1;
        }
        false
    }

    /// Index of this agent's waiting entry, if it has one.
    #[verifier::loop_isolation(false)]
    fn find_waiting(&self, a: AgentID) -> (r: Option<usize>)
        ensures
            match r {
                Some(i) => i < self.waiting.len() && self.waiting[i as int].0 == a,
                None => !holds_agent(self.waiting@, a),
            },
    {
        let mut i: usize = 0;
        while i < self.waiting.len()
            invariant
                i <= self.waiting.len(),
                forall|j: int| 0 <= j < i ==> (#[trigger] self.waiting[j]).0 != a,
            decreases self.waiting.len() - i,
        {
            if self.waiting[i].0 == a {
                return Some(i);
            }
            i = i + 1;
        }
        None
    }

    /// Whether an older waiting request, from another agent, conflicts with
    /// `t`: a stop sign then makes the newcomer wait its turn.
    #[verifier::loop_isolation(false)]
    fn earlier_waiting_conflict(&self, map: &RoadMap, upto: usize, t: TurnID) -> (r: bool)
        requires
            upto <= self.waiting.len(),
        ensures
            r == !none_conflict(*map, self.waiting@.take(upto as int), t),
    {
        let mut i: usize = 0;
        while i < upto
            invariant
                i <= upto,
                forall|j: int| 0 <= j < i ==> !map.turns_conflict((#[trigger] self.waiting[j]).1, t),
            decreases upto - i,
        {
            if map.conflict(self.waiting[i].1, t) {
                proof {
                    assert(self.waiting@.take(upto as int)[i as int] == self.waiting@[i as int]);
                }
                return true;
            }
            i = i + 1;
        }
        proof {
            assert forall|j: int| 0 <= j < upto implies !map.turns_conflict(
                (#[trigger] self.waiting@.take(upto as int)[j]).1,
                t,
            ) by {
                assert(self.waiting@.take(upto as int)[j] == self.waiting@[j]);
            }
        }
        false
    }

    /// An agent asks to enter a turn. The grant is sticky: once given it
    /// stays until `turn_finished`. Under every policy a turn conflicting
    /// with a current grant is refused; a stop sign additionally refuses a
    /// turn that conflicts with an older waiting request, and a signal
    /// refuses a turn outside the active phase. An agent still holding a
    /// grant for a different turn is refused until it reports that turn
    /// finished. A refused agent keeps (or takes) its place in the
    /// arrival-order queue; a queued agent that asks for a different turn
    /// keeps its place with the new turn.
    pub fn request_turn(&mut self, agent: AgentID, turn: TurnID, time: u64, map: &RoadMap) -> (r:
        bool)
        requires
            map.wf(),
            old(self).wf(*map),
            map.valid_turn(turn),
        ensures
            final(self).wf(*map),
            r == final(self).is_granted(agent, turn),
            // Sticky: an existing grant is always confirmed.
            old(self).is_granted(agent, turn) ==> r,
            // Safety: a fresh grant only when nothing granted conflicts.
            !old(self).is_granted(agent, turn) && r ==> none_conflict(
                *map,
                old(self).granted@,
                turn,
            ),
            // Success is owed: a request that conflicts with no grant is
            // granted, unless the policy itself holds it back.
            !r ==> {
                ||| !none_conflict(*map, old(self).granted@, turn)
                ||| !map.in_active_phase(map.turns[turn.id as int].parent, turn, time)
                ||| (map.intersections[map.turns[turn.id as int].parent.id as int].control
                    is StopSign && exists|i: int|
                    0 <= i < old(self).waiting.len() && (#[trigger] old(self).waiting[i]).0
                        != agent && map.turns_conflict(old(self).waiting[i].1, turn))
                ||| holds_agent(old(self).granted@, agent)
            },
            // A fresh grant certifies the policy held: the turn was in
            // phase, the agent held no other grant, and a stop sign saw
            // no older conflicting request from a newly queued agent.
            !old(self).is_granted(agent, turn) && r ==> {
                &&& map.in_active_phase(map.turns[turn.id as int].parent, turn, time)
                &&& !holds_agent(old(self).granted@, agent)
                &&& ((map.intersections[map.turns[turn.id as int].parent.id as int].control
                    is StopSign && !holds_agent(old(self).waiting@, agent)) ==> forall|i: int|
                    0 <= i < old(self).waiting.len() ==> !map.turns_conflict(
                        (#[trigger] old(self).waiting[i]).1,
                        turn,
                    ))
            },
            // Grants of other agents are untouched.
            forall|a: AgentID, t: TurnID|
                a != agent ==> final(self).is_granted(a, t) == old(self).is_granted(a, t),
            // A refused or confirmed request never disturbs the grant list.
            (old(self).is_granted(agent, turn) || !r) ==> final(self).granted@ == old(
                self,
            ).granted@,
            // A refused newcomer is queued, unless it still holds a grant;
            // a granted one is dequeued.
            !r ==> holds_agent(final(self).waiting@, agent) || holds_agent(
                old(self).granted@,
                agent,
            ),
            r ==> !holds_agent(final(self).waiting@, agent),
    {
        if self.is_granted_exec(agent, turn) {
            proof {
                let i = choose|i: int|
                    0 <= i < self.granted@.len() && #[trigger] self.granted@[i] == (agent, turn);
                assert(self.granted@[i].0 == agent);
                assert(!holds_agent(self.waiting@, agent));
            }
            return true;
        }
        if self.find_granted_agent(agent).is_some() {
            return false;
        }
        let ghost w0 = self.waiting@;
        let pos: usize = match self.find_waiting(agent) {
            Some(i) => {
                self.waiting[i] = (agent, turn);
                i
            },
            None => {
                let i = self.waiting.len();
                self.waiting.push((agent, turn));
                i
            },
        };
        proof {
            assert(self.waiting@[pos as int].0 == agent);
            assert(self.waiting@.take(pos as int) =~= w0.take(pos as int));
            assert(forall|i: int|
                0 <= i < pos ==> (#[trigger] self.waiting@[i]) == w0[i] && self.waiting@[i].0
                    != agent);
            assert(holds_agent(self.waiting@, agent));
        }
        let parent = map.get_turn(turn).parent;
        if self.any_granted_conflict(map, turn) {
            return false;
        }
        if !map.turn_in_active_phase(parent, turn, time) {
            return false;
        }
        let stop_sign = matches!(map.get_intersection(parent).control, ControlType::StopSign);
        if stop_sign && self.earlier_waiting_conflict(map, pos, turn) {
            proof {
                let i = choose|i: int|
                    0 <= i < pos && map.turns_conflict(
                        (#[trigger] self.waiting@.take(pos as int)[i]).1,
                        turn,
                    );
                assert(w0[i] == self.waiting@[i]);
                assert(w0[i].0 != agent && map.turns_conflict(w0[i].1, turn));
            }
            return false;
        }
        let ghost w1 = self.waiting@;
        let ghost g0 = self.granted@;
        self.waiting.remove(pos);
        self.granted.push((agent, turn));
        proof {
            assert(self.granted@[g0.len() as int] == (agent, turn));
            assert(self.is_granted(agent, turn));
            if stop_sign && !holds_agent(w0, agent) {
                // The agent was appended, so the whole old queue stood
                // before it and was checked for conflicts.
                assert(pos == w0.len());
                assert forall|i: int| 0 <= i < w0.len() implies !map.turns_conflict(
                    (#[trigger] w0[i]).1,
                    turn,
                ) by {
                    assert(w1.take(pos as int)[i] == w1[i]);
                    assert(w1[i] == w0[i]);
                }
            }
            // No old entry names this agent, so distinctness survives.
            assert(forall|i: int|
                0 <= i < g0.len() ==> (#[trigger] g0[i]).0 != agent && !map.turns_conflict(
                    g0[i].1,
                    turn,
                ));
            assert forall|i: int| 0 <= i < self.waiting@.len() implies (
            #[trigger] self.waiting@[i]).0 != agent && (exists|j: int|
                0 <= j < w1.len() && w1[j] == self.waiting@[i]) by {
                if i < pos {
                    assert(self.waiting@[i] == w1[i]);
                } else {
                    assert(self.waiting@[i] == w1[i + 1]);
                }
            }
            assert forall|a: AgentID, t: TurnID| a != agent implies self.is_granted(a, t)
                == holds_pair(g0, a, t) by {
                if holds_pair(g0, a, t) {
                    let i = choose|i: int| 0 <= i < g0.len() && #[trigger] g0[i] == (a, t);
                    assert(self.granted@[i] == (a, t));
                }
                if self.is_granted(a, t) {
                    let i = choose|i: int|
                        0 <= i < self.granted@.len() && #[trigger] self.granted@[i] == (a, t);
                    assert(i < g0.len());
                }
            }
            assert(self.wf(*map)) by {
                assert(forall|i: int|
                    0 <= i < self.waiting@.len() ==> map.valid_turn(
                        (#[trigger] self.waiting@[i]).1,
                    ) && holds_agent(w1, self.waiting@[i].0));
                assert forall|i: int, j: int|
                    0 <= i < self.waiting@.len() && 0 <= j < self.waiting@.len() && i
                        != j implies (#[trigger] self.waiting@[i]).0 != (
                #[trigger] self.waiting@[j]).0 by {
                    let i1: int = if i < pos { i } else { i + 1 };
                    let j1: int = if j < pos { j } else { j + 1 };
                    assert(self.waiting@[i] == w1[i1] && self.waiting@[j] == w1[j1]);
                }
            }
        }
        true
    }

    /// Index of any grant held by this agent.
    #[verifier::loop_isolation(false)]
    fn find_granted_agent(&self, a: AgentID) -> (r: Option<usize>)
        ensures
            match r {
                Some(i) => i < self.granted.len() && self.granted[i as int].0 == a,
                None => !holds_agent(self.granted@, a),
            },
    {
        let mut i: usize = 0;
        while i < self.granted.len()
            invariant
                i <= self.granted.len(),
                forall|j: int| 0 <= j < i ==> (#[trigger] self.granted[j]).0 != a,
            decreases self.granted.len() - i,
        {
            if self.granted[i].0 == a {
                return Some(i);
            }
            i = i + 1;
        }
        None
    }

    /// An agent has left its turn: the sticky grant, if one is in force,
    /// is released; reporting a turn that was never granted changes
    /// nothing.
    #[verifier::loop_isolation(false)]
    pub fn turn_finished(&mut self, agent: AgentID, turn: TurnID, map: &RoadMap)
        requires
            old(self).wf(*map),
        ensures
            final(self).wf(*map),
            !final(self).is_granted(agent, turn),
            forall|a: AgentID, t: TurnID|
                a != agent ==> final(self).is_granted(a, t) == old(self).is_granted(a, t),
            final(self).waiting@ == old(self).waiting@,
    {
        let ghost g0 = self.granted@;
        let mut i: usize = 0;
        while i < self.granted.len()
            invariant
                self.granted@ == g0,
                self.waiting@ == old(self).waiting@,
                i <= self.granted.len(),
                forall|j: int| 0 <= j < i ==> #[trigger] self.granted[j] != (agent, turn),
            decreases self.granted.len() - i,
        {
            let (x, y) = self.granted[i];
            if x == agent && y == turn {
                proof {
                    assert(g0[i as int] == (agent, turn));
                }
                self.granted.remove(i);
                proof {
                    assert forall|k: int| 0 <= k < self.granted@.len() implies (
                    #[trigger] self.granted@[k]) != (agent, turn) && (exists|j: int|
                        0 <= j < g0.len() && g0[j] == self.granted@[k]) by {
                        let k1: int = if k < i { k } else { k + 1 };
                        assert(self.granted@[k] == g0[k1]);
                        assert(g0[k1].0 != agent || k1 == i);
                    }
                    assert forall|a: AgentID, t: TurnID| a != agent implies self.is_granted(a, t)
                        == holds_pair(g0, a, t) by {
                        if holds_pair(g0, a, t) {
                            let j = choose|j: int| 0 <= j < g0.len() && #[trigger] g0[j] == (a, t);
                            let j1: int = if j < i { j } else { j - 1 };
                            assert(j != i);
                            assert(self.granted@[j1] == (a, t));
                        }
                    }
                    assert(self.wf(*map)) by {
                        assert forall|k: int, l: int|
                            0 <= k < self.granted@.len() && 0 <= l < self.granted@.len() && k
                                != l implies !map.turns_conflict(
                            (#[trigger] self.granted@[k]).1,
                            (#[trigger] self.granted@[l]).1,
                        ) && self.granted@[k].0 != self.granted@[l].0 by {
                            let k1: int = if k < i { k } else { k + 1 };
                            let l1: int = if l < i { l } else { l + 1 };
                            assert(self.granted@[k] == g0[k1] && self.granted@[l] == g0[l1]);
                        }
                        assert forall|k: int, l: int|
                            0 <= k < self.granted@.len() && 0 <= l
                                < self.waiting@.len() implies (#[trigger] self.granted@[k]).0 != (
                            #[trigger] self.waiting@[l]).0 by {
                            let k1: int = if k < i { k } else { k + 1 };
                            assert(self.granted@[k] == g0[k1]);
                        }
                    }
                }
                return;
            }
            i = i + 1;
        }
    }

    /// The arbitration law: grants in force are pairwise non-conflicting,
    /// per the map's conflict table, under every control policy.
    pub proof fn lemma_granted_nonconflicting(self, map: RoadMap, i: int, j: int)
        requires
            self.wf(map),
            0 <= i < self.granted.len(),
            0 <= j < self.granted.len(),
            i != j,
        ensures
            !map.turns_conflict(self.granted[i].1, self.granted[j].1),
    {
    }

    /// Scans the grant list for this exact entry.
    #[verifier::loop_isolation(false)]
    fn is_granted_exec(&self, a: AgentID, t: TurnID) -> (r: bool)
        ensures
            r == self.is_granted(a, t),
    {
        let mut i: usize = 0;
        while i < self.granted.len()
            invariant
                i <= self.granted.len(),
                forall|j: int| 0 <= j < i ==> #[trigger] self.granted[j] != (a, t),
            decreases self.granted.len() - i,
        {
            let (x, y) = self.granted[i];
            if x == a && y == t {
                return true;
            }
            i = i + 1;
        }
        false
    }
}

} // verus!
