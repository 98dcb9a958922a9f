//! An immutable per-tick snapshot of every agent.
//!
//! Decision logic reads the snapshot taken at the start of a tick, so that
//! all agents react to the same consistent prior state rather than to a
//! partially updated one.

use vstd::prelude::*;

use crate::types::{AgentID, CarID, PedestrianID, Traversable, Vehicle};

verus! {

/// What the rest of the world sees of one agent.
#[derive(Clone, Copy, PartialEq, Eq, Structural, Debug)]
pub struct AgentView {
    pub id: AgentID,
    pub on: Traversable,
    /// Distance of the agent's front along its traversable, in centimeters.
    pub dist: u64,
    /// Speed in centimeters per tick.
    pub speed: u64,
    /// Physical parameters, for cars only.
    pub vehicle: Option<Vehicle>,
}

/// What the renderer needs to draw one car.
#[derive(Clone, Copy, PartialEq, Eq, Structural, Debug)]
pub struct DrawCarInput {
    pub id: CarID,
    pub on: Traversable,
    /// Distance of the front bumper along `on`, in centimeters.
    pub front: u64,
    /// Body length in centimeters.
    pub length: u64,
    /// Current speed, to pick a visual state (moving, stopped).
    pub speed: u64,
}

/// What the renderer needs to draw one pedestrian.
#[derive(Clone, Copy, PartialEq, Eq, Structural, Debug)]
pub struct DrawPedestrianInput {
    pub id: PedestrianID,
    pub on: Traversable,
    /// Distance along `on`, in centimeters.
    pub dist: u64,
}

pub struct WorldView {
    pub agents: Vec<AgentView>,
}

impl WorldView {
    /// No two snapshot entries describe the same agent.
    pub open spec fn wf(self) -> bool {
        forall|i: int, j: int|
            0 <= i < self.agents.len() && 0 <= j < self.agents.len() && i != j ==> (
            #[trigger] self.agents[i]).id != (#[trigger] self.agents[j]).id
    }

    pub open spec fn has_agent(self, id: AgentID) -> bool {
        exists|i: int| 0 <= i < self.agents.len() && (#[trigger] self.agents[i]).id == id
    }

    /// Whether entry `i` is strictly ahead of the probe point on `on`.
    pub open spec fn ahead_of(self, on: Traversable, dist: u64, i: int) -> bool {
        self.agents[i].on == on && self.agents[i].dist > dist
    }

    pub fn new() -> (r: WorldView)
        ensures
            r.agents@.len() == 0,
            r.wf(),
    {
        WorldView { agents: Vec::new() }
    }

    /// The nearest agent strictly ahead of the probe point on the same
    /// lane or turn, if any: the leader for car-following.
    #[verifier::loop_isolation(false)]
    pub fn next_car_in_front_of(&self, on: Traversable, dist: u64) -> (r: Option<&AgentView>)
        ensures
            match r {
                Some(a) => {
                    &&& exists|i: int|
                        0 <= i < self.agents.len() && #[trigger] self.agents[i] == *a
                    &&& a.on == on
                    &&& a.dist > dist
                    &&& forall|j: int|
                        0 <= j < self.agents.len() && self.ahead_of(on, dist, j) ==> (
                        #[trigger] self.agents[j]).dist >= a.dist
                },
                None => forall|j: int| 0 <= j < self.agents.len() ==> !self.ahead_of(on, dist, j),
            },
    {
        let mut best: Option<usize> = None;
        let mut i: usize = 0;
        while i < self.agents.len()
            invariant
                i <= self.agents.len(),
                match best {
                    Some(b) => {
                        &&& b < i
                        &&& self.ahead_of(on, dist, b as int)
                        &&& forall|j: int|
                            0 <= j < i && self.ahead_of(on, dist, j) ==> (
                            #[trigger] self.agents[j]).dist >= self.agents[b as int].dist
                    },
                    None => forall|j: int| 0 <= j < i ==> !self.ahead_of(on, dist, j),
                },
            decreases self.agents.len() - i,
        {
            let a = &self.agents[i];
            if a.on == on && a.dist > dist {
                match best {
                    Some(b) => {
                        if a.dist < self.agents[b].dist {
                            best = Some(i);
                        }
                    },
                    None => {
                        best = Some(i);
                    },
                }
            }
            i = i + 1;
        }
        match best {
            Some(b) => Some(&self.agents[b]),
            None => None,
        }
    }

    /// Index of the snapshot entry for an agent.
    #[verifier::loop_isolation(false)]
    fn find_agent(&self, id: AgentID) -> (r: Option<usize>)
        ensures
            match r {
                Some(i) => i < self.agents.len() && self.agents[i as int].id == id,
                None => !self.has_agent(id),
            },
    {
        let mut i: usize = 0;
        while i < self.agents.len()
            invariant
                i <= self.agents.len(),
                forall|j: int| 0 <= j < i ==> (#[trigger] self.agents[j]).id != id,
            decreases self.agents.len() - i,
        {
            if self.agents[i].id == id {
                return Some(i);
            }
            i = i + 1;
        }
        None
    }

    /// Whether nothing is ahead of this agent on its traversable.
    /// Pedestrians do not queue, so they always lead, known or not.
    pub fn is_leader(&self, id: AgentID) -> (r: bool)
        requires
            id matches AgentID::Car(_) ==> self.wf() && self.has_agent(id),
        ensures
            match id {
                AgentID::Car(_) => r == (forall|i: int, j: int|
                    0 <= i < self.agents.len() && 0 <= j < self.agents.len() && self.agents[i].id
                        == id ==> !(#[trigger] self.ahead_of(
                        self.agents[i].on,
                        self.agents[i].dist,
                        j,
                    ))),
                AgentID::Pedestrian(_) => r,
            },
    {
        match id {
            AgentID::Car(_) => {
                let i = self.find_agent(id).unwrap();
                let a = self.agents[i];
                let ahead = self.next_car_in_front_of(a.on, a.dist);
                match ahead {
                    Some(av) => {
                        proof {
                            let k = choose|k: int|
                                0 <= k < self.agents.len() && #[trigger] self.agents[k] == *av;
                            assert(self.ahead_of(a.on, a.dist, k));
                        }
                        false
                    },
                    None => {
                        proof {
                            assert forall|i2: int, j: int|
                                0 <= i2 < self.agents.len() && 0 <= j < self.agents.len()
                                    && self.agents[i2].id == id implies !(
                            #[trigger] self.ahead_of(
                                self.agents[i2].on,
                                self.agents[i2].dist,
                                j,
                            )) by {
                                assert(i2 == i);
                            }
                        }
                        true
                    },
                }
            },
            AgentID::Pedestrian(_) => true,
        }
    }

    pub fn get_speed(&self, id: AgentID) -> (r: u64)
        requires
            self.has_agent(id),
        ensures
            exists|i: int|
                0 <= i < self.agents.len() && (#[trigger] self.agents[i]).id == id
                    && self.agents[i].speed == r,
    {
        let i = self.find_agent(id).unwrap();
        self.agents[i].speed
    }

    pub fn get_car(&self, id: CarID) -> (r: &AgentView)
        requires
            self.has_agent(AgentID::Car(id)),
        ensures
            r.id == AgentID::Car(id),
            exists|i: int| 0 <= i < self.agents.len() && #[trigger] self.agents[i] == *r,
    {
        let i = self.find_agent(AgentID::Car(id)).unwrap();
        &self.agents[i]
    }
}

} // verus!
