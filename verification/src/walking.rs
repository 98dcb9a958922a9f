//! Per-tick advance of every pedestrian.
//!
//! Pedestrians move at a fixed walking speed along sidewalks, wait at
//! crosswalk turns until the intersection grants them (sharing the same
//! conflict model as vehicle turns), and report their trip leg done on
//! reaching their final sidewalk spot. They do not queue behind each
//! other: crowds may overlap.

use vstd::prelude::*;

use crate::driving::{check_path, linked, path_wf};
use crate::intersection::IntersectionSimState;
use crate::map::RoadMap;
use crate::types::{AgentID, PedestrianID, Traversable, TripID};
use crate::view::{AgentView, DrawPedestrianInput, WorldView};

verus! {

/// Walking speed, in centimeters per tick, the same for everyone.
pub const PED_SPEED: u64 = 120;

/// Whether a pedestrian is still underway or done with its leg, awaiting
/// the end-of-tick sweep.
#[derive(Clone, Copy, PartialEq, Eq, Structural, Debug)]
pub enum PedState {
    Moving,
    Finished,
}

pub struct Pedestrian {
    pub id: PedestrianID,
    pub trip: TripID,
    /// The precomputed route, alternating sidewalks and crosswalk turns.
    pub path: Vec<Traversable>,
    /// Index into `path` of the traversable currently underfoot.
    pub path_idx: usize,
    /// Distance along the current traversable.
    pub dist: u64,
    /// Goal distance along the final path element.
    pub end_dist: u64,
    pub state: PedState,
}

impl Pedestrian {
    pub open spec fn on(self) -> Traversable {
        self.path[self.path_idx as int]
    }

    pub open spec fn moving(self) -> bool {
        self.state is Moving
    }

    /// How this pedestrian appears in a per-tick snapshot.
    pub open spec fn view_entry(self) -> AgentView {
        AgentView {
            id: AgentID::Pedestrian(self.id),
            on: self.on(),
            dist: self.dist,
            speed: PED_SPEED,
            vehicle: None,
        }
    }
}

/// One pedestrian within bounds: on its path, not past its segment or its
/// goal.
pub open spec fn ped_wf(map: RoadMap, p: Pedestrian) -> bool {
    &&& path_wf(map, p.path@, 0)
    &&& p.path_idx < p.path.len()
    &&& p.dist <= map.spec_length_of(p.on())
    &&& p.end_dist <= map.spec_length_of(p.path@.last())
    &&& (p.path_idx + 1 == p.path.len() ==> p.dist <= p.end_dist)
}

/// The farthest point a pedestrian may reach on its current segment: the
/// goal distance on the last path element, the segment end otherwise.
pub open spec fn walk_cap(map: RoadMap, p: Pedestrian) -> u64 {
    if p.path_idx + 1 == p.path.len() {
        p.end_dist
    } else {
        map.spec_length_of(p.on())
    }
}

/// One mid-segment step: walk the fixed speed, capped at `walk_cap`;
/// nothing else about the pedestrian changes.
pub open spec fn walked(map: RoadMap, p: Pedestrian) -> Pedestrian {
    let cap = walk_cap(map, p);
    let d2: u64 = if p.dist + PED_SPEED < cap {
        (p.dist + PED_SPEED) as u64
    } else {
        cap
    };
    Pedestrian {
        id: p.id,
        trip: p.trip,
        path: p.path,
        path_idx: p.path_idx,
        dist: d2,
        end_dist: p.end_dist,
        state: p.state,
    }
}

/// Why a pedestrian spawn was refused; nothing is mutated when one is
/// returned.
#[derive(Clone, Copy, PartialEq, Eq, Structural, Debug)]
pub enum PedSpawnError {
    /// The path is empty, unlinked, or out of the map.
    BadPath,
    /// The start or goal distance does not fit its segment.
    BadStart,
    /// A pedestrian with this id is already underway.
    DuplicatePed,
}

pub struct WalkingSimState {
    /// Every pedestrian underway, in strictly ascending id order, so that
    /// a tick always processes them in the same deterministic order.
    pub peds: Vec<Pedestrian>,
}

impl WalkingSimState {
    pub open spec fn wf(self, map: RoadMap) -> bool {
        &&& forall|i: int| 0 <= i < self.peds.len() ==> ped_wf(map, #[trigger] self.peds[i])
        &&& forall|i: int, j: int|
            0 <= i < j < self.peds.len() ==> (#[trigger] self.peds[i]).id.id < (
            #[trigger] self.peds[j]).id.id
    }

    pub open spec fn has_ped(self, id: PedestrianID) -> bool {
        exists|i: int|
            0 <= i < self.peds.len() && (#[trigger] self.peds[i]).id == id && self.peds[i].moving()
    }

    pub fn new() -> (r: WalkingSimState)
        ensures
            r.peds@.len() == 0,
            forall|map: RoadMap| r.wf(map),
    {
        WalkingSimState { peds: Vec::new() }
    }

    /// Advances one pedestrian by one tick: walk at the fixed speed, wait
    /// at a crosswalk until granted, report arrival at the goal. Returns
    /// the trip whose walking leg completed this tick, if any.
    pub fn step_ped(
        &mut self,
        i: usize,
        time: u64,
        map: &RoadMap,
        intersections: &mut IntersectionSimState,
    ) -> (evt: Option<TripID>)
        requires
            map.wf(),
            old(self).wf(*map),
            old(intersections).wf(*map),
            i < old(self).peds.len(),
        ensures
            final(self).peds.len() == old(self).peds.len(),
            forall|j: int|
                0 <= j < final(self).peds.len() && j != i as int ==> final(self).peds[j] == old(
                    self,
                ).peds[j],
            final(self).peds[i as int].id == old(self).peds[i as int].id,
            final(self).peds[i as int].trip == old(self).peds[i as int].trip,
            final(self).peds[i as int].path == old(self).peds[i as int].path,
            final(self).peds[i as int].end_dist == old(self).peds[i as int].end_dist,
            // Pedestrians only go forward: along the path, and along the
            // segment whenever they stay on it.
            old(self).peds[i as int].path_idx <= final(self).peds[i as int].path_idx,
            final(self).peds[i as int].path_idx <= old(self).peds[i as int].path_idx + 1,
            final(self).peds[i as int].path_idx == old(self).peds[i as int].path_idx
                ==> final(self).peds[i as int].dist >= old(self).peds[i as int].dist,
            final(self).wf(*map),
            final(intersections).wf(*map),
            // Mid-segment the kinematics are exact: walk the fixed speed,
            // stop at the segment end or the goal; nothing else changes.
            ({
                let p = old(self).peds[i as int];
                (p.moving() && p.dist < walk_cap(*map, p)) ==> final(self).peds[i as int] == walked(
                    *map,
                    p,
                ) && evt is None && *final(intersections) == *old(intersections)
            }),
            // A leg that starts the tick at its goal is reported done.
            ({
                let p = old(self).peds[i as int];
                (p.moving() && p.path_idx + 1 == p.path.len() && p.dist == p.end_dist) ==> evt
                    == Some(p.trip) && !final(self).peds[i as int].moving()
            }),
            // At a segment boundary the crossing happens exactly when the
            // next element is open: always onto a sidewalk, on a grant
            // onto a crosswalk.
            ({
                let p = old(self).peds[i as int];
                (p.moving() && p.path_idx + 1 < p.path.len() && p.dist == map.spec_length_of(
                    p.on(),
                )) ==> {
                    &&& evt is None
                    &&& match p.path[p.path_idx + 1] {
                        Traversable::Lane(_) => final(self).peds[i as int].path_idx == p.path_idx
                            + 1 && final(self).peds[i as int].dist == 0,
                        Traversable::Turn(t) => {
                            &&& ((final(self).peds[i as int].path_idx == p.path_idx + 1) == final(intersections).is_granted(AgentID::Pedestrian(p.id), t))
                            &&& (final(self).peds[i as int].path_idx == p.path_idx + 1 ==> final(self).peds[i as int].dist == 0)
                            &&& (final(self).peds[i as int].path_idx == p.path_idx ==> final(self).peds[i as int].dist == p.dist)
                        },
                    }
                }
            }),
            match evt {
                Some(t) => {
                    &&& t == old(self).peds[i as int].trip
                    &&& old(self).peds[i as int].moving()
                    &&& !final(self).peds[i as int].moving()
                },
                None => final(self).peds[i as int].state == old(self).peds[i as int].state,
            },
    {
        if matches!(self.peds[i].state, PedState::Finished) {
            return None;
        }
        let pid = self.peds[i].id;
        let idx = self.peds[i].path_idx;
        let on = self.peds[i].path[idx];
        let len = map.length_of(on);
        let last = idx + 1 == self.peds[i].path.len();
        let dist = self.peds[i].dist;
        if last && dist == self.peds[i].end_dist {
            let trip = self.peds[i].trip;
            // A leg may end on a crosswalk; the grant is released with it.
            if let Traversable::Turn(t_here) = on {
                intersections.turn_finished(AgentID::Pedestrian(pid), t_here, map);
            }
            self.peds[i].state = PedState::Finished;
            return Some(trip);
        }
        if dist == len {
            proof {
                assert(!last);
                // The path alternates sidewalks and crosswalks, so a
                // crosswalk ahead means this segment is a sidewalk and no
                // grant is released by the crossing.
                assert(ped_wf(*map, self.peds[i as int]));
                assert(linked(
                    *map,
                    self.peds[i as int].path@[idx as int],
                    self.peds[i as int].path@[idx as int + 1],
                ));
            }
            let next = self.peds[i].path[idx + 1];
            let granted = match next {
                Traversable::Turn(t) => intersections.request_turn(
                    AgentID::Pedestrian(pid),
                    t,
                    time,
                    map,
                ),
                Traversable::Lane(_) => true,
            };
            if granted {
                if let Traversable::Turn(t_old) = on {
                    intersections.turn_finished(AgentID::Pedestrian(pid), t_old, map);
                }
                self.peds[i].path_idx = idx + 1;
                self.peds[i].dist = 0;
            }
            return None;
        }
        let cap_end = if last {
            self.peds[i].end_dist
        } else {
            len
        };
        let new_dist = if dist + PED_SPEED < cap_end {
            dist + PED_SPEED
        } else {
            cap_end
        };
        self.peds[i].dist = new_dist;
        None
    }

    /// Removes the pedestrians whose leg completed this tick; everyone
    /// still underway survives unchanged, in the same relative order.
    #[verifier::loop_isolation(false)]
    pub fn sweep_finished(&mut self, map: &RoadMap)
        requires
            old(self).wf(*map),
        ensures
            final(self).wf(*map),
            forall|k: int|
                0 <= k < final(self).peds.len() ==> (#[trigger] final(self).peds[k]).moving(),
            forall|j: int|
                0 <= j < old(self).peds.len() && (#[trigger] old(self).peds[j]).moving()
                    ==> exists|k: int|
                    0 <= k < final(self).peds.len() && final(self).peds[k] == old(self).peds[j],
    {
        proof {
            assert forall|j: int|
                0 <= j < old(self).peds.len() && (#[trigger] old(self).peds[j]).moving() implies exists|
                k: int,
            |
                0 <= k < self.peds.len() && self.peds[k] == old(self).peds[j] by {
                assert(self.peds[j] == old(self).peds[j]);
            }
        }
        let mut i: usize = 0;
        while i < self.peds.len()
            invariant
                self.wf(*map),
                i <= self.peds.len(),
                forall|k: int| 0 <= k < i ==> (#[trigger] self.peds[k]).moving(),
                forall|j: int|
                    0 <= j < old(self).peds.len() && (#[trigger] old(self).peds[j]).moving()
                        ==> exists|k: int|
                        0 <= k < self.peds.len() && self.peds[k] == old(self).peds[j],
            decreases self.peds.len() - i,
        {
            if matches!(self.peds[i].state, PedState::Finished) {
                let ghost p0 = self.peds@;
                self.peds.remove(i);
                proof {
                    assert forall|k: int, l: int|
                        0 <= k < l < self.peds.len() implies (#[trigger] self.peds[k]).id.id < (
                    #[trigger] self.peds[l]).id.id by {
                        let k1: int = if k < i { k } else { k + 1 };
                        let l1: int = if l < i { l } else { l + 1 };
                        assert(self.peds[k] == p0[k1] && self.peds[l] == p0[l1]);
                    }
                    assert forall|j: int|
                        0 <= j < old(self).peds.len() && (
                        #[trigger] old(self).peds[j]).moving() implies exists|k: int|
                        0 <= k < self.peds.len() && self.peds[k] == old(self).peds[j] by {
                        let k0 = choose|k0: int|
                            0 <= k0 < p0.len() && p0[k0] == old(self).peds[j];
                        assert(p0[i as int].state is Finished);
                        assert(k0 != i);
                        if k0 < i {
                            assert(self.peds@[k0] == old(self).peds@[j]);
                        } else {
                            assert(self.peds@[k0 - 1] == old(self).peds@[j]);
                        }
                    }
                }
            } else {
                i = i + 1;
            }
        }
    }

    /// Advances every pedestrian one tick, in ascending id order, then
    /// sweeps those whose walking leg just completed. Returns the trips
    /// whose walking legs completed, in processing order.
    #[verifier::loop_isolation(false)]
    pub fn step_if_needed(
        &mut self,
        time: u64,
        map: &RoadMap,
        intersections: &mut IntersectionSimState,
    ) -> (done: Vec<TripID>)
        requires
            map.wf(),
            old(self).wf(*map),
            old(intersections).wf(*map),
        ensures
            final(self).wf(*map),
            final(intersections).wf(*map),
            forall|k: int|
                0 <= k < final(self).peds.len() ==> (#[trigger] final(self).peds[k]).moving(),
            // Every pedestrian that starts the tick mid-segment walks
            // exactly one kinematic step and stays in the roster.
            forall|j: int|
                0 <= j < old(self).peds.len() && (#[trigger] old(self).peds[j]).moving() && old(
                    self,
                ).peds[j].dist < walk_cap(*map, old(self).peds[j]) ==> exists|k: int|
                    0 <= k < final(self).peds.len() && final(self).peds[k] == walked(
                        *map,
                        old(self).peds[j],
                    ),
            // Every walking leg that starts the tick at its goal is
            // reported done.
            forall|j: int|
                0 <= j < old(self).peds.len() && (#[trigger] old(self).peds[j]).moving() && old(
                    self,
                ).peds[j].path_idx + 1 == old(self).peds[j].path.len() && old(self).peds[j].dist
                    == old(self).peds[j].end_dist ==> done@.contains(old(self).peds[j].trip),
    {
        let mut done: Vec<TripID> = Vec::new();
        let mut i: usize = 0;
        while i < self.peds.len()
            invariant
                i <= self.peds.len(),
                self.peds.len() == old(self).peds.len(),
                self.wf(*map),
                intersections.wf(*map),
                forall|j: int| i <= j < self.peds.len() ==> self.peds[j] == old(self).peds[j],
                forall|j: int|
                    0 <= j < i && (#[trigger] old(self).peds[j]).moving() && old(self).peds[j].dist
                        < walk_cap(*map, old(self).peds[j]) ==> self.peds[j] == walked(
                        *map,
                        old(self).peds[j],
                    ),
                forall|j: int|
                    0 <= j < i && (#[trigger] old(self).peds[j]).moving() && old(
                        self,
                    ).peds[j].path_idx + 1 == old(self).peds[j].path.len() && old(self).peds[j].dist
                        == old(self).peds[j].end_dist ==> done@.contains(old(self).peds[j].trip),
                forall|k: int|
                    #![trigger done@[k]]
                    0 <= k < done.len() ==> exists|j: int|
                        0 <= j < old(self).peds.len() && (#[trigger] old(self).peds[j]).moving()
                            && old(self).peds[j].trip == done[k],
            decreases self.peds.len() - i,
        {
            let ghost s_pre = *self;
            let ghost done_pre = done@;
            match self.step_ped(i, time, map, intersections) {
                Some(t) => done.push(t),
                None => {},
            }
            proof {
                assert forall|k: int| #![trigger done@[k]] 0 <= k < done.len() implies exists|j: int|
                    0 <= j < old(self).peds.len() && (#[trigger] old(self).peds[j]).moving() && old(
                        self,
                    ).peds[j].trip == done@[k] by {
                    if k < done_pre.len() {
                        assert(done@[k] == done_pre[k]);
                    } else {
                        assert(s_pre.peds[i as int] == old(self).peds[i as int]);
                        assert(old(self).peds[i as int].moving());
                        assert(old(self).peds[i as int].trip == done@[k]);
                    }
                }
                assert forall|j: int|
                    0 <= j < i + 1 && (#[trigger] old(self).peds[j]).moving() && old(
                        self,
                    ).peds[j].path_idx + 1 == old(self).peds[j].path.len() && old(self).peds[j].dist
                        == old(self).peds[j].end_dist implies done@.contains(
                    old(self).peds[j].trip,
                ) by {
                    if j < i {
                        let k0 = choose|k0: int|
                            0 <= k0 < done_pre.len() && done_pre[k0] == old(self).peds[j].trip;
                        assert(done@[k0] == old(self).peds[j].trip);
                    } else {
                        assert(s_pre.peds[i as int] == old(self).peds[i as int]);
                        assert(done@[done@.len() - 1] == old(self).peds[j].trip);
                    }
                }
            }
            i = i + 1;
        }
        let ghost stepped = *self;
        self.sweep_finished(map);
        proof {
            assert forall|j: int|
                0 <= j < old(self).peds.len() && (#[trigger] old(self).peds[j]).moving() && old(
                    self,
                ).peds[j].dist < walk_cap(*map, old(self).peds[j]) implies exists|k: int|
                0 <= k < self.peds.len() && self.peds[k] == walked(*map, old(self).peds[j]) by {
                assert(stepped.peds[j] == walked(*map, old(self).peds[j]));
                assert(stepped.peds[j].moving());
            }
        }
        done
    }

    /// The exact outcome of a pedestrian spawn attempt, checks in order.
    pub open spec fn spawn_outcome(
        self,
        map: RoadMap,
        id: PedestrianID,
        path: Seq<Traversable>,
        start_dist: u64,
        end_dist: u64,
    ) -> Result<(), PedSpawnError> {
        if !path_wf(map, path, 0) {
            Err(PedSpawnError::BadPath)
        } else if !(start_dist <= map.spec_length_of(path[0]) && end_dist <= map.spec_length_of(
            path.last(),
        ) && (path.len() == 1 ==> start_dist <= end_dist)) {
            Err(PedSpawnError::BadStart)
        } else if exists|j: int| 0 <= j < self.peds.len() && (#[trigger] self.peds[j]).id == id {
            Err(PedSpawnError::DuplicatePed)
        } else {
            Ok(())
        }
    }

    /// Puts a new pedestrian at the start of its precomputed path. Nothing
    /// changes when any check fails; the error says which one.
    #[verifier::loop_isolation(false)]
    pub fn spawn_ped(
        &mut self,
        id: PedestrianID,
        trip: TripID,
        path: Vec<Traversable>,
        start_dist: u64,
        end_dist: u64,
        map: &RoadMap,
    ) -> (r: Result<(), PedSpawnError>)
        requires
            map.wf(),
            old(self).wf(*map),
        ensures
            r == old(self).spawn_outcome(*map, id, path@, start_dist, end_dist),
            final(self).wf(*map),
            match r {
                Ok(_) => {
                    &&& final(self).peds.len() == old(self).peds.len() + 1
                    &&& final(self).has_ped(id)
                    &&& exists|k: int|
                        0 <= k < final(self).peds.len() && final(self).peds[k] == (Pedestrian {
                            id,
                            trip,
                            path,
                            path_idx: 0,
                            dist: start_dist,
                            end_dist,
                            state: PedState::Moving,
                        })
                },
                Err(_) => final(self).peds@ == old(self).peds@,
            },
    {
        if !check_path(map, &path, 0) {
            return Err(PedSpawnError::BadPath);
        }
        let len0 = map.length_of(path[0]);
        let len_last = map.length_of(path[path.len() - 1]);
        if !(start_dist <= len0 && end_dist <= len_last && (if path.len() == 1 {
            start_dist <= end_dist
        } else {
            true
        })) {
            return Err(PedSpawnError::BadStart);
        }
        let mut i: usize = 0;
        while i < self.peds.len()
            invariant
                i <= self.peds.len(),
                forall|j: int| 0 <= j < i ==> (#[trigger] self.peds[j]).id != id,
            decreases self.peds.len() - i,
        {
            if self.peds[i].id == id {
                return Err(PedSpawnError::DuplicatePed);
            }
            i = i + 1;
        }
        let ped = Pedestrian { id, trip, path, path_idx: 0, dist: start_dist, end_dist, state: PedState::Moving };
        let mut pos: usize = 0;
        while pos < self.peds.len() && self.peds[pos].id.id < id.id
            invariant
                pos <= self.peds.len(),
                forall|k: int| 0 <= k < pos ==> (#[trigger] self.peds[k]).id.id < id.id,
            decreases self.peds.len() - pos,
        {
            pos = pos + 1;
        }
        let ghost p0 = self.peds@;
        self.peds.insert(pos, ped);
        proof {
            assert(self.peds@[pos as int] == ped);
            assert(self.has_ped(id));
            assert forall|k: int, l: int|
                0 <= k < l < self.peds.len() implies (#[trigger] self.peds[k]).id.id < (
            #[trigger] self.peds[l]).id.id by {
                if k != pos && l != pos {
                    let k1: int = if k < pos { k } else { k - 1 };
                    let l1: int = if l < pos { l } else { l - 1 };
                    assert(self.peds[k] == p0[k1] && self.peds[l] == p0[l1]);
                } else if k == pos {
                    assert(self.peds[l] == p0[l - 1]);
                    if pos < p0.len() {
                        assert(p0[pos as int].id.id >= id.id);
                        assert(p0[pos as int].id != id);
                        if l - 1 > pos {
                            assert(p0[pos as int].id.id < p0[l - 1].id.id);
                        }
                    }
                } else {
                    assert(self.peds[k] == p0[k as int]);
                }
            }
        }
        Ok(())
    }

    /// Appends one snapshot entry per active pedestrian, in order.
    #[verifier::loop_isolation(false)]
    pub fn append_agent_views(&self, view: &mut WorldView)
        requires
            forall|i: int|
                0 <= i < self.peds.len() ==> (#[trigger] self.peds[i]).path_idx
                    < self.peds[i].path.len(),
        ensures
            forall|k: int|
                0 <= k < old(view).agents.len() ==> (#[trigger] final(view).agents[k]) == old(
                    view,
                ).agents[k],
            forall|k: int|
                #![trigger final(view).agents[k]]
                old(view).agents.len() <= k < final(view).agents.len() ==> exists|j: int|
                    0 <= j < self.peds.len() && (#[trigger] self.peds[j]).moving() && final(view).agents[k] == self.peds[j].view_entry(),
            forall|j: int|
                0 <= j < self.peds.len() && (#[trigger] self.peds[j]).moving() ==> exists|k: int|
                    0 <= k < final(view).agents.len() && final(view).agents[k]
                        == self.peds[j].view_entry(),
    {
        let mut i: usize = 0;
        while i < self.peds.len()
            invariant
                i <= self.peds.len(),
                forall|k: int|
                    0 <= k < old(view).agents.len() ==> (#[trigger] view.agents[k]) == old(
                        view,
                    ).agents[k],
                view.agents.len() >= old(view).agents.len(),
                forall|k: int|
                    #![trigger view.agents[k]]
                    old(view).agents.len() <= k < view.agents.len() ==> exists|j: int|
                        0 <= j < self.peds.len() && (#[trigger] self.peds[j]).moving()
                            && view.agents[k] == self.peds[j].view_entry(),
                forall|j: int|
                    0 <= j < i && (#[trigger] self.peds[j]).moving() ==> exists|k: int|
                        0 <= k < view.agents.len() && view.agents[k] == self.peds[j].view_entry(),
            decreases self.peds.len() - i,
        {
            let p = &self.peds[i];
            if matches!(p.state, PedState::Moving) {
                let ghost v_pre = view.agents@;
                view.agents.push(
                    AgentView {
                        id: AgentID::Pedestrian(p.id),
                        on: p.path[p.path_idx],
                        dist: p.dist,
                        speed: PED_SPEED,
                        vehicle: None,
                    },
                );
                proof {
                    assert(view.agents@[v_pre.len() as int] == self.peds[i as int].view_entry());
                    assert forall|k: int|
                        #![trigger view.agents[k]]
                        old(view).agents.len() <= k < view.agents.len() implies exists|j: int|
                        0 <= j < self.peds.len() && (#[trigger] self.peds[j]).moving()
                            && view.agents[k] == self.peds[j].view_entry() by {
                        if k < v_pre.len() {
                            let j0 = choose|j0: int|
                                0 <= j0 < self.peds.len() && (#[trigger] self.peds[j0]).moving()
                                    && v_pre[k] == self.peds[j0].view_entry();
                            assert(view.agents[k] == self.peds[j0].view_entry());
                        } else {
                            assert(view.agents[k] == self.peds[i as int].view_entry());
                        }
                    }
                    assert forall|j: int|
                        0 <= j < i + 1 && (#[trigger] self.peds[j]).moving() implies exists|k: int|
                        0 <= k < view.agents.len() && view.agents[k]
                            == self.peds[j].view_entry() by {
                        if j < i {
                            let k0 = choose|k0: int|
                                0 <= k0 < v_pre.len() && v_pre[k0] == self.peds[j].view_entry();
                            assert(view.agents[k0] == self.peds[j].view_entry());
                        } else {
                            assert(view.agents[v_pre.len() as int] == self.peds[j].view_entry());
                        }
                    }
                }
            }
            i = i + 1;
        }
    }

    /// Draw records for the active pedestrians, in order: all of them, or
    /// only those on one lane or turn.
    #[verifier::loop_isolation(false)]
    pub fn get_draw_peds(&self, filter: Option<Traversable>) -> (r: Vec<DrawPedestrianInput>)
        requires
            forall|i: int|
                0 <= i < self.peds.len() ==> (#[trigger] self.peds[i]).path_idx
                    < self.peds[i].path.len(),
        ensures
            forall|k: int|
                #![trigger r@[k]]
                0 <= k < r.len() ==> exists|j: int|
                    0 <= j < self.peds.len() && (#[trigger] self.peds[j]).moving() && (match filter {
                        Some(on) => self.peds[j].on() == on,
                        None => true,
                    }) && r[k] == (DrawPedestrianInput {
                        id: self.peds[j].id,
                        on: self.peds[j].on(),
                        dist: self.peds[j].dist,
                    }),
            forall|j: int|
                0 <= j < self.peds.len() && (#[trigger] self.peds[j]).moving() && (match filter {
                    Some(on) => self.peds[j].on() == on,
                    None => true,
                }) ==> exists|k: int|
                    0 <= k < r.len() && r[k] == (DrawPedestrianInput {
                        id: self.peds[j].id,
                        on: self.peds[j].on(),
                        dist: self.peds[j].dist,
                    }),
    {
        let mut r: Vec<DrawPedestrianInput> = Vec::new();
        let mut i: usize = 0;
        while i < self.peds.len()
            invariant
                i <= self.peds.len(),
                forall|k: int|
                    #![trigger r@[k]]
                    0 <= k < r.len() ==> exists|j: int|
                        0 <= j < self.peds.len() && (#[trigger] self.peds[j]).moving() && (
                        match filter {
                            Some(on) => self.peds[j].on() == on,
                            None => true,
                        }) && r[k] == (DrawPedestrianInput {
                            id: self.peds[j].id,
                            on: self.peds[j].on(),
                            dist: self.peds[j].dist,
                        }),
                forall|j: int|
                    0 <= j < i && (#[trigger] self.peds[j]).moving() && (match filter {
                        Some(on) => self.peds[j].on() == on,
                        None => true,
                    }) ==> exists|k: int|
                        0 <= k < r.len() && r[k] == (DrawPedestrianInput {
                            id: self.peds[j].id,
                            on: self.peds[j].on(),
                            dist: self.peds[j].dist,
                        }),
            decreases self.peds.len() - i,
        {
            let p = &self.peds[i];
            let keep = matches!(p.state, PedState::Moving) && (match filter {
                Some(on) => p.path[p.path_idx] == on,
                None => true,
            });
            let ghost r_pre = r@;
            if keep {
                r.push(DrawPedestrianInput { id: p.id, on: p.path[p.path_idx], dist: p.dist });
                proof {
                    assert(r@[r_pre.len() as int] == (DrawPedestrianInput {
                        id: self.peds[i as int].id,
                        on: self.peds[i as int].on(),
                        dist: self.peds[i as int].dist,
                    }));
                }
            }
            proof {
                assert forall|j: int|
                    0 <= j < i + 1 && (#[trigger] self.peds[j]).moving() && (match filter {
                        Some(on) => self.peds[j].on() == on,
                        None => true,
                    }) implies exists|k: int|
                    0 <= k < r.len() && r@[k] == (DrawPedestrianInput {
                        id: self.peds[j].id,
                        on: self.peds[j].on(),
                        dist: self.peds[j].dist,
                    }) by {
                    if j < i {
                        let k0 = choose|k0: int|
                            0 <= k0 < r_pre.len() && r_pre[k0] == (DrawPedestrianInput {
                                id: self.peds[j].id,
                                on: self.peds[j].on(),
                                dist: self.peds[j].dist,
                            });
                        assert(r@[k0] == (DrawPedestrianInput {
                            id: self.peds[j].id,
                            on: self.peds[j].on(),
                            dist: self.peds[j].dist,
                        }));
                    } else {
                        assert(r@[r@.len() - 1] == (DrawPedestrianInput {
                            id: self.peds[j].id,
                            on: self.peds[j].on(),
                            dist: self.peds[j].dist,
                        }));
                    }
                }
            }
            i = i + 1;
        }
        r
    }
}

} // verus!
