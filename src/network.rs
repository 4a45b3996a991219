use vstd::prelude::*;
use crate::ether::{EtherModel, EtherSimulator};
use crate::modem::WirelessModemFake;
use crate::names::name_eq;

verus! {

broadcast use vstd::seq_lib::group_seq_properties;

/// The abstract state of a network simulator. While `running` is false the
/// simulator is being configured and driven by its caller; while it is true
/// a worker drives it and configuration is not allowed.
pub struct NetworkModel {
    pub ethers: Seq<EtherModel>,
    pub ms_per_tick: u64,
    pub running: bool,
}

impl NetworkModel {
    pub open spec fn with_ethers(self, ethers: Seq<EtherModel>) -> NetworkModel {
        NetworkModel { ethers, ..self }
    }

    pub open spec fn with_running(self, running: bool) -> NetworkModel {
        NetworkModel { running, ..self }
    }

    pub open spec fn all_in_tick(self) -> bool {
        forall|i: int| 0 <= i < self.ethers.len() ==> #[trigger] self.ethers[i].all_in_tick()
    }

    /// One tick of every ether, all of them sharing the tick's boundaries.
    pub open spec fn tick(self) -> NetworkModel {
        self.with_ethers(self.ethers.map_values(|e: EtherModel| e.tick()))
    }

    /// The index of the first ether of the given name, if any.
    pub open spec fn first_named(self, name: Seq<char>) -> Option<int> {
        if exists|i: int| 0 <= i < self.ethers.len() && self.ethers[i].name == name {
            Some(
                choose|i: int|
                    0 <= i < self.ethers.len() && self.ethers[i].name == name && forall|j: int|
                        0 <= j < i ==> self.ethers[j].name != name,
            )
        } else {
            None
        }
    }

    /// `other` is this network with the `k`-th ether replaced by `e`.
    pub open spec fn replaced(self, other: NetworkModel, k: int, e: EtherModel) -> bool {
        &&& other.ms_per_tick == self.ms_per_tick
        &&& other.running == self.running
        &&& other.ethers.len() == self.ethers.len()
        &&& other.ethers[k] == e
        &&& forall|j: int| 0 <= j < self.ethers.len() && j != k ==> #[trigger] other.ethers[j] == self.ethers[j]
    }
}

/// Entering a tick puts every modem of an ether in the tick.
pub proof fn lemma_start_tick_all_in_tick(e: EtherModel)
    ensures
        e.start_tick().all_in_tick(),
{
}

/// A set of ethers advanced under one tick barrier, either by its caller or
/// by a worker.
pub struct NetworkSimulator {
    ethers: Vec<EtherSimulator>,
    ms_per_tick: u64,
    running: bool,
}

impl View for NetworkSimulator {
    type V = NetworkModel;

    closed spec fn view(&self) -> NetworkModel {
        NetworkModel {
            ethers: self.ethers@.map_values(|e: EtherSimulator| e@),
            ms_per_tick: self.ms_per_tick,
            running: self.running,
        }
    }
}

impl NetworkSimulator {
    pub fn new(ms_per_tick: u64) -> (r: Self)
        ensures
            r@.ethers == Seq::<EtherModel>::empty(),
            r@.ms_per_tick == ms_per_tick,
            !r@.running,
    {
        let r = NetworkSimulator { ethers: Vec::new(), ms_per_tick, running: false };
        assert(r@.ethers =~= Seq::<EtherModel>::empty());
        r
    }

    /// The period of a tick when a worker drives the simulator.
    pub fn ms_per_tick(&self) -> (r: u64)
        ensures
            r == self@.ms_per_tick,
    {
        self.ms_per_tick
    }

    /// Whether a worker drives the simulator.
    pub fn is_running(&self) -> (r: bool)
        ensures
            r == self@.running,
    {
        self.running
    }

    /// Whether every modem of every ether is within a tick, as `simulate`
    /// needs.
    pub fn in_tick(&self) -> (r: bool)
        ensures
            r == self@.all_in_tick(),
    {
        let mut i: usize = 0;
        while i < self.ethers.len()
            invariant
                0 <= i <= self.ethers@.len(),
                forall|j: int| 0 <= j < i ==> #[trigger] self@.ethers[j].all_in_tick(),
            decreases self.ethers@.len() - i,
        {
            if !self.ethers[i].in_tick() {
                assert(!self@.ethers[i as int].all_in_tick());
                return false;
            }
            i = i + 1;
        }
        true
    }

    /// Adds an empty ether of the given name. Only while configuring.
    pub fn create_ether(&mut self, name: &str)
        requires
            !old(self)@.running,
        ensures
            final(self)@ == old(self)@.with_ethers(old(self)@.ethers.push(EtherModel::fresh(name@))),
    {
        self.ethers.push(EtherSimulator::new(name));
        assert(self@.ethers =~= old(self)@.ethers.push(EtherModel::fresh(name@)));
    }

    /// The position of the first ether of the given name.
    fn position_of(&self, name: &str) -> (r: Option<usize>)
        ensures
            r matches Some(k) ==> k < self@.ethers.len() && self@.first_named(name@) == Some(k as int),
            r is None ==> self@.first_named(name@) is None,
    {
        let ghost es = self@.ethers;
        let mut i: usize = 0;
        while i < self.ethers.len()
            invariant
                es == self@.ethers,
                0 <= i <= es.len(),
                forall|j: int| 0 <= j < i ==> es[j].name != name@,
            decreases es.len() - i,
        {
            assert(self.ethers@[i as int]@ == es[i as int]);
            if name_eq(self.ethers[i].get_name(), name) {
                proof {
                    let c = choose|k: int|
                        0 <= k < es.len() && es[k].name == name@ && forall|j: int|
                            0 <= j < k ==> es[j].name != name@;
                    assert(0 <= c < es.len() && es[c].name == name@);
                    if c < i {
                        assert(es[c].name != name@);
                    } else if c > i {
                        assert(es[i as int].name != name@);
                    }
                }
                return Some(i);
            }
            i = i + 1;
        }
        None
    }

    /// The first ether of the given name, if any. Only while configuring.
    pub fn get_ether(&self, name: &str) -> (r: Option<&EtherSimulator>)
        requires
            !self@.running,
        ensures
            (match self@.first_named(name@) {
                Some(k) => r is Some && r.unwrap()@ == self@.ethers[k],
                None => r is None,
            }),
    {
        match self.position_of(name) {
            Some(k) => Some(&self.ethers[k]),
            None => None,
        }
    }

    /// The first ether of the given name, if any, to be changed in place.
    /// Only while configuring.
    pub fn get_ether_mut(&mut self, name: &str) -> (r: Option<&mut EtherSimulator>)
        requires
            !old(self)@.running,
        ensures
            (match old(self)@.first_named(name@) {
                Some(k) => r is Some && (*r.unwrap())@ == old(self)@.ethers[k]
                    && old(self)@.replaced(final(self)@, k, (*final(r.unwrap()))@),
                None => r is None && final(self)@ == old(self)@,
            }),
    {
        match self.position_of(name) {
            Some(k) => Some(&mut self.ethers[k]),
            None => None,
        }
    }

    /// The first modem of the given name in the first ether of the given
    /// name, for use of its pins. Allowed in both phases.
    pub fn get_modem_mut(&mut self, ether_name: &str, modem_name: &str) -> (r: Option<&mut WirelessModemFake>)
        ensures
            (match old(self)@.first_named(ether_name@) {
                Some(k) => match old(self)@.ethers[k].first_named(modem_name@) {
                    Some(m) => r is Some && (*r.unwrap())@ == old(self)@.ethers[k].devices[m]
                        && final(self)@.ethers[k].devices[m] == (*final(r.unwrap()))@
                        && old(self)@.replaced(final(self)@, k, final(self)@.ethers[k])
                        && old(self)@.ethers[k].replaced(final(self)@.ethers[k], m, (*final(r.unwrap()))@),
                    None => r is None && final(self)@ == old(self)@,
                },
                None => r is None && final(self)@ == old(self)@,
            }),
    {
        match self.position_of(ether_name) {
            Some(k) => {
                if self.ethers[k].has_driver(modem_name) {
                    self.ethers[k].get_driver_mut(modem_name)
                } else {
                    None
                }
            },
            None => None,
        }
    }

    /// Enters a tick on every ether.
    fn start_tick_all(&mut self)
        ensures
            final(self)@ == old(self)@.with_ethers(old(self)@.ethers.map_values(|e: EtherModel| e.start_tick())),
            final(self)@.all_in_tick(),
    {
        let mut i: usize = 0;
        while i < self.ethers.len()
            invariant
                self.ms_per_tick == old(self).ms_per_tick,
                self.running == old(self).running,
                self.ethers@.len() == old(self).ethers@.len(),
                0 <= i <= self.ethers@.len(),
                forall|j: int| 0 <= j < i ==> #[trigger] self.ethers@[j]@ == old(self).ethers@[j]@.start_tick(),
                forall|j: int| i <= j < self.ethers@.len() ==> #[trigger] self.ethers@[j] == old(self).ethers@[j],
            decreases self.ethers@.len() - i,
        {
            self.ethers[i].start_tick();
            i = i + 1;
        }
        assert(self@.ethers =~= old(self)@.ethers.map_values(|e: EtherModel| e.start_tick()));
        assert forall|j: int| 0 <= j < self@.ethers.len() implies #[trigger] self@.ethers[j].all_in_tick() by {
            lemma_start_tick_all_in_tick(old(self)@.ethers[j]);
        }
    }

    /// Leaves the tick on every ether.
    fn end_tick_all(&mut self)
        ensures
            final(self)@ == old(self)@.with_ethers(old(self)@.ethers.map_values(|e: EtherModel| e.end_tick())),
    {
        let mut i: usize = 0;
        while i < self.ethers.len()
            invariant
                self.ms_per_tick == old(self).ms_per_tick,
                self.running == old(self).running,
                self.ethers@.len() == old(self).ethers@.len(),
                0 <= i <= self.ethers@.len(),
                forall|j: int| 0 <= j < i ==> #[trigger] self.ethers@[j]@ == old(self).ethers@[j]@.end_tick(),
                forall|j: int| i <= j < self.ethers@.len() ==> #[trigger] self.ethers@[j] == old(self).ethers@[j],
            decreases self.ethers@.len() - i,
        {
            self.ethers[i].end_tick();
            i = i + 1;
        }
        assert(self@.ethers =~= old(self)@.ethers.map_values(|e: EtherModel| e.end_tick()));
    }

    /// One propagation step in every ether.
    fn simulate_all(&mut self)
        requires
            old(self)@.all_in_tick(),
        ensures
            final(self)@ == old(self)@.with_ethers(old(self)@.ethers.map_values(|e: EtherModel| e.simulate())),
    {
        let mut i: usize = 0;
        while i < self.ethers.len()
            invariant
                old(self)@.all_in_tick(),
                self.ms_per_tick == old(self).ms_per_tick,
                self.running == old(self).running,
                self.ethers@.len() == old(self).ethers@.len(),
                0 <= i <= self.ethers@.len(),
                forall|j: int| 0 <= j < i ==> #[trigger] self.ethers@[j]@ == old(self).ethers@[j]@.simulate(),
                forall|j: int| i <= j < self.ethers@.len() ==> #[trigger] self.ethers@[j] == old(self).ethers@[j],
            decreases self.ethers@.len() - i,
        {
            assert(old(self)@.ethers[i as int].all_in_tick());
            self.ethers[i].simulate();
            i = i + 1;
        }
        assert(self@.ethers =~= old(self)@.ethers.map_values(|e: EtherModel| e.simulate()));
    }

    /// Enters a tick on every ether. Only while configuring.
    pub fn start_tick(&mut self)
        requires
            !old(self)@.running,
        ensures
            final(self)@ == old(self)@.with_ethers(old(self)@.ethers.map_values(|e: EtherModel| e.start_tick())),
    {
        self.start_tick_all();
    }

    /// Leaves the tick on every ether. Only while configuring.
    pub fn end_tick(&mut self)
        requires
            !old(self)@.running,
        ensures
            final(self)@ == old(self)@.with_ethers(old(self)@.ethers.map_values(|e: EtherModel| e.end_tick())),
    {
        self.end_tick_all();
    }

    /// One propagation step in every ether, to be made between `start_tick`
    /// and `end_tick`. Only while configuring.
    pub fn simulate(&mut self)
        requires
            !old(self)@.running,
            old(self)@.all_in_tick(),
        ensures
            final(self)@ == old(self)@.with_ethers(old(self)@.ethers.map_values(|e: EtherModel| e.simulate())),
    {
        self.simulate_all();
    }

    /// Hands the simulator over to a worker: configuration and driving by
    /// the caller are not allowed until `stop_running`.
    pub fn start_running(&mut self)
        requires
            !old(self)@.running,
        ensures
            final(self)@ == old(self)@.with_running(true),
    {
        self.running = true;
    }

    /// Takes the simulator back from its worker.
    pub fn stop_running(&mut self)
        requires
            old(self)@.running,
        ensures
            final(self)@ == old(self)@.with_running(false),
    {
        self.running = false;
    }

    /// What the worker does once per period: a whole tick of every ether,
    /// in three passes (enter, propagate, leave) so that all the ethers
    /// share the tick's boundaries.
    pub fn worker_tick(&mut self)
        requires
            old(self)@.running,
        ensures
            final(self)@ == old(self)@.tick(),
    {
        self.start_tick_all();
        self.simulate_all();
        self.end_tick_all();
        assert(self@.ethers =~= old(self)@.tick().ethers);
    }
}

} // verus!
