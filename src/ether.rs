use vstd::prelude::*;
use crate::modem::{ModemModel, WirelessModemFake};
use crate::names::{
    lemma_name_le_antisymmetric, lemma_name_le_total, lemma_name_le_transitive, name_at_most,
    name_eq, name_le,
};

verus! {

broadcast use vstd::seq_lib::group_seq_properties;

/// The abstract state of an ether: its name, the modems registered in it in
/// order of registration, and the name of the modem heard in the last
/// propagation step, if one was heard.
pub struct EtherModel {
    pub name: Seq<char>,
    pub devices: Seq<ModemModel>,
    pub last: Option<Seq<char>>,
}

/// Whether the `i`-th device transmits in the current tick.
pub open spec fn broadcasts(ds: Seq<ModemModel>, i: int) -> bool {
    0 <= i < ds.len() && ds[i].network_byte() is Some
}

/// Whether devices of at least two different names transmit.
pub open spec fn several_broadcasters(ds: Seq<ModemModel>) -> bool {
    exists|i: int, j: int| broadcasts(ds, i) && broadcasts(ds, j) && ds[i].name != ds[j].name
}

/// A device that may be heard: it transmits and does not bear the name that
/// yields the medium in this step.
pub open spec fn eligible(ds: Seq<ModemModel>, excluded: Option<Seq<char>>, i: int) -> bool {
    broadcasts(ds, i) && excluded != Some(ds[i].name)
}

/// The device that is heard: of the eligible devices it has the first name
/// in the order of names, and of the eligible devices of that name it is the
/// last registered.
pub open spec fn is_winner(ds: Seq<ModemModel>, excluded: Option<Seq<char>>, w: int) -> bool {
    &&& eligible(ds, excluded, w)
    &&& forall|j: int| #[trigger] eligible(ds, excluded, j) ==> name_le(ds[w].name, ds[j].name)
    &&& forall|j: int| w < j && #[trigger] eligible(ds, excluded, j) ==> ds[j].name != ds[w].name
}

impl EtherModel {
    pub open spec fn fresh(name: Seq<char>) -> EtherModel {
        EtherModel { name, devices: Seq::empty(), last: None }
    }

    pub open spec fn with_devices(self, devices: Seq<ModemModel>) -> EtherModel {
        EtherModel { devices, ..self }
    }

    pub open spec fn all_in_tick(self) -> bool {
        forall|i: int| 0 <= i < self.devices.len() ==> #[trigger] self.devices[i].in_tick
    }

    pub open spec fn start_tick(self) -> EtherModel {
        self.with_devices(self.devices.map_values(|d: ModemModel| d.start_tick()))
    }

    pub open spec fn end_tick(self) -> EtherModel {
        self.with_devices(self.devices.map_values(|d: ModemModel| d.end_tick()))
    }

    /// The name that yields the medium: the one heard last, when devices of
    /// more than one name transmit.
    pub open spec fn excluded(self) -> Option<Seq<char>> {
        if several_broadcasters(self.devices) {
            self.last
        } else {
            None
        }
    }

    /// The index of the device heard in this step, if any is.
    pub open spec fn winner(self) -> Option<int> {
        if exists|w: int| is_winner(self.devices, self.excluded(), w) {
            Some(choose|w: int| is_winner(self.devices, self.excluded(), w))
        } else {
            None
        }
    }

    /// The byte heard in this step, if any.
    pub open spec fn current_byte(self) -> Option<u8> {
        match self.winner() {
            Some(w) => self.devices[w].network_byte(),
            None => None,
        }
    }

    /// The memory of who was heard, after this step.
    pub open spec fn next_last(self) -> Option<Seq<char>> {
        match self.winner() {
            Some(w) => Some(self.devices[w].name),
            None => None,
        }
    }

    /// One propagation step: the byte heard is handed to every device.
    pub open spec fn simulate(self) -> EtherModel {
        match self.current_byte() {
            Some(b) => EtherModel {
                devices: self.devices.map_values(|d: ModemModel| d.put_network(b)),
                last: self.next_last(),
                ..self
            },
            None => self.with_last(None),
        }
    }

    /// `other` is this ether with the `k`-th device replaced by `d`.
    pub open spec fn replaced(self, other: EtherModel, k: int, d: ModemModel) -> bool {
        &&& other.name == self.name
        &&& other.last == self.last
        &&& other.devices.len() == self.devices.len()
        &&& other.devices[k] == d
        &&& forall|j: int| 0 <= j < self.devices.len() && j != k ==> #[trigger] other.devices[j] == self.devices[j]
    }

    pub open spec fn with_last(self, last: Option<Seq<char>>) -> EtherModel {
        EtherModel { last, ..self }
    }

    /// A whole tick: enter, propagate, leave.
    pub open spec fn tick(self) -> EtherModel {
        self.start_tick().simulate().end_tick()
    }

    /// The index of the first device of the given name, if any.
    pub open spec fn first_named(self, name: Seq<char>) -> Option<int> {
        if exists|i: int| 0 <= i < self.devices.len() && self.devices[i].name == name {
            Some(
                choose|i: int|
                    0 <= i < self.devices.len() && self.devices[i].name == name && forall|j: int|
                        0 <= j < i ==> self.devices[j].name != name,
            )
        } else {
            None
        }
    }
}

/// Two devices that both meet the winner's description are the same device.
pub proof fn lemma_winner_unique(ds: Seq<ModemModel>, excluded: Option<Seq<char>>, a: int, b: int)
    requires
        is_winner(ds, excluded, a),
        is_winner(ds, excluded, b),
    ensures
        a == b,
{
    assert(name_le(ds[a].name, ds[b].name));
    assert(name_le(ds[b].name, ds[a].name));
    lemma_name_le_antisymmetric(ds[a].name, ds[b].name);
    if a < b {
        assert(eligible(ds, excluded, b));
    } else if b < a {
        assert(eligible(ds, excluded, a));
    }
}

/// A broadcast medium: the modems registered in it and the collision rule
/// that decides which of them is heard in a tick.
///
/// The ether owns its modems; each is reached by its name, the first of that
/// name being the one returned.
pub struct EtherSimulator {
    name: String,
    devices: Vec<WirelessModemFake>,
    last_broadcasted_device: Option<String>,
}

impl View for EtherSimulator {
    type V = EtherModel;

    closed spec fn view(&self) -> EtherModel {
        EtherModel {
            name: self.name@,
            devices: self.devices@.map_values(|d: WirelessModemFake| d@),
            last: match self.last_broadcasted_device {
                Some(s) => Some(s@),
                None => None,
            },
        }
    }
}

impl EtherSimulator {
    pub fn new(name: &str) -> (r: Self)
        ensures
            r@ == EtherModel::fresh(name@),
    {
        let r = EtherSimulator { name: name.to_owned(), devices: Vec::new(), last_broadcasted_device: None };
        assert(r@.devices =~= Seq::<ModemModel>::empty());
        r
    }

    pub fn get_name(&self) -> (r: &str)
        ensures
            r@ == self@.name,
    {
        self.name.as_str()
    }

    /// Registers a modem at the end of the list; names are not deduplicated.
    pub fn register_driver(&mut self, driver: WirelessModemFake)
        ensures
            final(self)@ == old(self)@.with_devices(old(self)@.devices.push(driver@)),
    {
        self.devices.push(driver);
        assert(self@.devices =~= old(self)@.devices.push(driver@));
    }

    /// Removes every registered modem of the given name.
    pub fn unregister_driver(&mut self, name: &str)
        ensures
            final(self)@ == old(self)@.with_devices(
                old(self)@.devices.filter(|d: ModemModel| d.name != name@),
            ),
    {
        let ghost orig = old(self)@.devices;
        let ghost keep = |d: ModemModel| d.name != name@;
        let mut rest: Vec<WirelessModemFake> = Vec::new();
        core::mem::swap(&mut self.devices, &mut rest);
        let ghost k: int = 0;
        assert(orig.take(0) =~= Seq::<ModemModel>::empty());
        assert(orig.take(0).filter(keep) =~= Seq::<ModemModel>::empty()) by {
            reveal(Seq::filter);
        }
        assert(self.devices@.map_values(|d: WirelessModemFake| d@) =~= Seq::<ModemModel>::empty());
        while rest.len() > 0
            invariant
                self.name == old(self).name,
                self.last_broadcasted_device == old(self).last_broadcasted_device,
                0 <= k <= orig.len(),
                keep == (|d: ModemModel| d.name != name@),
                orig == old(self)@.devices,
                rest@.len() + k == orig.len(),
                forall|j: int| 0 <= j < rest@.len() ==> #[trigger] rest@[j]@ == orig[k + j],
                self.devices@.map_values(|d: WirelessModemFake| d@) == orig.take(k).filter(keep),
            decreases rest@.len(),
        {
            let ghost before = rest@;
            let d = rest.remove(0);
            assert(d@ == orig[k]);
            assert forall|j: int| 0 <= j < rest@.len() implies #[trigger] rest@[j]@ == orig[k + 1 + j] by {
                assert(rest@[j] == before[j + 1]);
            }
            proof {
                assert(orig.take(k + 1) =~= orig.take(k).push(orig[k]));
                orig.take(k).lemma_filter_push(orig[k], keep);
            }
            let ghost prev = self.devices@;
            if !name_eq(d.get_name(), name) {
                assert(keep(orig[k]));
                self.devices.push(d);
                assert(self.devices@.map_values(|d: WirelessModemFake| d@) =~= prev.map_values(
                    |d: WirelessModemFake| d@,
                ).push(orig[k]));
            } else {
                assert(!keep(orig[k]));
            }
            proof {
                k = k + 1;
            }
            assert(self.devices@.map_values(|d: WirelessModemFake| d@) =~= orig.take(k).filter(keep));
        }
        assert(orig.take(k) =~= orig);
    }

    /// The position of the first registered modem of the given name.
    fn position_of(&self, name: &str) -> (r: Option<usize>)
        ensures
            r matches Some(k) ==> k < self@.devices.len() && self@.first_named(name@) == Some(k as int),
            r is None ==> self@.first_named(name@) is None,
    {
        let ghost ds = self@.devices;
        let mut i: usize = 0;
        while i < self.devices.len()
            invariant
                ds == self@.devices,
                0 <= i <= ds.len(),
                forall|j: int| 0 <= j < i ==> ds[j].name != name@,
            decreases ds.len() - i,
        {
            assert(self.devices@[i as int]@ == ds[i as int]);
            if name_eq(self.devices[i].get_name(), name) {
                proof {
                    let c = choose|k: int|
                        0 <= k < ds.len() && ds[k].name == name@ && forall|j: int|
                            0 <= j < k ==> ds[j].name != name@;
                    assert(0 <= c < ds.len() && ds[c].name == name@);
                    if c < i {
                        assert(ds[c].name != name@);
                    } else if c > i {
                        assert(ds[i as int].name != name@);
                    }
                }
                return Some(i);
            }
            i = i + 1;
        }
        None
    }

    /// Whether a modem of the given name is registered.
    pub fn has_driver(&self, name: &str) -> (r: bool)
        ensures
            r == (self@.first_named(name@) is Some),
    {
        self.position_of(name).is_some()
    }

    /// The first registered modem of the given name, if any.
    pub fn get_driver(&self, name: &str) -> (r: Option<&WirelessModemFake>)
        ensures
            (match self@.first_named(name@) {
                Some(k) => r is Some && r.unwrap()@ == self@.devices[k],
                None => r is None,
            }),
    {
        match self.position_of(name) {
            Some(k) => Some(&self.devices[k]),
            None => None,
        }
    }

    /// The first registered modem of the given name, if any, to be changed
    /// in place.
    pub fn get_driver_mut(&mut self, name: &str) -> (r: Option<&mut WirelessModemFake>)
        ensures
            (match old(self)@.first_named(name@) {
                Some(k) => r is Some && (*r.unwrap())@ == old(self)@.devices[k]
                    && old(self)@.replaced(final(self)@, k, (*final(r.unwrap()))@),
                None => r is None && final(self)@ == old(self)@,
            }),
    {
        match self.position_of(name) {
            Some(k) => {
                Some(&mut self.devices[k])
            },
            None => None,
        }
    }

    /// A copy of this ether, with copies of its modems.
    pub fn clone(&self) -> (r: EtherSimulator)
        ensures
            r@ == self@,
    {
        let mut devices: Vec<WirelessModemFake> = Vec::new();
        let mut i: usize = 0;
        while i < self.devices.len()
            invariant
                0 <= i <= self.devices@.len(),
                devices@.len() == i,
                forall|j: int| 0 <= j < i ==> #[trigger] devices@[j]@ == self.devices@[j]@,
            decreases self.devices@.len() - i,
        {
            devices.push(self.devices[i].clone());
            i = i + 1;
        }
        let last_broadcasted_device = match &self.last_broadcasted_device {
            Some(last) => Some(last.clone()),
            None => None,
        };
        let r = EtherSimulator { name: self.name.clone(), devices, last_broadcasted_device };
        assert(r@.devices =~= self@.devices);
        r
    }

    /// Whether every registered modem is within a tick, as `simulate` needs.
    pub fn in_tick(&self) -> (r: bool)
        ensures
            r == self@.all_in_tick(),
    {
        let mut i: usize = 0;
        while i < self.devices.len()
            invariant
                0 <= i <= self.devices@.len(),
                forall|j: int| 0 <= j < i ==> #[trigger] self@.devices[j].in_tick,
            decreases self.devices@.len() - i,
        {
            if !self.devices[i].is_in_tick() {
                assert(!self@.devices[i as int].in_tick);
                return false;
            }
            i = i + 1;
        }
        true
    }

    /// Enters a tick on every registered modem.
    pub fn start_tick(&mut self)
        ensures
            final(self)@ == old(self)@.start_tick(),
    {
        let mut i: usize = 0;
        while i < self.devices.len()
            invariant
                self.name == old(self).name,
                self.last_broadcasted_device == old(self).last_broadcasted_device,
                self.devices@.len() == old(self).devices@.len(),
                0 <= i <= self.devices@.len(),
                forall|j: int| 0 <= j < i ==> #[trigger] self.devices@[j]@ == old(self).devices@[j]@.start_tick(),
                forall|j: int| i <= j < self.devices@.len() ==> #[trigger] self.devices@[j] == old(self).devices@[j],
            decreases self.devices@.len() - i,
        {
            self.devices[i].start_tick();
            i = i + 1;
        }
        assert(self@.devices =~= old(self)@.start_tick().devices);
    }

    /// Leaves the tick on every registered modem.
    pub fn end_tick(&mut self)
        ensures
            final(self)@ == old(self)@.end_tick(),
    {
        let mut i: usize = 0;
        while i < self.devices.len()
            invariant
                self.name == old(self).name,
                self.last_broadcasted_device == old(self).last_broadcasted_device,
                self.devices@.len() == old(self).devices@.len(),
                0 <= i <= self.devices@.len(),
                forall|j: int| 0 <= j < i ==> #[trigger] self.devices@[j]@ == old(self).devices@[j]@.end_tick(),
                forall|j: int| i <= j < self.devices@.len() ==> #[trigger] self.devices@[j] == old(self).devices@[j],
            decreases self.devices@.len() - i,
        {
            self.devices[i].end_tick();
            i = i + 1;
        }
        assert(self@.devices =~= old(self)@.end_tick().devices);
    }

    /// Whether devices of at least two different names transmit.
    fn has_several_broadcasters(&self) -> (r: bool)
        requires
            self@.all_in_tick(),
        ensures
            r == several_broadcasters(self@.devices),
    {
        let ghost ds = self@.devices;
        let n = self.devices.len();
        let mut first: Option<usize> = None;
        let mut i: usize = 0;
        while i < n
            invariant
                n == ds.len(),
                ds == self@.devices,
                self@.all_in_tick(),
                0 <= i <= n,
                first is None ==> forall|j: int| 0 <= j < i ==> !broadcasts(ds, j),
                first matches Some(f) ==> f < i && broadcasts(ds, f as int) && forall|j: int|
                    0 <= j < i && #[trigger] broadcasts(ds, j) ==> ds[j].name == ds[f as int].name,
            decreases n - i,
        {
            assert(self.devices@[i as int]@ == ds[i as int]);
            if self.devices[i].get_from_device_network_side().is_some() {
                match first {
                    None => {
                        first = Some(i);
                    },
                    Some(f) => {
                        if !name_eq(self.devices[f].get_name(), self.devices[i].get_name()) {
                            assert(broadcasts(ds, f as int) && broadcasts(ds, i as int));
                            return true;
                        }
                    },
                }
            }
            i = i + 1;
        }
        proof {
            if several_broadcasters(ds) {
                let (a, b) = choose|a: int, b: int|
                    broadcasts(ds, a) && broadcasts(ds, b) && ds[a].name != ds[b].name;
                assert(broadcasts(ds, a));
                assert(broadcasts(ds, b));
            }
        }
        false
    }

    /// The index of the device heard in this propagation step, if any.
    fn find_winner(&self) -> (r: Option<usize>)
        requires
            self@.all_in_tick(),
        ensures
            r matches Some(k) ==> self@.winner() == Some(k as int),
            r is None ==> self@.winner() is None,
    {
        let ghost ds = self@.devices;
        let ghost ex = self@.excluded();
        let several = self.has_several_broadcasters();
        let n = self.devices.len();
        let mut best: Option<usize> = None;
        let mut i: usize = 0;
        while i < n
            invariant
                n == ds.len(),
                ds == self@.devices,
                ex == self@.excluded(),
                several == several_broadcasters(ds),
                self@.all_in_tick(),
                0 <= i <= n,
                best is None ==> forall|j: int| 0 <= j < i ==> !eligible(ds, ex, j),
                best matches Some(b) ==> {
                    &&& b < i
                    &&& eligible(ds, ex, b as int)
                    &&& forall|j: int|
                        0 <= j < i && #[trigger] eligible(ds, ex, j) ==> name_le(ds[b as int].name, ds[j].name)
                    &&& forall|j: int|
                        b < j < i && #[trigger] eligible(ds, ex, j) ==> ds[j].name != ds[b as int].name
                },
            decreases n - i,
        {
            assert(self.devices@[i as int]@ == ds[i as int]);
            let is_eligible = if self.devices[i].get_from_device_network_side().is_some() {
                if several {
                    match &self.last_broadcasted_device {
                        Some(last) => !name_eq(self.devices[i].get_name(), last.as_str()),
                        None => true,
                    }
                } else {
                    true
                }
            } else {
                false
            };
            assert(is_eligible == eligible(ds, ex, i as int));
            if is_eligible {
                match best {
                    None => {
                        best = Some(i);
                    },
                    Some(b) => {
                        let ghost nb = ds[b as int].name;
                        let ghost ni = ds[i as int].name;
                        assert(self.devices@[b as int]@ == ds[b as int]);
                        if name_at_most(self.devices[i].get_name(), self.devices[b].get_name()) {
                            assert forall|j: int|
                                0 <= j < i + 1 && #[trigger] eligible(ds, ex, j) implies name_le(
                                ni,
                                ds[j].name,
                            ) by {
                                if j < i {
                                    lemma_name_le_transitive(ni, nb, ds[j].name);
                                }
                            }
                            best = Some(i);
                        } else {
                            proof {
                                lemma_name_le_total(ni, nb);
                            }
                        }
                    },
                }
            }
            i = i + 1;
        }
        proof {
            match best {
                Some(b) => {
                    assert(is_winner(ds, ex, b as int));
                    let w = choose|w: int| is_winner(ds, ex, w);
                    lemma_winner_unique(ds, ex, w, b as int);
                },
                None => {
                    if exists|w: int| is_winner(ds, ex, w) {
                        let w = choose|w: int| is_winner(ds, ex, w);
                        assert(eligible(ds, ex, w));
                    }
                },
            }
        }
        best
    }

    /// Decides which byte is heard in this step and remembers who sent it.
    fn get_current_byte(&mut self) -> (r: Option<u8>)
        requires
            old(self)@.all_in_tick(),
        ensures
            r == old(self)@.current_byte(),
            final(self)@ == old(self)@.with_last(old(self)@.next_last()),
    {
        match self.find_winner() {
            Some(k) => {
                let byte = self.devices[k].get_from_device_network_side();
                self.last_broadcasted_device = Some(self.devices[k].get_name().to_owned());
                byte
            },
            None => {
                self.last_broadcasted_device = None;
                None
            },
        }
    }

    /// One propagation step, to be made between `start_tick` and `end_tick`:
    /// the byte heard, if any, is handed to every registered modem.
    pub fn simulate(&mut self)
        requires
            old(self)@.all_in_tick(),
        ensures
            final(self)@ == old(self)@.simulate(),
    {
        let current_byte = self.get_current_byte();
        if let Some(byte) = current_byte {
            let ghost mid = *self;
            let mut i: usize = 0;
            while i < self.devices.len()
                invariant
                    self.name == mid.name,
                    self.last_broadcasted_device == mid.last_broadcasted_device,
                    self.devices@.len() == mid.devices@.len(),
                    mid@.all_in_tick(),
                    0 <= i <= self.devices@.len(),
                    forall|j: int| 0 <= j < i ==> #[trigger] self.devices@[j]@ == mid.devices@[j]@.put_network(byte),
                    forall|j: int| i <= j < self.devices@.len() ==> #[trigger] self.devices@[j] == mid.devices@[j],
                decreases self.devices@.len() - i,
            {
                assert(mid@.devices[i as int].in_tick);
                self.devices[i].put_to_device_network_side(byte);
                i = i + 1;
            }
            assert(self@.devices =~= old(self)@.simulate().devices);
        }
    }
}

} // verus!
