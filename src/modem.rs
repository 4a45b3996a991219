use vstd::prelude::*;
use std::collections::VecDeque;

verus! {

/// What the antenna of a modem does during the current tick.
#[derive(Clone, Copy, Debug, PartialEq, Eq, Structural)]
pub enum AntennaState {
    Transmit(u8),
    Receive(u8),
    Idle,
}

#[derive(Clone, Copy, Debug, PartialEq, Eq, Structural)]
enum TickState {
    InTick,
    OffTick,
}

/// The abstract state of a modem.
///
/// `rx` holds the bytes written on the RX pin by the firmware, waiting to be
/// sent; `tx` holds the bytes heard from the ether, waiting to be read from
/// the TX pin.
pub struct ModemModel {
    pub name: Seq<char>,
    pub in_tick: bool,
    pub rx: Seq<u8>,
    pub tx: Seq<u8>,
    pub antenna: AntennaState,
}

impl ModemModel {
    /// A fresh modem: empty queues, idle antenna, outside of a tick.
    pub open spec fn fresh(name: Seq<char>) -> ModemModel {
        ModemModel { name, in_tick: false, rx: Seq::empty(), tx: Seq::empty(), antenna: AntennaState::Idle }
    }

    /// Outside of a tick, with an idle antenna: how every tick leaves a modem.
    pub open spec fn between_ticks(self) -> bool {
        !self.in_tick && self.antenna == AntennaState::Idle
    }

    pub open spec fn with_rx(self, rx: Seq<u8>) -> ModemModel {
        ModemModel { rx, ..self }
    }

    pub open spec fn with_tx(self, tx: Seq<u8>) -> ModemModel {
        ModemModel { tx, ..self }
    }

    pub open spec fn put_rx(self, b: u8) -> ModemModel {
        ModemModel { rx: self.rx.push(b), ..self }
    }

    pub open spec fn pop_tx(self) -> ModemModel {
        if self.tx.len() > 0 {
            ModemModel { tx: self.tx.drop_first(), ..self }
        } else {
            self
        }
    }

    /// Entering a tick latches the oldest queued byte onto the antenna.
    pub open spec fn start_tick(self) -> ModemModel {
        if self.in_tick {
            self
        } else if self.rx.len() > 0 {
            ModemModel {
                in_tick: true,
                rx: self.rx.drop_first(),
                antenna: AntennaState::Transmit(self.rx[0]),
                ..self
            }
        } else {
            ModemModel { in_tick: true, antenna: AntennaState::Idle, ..self }
        }
    }

    /// Leaving a tick commits a received byte to the TX pin queue.
    pub open spec fn end_tick(self) -> ModemModel {
        if !self.in_tick {
            self
        } else {
            ModemModel {
                in_tick: false,
                tx: match self.antenna {
                    AntennaState::Receive(b) => self.tx.push(b),
                    _ => self.tx,
                },
                antenna: AntennaState::Idle,
                ..self
            }
        }
    }

    /// A byte arriving from the ether: lost while transmitting, otherwise it
    /// replaces whatever was heard earlier in the same tick.
    pub open spec fn put_network(self, b: u8) -> ModemModel {
        match self.antenna {
            AntennaState::Transmit(_) => self,
            _ => ModemModel { antenna: AntennaState::Receive(b), ..self },
        }
    }

    /// The byte this modem sends into the ether during the current tick.
    pub open spec fn network_byte(self) -> Option<u8> {
        match self.antenna {
            AntennaState::Transmit(b) => Some(b),
            _ => None,
        }
    }
}

/// A half-duplex byte transceiver.
///
/// A modem is a plain value. Once registered in an ether it belongs to that
/// ether, which drives its ticks, and firmware reaches its pins through the
/// ether (`EtherSimulator::get_driver_mut`); `clone` makes an independent copy.
pub struct WirelessModemFake {
    name: String,
    tick_state: TickState,
    from_antenna_buffer: VecDeque<u8>,
    to_antenna_buffer: VecDeque<u8>,
    antenna_state: AntennaState,
}

impl View for WirelessModemFake {
    type V = ModemModel;

    closed spec fn view(&self) -> ModemModel {
        ModemModel {
            name: self.name@,
            in_tick: self.tick_state == TickState::InTick,
            rx: self.to_antenna_buffer@,
            tx: self.from_antenna_buffer@,
            antenna: self.antenna_state,
        }
    }
}

impl WirelessModemFake {
    pub fn new(name: &str) -> (r: Self)
        ensures
            r@ == ModemModel::fresh(name@),
    {
        WirelessModemFake {
            name: name.to_owned(),
            tick_state: TickState::OffTick,
            from_antenna_buffer: VecDeque::new(),
            to_antenna_buffer: VecDeque::new(),
            antenna_state: AntennaState::Idle,
        }
    }

    /// Appends a byte to the RX pin queue; valid in any phase.
    pub fn put_to_rx_pin(&mut self, byte: u8)
        ensures
            final(self)@ == old(self)@.put_rx(byte),
    {
        self.to_antenna_buffer.push_back(byte);
    }

    /// Takes the oldest byte heard from the ether, if any.
    pub fn get_from_tx_pin(&mut self) -> (r: Option<u8>)
        ensures
            final(self)@ == old(self)@.pop_tx(),
            r == (if old(self)@.tx.len() > 0 { Some(old(self)@.tx[0]) } else { None::<u8> }),
    {
        self.from_antenna_buffer.pop_front()
    }

    /// Enters a tick: the oldest byte of the RX pin queue, if any, goes onto
    /// the antenna to be transmitted. Does nothing when already in a tick.
    pub fn start_tick(&mut self)
        ensures
            final(self)@ == old(self)@.start_tick(),
    {
        match self.tick_state {
            TickState::OffTick => {
                self.antenna_state = match self.to_antenna_buffer.pop_front() {
                    Some(byte) => AntennaState::Transmit(byte),
                    None => AntennaState::Idle,
                };
                self.tick_state = TickState::InTick;
            },
            TickState::InTick => {},
        }
    }

    /// Leaves a tick: a byte received during it joins the TX pin queue.
    /// Does nothing when not in a tick.
    pub fn end_tick(&mut self)
        ensures
            final(self)@ == old(self)@.end_tick(),
    {
        match self.tick_state {
            TickState::OffTick => {},
            TickState::InTick => {
                if let AntennaState::Receive(byte) = self.antenna_state {
                    self.from_antenna_buffer.push_back(byte);
                }
                self.antenna_state = AntennaState::Idle;
                self.tick_state = TickState::OffTick;
            },
        }
    }

    /// Hands a byte from the ether to the antenna. Only valid within a tick.
    pub fn put_to_device_network_side(&mut self, byte: u8)
        requires
            old(self)@.in_tick,
        ensures
            final(self)@ == old(self)@.put_network(byte),
    {
        match self.antenna_state {
            AntennaState::Transmit(_) => {},
            AntennaState::Idle | AntennaState::Receive(_) => {
                self.antenna_state = AntennaState::Receive(byte);
            },
        }
    }

    /// The byte the antenna transmits in this tick. Only valid within a tick.
    pub fn get_from_device_network_side(&self) -> (r: Option<u8>)
        requires
            self@.in_tick,
        ensures
            r == self@.network_byte(),
    {
        match self.antenna_state {
            AntennaState::Transmit(byte) => Some(byte),
            _ => None,
        }
    }

    /// Whether the modem is within a tick.
    pub fn is_in_tick(&self) -> (r: bool)
        ensures
            r == self@.in_tick,
    {
        self.tick_state == TickState::InTick
    }

    /// Whether the TX pin has a byte to read.
    pub fn readable(&self) -> (r: bool)
        ensures
            r == (self@.tx.len() > 0),
    {
        self.from_antenna_buffer.len() > 0
    }

    /// The RX pin always accepts bytes.
    pub fn writable(&self) -> (r: bool)
        ensures
            r,
    {
        true
    }

    pub fn get_name(&self) -> (r: &str)
        ensures
            r@ == self@.name,
    {
        self.name.as_str()
    }

    /// Whether the modem has a queued byte for the TX pin; the same as `readable`.
    pub fn read_ready(&self) -> (r: Result<bool, core::convert::Infallible>)
        ensures
            r == Ok::<bool, core::convert::Infallible>(self@.tx.len() > 0),
    {
        Ok(self.readable())
    }

    /// Fills `buf` from the front with bytes of the TX pin queue, as many as
    /// both have, and returns how many were taken.
    pub fn read(&mut self, buf: &mut [u8]) -> (r: Result<usize, core::convert::Infallible>)
        ensures
            ({
                let n = if old(buf)@.len() < old(self)@.tx.len() {
                    old(buf)@.len()
                } else {
                    old(self)@.tx.len()
                };
                &&& r == Ok::<usize, core::convert::Infallible>(n as usize)
                &&& final(buf)@ == old(self)@.tx.take(n as int) + old(buf)@.skip(n as int)
                &&& final(self)@ == old(self)@.with_tx(old(self)@.tx.skip(n as int))
            }),
    {
        let mut count_read: usize = 0;
        let mut i: usize = 0;
        assert(old(self)@.tx.skip(0) =~= old(self)@.tx);
        assert(old(self)@.tx.take(0) + old(buf)@.skip(0) =~= old(buf)@);
        while i < buf.len()
            invariant
                0 <= count_read <= i <= buf@.len(),
                buf@.len() == old(buf)@.len(),
                count_read <= old(self)@.tx.len(),
                count_read < i ==> count_read == old(self)@.tx.len(),
                buf@ == old(self)@.tx.take(count_read as int) + old(buf)@.skip(count_read as int),
                self@ == old(self)@.with_tx(old(self)@.tx.skip(count_read as int)),
            decreases buf@.len() - i,
        {
            if let Some(byte) = self.get_from_tx_pin() {
                assert(count_read == i);
                buf[i] = byte;
                count_read = count_read + 1;
                assert(buf@ =~= old(self)@.tx.take(count_read as int) + old(buf)@.skip(count_read as int));
                assert(self@.tx =~= old(self)@.tx.skip(count_read as int));
            }
            i = i + 1;
        }
        Ok(count_read)
    }

    /// Queues every byte of `buf` on the RX pin and returns its length.
    pub fn write(&mut self, buf: &[u8]) -> (r: Result<usize, core::convert::Infallible>)
        ensures
            r == Ok::<usize, core::convert::Infallible>(buf@.len() as usize),
            final(self)@ == old(self)@.with_rx(old(self)@.rx + buf@),
    {
        let mut count_written: usize = 0;
        assert(old(self)@.rx + buf@.take(0) =~= old(self)@.rx);
        while count_written < buf.len()
            invariant
                0 <= count_written <= buf@.len(),
                self@ == old(self)@.with_rx(old(self)@.rx + buf@.take(count_written as int)),
            decreases buf@.len() - count_written,
        {
            self.put_to_rx_pin(buf[count_written]);
            count_written = count_written + 1;
            assert(self@.rx =~= old(self)@.rx + buf@.take(count_written as int));
        }
        assert(buf@.take(count_written as int) =~= buf@);
        Ok(count_written)
    }

    /// Nothing to flush: the RX pin queue is where a write takes effect.
    pub fn flush(&self) -> (r: Result<(), core::convert::Infallible>)
        ensures
            r == Ok::<(), core::convert::Infallible>(()),
    {
        Ok(())
    }

    /// A copy of this modem, in the same state.
    pub fn clone(&self) -> (r: Self)
        ensures
            r@ == self@,
    {
        let from_antenna_buffer = self.from_antenna_buffer.clone();
        let to_antenna_buffer = self.to_antenna_buffer.clone();
        assert(from_antenna_buffer@ =~= self.from_antenna_buffer@);
        assert(to_antenna_buffer@ =~= self.to_antenna_buffer@);
        WirelessModemFake {
            name: self.name.clone(),
            tick_state: self.tick_state,
            from_antenna_buffer,
            to_antenna_buffer,
            antenna_state: self.antenna_state,
        }
    }
}

} // verus!
