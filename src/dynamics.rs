//! Facts about runs of ticks: what reaches which pin, and how the medium is
//! shared between modems that transmit at the same time.
use vstd::prelude::*;
use crate::ether::{EtherModel, broadcasts, eligible, is_winner, lemma_winner_unique, several_broadcasters};
use crate::modem::ModemModel;
use crate::names::{lemma_name_lt_asymmetric, lemma_name_lt_total, name_le, name_lt};

verus! {

broadcast use vstd::seq_lib::group_seq_properties;

/// The modem after each byte of `s` is written on its RX pin, in order.
pub open spec fn put_all(m: ModemModel, s: Seq<u8>) -> ModemModel
    decreases s.len(),
{
    if s.len() == 0 {
        m
    } else {
        put_all(m, s.drop_last()).put_rx(s.last())
    }
}

/// The ether after `n` ticks.
pub open spec fn run(e: EtherModel, n: nat) -> EtherModel
    decreases n,
{
    if n == 0 {
        e
    } else {
        run(e, (n - 1) as nat).tick()
    }
}

/// Bytes written on the RX pin of a modem that takes part in no tick stay in
/// its RX queue, all of them and in order, and nothing else changes.
pub proof fn lemma_rx_pin_keeps_bytes(m: ModemModel, s: Seq<u8>)
    ensures
        put_all(m, s) == m.with_rx(m.rx + s),
    decreases s.len(),
{
    if s.len() == 0 {
        assert(m.rx + s =~= m.rx);
    } else {
        lemma_rx_pin_keeps_bytes(m, s.drop_last());
        assert((m.rx + s.drop_last()).push(s.last()) =~= m.rx + s);
    }
}

/// The device that meets the winner's description is the one heard.
proof fn lemma_winner_is(e: EtherModel, w: int)
    requires
        is_winner(e.devices, e.excluded(), w),
    ensures
        e.winner() == Some(w),
{
    let c = choose|x: int| is_winner(e.devices, e.excluded(), x);
    lemma_winner_unique(e.devices, e.excluded(), c, w);
}

/// Half-duplex: a modem that transmits in a tick gets nothing on its TX pin
/// from that tick, and no modem gets more than one byte from a tick.
pub proof fn lemma_half_duplex(e: EtherModel, i: int)
    requires
        0 <= i < e.devices.len(),
    ensures
        e.start_tick().devices[i].network_byte() is Some ==> e.tick().devices[i].tx == e.devices[i].tx,
        e.tick().devices[i].tx.len() <= e.devices[i].tx.len() + 1,
        e.tick().devices[i].tx.len() >= e.devices[i].tx.len(),
        e.tick().devices[i].tx.take(e.devices[i].tx.len() as int) == e.devices[i].tx,
{
    let s = e.start_tick();
    let t = s.simulate();
    assert(s.devices[i] == e.devices[i].start_tick());
    assert(t.devices[i].tx == s.devices[i].tx);
    assert(t.devices[i].antenna is Transmit ==> t.devices[i] == s.devices[i]);
    assert(e.tick().devices[i] == t.devices[i].end_tick());
    assert(e.tick().devices[i].tx.take(e.devices[i].tx.len() as int) =~= e.devices[i].tx);
}

/// One tick of a lone modem: it hears nothing, and its oldest queued byte,
/// if any, leaves.
proof fn lemma_lone_tick(e: EtherModel)
    requires
        e.devices.len() == 1,
        !e.devices[0].in_tick,
    ensures
        e.tick().devices.len() == 1,
        !e.tick().devices[0].in_tick,
        e.tick().devices[0].tx == e.devices[0].tx,
        e.tick().devices[0].rx == e.devices[0].rx.skip(if e.devices[0].rx.len() > 0 { 1int } else { 0 }),
        e.tick().devices[0].name == e.devices[0].name,
{
    let s = e.start_tick();
    let ds = s.devices;
    assert(ds[0] == e.devices[0].start_tick());
    if e.devices[0].rx.len() > 0 {
        assert(!several_broadcasters(ds));
        assert(is_winner(ds, s.excluded(), 0));
        lemma_winner_is(s, 0);
        assert(s.simulate().devices[0] == ds[0]);
    } else {
        assert(e.devices[0].rx.skip(0) =~= e.devices[0].rx);
        if exists|w: int| is_winner(ds, s.excluded(), w) {
            let w = choose|w: int| is_winner(ds, s.excluded(), w);
            assert(broadcasts(ds, w));
        }
        assert(s.simulate().devices[0] == ds[0]);
    }
    assert(e.tick().devices[0] == s.simulate().devices[0].end_tick());
}

/// A lone modem in an ether never hears itself: however many ticks run,
/// nothing reaches its TX pin, while its queued bytes leave one per tick.
pub proof fn lemma_lone_modem_hears_nothing(e: EtherModel, n: nat)
    requires
        e.devices.len() == 1,
        !e.devices[0].in_tick,
    ensures
        run(e, n).devices.len() == 1,
        !run(e, n).devices[0].in_tick,
        run(e, n).devices[0].tx == e.devices[0].tx,
        run(e, n).devices[0].rx == e.devices[0].rx.skip(
            if n < e.devices[0].rx.len() { n as int } else { e.devices[0].rx.len() as int },
        ),
    decreases n,
{
    if n == 0 {
        assert(e.devices[0].rx.skip(0) =~= e.devices[0].rx);
    } else {
        let p = run(e, (n - 1) as nat);
        lemma_lone_modem_hears_nothing(e, (n - 1) as nat);
        lemma_lone_tick(p);
        let rx = e.devices[0].rx;
        if n <= rx.len() {
            assert(p.devices[0].rx.skip(1) =~= rx.skip(n as int));
        } else {
            assert(p.devices[0].rx.len() == 0);
        }
    }
}

/// One tick of two modems where only modem `a` has a byte queued: that byte
/// reaches the TX pin of modem `b`.
proof fn lemma_one_sender_tick(e: EtherModel, a: int, b: int)
    requires
        e.devices.len() == 2,
        0 <= a < 2,
        0 <= b < 2,
        a != b,
        e.devices[a].between_ticks(),
        e.devices[b].between_ticks(),
        e.devices[a].rx.len() > 0,
        e.devices[b].rx.len() == 0,
    ensures
        e.tick().devices.len() == 2,
        e.tick().devices[a] == e.devices[a].with_rx(e.devices[a].rx.drop_first()),
        e.tick().devices[b] == e.devices[b].with_tx(e.devices[b].tx.push(e.devices[a].rx[0])),
{
    let s = e.start_tick();
    let ds = s.devices;
    assert(ds[a] == e.devices[a].start_tick());
    assert(ds[b] == e.devices[b].start_tick());
    assert(!broadcasts(ds, b));
    assert(!several_broadcasters(ds));
    assert(is_winner(ds, s.excluded(), a));
    lemma_winner_is(s, a);
    let t = s.simulate();
    assert(t.devices[a] == ds[a]);
    assert(t.devices[b] == ds[b].put_network(e.devices[a].rx[0]));
    assert(e.tick().devices[a] == t.devices[a].end_tick());
    assert(e.tick().devices[b] == t.devices[b].end_tick());
}

/// Of two modems in an ether where only modem `a` has bytes queued, modem
/// `b` receives on its TX pin the bytes of `a`, all of them and in order, one
/// per tick; nothing reaches the TX pin of `a`.
pub proof fn lemma_one_sender_delivers_in_order(e: EtherModel, a: int, b: int, n: nat)
    requires
        e.devices.len() == 2,
        0 <= a < 2,
        0 <= b < 2,
        a != b,
        e.devices[a].between_ticks(),
        e.devices[b].between_ticks(),
        e.devices[b].rx.len() == 0,
        n <= e.devices[a].rx.len(),
    ensures
        run(e, n).devices.len() == 2,
        run(e, n).devices[a] == e.devices[a].with_rx(e.devices[a].rx.skip(n as int)),
        run(e, n).devices[b] == e.devices[b].with_tx(e.devices[b].tx + e.devices[a].rx.take(n as int)),
    decreases n,
{
    let ma = e.devices[a];
    let mb = e.devices[b];
    if n == 0 {
        assert(ma.rx.skip(0) =~= ma.rx);
        assert(mb.tx + ma.rx.take(0) =~= mb.tx);
    } else {
        let p = run(e, (n - 1) as nat);
        lemma_one_sender_delivers_in_order(e, a, b, (n - 1) as nat);
        lemma_one_sender_tick(p, a, b);
        assert(p.devices[a].rx.drop_first() =~= ma.rx.skip(n as int));
        assert(p.devices[b].tx.push(p.devices[a].rx[0]) =~= mb.tx + ma.rx.take(n as int));
    }
}

/// Whether modem `a`, of two modems `a` and `b` that both transmit, is heard
/// in the next tick: not if it was heard last, else if `b` was heard last,
/// else if its name comes first.
pub open spec fn first_heard(e: EtherModel, a: int, b: int) -> bool {
    let na = e.devices[a].name;
    let nb = e.devices[b].name;
    if e.last == Some(na) {
        false
    } else if e.last == Some(nb) {
        true
    } else {
        name_lt(na, nb)
    }
}

/// The bytes a listener gets in `n` ticks from two modems that always
/// transmit, the first sending `x` and the second `y`: the `i`-th comes
/// from the first modem exactly when `i` is even and the first is heard
/// first, or `i` is odd and it is not.
pub open spec fn alternating(x: Seq<u8>, y: Seq<u8>, first: bool, n: nat) -> Seq<u8> {
    Seq::new(n, |i: int| if first == (i % 2 == 0) { x[i] } else { y[i] })
}

/// How many of the first `n` bytes of `alternating` come from the first modem.
pub open spec fn count_first(first: bool, n: nat) -> nat
    decreases n,
{
    if n == 0 {
        0
    } else {
        count_first(first, (n - 1) as nat) + if first == ((n - 1) % 2 == 0) { 1nat } else { 0nat }
    }
}

/// The first modem is heard in every other tick: half of the ticks, rounded
/// up or down.
pub proof fn lemma_count_first(first: bool, n: nat)
    ensures
        count_first(first, n) == if first { (n + 1) / 2 } else { n / 2 },
        n / 2 <= count_first(first, n) <= (n + 1) / 2,
        n / 2 <= n - count_first(first, n) <= (n + 1) / 2,
    decreases n,
{
    if n > 0 {
        lemma_count_first(first, (n - 1) as nat);
    }
}

/// Three distinct positions among three devices.
pub open spec fn three_roles(e: EtherModel, a: int, b: int, c: int) -> bool {
    &&& e.devices.len() == 3
    &&& 0 <= a < 3
    &&& 0 <= b < 3
    &&& 0 <= c < 3
    &&& a != b
    &&& b != c
    &&& a != c
}

/// One tick of two modems `a` and `b` that both transmit and a third modem
/// `c` that listens.
proof fn lemma_collision_tick(e: EtherModel, a: int, b: int, c: int)
    requires
        three_roles(e, a, b, c),
        forall|i: int| 0 <= i < 3 ==> (#[trigger] e.devices[i]).between_ticks(),
        e.devices[a].rx.len() > 0,
        e.devices[b].rx.len() > 0,
        e.devices[c].rx.len() == 0,
        e.devices[a].name != e.devices[b].name,
    ensures
        e.tick().devices.len() == 3,
        e.tick().devices[a] == e.devices[a].with_rx(e.devices[a].rx.drop_first()),
        e.tick().devices[b] == e.devices[b].with_rx(e.devices[b].rx.drop_first()),
        e.tick().devices[c] == e.devices[c].with_tx(
            e.devices[c].tx.push(if first_heard(e, a, b) { e.devices[a].rx[0] } else { e.devices[b].rx[0] }),
        ),
        e.tick().last == Some(if first_heard(e, a, b) { e.devices[a].name } else { e.devices[b].name }),
{
    let s = e.start_tick();
    let ds = s.devices;
    let na = e.devices[a].name;
    let nb = e.devices[b].name;
    assert(e.devices[a].between_ticks());
    assert(e.devices[b].between_ticks());
    assert(e.devices[c].between_ticks());
    assert(ds[a] == e.devices[a].start_tick());
    assert(ds[b] == e.devices[b].start_tick());
    assert(ds[c] == e.devices[c].start_tick());
    assert(!broadcasts(ds, c));
    assert(broadcasts(ds, a) && broadcasts(ds, b));
    assert(several_broadcasters(ds));
    assert(s.excluded() == e.last);
    let w: int = if first_heard(e, a, b) { a } else { b };
    if first_heard(e, a, b) {
        assert forall|j: int| #[trigger] eligible(ds, e.last, j) implies name_le(na, ds[j].name) by {
            if j == b {
                assert(e.last != Some(nb));
            }
        }
        assert forall|j: int| w < j && #[trigger] eligible(ds, e.last, j) implies ds[j].name != ds[w].name by {
            assert(j == a || j == b);
        }
    } else {
        lemma_name_lt_total(na, nb);
        assert forall|j: int| #[trigger] eligible(ds, e.last, j) implies name_le(nb, ds[j].name) by {
            if j == a {
                assert(e.last != Some(na));
            }
        }
        assert forall|j: int| w < j && #[trigger] eligible(ds, e.last, j) implies ds[j].name != ds[w].name by {
            assert(j == a || j == b);
        }
    }
    assert(is_winner(ds, s.excluded(), w));
    lemma_winner_is(s, w);
    let t = s.simulate();
    let x = if first_heard(e, a, b) { e.devices[a].rx[0] } else { e.devices[b].rx[0] };
    assert(s.current_byte() == Some(x));
    assert(t.devices[a] == ds[a]);
    assert(t.devices[b] == ds[b]);
    assert(t.devices[c] == ds[c].put_network(x));
    assert(e.tick().devices[a] == t.devices[a].end_tick());
    assert(e.tick().devices[b] == t.devices[b].end_tick());
    assert(e.tick().devices[c] == t.devices[c].end_tick());
}

/// Two modems `a` and `b` that transmit in every tick share the medium in
/// turns: a third modem `c` that listens gets their bytes strictly
/// alternated, starting with the one `first_heard` names, and from each of
/// them half of the bytes, rounded up or down. Each sender loses the bytes
/// sent in the ticks where it is not heard.
pub proof fn lemma_collisions_alternate(e: EtherModel, a: int, b: int, c: int, n: nat)
    requires
        three_roles(e, a, b, c),
        forall|i: int| 0 <= i < 3 ==> (#[trigger] e.devices[i]).between_ticks(),
        e.devices[a].rx.len() >= n,
        e.devices[b].rx.len() >= n,
        e.devices[c].rx.len() == 0,
        e.devices[a].name != e.devices[b].name,
    ensures
        run(e, n).devices.len() == 3,
        run(e, n).devices[a] == e.devices[a].with_rx(e.devices[a].rx.skip(n as int)),
        run(e, n).devices[b] == e.devices[b].with_rx(e.devices[b].rx.skip(n as int)),
        run(e, n).devices[c] == e.devices[c].with_tx(
            e.devices[c].tx + alternating(e.devices[a].rx, e.devices[b].rx, first_heard(e, a, b), n),
        ),
        n > 0 ==> run(e, n).last == Some(
            if first_heard(e, a, b) == ((n - 1) % 2 == 0) { e.devices[a].name } else { e.devices[b].name },
        ),
        n / 2 <= count_first(first_heard(e, a, b), n) <= (n + 1) / 2,
        n / 2 <= n - count_first(first_heard(e, a, b), n) <= (n + 1) / 2,
    decreases n,
{
    let ma = e.devices[a];
    let mb = e.devices[b];
    let mc = e.devices[c];
    let fa = first_heard(e, a, b);
    lemma_count_first(fa, n);
    if n == 0 {
        assert(ma.rx.skip(0) =~= ma.rx);
        assert(mb.rx.skip(0) =~= mb.rx);
        assert(mc.tx + alternating(ma.rx, mb.rx, fa, 0) =~= mc.tx);
    } else {
        let k = (n - 1) as nat;
        let p = run(e, k);
        lemma_collisions_alternate(e, a, b, c, k);
        assert forall|i: int| 0 <= i < 3 implies (#[trigger] p.devices[i]).between_ticks() by {
            assert(e.devices[i].between_ticks());
            assert(i == a || i == b || i == c);
        }
        lemma_collision_tick(p, a, b, c);
        assert(p.devices[a].name == ma.name && p.devices[b].name == mb.name);
        assert(first_heard(p, a, b) == (fa == (k % 2 == 0))) by {
            if k > 0 {
                lemma_name_lt_asymmetric(ma.name, mb.name);
            }
        }
        assert(p.devices[a].rx[0] == ma.rx[k as int]);
        assert(p.devices[b].rx[0] == mb.rx[k as int]);
        assert(p.devices[a].rx.drop_first() =~= ma.rx.skip(n as int));
        assert(p.devices[b].rx.drop_first() =~= mb.rx.skip(n as int));
        assert((mc.tx + alternating(ma.rx, mb.rx, fa, k)).push(
            if first_heard(p, a, b) { p.devices[a].rx[0] } else { p.devices[b].rx[0] },
        ) =~= mc.tx + alternating(ma.rx, mb.rx, fa, n));
    }
}

} // verus!
