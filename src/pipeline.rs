//! From a UDP datagram of the game to the game events it carries.

use vstd::prelude::*;

use crate::events::{f32_not_below_zero, Event};
use crate::framing::{datagram_read, messages_of, Photon};
use crate::framing;
use crate::messages::{binds, into_game_message, ItemDb};
use crate::messages;
use crate::world::World;

verus! {

/// The port the game server talks on.
pub const GAME_PORT: u16 = 5056;

/// A datagram matters when either end is the game port.
pub fn is_packet_valid(source_port: u16, destination_port: u16) -> (r: bool)
    ensures
        r == (source_port == GAME_PORT || destination_port == GAME_PORT),
{
    destination_port == GAME_PORT || source_port == GAME_PORT
}

/// Every damage event of `events` carries a non-negative amount.
pub open spec fn damage_not_below_zero(events: Seq<Event>) -> bool {
    forall|i: int|
        0 <= i < events.len() && #[trigger] events[i] is DamageDone ==> f32_not_below_zero(
            events[i]->DamageDone_0.value,
        )
}

/// One protocol message taken by the world `w0`, leaving it at `w1`, gives
/// `out`: nothing where it binds to no game message, else the events that
/// the world's transform gives for the game message it binds to.
pub open spec fn message_step(m: framing::Message, db: ItemDb, w0: World, w1: World, out: Seq<Event>) -> bool {
    exists|gm: Option<messages::Message>|
        #[trigger] binds(m, db, gm) && match gm {
            None => w1 == w0 && out.len() == 0,
            Some(g) => exists|r: Option<Vec<Event>>|
                #[trigger] World::transform_outcome(w0, w1, g, r) && out == match r {
                    Some(v) => v@,
                    None => Seq::<Event>::empty(),
                },
        }
}

/// The messages `ms` taken one after another, the world going through `ws`,
/// each giving its events `outs[k]`.
pub open spec fn messages_taken(ms: Seq<framing::Message>, db: ItemDb, ws: Seq<World>, outs: Seq<Seq<Event>>) -> bool {
    &&& ws.len() == ms.len() + 1
    &&& outs.len() == ms.len()
    &&& forall|k: int| 0 <= k < ms.len() ==> #[trigger] message_step(ms[k], db, ws[k], ws[k + 1], outs[k])
}

/// The events of `outs`, one list after another.
pub open spec fn flatten(outs: Seq<Seq<Event>>) -> Seq<Event>
    decreases outs.len(),
{
    if outs.len() == 0 {
        Seq::empty()
    } else {
        flatten(outs.drop_last()) + outs.last()
    }
}

/// The datagram `payload` read by the framer `p0` (leaving it at `p1`) gives
/// `results`, whose messages, taken by the world from `ws[0]`, give `outs`.
pub open spec fn datagram_taken(
    payload: Seq<u8>,
    p0: Photon,
    p1: Photon,
    db: ItemDb,
    results: Seq<Result<framing::Message, framing::PhotonDecodeError>>,
    ws: Seq<World>,
    outs: Seq<Seq<Event>>,
) -> bool {
    datagram_read(payload, p0, p1, results) && messages_taken(messages_of(results), db, ws, outs)
}

/// The framer, the world and the item table, owned together.
pub struct Pipeline {
    photon: Photon,
    world: World,
    items: ItemDb,
}

impl Pipeline {
    pub closed spec fn world(&self) -> World {
        self.world
    }

    pub closed spec fn photon(&self) -> Photon {
        self.photon
    }

    pub closed spec fn items(&self) -> ItemDb {
        self.items
    }

    pub closed spec fn wf(&self) -> bool {
        self.world.wf() && self.photon.wf()
    }

    pub fn new(items: ItemDb) -> (r: Pipeline)
        ensures
            r.wf(),
            r.world().names().len() == 0,
    {
        Pipeline { photon: Photon::new(), world: World::new(), items }
    }

    /// The game events that one datagram carries, in the order of its
    /// messages. Datagrams off the game port carry none.
    pub fn udp_packet_to_game_events(
        &mut self,
        source_port: u16,
        destination_port: u16,
        payload: &[u8],
    ) -> (r: Vec<Event>)
        requires
            old(self).wf(),
        ensures
            final(self).wf(),
            old(self).world().keeps_identities(&final(self).world()),
            !(source_port == GAME_PORT || destination_port == GAME_PORT) ==> r@.len() == 0,
            damage_not_below_zero(r@),
            final(self).items() == old(self).items(),
            !(source_port == GAME_PORT || destination_port == GAME_PORT) ==> final(self).photon()
                == old(self).photon() && final(self).world() == old(self).world(),
            (source_port == GAME_PORT || destination_port == GAME_PORT) && payload@.len() < 12 ==> r@.len()
                == 0 && final(self).world() == old(self).world(),
            (source_port == GAME_PORT || destination_port == GAME_PORT) && payload@.len() >= 12 ==> exists|
                results: Seq<Result<framing::Message, framing::PhotonDecodeError>>,
                ws: Seq<World>,
                outs: Seq<Seq<Event>>,
            |
                #[trigger] datagram_taken(
                    payload@,
                    old(self).photon(),
                    final(self).photon(),
                    old(self).items(),
                    results,
                    ws,
                    outs,
                ) && ws[0] == old(self).world() && ws.last() == final(self).world() && r@ == flatten(
                    outs,
                ),
    {
        let mut out: Vec<Event> = Vec::new();
        if !is_packet_valid(source_port, destination_port) {
            return out;
        }
        let ghost p0 = self.photon;
        let messages = self.photon.decode(payload);
        let ghost p1 = self.photon;
        let ghost start = self.world;
        let ghost mut ws: Seq<World> = seq![self.world];
        let ghost mut outs: Seq<Seq<Event>> = Seq::empty();
        let mut i: usize = 0;
        assert(out@ =~= flatten(outs));
        while i < messages.len()
            invariant
                self.world.wf(),
                self.photon.wf(),
                0 <= i <= messages@.len(),
                start.keeps_identities(&self.world),
                damage_not_below_zero(out@),
                ws.len() == i + 1,
                outs.len() == i,
                ws[0] == start,
                ws.last() == self.world,
                forall|k: int| 0 <= k < i ==> #[trigger] message_step(messages@[k], self.items, ws[k], ws[k + 1], outs[k]),
                out@ == flatten(outs),
                self.photon == p1,
                self.items == old(self).items,
            decreases messages@.len() - i,
        {
            let ghost w0 = self.world;
            let gm = into_game_message(&messages[i], &self.items);
            let ghost mut step: Seq<Event> = Seq::empty();
            match gm {
                Some(message) => {
                    let r = self.world.transform(message);
                    proof {
                        step = if r is Some {
                            r->0@
                        } else {
                            Seq::<Event>::empty()
                        };
                        assert(World::transform_outcome(w0, self.world, message, r));
                    }
                    if let Some(events) = r {
                        let mut events = events;
                        out.append(&mut events);
                    }
                },
                None => {},
            }
            proof {
                assert(message_step(messages@[i as int], self.items, w0, self.world, step));
                let ws2 = ws.push(self.world);
                let outs2 = outs.push(step);
                assert forall|k: int| 0 <= k < i + 1 implies #[trigger] message_step(messages@[k], self.items, ws2[k], ws2[k + 1], outs2[k]) by {
                    if k < i {
                        assert(ws2[k] == ws[k] && ws2[k + 1] == ws[k + 1] && outs2[k] == outs[k]);
                    }
                }
                assert(outs2.drop_last() =~= outs);
                assert(out@ =~= flatten(outs2));
                ws = ws2;
                outs = outs2;
            }
            i = i + 1;
        }
        proof {
            if payload@.len() >= 12 {
                let results = choose|results: Seq<Result<framing::Message, framing::PhotonDecodeError>>|
                    #[trigger] datagram_read(payload@, p0, self.photon, results) && messages@ == messages_of(results);
                assert(messages_taken(messages_of(results), self.items, ws, outs));
                assert(datagram_taken(payload@, p0, self.photon, self.items, results, ws, outs));
                assert(p0 == old(self).photon() && self.photon == self.photon() && self.items == old(self).items());
                assert(ws[0] == old(self).world() && ws.last() == self.world());
                assert(datagram_taken(payload@, old(self).photon(), self.photon(), old(self).items(), results, ws, outs)
                    && ws[0] == old(self).world() && ws.last() == self.world() && out@ == flatten(outs));
            }
        }
        out
    }
}

} // verus!
