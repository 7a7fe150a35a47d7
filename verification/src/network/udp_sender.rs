use vstd::prelude::*;
use crate::structure::cache_change::clone_bytes;
use crate::structure::locator::Locator;

verus! {

/// One datagram that waits to be sent.
#[derive(Debug, PartialEq, Eq)]
pub struct Datagram {
    pub bytes: Vec<u8>,
    pub destination: Locator,
    /// Whether the datagram goes out by IP multicast.
    pub multicast: bool,
}

/// A datagram as plain values.
pub struct DatagramView {
    pub bytes: Seq<u8>,
    pub destination: Locator,
    pub multicast: bool,
}

impl View for Datagram {
    type V = DatagramView;

    open spec fn view(&self) -> DatagramView {
        DatagramView { bytes: self.bytes@, destination: self.destination, multicast: self.multicast }
    }
}

/// The datagrams of `v` as plain values.
pub open spec fn datagrams_view(v: Seq<Datagram>) -> Seq<DatagramView> {
    v.map_values(|d: Datagram| d@)
}

/// One datagram with `bytes` to each of `locators`, in order.
pub open spec fn unicast_datagrams(bytes: Seq<u8>, locators: Seq<Locator>) -> Seq<DatagramView> {
    locators.map_values(|l: Locator| DatagramView { bytes, destination: l, multicast: false })
}

/// One multicast datagram with `bytes` to each UDP/IPv4 locator among
/// `locators`, in order.
pub open spec fn multicast_datagrams(bytes: Seq<u8>, locators: Seq<Locator>) -> Seq<
    DatagramView,
> {
    locators.filter(|l: Locator| l.spec_is_udp_v4()).map_values(
        |l: Locator| DatagramView { bytes, destination: l, multicast: true },
    )
}

/// The datagrams that the engines want sent, in the order in which they asked.
/// The engines only fill this; the caller takes the datagrams out and puts
/// them on a socket.
#[derive(Debug, PartialEq, Eq)]
pub struct UDPSender {
    pub outgoing: Vec<Datagram>,
}

impl View for UDPSender {
    type V = Seq<DatagramView>;

    open spec fn view(&self) -> Seq<DatagramView> {
        datagrams_view(self.outgoing@)
    }
}

impl UDPSender {
    /// A sender with nothing to send.
    pub fn new() -> (r: UDPSender)
        ensures
            r@ == Seq::<DatagramView>::empty(),
    {
        let r = UDPSender { outgoing: Vec::new() };
        assert(r@ =~= Seq::<DatagramView>::empty());
        r
    }

    /// Asks for `buffer` to be sent to each of `locators`.
    pub fn send_to_locator_list(&mut self, buffer: &Vec<u8>, locators: &Vec<Locator>)
        ensures
            final(self)@ == old(self)@ + unicast_datagrams(buffer@, locators@),
    {
        let mut i: usize = 0;
        while i < locators.len()
            invariant
                i <= locators.len(),
                self@ == old(self)@ + unicast_datagrams(buffer@, locators@.subrange(0, i as int)),
            decreases locators.len() - i,
        {
            let d = Datagram {
                bytes: clone_bytes(buffer),
                destination: locators[i],
                multicast: false,
            };
            let ghost before = self@;
            self.outgoing.push(d);
            proof {
                assert(self@ =~= before.push(d@));
                assert(unicast_datagrams(buffer@, locators@.subrange(0, i + 1))
                    =~= unicast_datagrams(buffer@, locators@.subrange(0, i as int)).push(d@));
                assert(self@ =~= old(self)@ + unicast_datagrams(
                    buffer@,
                    locators@.subrange(0, i + 1),
                ));
            }
            i += 1;
        }
        assert(locators@.subrange(0, locators.len() as int) =~= locators@);
    }

    /// Asks for `buffer` to be sent by IP multicast to each UDP/IPv4 locator
    /// among `locators`.
    pub fn send_ipv4_multicast(&mut self, buffer: &Vec<u8>, locators: &Vec<Locator>)
        ensures
            final(self)@ == old(self)@ + multicast_datagrams(buffer@, locators@),
    {
        let ghost pred = |l: Locator| l.spec_is_udp_v4();
        let mut i: usize = 0;
        assert(locators@.subrange(0, 0) =~= Seq::<Locator>::empty());
        assert(multicast_datagrams(buffer@, Seq::<Locator>::empty()) =~= Seq::<
            DatagramView,
        >::empty()) by {
            reveal(Seq::filter);
        }
        while i < locators.len()
            invariant
                i <= locators.len(),
                self@ == old(self)@ + multicast_datagrams(
                    buffer@,
                    locators@.subrange(0, i as int),
                ),
            decreases locators.len() - i,
        {
            let ghost before = self@;
            let ghost pre = locators@.subrange(0, i as int);
            let ghost cur = locators@.subrange(0, i + 1);
            proof {
                reveal(Seq::filter);
                assert(cur.drop_last() =~= pre);
                assert(cur.last() == locators@[i as int]);
            }
            if locators[i].is_udp_v4() {
                let d = Datagram {
                    bytes: clone_bytes(buffer),
                    destination: locators[i],
                    multicast: true,
                };
                self.outgoing.push(d);
                proof {
                    assert(self@ =~= before.push(d@));
                    assert(multicast_datagrams(buffer@, cur) =~= multicast_datagrams(
                        buffer@,
                        pre,
                    ).push(d@));
                    assert(self@ =~= old(self)@ + multicast_datagrams(buffer@, cur));
                }
            } else {
                proof {
                    assert(multicast_datagrams(buffer@, cur) =~= multicast_datagrams(buffer@, pre));
                }
            }
            i += 1;
        }
        assert(locators@.subrange(0, locators.len() as int) =~= locators@);
    }

    /// Hands out the datagrams that wait, and forgets them.
    pub fn take_outgoing(&mut self) -> (r: Vec<Datagram>)
        ensures
            datagrams_view(r@) == old(self)@,
            final(self)@ == Seq::<DatagramView>::empty(),
    {
        let mut out: Vec<Datagram> = Vec::new();
        std::mem::swap(&mut out, &mut self.outgoing);
        assert(self@ =~= Seq::<DatagramView>::empty());
        out
    }
}

} // verus!
