//! The ways of packets: hole punching, what comes in on the socket, and what goes
//! out from the virtual interface.
use vstd::prelude::*;
use vstd::string::*;
use vstd::utf8::*;
use crate::client::laws::{finds_its_peer, packets_find_their_peer};
use crate::client::outbox::Outbox;
use crate::client::peer::{hello_sealed, PeerSession, Sealed, Transport};
use crate::net::{ipv4_octets, is_ipv4, parse_ipv4, same_endpoint, Endpoint, IpAddress};
use crate::protocol::MsgKind;
use crate::table::RawKey;
use crate::text::same;

verus! {

/// How hole punching starts.
pub enum PunchStart {
    /// The peer is gone.
    Gone,
    /// Hole punching is disabled: relay this HELLO and be done.
    RelayOnly(Option<Sealed>),
    /// Take the steps.
    Begin,
}

/// A step of hole punching.
pub enum PunchStep {
    /// The way to the peer is settled.
    Done,
    /// Hole punching has failed; the peer is reached by relay.
    GaveUp,
    /// Send this HELLO to this address and, in case, through the relay.
    Probe(Option<(Endpoint, Sealed)>),
}

/// The HELLO of a session.
pub open spec fn hello_of(s: PeerSession, local_ip: Seq<char>) -> Option<
    crate::client::peer::SealedView,
> {
    match (s.rk_pub, s.my_salt) {
        (Some(rk), Some(salt)) => Some(
            hello_sealed(s.active_key(), s.epoch, rk, salt, encode_utf8(local_ip)),
        ),
        _ => None,
    }
}

impl Outbox {
    /// Starts hole punching for a peer.
    pub fn punch_start(&mut self, pk: &RawKey) -> (r: PunchStart)
        requires
            old(self).wf(),
        ensures
            final(self).wf(),
            punch_started(*old(self), *pk, r, *final(self)),
    {
        if self.hole_punch.enabled {
            return if self.peers.contains(pk) {
                PunchStart::Begin
            } else {
                PunchStart::Gone
            };
        }
        match self.take_out(pk) {
            Some(s) => {
                let mut s = s;
                s.transport = Transport::Relay;
                let hello = s.build_hello(self.local_ip.as_str());
                self.put_back(pk, s);
                assert(self.peers@ =~= old(self).peers@.insert(*pk, s));
                PunchStart::RelayOnly(hello)
            },
            None => {
                assert(self.peers@ =~= old(self).peers@);
                PunchStart::Gone
            },
        }
    }

    /// Whether hole punching for a session has failed: too many attempts, too many
    /// errors, or too much time.
    pub open spec fn punch_failed(&self, s: PeerSession, since_ms: u64) -> bool {
        ||| s.attempts >= self.hole_punch.max_retries
        ||| s.error_count >= self.hole_punch.max_errors
        ||| since_ms >= self.hole_punch.timeout_ms
    }

    /// Takes a step of hole punching, `since_ms` after its start.
    pub fn punch_step(&mut self, pk: &RawKey, since_ms: u64) -> (r: PunchStep)
        requires
            old(self).wf(),
        ensures
            final(self).wf(),
            punch_stepped(*old(self), *pk, since_ms, r, *final(self)),
    {
        let mut s = match self.take_out(pk) {
            Some(s) => s,
            None => {
                assert(self.peers@ =~= old(self).peers@);
                return PunchStep::Done;
            },
        };
        let mut step = PunchStep::Done;
        if s.transport == Transport::Punching {
            if s.attempts >= self.hole_punch.max_retries || s.error_count
                >= self.hole_punch.max_errors || since_ms >= self.hole_punch.timeout_ms {
                s.transport = Transport::Relay;
                step = PunchStep::GaveUp;
            } else {
                let probe = match (s.endpoint, s.build_hello(self.local_ip.as_str())) {
                    (Some(ep), Some(h)) => Some((ep, h)),
                    _ => None,
                };
                step = PunchStep::Probe(probe);
            }
        }
        self.put_back(pk, s);
        assert(self.peers@ =~= old(self).peers@.insert(*pk, s));
        assert(s == old(self).peers@[*pk] ==> self.peers@ =~= old(self).peers@);
        step
    }

    /// Takes note of an attempt at hole punching. `refused` tells whether the other
    /// side answered with an error.
    pub fn punch_attempted(&mut self, pk: &RawKey, refused: bool)
        requires
            old(self).wf(),
            old(self).peers@.dom().contains(*pk) ==> old(self).peers@[*pk].attempts < u32::MAX
                && old(self).peers@[*pk].error_count < u32::MAX,
        ensures
            final(self).wf(),
            punch_noted(*old(self), *pk, refused, *final(self)),
    {
        match self.take_out(pk) {
            Some(s) => {
                let mut s = s;
                if refused {
                    s.error_count = s.error_count + 1;
                }
                s.attempts = s.attempts + 1;
                self.put_back(pk, s);
                assert(self.peers@ =~= old(self).peers@.insert(*pk, s));
            },
            None => {
                assert(self.peers@ =~= old(self).peers@);
            },
        }
    }
}

/// The data plane before and after hole punching for a peer was started.
pub open spec fn punch_started(
    before: Outbox,
    pk: RawKey,
    r: PunchStart,
    after: Outbox,
) -> bool {
    &&& (if !before.peers@.dom().contains(pk) {
        r is Gone && after.peers@ == before.peers@
    } else if before.hole_punch.enabled {
        r is Begin && after.peers@ == before.peers@
    } else {
        let s = before.peers@[pk];
        &&& r is RelayOnly
        &&& match (r->RelayOnly_0, hello_of(s, before.local_ip@)) {
            (Some(h), Some(v)) => h@ == v,
            (None, None) => true,
            _ => false,
        }
        &&& after.peers@ == before.peers@.insert(
            pk,
            PeerSession { transport: Transport::Relay, ..s },
        )
    })
    &&& after == (Outbox { peers: after.peers, ..before })
}

/// The data plane before and after a step of hole punching, `since_ms` after its start.
pub open spec fn punch_stepped(
    before: Outbox,
    pk: RawKey,
    since_ms: u64,
    r: PunchStep,
    after: Outbox,
) -> bool {
    &&& ({
        let s = before.peers@[pk];
        if !before.peers@.dom().contains(pk) || s.transport != Transport::Punching {
            r is Done && after.peers@ == before.peers@
        } else if before.punch_failed(s, since_ms) {
            &&& r is GaveUp
            &&& after.peers@ == before.peers@.insert(
                pk,
                PeerSession { transport: Transport::Relay, ..s },
            )
        } else {
            &&& r is Probe
            &&& after.peers@ == before.peers@
            &&& match (r->Probe_0, s.endpoint, hello_of(s, before.local_ip@)) {
                (Some((to, h)), Some(ep), Some(v)) => to == ep && h@ == v,
                (Some(_), _, _) => false,
                (None, Some(_), Some(_)) => false,
                (None, _, _) => true,
            }
        }
    })
    &&& after == (Outbox { peers: after.peers, ..before })
}

/// The data plane before and after an attempt at hole punching was noted.
pub open spec fn punch_noted(
    before: Outbox,
    pk: RawKey,
    refused: bool,
    after: Outbox,
) -> bool {
    &&& after.peers@ == (if before.peers@.dom().contains(pk) {
        let s = before.peers@[pk];
        before.peers@.insert(
            pk,
            PeerSession {
                attempts: (s.attempts + 1) as u32,
                error_count: if refused {
                    (s.error_count + 1) as u32
                } else {
                    s.error_count
                },
                ..s
            },
        )
    } else {
        before.peers@
    })
    &&& after == (Outbox { peers: after.peers, ..before })
}

/// What a packet on the socket is.
#[derive(Debug, Clone, Copy, PartialEq, Eq)]
pub enum UdpAction {
    /// Not for this client, or from a sender that may not send it.
    Ignore,
    Relay,
    RelayRk,
    RelayBatch,
    Response,
    Notify,
    /// A packet that came directly from a peer.
    Direct(RawKey),
}

/// What a packet on the socket is, by its kind, if it is a message, and by where it
/// came from. Messages of the server have to come from the server, relayed packets
/// from the relay, direct packets from an address that belongs to a peer.
pub open spec fn udp_action(o: Outbox, kind: Option<MsgKind>, src: Endpoint) -> UdpAction {
    match kind {
        Some(k) => if k == MsgKind::Relay || k == MsgKind::RelayRk || k == MsgKind::RelayBatch {
            if src != o.relay_addr {
                UdpAction::Ignore
            } else if k == MsgKind::Relay {
                UdpAction::Relay
            } else if k == MsgKind::RelayRk {
                UdpAction::RelayRk
            } else {
                UdpAction::RelayBatch
            }
        } else if src != o.server_addr {
            UdpAction::Ignore
        } else if k == MsgKind::Response {
            UdpAction::Response
        } else if k == MsgKind::Notify {
            UdpAction::Notify
        } else {
            UdpAction::Ignore
        },
        None => if o.addr_index@.dom().contains(src) {
            UdpAction::Direct(o.addr_index@[src])
        } else {
            UdpAction::Ignore
        },
    }
}

/// What becomes of a packet from the virtual interface.
#[derive(Debug, Clone, Copy, PartialEq, Eq)]
pub enum Forward {
    Drop,
    /// Send it to this peer.
    Send(RawKey),
    /// Ask the server for the peer first.
    Query,
}

/// The broadcast address of a subnet.
pub open spec fn subnet_broadcast(ip: Seq<u8>, mask: Seq<u8>) -> Seq<u8> {
    Seq::new(4, |i: int| ip[i] | !mask[i])
}

/// Whether an address is one of a kind that no peer has: multicast, loopback,
/// broadcast, link-local.
pub open spec fn is_special(dst: IpAddress) -> bool {
    match dst {
        IpAddress::V4(a) => {
            ||| 224 <= a@[0] <= 239
            ||| a@[0] == 127
            ||| a@ == seq![255u8, 255u8, 255u8, 255u8]
            ||| a@[0] == 169 && a@[1] == 254
        },
        IpAddress::V6(a) => {
            ||| a@[0] == 255
            ||| a@ == seq![0u8, 0u8, 0u8, 0u8, 0u8, 0u8, 0u8, 0u8, 0u8, 0u8, 0u8, 0u8, 0u8, 0u8, 0u8, 1u8]
            ||| a@[0] == 0xfe && 0x80 <= a@[1] <= 0xbf
        },
    }
}

/// Whether an address is the broadcast address of the subnet that the client's
/// virtual address is in.
pub open spec fn is_local_broadcast(dst: IpAddress, local_ip: Seq<char>, netmask: Seq<char>) -> bool {
    &&& dst is V4
    &&& is_ipv4(local_ip)
    &&& is_ipv4(netmask)
    &&& dst->V4_0@ == subnet_broadcast(ipv4_octets(local_ip), ipv4_octets(netmask))
}

/// What becomes of a packet from the virtual interface to `dst`, which reads `dst_text`.
pub open spec fn forwarding(
    o: Outbox,
    dst: IpAddress,
    dst_text: Seq<char>,
    netmask: Seq<char>,
) -> Forward {
    if is_special(dst) || is_local_broadcast(dst, o.local_ip@, netmask)
        || dst_text == o.local_ip@ {
        Forward::Drop
    } else if o.ip_index@.dom().contains(dst_text) && o.peers@.dom().contains(
        o.ip_index@[dst_text],
    ) {
        Forward::Send(o.ip_index@[dst_text])
    } else {
        Forward::Query
    }
}

fn special(dst: &IpAddress) -> (r: bool)
    ensures
        r == is_special(*dst),
{
    match dst {
        IpAddress::V4(a) => {
            let all = a[0] == 255 && a[1] == 255 && a[2] == 255 && a[3] == 255;
            proof {
                assert(all == (a@ =~= seq![255u8, 255u8, 255u8, 255u8]));
            }
            (224 <= a[0] && a[0] <= 239) || a[0] == 127 || all || (a[0] == 169 && a[1] == 254)
        },
        IpAddress::V6(a) => {
            let mut zeros = true;
            let mut i: usize = 0;
            while i < 15
                invariant
                    i <= 15,
                    zeros == forall|j: int| 0 <= j < i ==> a@[j] == 0,
                decreases 15 - i,
            {
                if a[i] != 0 {
                    zeros = false;
                }
                i = i + 1;
            }
            let loopback = zeros && a[15] == 1;
            proof {
                let one = seq![0u8, 0u8, 0u8, 0u8, 0u8, 0u8, 0u8, 0u8, 0u8, 0u8, 0u8, 0u8, 0u8, 0u8, 0u8, 1u8];
                if loopback {
                    assert(a@ =~= one);
                }
                if a@ == one {
                    assert forall|j: int| 0 <= j < 15 implies a@[j] == 0 by {}
                    assert(a@[15] == 1);
                }
            }
            a[0] == 255 || loopback || (a[0] == 0xfe && 0x80 <= a[1] && a[1] <= 0xbf)
        },
    }
}

fn local_broadcast(dst: &IpAddress, local_ip: &str, netmask: &str) -> (r: bool)
    ensures
        r == is_local_broadcast(*dst, local_ip@, netmask@),
{
    match dst {
        IpAddress::V4(d) => match (parse_ipv4(local_ip), parse_ipv4(netmask)) {
            (Some(ip), Some(mask)) => {
                let r = d[0] == (ip[0] | !mask[0]) && d[1] == (ip[1] | !mask[1]) && d[2] == (ip[2]
                    | !mask[2]) && d[3] == (ip[3] | !mask[3]);
                proof {
                    let bc = subnet_broadcast(ip@, mask@);
                    if r {
                        assert(d@ =~= bc);
                    }
                    if d@ == bc {
                        assert(d@[0] == bc[0] && d@[1] == bc[1] && d@[2] == bc[2] && d@[3] == bc[3]);
                    }
                }
                r
            },
            _ => false,
        },
        _ => false,
    }
}

impl Outbox {
    /// What a packet on the socket is.
    pub fn classify_udp(&self, kind: Option<MsgKind>, src: &Endpoint) -> (r: UdpAction)
        requires
            self.wf(),
        ensures
            r == udp_action(*self, kind, *src),
    {
        match kind {
            Some(k) => {
                if k == MsgKind::Relay || k == MsgKind::RelayRk || k == MsgKind::RelayBatch {
                    if !same_endpoint(src, &self.relay_addr) {
                        return UdpAction::Ignore;
                    }
                    if k == MsgKind::Relay {
                        return UdpAction::Relay;
                    }
                    if k == MsgKind::RelayRk {
                        return UdpAction::RelayRk;
                    }
                    return UdpAction::RelayBatch;
                }
                if !same_endpoint(src, &self.server_addr) {
                    return UdpAction::Ignore;
                }
                if k == MsgKind::Response {
                    return UdpAction::Response;
                }
                if k == MsgKind::Notify {
                    return UdpAction::Notify;
                }
                UdpAction::Ignore
            },
            None => match self.addr_index.get(src) {
                Some(pk) => UdpAction::Direct(*pk),
                None => UdpAction::Ignore,
            },
        }
    }

    /// Chooses the peer that a packet is for.
    fn choose_peer(&self, dst: &IpAddress, dst_text: &str, netmask: &str) -> (r: Forward)
        requires
            self.wf(),
        ensures
            r == forwarding(*self, *dst, dst_text@, netmask@),
    {
        if special(dst) || local_broadcast(dst, self.local_ip.as_str(), netmask) {
            return Forward::Drop;
        }
        if same(dst_text, self.local_ip.as_str()) {
            return Forward::Drop;
        }
        match self.ip_index.get(&dst_text.to_owned()) {
            Some(pk) => if self.peers.contains(pk) {
                Forward::Send(*pk)
            } else {
                Forward::Query
            },
            None => Forward::Query,
        }
    }

    /// Decides on a packet from the virtual interface to `dst`, which reads
    /// `dst_text`.
    pub fn forward(&self, dst: &IpAddress, dst_text: &str, netmask: &str) -> (r: Forward)
        requires
            self.wf(),
        ensures
            r == forwarding(*self, *dst, dst_text@, netmask@),
            dst is V4 ==> finds_its_peer(*self, dst->V4_0, dst_text@, netmask@, r),
    {
        let r = self.choose_peer(dst, dst_text, netmask);
        proof {
            if let IpAddress::V4(a) = *dst {
                packets_find_their_peer(*self, a, dst_text@, netmask@);
            }
        }
        r
    }
}

/// Nothing that claims to come from the server or the relay is taken in from another
/// address.
pub proof fn strangers_are_ignored(o: Outbox, kind: MsgKind, src: Endpoint)
    requires
        src != o.server_addr,
        src != o.relay_addr,
    ensures
        udp_action(o, Some(kind), src) == UdpAction::Ignore,
{
}

} // verus!
