//! The relay actor: one client per relay URL, and the home-relay marking.
//!
//! The actor owns every live relay client, keyed by URL.  At most one relay
//! at a time is marked preferred (the *home* relay): marking a new one
//! atomically unmarks the previous one and tells every other connected
//! client `NotePreferred(false)`.  After a rebind, clients whose local
//! endpoint no longer exists are closed eagerly.

use vstd::prelude::*;
use crate::addr::{IpAddress, NodeKey, RelayUrl};
use crate::relay_frames::{Frame, FrameSpec, PacketTooBig, MAX_PACKET_SIZE};

verus! {

/// One relay client the actor owns.
#[derive(Debug)]
pub struct RelayEntry {
    /// The relay's URL: the key under which the client lives.
    pub url: RelayUrl,
    /// Whether this relay is marked as the home relay.
    pub preferred: bool,
    /// Whether the client currently holds a live connection.
    pub connected: bool,
    /// The local IP of the live connection, when known.
    pub local_ip: Option<IpAddress>,
}

/// A `NotePreferred` frame owed to one relay client.
#[derive(Debug)]
pub struct NotePreferredAction {
    pub url: RelayUrl,
    pub preferred: bool,
}

/// True if `clients` holds an entry for URL `u` that is connected on a
/// local IP no longer among `local_ips` — the condition under which a
/// rebind closes that client.
pub open spec fn rebind_closes(
    clients: Seq<RelayEntry>,
    local_ips: Seq<IpAddress>,
    u: Seq<u8>,
) -> bool {
    exists|i: int|
        {
            &&& 0 <= i < clients.len()
            &&& (#[trigger] clients[i]).url@ == u
            &&& clients[i].connected
            &&& (clients[i].local_ip matches Some(ip) && !local_ips.contains(ip))
        }
}

/// The actor's state: the clients, keyed by URL.
#[derive(Debug)]
pub struct RelayActorState {
    pub clients: Vec<RelayEntry>,
}

impl RelayActorState {
    /// Well-formed: URLs are pairwise distinct and at most one client is
    /// marked preferred.
    pub open spec fn wf(&self) -> bool {
        &&& forall|i: int, j: int|
            0 <= i < j < self.clients@.len() ==> (#[trigger] self.clients@[i]).url@ != (
            #[trigger] self.clients@[j]).url@
        &&& forall|i: int, j: int|
            0 <= i < j < self.clients@.len() ==> !((#[trigger] self.clients@[i]).preferred && (
            #[trigger] self.clients@[j]).preferred)
    }

    /// True if a client for this URL exists.
    pub open spec fn contains_url(&self, url: Seq<u8>) -> bool {
        exists|i: int| 0 <= i < self.clients@.len() && (#[trigger] self.clients@[i]).url@ == url
    }

    /// An actor with no clients.
    pub fn new() -> (r: RelayActorState)
        ensures
            r.wf(),
            r.clients@.len() == 0,
    {
        RelayActorState { clients: Vec::new() }
    }

    /// The law of the home relay: in a well-formed actor at most one client
    /// is marked preferred.
    pub proof fn lemma_at_most_one_preferred(&self)
        requires
            self.wf(),
        ensures
            forall|i: int, j: int|
                0 <= i < self.clients@.len() && 0 <= j < self.clients@.len() && (
                #[trigger] self.clients@[i]).preferred && (#[trigger] self.clients@[j]).preferred
                    ==> i == j,
    {
    }

    /// Finds the client for a URL.
    pub fn find_client(&self, url: &RelayUrl) -> (r: Option<usize>)
        ensures
            match r {
                Some(i) => i < self.clients@.len() && self.clients@[i as int].url@ == url@,
                None => !self.contains_url(url@),
            },
    {
        let mut i: usize = 0;
        while i < self.clients.len()
            invariant
                0 <= i <= self.clients@.len(),
                forall|j: int| 0 <= j < i ==> (#[trigger] self.clients@[j]).url@ != url@,
            decreases self.clients@.len() - i,
        {
            if self.clients[i].url.url_eq(url) {
                return Some(i);
            }
            i += 1;
        }
        None
    }

    /// Finds the client for a URL, creating one — unmarked and not yet
    /// connected — when none exists.
    pub fn ensure_client(&mut self, url: &RelayUrl) -> (r: (usize, bool))
        requires
            old(self).wf(),
        ensures
            final(self).wf(),
            r.0 < final(self).clients@.len(),
            final(self).clients@[r.0 as int].url@ == url@,
            r.1 == !old(self).contains_url(url@),
            !r.1 ==> *final(self) == *old(self),
            r.1 ==> {
                &&& final(self).clients@ == old(self).clients@.push(
                    final(self).clients@[r.0 as int],
                )
                &&& !final(self).clients@[r.0 as int].preferred
                &&& !final(self).clients@[r.0 as int].connected
            },
    {
        match self.find_client(url) {
            Some(i) => (i, false),
            None => {
                let ghost pre = self.clients@;
                self.clients.push(
                    RelayEntry {
                        url: url.duplicate(),
                        preferred: false,
                        connected: false,
                        local_ip: None,
                    },
                );
                proof {
                    let n = self.clients@.len() - 1;
                    assert(self.clients@ =~= pre.push(self.clients@[n]));
                    assert forall|i: int, j: int| 0 <= i < j < self.clients@.len() implies (
                    #[trigger] self.clients@[i]).url@ != (#[trigger] self.clients@[j]).url@ by {
                        if j < n {
                            assert(pre[i].url@ != pre[j].url@);
                        } else {
                            assert(self.clients@[j].url@ == url@);
                            assert(self.clients@[i] == pre[i]);
                        }
                    }
                }
                (self.clients.len() - 1, true)
            },
        }
    }

    /// Notes that the client for `url` holds a live connection with the
    /// given local IP.
    pub fn on_client_connected(&mut self, idx: usize, local_ip: Option<IpAddress>)
        requires
            old(self).wf(),
            idx < old(self).clients@.len(),
        ensures
            final(self).wf(),
            final(self).clients@.len() == old(self).clients@.len(),
            final(self).clients@[idx as int].url@ == old(self).clients@[idx as int].url@,
            final(self).clients@[idx as int].preferred == old(self).clients@[idx as int].preferred,
            final(self).clients@[idx as int].connected,
            final(self).clients@[idx as int].local_ip == local_ip,
            forall|j: int|
                0 <= j < old(self).clients@.len() && j != idx ==> final(self).clients@[j] == old(
                    self,
                ).clients@[j],
    {
        let ghost pre = self.clients@;
        let entry = &mut self.clients[idx];
        entry.connected = true;
        entry.local_ip = local_ip;
        proof {
            assert forall|i: int, j: int| 0 <= i < j < self.clients@.len() implies (
            #[trigger] self.clients@[i]).url@ != (#[trigger] self.clients@[j]).url@ && !(
            self.clients@[i].preferred && self.clients@[j].preferred) by {
                assert(self.clients@[i].url@ == pre[i].url@);
                assert(self.clients@[j].url@ == pre[j].url@);
                assert(self.clients@[i].preferred == pre[i].preferred);
                assert(self.clients@[j].preferred == pre[j].preferred);
            }
        }
    }

    /// Marks `url` as the home relay.
    ///
    /// The client is created if absent.  Afterwards exactly the client for
    /// `url` is preferred.  The returned frames are owed to the clients:
    /// `NotePreferred(true)` to the new home, `NotePreferred(false)` to
    /// every other connected client — in particular to the previous home,
    /// if it was connected.
    pub fn set_home(&mut self, url: &RelayUrl) -> (actions: Vec<NotePreferredAction>)
        requires
            old(self).wf(),
        ensures
            final(self).wf(),
            final(self).contains_url(url@),
            forall|i: int|
                0 <= i < final(self).clients@.len()
                    ==> ((#[trigger] final(self).clients@[i]).preferred
                    <==> final(self).clients@[i].url@ == url@),
            exists|k: int|
                0 <= k < actions@.len() && (#[trigger] actions@[k]).url@ == url@
                    && actions@[k].preferred,
            forall|k: int|
                0 <= k < actions@.len() ==> ((#[trigger] actions@[k]).preferred <==> actions@[k].url@
                    == url@),
            forall|i: int|
                0 <= i < old(self).clients@.len() && (#[trigger] old(self).clients@[i]).url@ != url@
                    && old(self).clients@[i].connected ==> exists|k: int|
                    0 <= k < actions@.len()
                        && (#[trigger] actions@[k]).url@ == old(self).clients@[i].url@
                        && !actions@[k].preferred,
            forall|k: int|
                0 <= k < actions@.len() && !(#[trigger] actions@[k]).preferred ==> exists|i: int|
                    {
                        &&& 0 <= i < old(self).clients@.len()
                        &&& (#[trigger] old(self).clients@[i]).url@ == actions@[k].url@
                        &&& old(self).clients@[i].connected
                        &&& old(self).clients@[i].url@ != url@
                    },
    {
        let (target, _created) = self.ensure_client(url);
        let mut actions: Vec<NotePreferredAction> = Vec::new();
        let ghost mid = self.clients@;
        let mut i: usize = 0;
        while i < self.clients.len()
            invariant
                target < self.clients@.len(),
                self.clients@.len() == mid.len(),
                self.clients@[target as int].url@ == url@,
                forall|j: int|
                    0 <= j < mid.len() ==> (#[trigger] self.clients@[j]).url@ == mid[j].url@ && self
                        .clients@[j].connected == mid[j].connected && self.clients@[j].local_ip
                        == mid[j].local_ip,
                forall|j: int|
                    0 <= j < i ==> ((#[trigger] self.clients@[j]).preferred <==> j == target),
                forall|j: int| i <= j < mid.len() ==> (#[trigger] self.clients@[j]) == mid[j],
                forall|i2: int, j2: int|
                    0 <= i2 < j2 < mid.len() ==> (#[trigger] mid[i2]).url@ != (
                    #[trigger] mid[j2]).url@,
                i > target ==> exists|k: int|
                    0 <= k < actions@.len() && (#[trigger] actions@[k]).url@ == url@
                        && actions@[k].preferred,
                forall|k: int|
                    0 <= k < actions@.len() ==> ((#[trigger] actions@[k]).preferred
                        <==> actions@[k].url@ == url@),
                forall|k: int|
                    0 <= k < actions@.len() && !(#[trigger] actions@[k]).preferred ==> exists|
                        j: int,
                    |
                        {
                            &&& 0 <= j < mid.len()
                            &&& (#[trigger] mid[j]).url@ == actions@[k].url@
                            &&& mid[j].connected
                            &&& mid[j].url@ != url@
                        },
                forall|j: int|
                    0 <= j < i && mid[j].url@ != url@ && (#[trigger] mid[j]).connected ==> exists|
                        k: int,
                    |
                        0 <= k < actions@.len() && (#[trigger] actions@[k]).url@ == mid[j].url@
                            && !actions@[k].preferred,
            decreases self.clients@.len() - i,
        {
            let ghost pre = self.clients@;
            let ghost pre_actions = actions@;
            if i == target {
                let entry = &mut self.clients[i];
                entry.preferred = true;
                actions.push(NotePreferredAction { url: url.duplicate(), preferred: true });
                proof {
                    assert(actions@[actions@.len() - 1].url@ == url@);
                }
            } else {
                let was_connected = self.clients[i].connected;
                let entry = &mut self.clients[i];
                entry.preferred = false;
                if was_connected {
                    let u = self.clients[i].url.duplicate();
                    actions.push(NotePreferredAction { url: u, preferred: false });
                    proof {
                        assert(actions@[actions@.len() - 1].url@ == mid[i as int].url@);
                        assert(!actions@[actions@.len() - 1].preferred);
                    }
                }
            }
            proof {
                assert forall|k: int|
                    0 <= k < pre_actions.len() implies actions@[k] == pre_actions[k] by {}
                if i != target {
                    assert(mid[i as int].url@ != url@) by {
                        if (i as int) < target as int {
                            assert(mid[i as int].url@ != mid[target as int].url@);
                        } else {
                            assert(mid[target as int].url@ != mid[i as int].url@);
                        }
                        assert(mid[target as int].url@ == url@);
                    }
                }
            }
            i += 1;
        }
        proof {
            assert forall|i2: int, j2: int| 0 <= i2 < j2 < self.clients@.len() implies !((
            #[trigger] self.clients@[i2]).preferred && (#[trigger] self.clients@[j2]).preferred)
                && self.clients@[i2].url@ != self.clients@[j2].url@ by {
                assert(self.clients@[i2].url@ == mid[i2].url@);
                assert(self.clients@[j2].url@ == mid[j2].url@);
            }
            assert(self.contains_url(url@)) by {
                assert(self.clients@[target as int].url@ == url@);
            }
            assert forall|i2: int| 0 <= i2 < self.clients@.len() implies ((#[trigger] self
                .clients@[i2]).preferred <==> self.clients@[i2].url@ == url@) by {
                if i2 != target as int {
                    if i2 < target as int {
                        assert(mid[i2].url@ != mid[target as int].url@);
                    } else {
                        assert(mid[target as int].url@ != mid[i2].url@);
                    }
                }
            }
            assert forall|i2: int|
                0 <= i2 < old(self).clients@.len() && (#[trigger] old(self).clients@[i2]).url@
                    != url@ && old(self).clients@[i2].connected implies exists|k: int|
                0 <= k < actions@.len() && (#[trigger] actions@[k]).url@ == old(
                    self,
                ).clients@[i2].url@ && !actions@[k].preferred by {
                assert(mid[i2] == old(self).clients@[i2]);
            }
            assert forall|k: int|
                0 <= k < actions@.len() && !(#[trigger] actions@[k]).preferred implies exists|
                i2: int,
            |
                {
                    &&& 0 <= i2 < old(self).clients@.len()
                    &&& (#[trigger] old(self).clients@[i2]).url@ == actions@[k].url@
                    &&& old(self).clients@[i2].connected
                    &&& old(self).clients@[i2].url@ != url@
                } by {
                let j = choose|j: int|
                    0 <= j < mid.len() && (#[trigger] mid[j]).url@ == actions@[k].url@ && mid[j]
                        .connected && mid[j].url@ != url@;
                assert(j < old(self).clients@.len());
                assert(mid[j] == old(self).clients@[j]);
            }
        }
        actions
    }

    /// Closes the clients whose connection's local endpoint is no longer
    /// among `local_ips` — after a rebind such connections are dead weight.
    /// Returns the URLs of the clients to tear down; their entries are
    /// marked disconnected.  A client whose local endpoint is unknown is
    /// left alone.
    pub fn maybe_close_on_rebind(&mut self, local_ips: &Vec<IpAddress>) -> (closed: Vec<RelayUrl>)
        requires
            old(self).wf(),
        ensures
            final(self).wf(),
            final(self).clients@.len() == old(self).clients@.len(),
            forall|i: int|
                0 <= i < old(self).clients@.len() ==> {
                    let pre = old(self).clients@[i];
                    let post = #[trigger] final(self).clients@[i];
                    &&& post.url@ == pre.url@
                    &&& post.preferred == pre.preferred
                    &&& post.connected == (pre.connected && !(pre.local_ip matches Some(ip)
                        && !local_ips@.contains(ip)))
                },
            forall|i: int|
                0 <= i < old(self).clients@.len() && (#[trigger] old(self).clients@[i]).connected
                    && (old(self).clients@[i].local_ip matches Some(ip) && !local_ips@.contains(ip))
                    ==> exists|k: int|
                    0 <= k < closed@.len()
                        && (#[trigger] closed@[k])@ == old(self).clients@[i].url@,
            forall|k: int| #![trigger closed@[k]]
                0 <= k < closed@.len() ==> rebind_closes(
                    old(self).clients@,
                    local_ips@,
                    closed@[k]@,
                ),
    {
        let mut closed: Vec<RelayUrl> = Vec::new();
        let ghost pre = self.clients@;
        let mut i: usize = 0;
        while i < self.clients.len()
            invariant
                self.clients@.len() == pre.len(),
                0 <= i <= pre.len(),
                forall|j: int|
                    0 <= j < pre.len() ==> {
                        let p = pre[j];
                        let q = #[trigger] self.clients@[j];
                        &&& q.url@ == p.url@
                        &&& q.preferred == p.preferred
                        &&& q.local_ip == p.local_ip
                    },
                forall|j: int| i <= j < pre.len() ==> (#[trigger] self.clients@[j]) == pre[j],
                forall|j: int|
                    0 <= j < i ==> (#[trigger] self.clients@[j]).connected == (pre[j].connected
                        && !(pre[j].local_ip matches Some(ip) && !local_ips@.contains(ip))),
                forall|j: int|
                    0 <= j < i && (#[trigger] pre[j]).connected && (pre[j].local_ip matches Some(
                        ip,
                    ) && !local_ips@.contains(ip)) ==> exists|k: int|
                        0 <= k < closed@.len() && (#[trigger] closed@[k])@ == pre[j].url@,
                pre == old(self).clients@,
                forall|k: int| #![trigger closed@[k]]
                    0 <= k < closed@.len() ==> rebind_closes(pre, local_ips@, closed@[k]@),
                forall|i2: int, j2: int|
                    0 <= i2 < j2 < pre.len() ==> (#[trigger] pre[i2]).url@ != (
                    #[trigger] pre[j2]).url@,
                forall|i2: int, j2: int|
                    0 <= i2 < j2 < pre.len() ==> !((#[trigger] pre[i2]).preferred && (
                    #[trigger] pre[j2]).preferred),
            decreases pre.len() - i,
        {
            let ghost pre_closed = closed@;
            let gone = if self.clients[i].connected {
                match self.clients[i].local_ip {
                    Some(ip) => {
                        let mut seen: bool = false;
                        let mut k: usize = 0;
                        while k < local_ips.len()
                            invariant
                                0 <= k <= local_ips@.len(),
                                seen == exists|q: int| 0 <= q < k && local_ips@[q] == ip,
                            decreases local_ips@.len() - k,
                        {
                            if local_ips[k] == ip {
                                seen = true;
                            }
                            k += 1;
                        }
                        !seen
                    },
                    None => false,
                }
            } else {
                false
            };
            if gone {
                closed.push(self.clients[i].url.duplicate());
                let entry = &mut self.clients[i];
                entry.connected = false;
                proof {
                    assert(closed@[closed@.len() - 1]@ == pre[i as int].url@);
                    assert forall|k: int|
                        0 <= k < pre_closed.len() implies closed@[k] == pre_closed[k] by {}
                }
            }
            i += 1;
        }
        proof {
            assert forall|i2: int, j2: int| 0 <= i2 < j2 < self.clients@.len() implies (
            #[trigger] self.clients@[i2]).url@ != (#[trigger] self.clients@[j2]).url@ && !(
            self.clients@[i2].preferred && self.clients@[j2].preferred) by {
                assert(self.clients@[i2].url@ == pre[i2].url@);
                assert(self.clients@[j2].url@ == pre[j2].url@);
                assert(self.clients@[i2].preferred == pre[i2].preferred);
                assert(self.clients@[j2].preferred == pre[j2].preferred);
            }
        }
        closed
    }
}

/// Builds the `SendPacket` frames that fan one relay send out: one frame
/// per packet, all to the same peer.  Fails when some packet is larger than
/// [`MAX_PACKET_SIZE`]; no frame of such a batch is sent.
pub fn plan_relay_send(dst_node: &NodeKey, contents: &Vec<Vec<u8>>) -> (r: Result<
    Vec<Frame>,
    PacketTooBig,
>)
    requires
        dst_node.wf(),
    ensures
        match r {
            Ok(frames) => {
                &&& frames@.len() == contents@.len()
                &&& forall|i: int|
                    0 <= i < contents@.len() ==> (#[trigger] frames@[i]).wf() && frames@[i].model()
                        == (FrameSpec::SendPacket { dst_key: dst_node@, packet: contents@[i]@ })
            },
            Err(_) => exists|i: int|
                0 <= i < contents@.len() && (#[trigger] contents@[i])@.len() > MAX_PACKET_SIZE,
        },
{
    let mut frames: Vec<Frame> = Vec::new();
    let mut i: usize = 0;
    while i < contents.len()
        invariant
            dst_node.wf(),
            0 <= i <= contents@.len(),
            frames@.len() == i,
            forall|j: int|
                0 <= j < i ==> (#[trigger] frames@[j]).wf() && frames@[j].model() == (
                FrameSpec::SendPacket { dst_key: dst_node@, packet: contents@[j]@ }),
        decreases contents@.len() - i,
    {
        let packet = crate::addr::clone_bytes(&contents[i]);
        match crate::relay_frames::build_send_packet(dst_node, packet) {
            Ok(f) => {
                frames.push(f);
            },
            Err(e) => {
                proof {
                    assert(contents@[i as int]@.len() > MAX_PACKET_SIZE);
                }
                return Err(e);
            },
        }
        i += 1;
    }
    Ok(frames)
}

} // verus!
