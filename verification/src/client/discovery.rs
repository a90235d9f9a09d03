//! Finding peers: names, answers of the server, hole punching, and where packets go.
use vstd::prelude::*;
use vstd::string::*;
use vstd::utf8::*;
use crate::alias::{canonical, canonical_name};
use crate::client::laws::{is_looked_up_right, names_are_looked_up_right};
use crate::client::outbox::{
    is_new_session, FreshKeys, Learned, Outbox, Resolution, LEARNED_TTL_MS, MAX_LEARNED,
};
use crate::client::peer::{elapsed, elapsed_ms, PeerSession};
use crate::net::Endpoint;
use crate::protocol::{PeerInfo, ResponseBody, ResponseData};
use crate::table::{without, RawKey, Table};

verus! {

/// What the program around the library found out about a peer that the server told
/// of: its keys and address, where their texts are well formed.
pub struct PeerFacts {
    pub public_key: Option<RawKey>,
    pub endpoint: Option<Endpoint>,
    pub relay_rk: Option<RawKey>,
    /// Whether the virtual address is an IP address.
    pub ip_valid: bool,
}

/// The names learned, before and after one more was learned: the name moves to the
/// end, and where there are too many the one learned first goes.
pub open spec fn name_learned(
    before: Table<String, Learned>,
    name: Seq<char>,
    ip: Seq<char>,
    now: u64,
    after: Table<String, Learned>,
) -> bool {
    let grown = without(before.ids(), name).push(name);
    &&& after.ids() == (if grown.len() > MAX_LEARNED {
        grown.skip(1)
    } else {
        grown
    })
    &&& after@.dom().contains(name)
    &&& after@[name].ip@ == ip
    &&& after@[name].at == now
    &&& forall|k: Seq<char>|
        after@.dom().contains(k) && k != name ==> before@.dom().contains(k) && (
        #[trigger] after@[k]) == before@[k]
}

/// Whether a name and its address are worth learning.
pub open spec fn learnable(name: Seq<char>, ip_valid: bool) -> bool {
    canonical(name).len() > 0 && ip_valid
}

impl Outbox {
    /// Learns a name from the server. Returns it in canonical form where it was
    /// learned and is to be answered for: a name of the client's own keeps its own
    /// address. `ip_valid` tells whether the address is one.
    pub fn learn_alias(&mut self, name: &str, ip: &str, ip_valid: bool, now: u64) -> (r: Option<
        String,
    >)
        requires
            old(self).wf(),
        ensures
            final(self).wf(),
            alias_learned(*old(self), name@, ip@, ip_valid, now, r, *final(self)),
    {
        let c = canonical_name(name);
        if c.as_str().is_empty() || !ip_valid {
            return None;
        }
        let ghost t0 = self.learned_aliases;
        self.learned_aliases.remove(&c);
        self.learned_aliases.insert(c.clone(), Learned { ip: ip.to_owned(), at: now });
        let ghost t1 = self.learned_aliases;
        let ghost grown = t1.ids();
        proof {
            assert(grown == without(t0.ids(), c@).push(c@));
            t1.lemma_dom();
        }
        if self.learned_aliases.len() > MAX_LEARNED {
            proof {
                t1.lemma_at(0);
                t1.lemma_at(grown.len() - 1);
                assert(grown[0] != grown[grown.len() - 1]);
            }
            self.learned_aliases.remove_at(0);
            assert(self.learned_aliases.ids() =~= grown.skip(1));
        }
        proof {
            assert(t1@.dom().contains(c@));
        }
        if self.local_aliases.get(c.as_str()).is_some() {
            return None;
        }
        Some(c)
    }

    /// Looks for a name.
    fn find_name(&mut self, name: &str, now: u64) -> (r: Resolution)
        requires
            old(self).wf(),
        ensures
            final(self).wf(),
            name_looked_up(*old(self), name@, now, r, *final(self)),
    {
        let c = canonical_name(name);
        if c.as_str().is_empty() {
            return Resolution::Nothing;
        }
        if let Some(ip) = self.local_aliases.get(c.as_str()) {
            return Resolution::Known(ip.clone());
        }
        if let Some(l) = self.learned_aliases.get(&c) {
            if elapsed(now, l.at) < LEARNED_TTL_MS {
                return Resolution::Known(l.ip.clone());
            }
        }
        self.learned_aliases.remove(&c);
        Resolution::Ask(c)
    }

    /// Looks for a name: among the client's own names, then among those learned of
    /// late. Else the server has to be asked.
    pub fn resolve_name(&mut self, name: &str, now: u64) -> (r: Resolution)
        requires
            old(self).wf(),
        ensures
            final(self).wf(),
            name_looked_up(*old(self), name@, now, r, *final(self)),
            is_looked_up_right(*old(self), name@, now, r),
    {
        let r = self.find_name(name, now);
        proof {
            names_are_looked_up_right(*old(self), name@, now, r, *self);
        }
        r
    }

    /// The client's own name for its virtual address.
    pub fn self_alias(&self) -> (r: Option<String>)
        requires
            self.wf(),
        ensures
            match r {
                Some(n) => exists|i: int|
                    #[trigger] self.local_aliases.first_for(self.local_ip@, i) && n@
                        == self.local_aliases.names()[i],
                None => !self.local_aliases.ips().contains(self.local_ip@),
            },
    {
        self.local_aliases.name_for(self.local_ip.as_str())
    }

    /// Takes note of a peer's relay key.
    fn note_relay_rk(&mut self, pk: &RawKey, rk: Option<RawKey>)
        requires
            old(self).wf(),
            old(self).peers@.dom().contains(*pk),
        ensures
            final(self).wf(),
            final(self).peers@ == (match rk {
                Some(k) => old(self).peers@.insert(
                    *pk,
                    PeerSession { peer_relay_rk: Some(k), ..old(self).peers@[*pk] },
                ),
                None => old(self).peers@,
            }),
            final(self).rk_index@ == (match rk {
                Some(k) => old(self).rk_index@.insert(k, *pk),
                None => old(self).rk_index@,
            }),
            *final(self) == (Outbox {
                peers: final(self).peers,
                rk_index: final(self).rk_index,
                ..*old(self)
            }),
    {
        if let Some(k) = rk {
            if let Some(s) = self.take_out(pk) {
                let mut s = s;
                s.peer_relay_rk = Some(k);
                self.put_back(pk, s);
                assert(self.peers@ =~= old(self).peers@.insert(*pk, s));
            }
            self.rk_index.insert(k, *pk);
        }
    }

    /// Takes in the answer to a query: the peer gets a session, and is entered in the
    /// indexes. Returns its key and address.
    pub fn complete_query(
        &mut self,
        info: &PeerInfo,
        facts: &PeerFacts,
        fresh: &FreshKeys,
        now: u64,
    ) -> (r: Option<(RawKey, String)>)
        requires
            old(self).wf(),
        ensures
            final(self).wf(),
            query_completed(*old(self), *info, *facts, *fresh, now, r, *final(self)),
    {
        let pk: RawKey = match facts.public_key {
            Some(k) => k,
            None => {
                return None;
            },
        };
        if let (Some(alias), Some(ip)) = (&info.alias, &info.ip) {
            self.learn_alias(alias.as_str(), ip.as_str(), facts.ip_valid, now);
        }
        let ip = match &info.ip {
            Some(ip) => ip.clone(),
            None => {
                return None;
            },
        };
        if ip.as_str().is_empty() {
            return None;
        }
        let ghost mid = *self;
        self.get_or_create_session(&pk, ip.clone(), facts.endpoint, fresh, now);
        let ghost s = self.peers@[pk];
        if let Some(ep) = facts.endpoint {
            self.addr_index.insert(ep, pk);
        }
        self.ip_index.insert(ip.clone(), pk);
        self.note_relay_rk(&pk, facts.relay_rk);
        proof {
            if old(self).peers@.dom().contains(pk) {
                assert(self.peers@ =~= old(self).peers@.insert(pk, with_relay_rk(s, facts.relay_rk)));
            } else {
                assert(self.peers@ =~= old(self).peers@.insert(pk, with_relay_rk(s, facts.relay_rk)));
                assert(is_new_session(s, pk, ip, facts.endpoint, *fresh, now));
            }
        }
        Some((pk, ip))
    }

    /// Takes in a notice that a peer looks for this client. Returns the peer.
    pub fn handle_notify(
        &mut self,
        info: &PeerInfo,
        facts: &PeerFacts,
        fresh: &FreshKeys,
        now: u64,
    ) -> (r: Option<RawKey>)
        requires
            old(self).wf(),
        ensures
            final(self).wf(),
            notice_taken(*old(self), *info, *facts, *fresh, now, r, *final(self)),
    {
        let pk: RawKey = match facts.public_key {
            Some(k) => k,
            None => {
                return None;
            },
        };
        if let (Some(alias), Some(ip)) = (&info.alias, &info.ip) {
            self.learn_alias(alias.as_str(), ip.as_str(), facts.ip_valid, now);
        }
        let blank = String::new();
        self.get_or_create_session(&pk, blank, facts.endpoint, fresh, now);
        let ghost s0 = self.peers@[pk];
        if let Some(ep) = facts.endpoint {
            if let Some(s) = self.take_out(&pk) {
                let mut s = s;
                if s.endpoint.is_none() {
                    s.endpoint = Some(ep);
                }
                self.put_back(&pk, s);
            }
            self.addr_index.insert(ep, pk);
        }
        let ghost s1 = self.peers@[pk];
        self.note_relay_rk(&pk, facts.relay_rk);
        proof {
            assert(s1 == with_endpoint(s0, facts.endpoint));
            assert(self.peers@ =~= old(self).peers@.insert(
                pk,
                with_relay_rk(s1, facts.relay_rk),
            ));
            if !old(self).peers@.dom().contains(pk) {
                assert(is_new_session(s0, pk, blank, facts.endpoint, *fresh, now));
            }
        }
        Some(pk)
    }
}

/// A session with the relay key that the server told.
pub open spec fn with_relay_rk(s: PeerSession, rk: Option<RawKey>) -> PeerSession {
    match rk {
        Some(k) => PeerSession { peer_relay_rk: Some(k), ..s },
        None => s,
    }
}

/// A session with the endpoint that the server told, unless it has one.
pub open spec fn with_endpoint(s: PeerSession, ep: Option<Endpoint>) -> PeerSession {
    if s.endpoint is None && ep is Some {
        PeerSession { endpoint: ep, ..s }
    } else {
        s
    }
}

/// The data plane before and after the server told of a peer that was asked for.
pub open spec fn told_of_peer(
    before: Outbox,
    pk: RawKey,
    ip: Seq<char>,
    endpoint: Option<Endpoint>,
    rk: Option<RawKey>,
    fresh: FreshKeys,
    now: u64,
    after: Outbox,
) -> bool {
    &&& exists|s: PeerSession|
        {
            &&& after.peers@ == before.peers@.insert(pk, #[trigger] with_relay_rk(s, rk))
            &&& before.peers@.dom().contains(pk) ==> s == before.peers@[pk]
            &&& !before.peers@.dom().contains(pk) ==> exists|t: String|
                t@ == ip && is_new_session(s, pk, t, endpoint, fresh, now)
        }
    &&& after.addr_index@ == (match endpoint {
        Some(ep) => before.addr_index@.insert(ep, pk),
        None => before.addr_index@,
    })
    &&& after.rk_index@ == (match rk {
        Some(k) => before.rk_index@.insert(k, pk),
        None => before.rk_index@,
    })
}

/// The data plane before and after the server told of a peer that looks for this
/// client.
pub open spec fn noticed_peer(
    before: Outbox,
    pk: RawKey,
    endpoint: Option<Endpoint>,
    rk: Option<RawKey>,
    fresh: FreshKeys,
    now: u64,
    after: Outbox,
) -> bool {
    &&& exists|s: PeerSession|
        {
            &&& after.peers@ == before.peers@.insert(
                pk,
                #[trigger] with_relay_rk(with_endpoint(s, endpoint), rk),
            )
            &&& before.peers@.dom().contains(pk) ==> s == before.peers@[pk]
            &&& !before.peers@.dom().contains(pk) ==> exists|t: String|
                t@.len() == 0 && is_new_session(s, pk, t, endpoint, fresh, now)
        }
    &&& after.addr_index@ == (match endpoint {
        Some(ep) => before.addr_index@.insert(ep, pk),
        None => before.addr_index@,
    })
    &&& after.rk_index@ == (match rk {
        Some(k) => before.rk_index@.insert(k, pk),
        None => before.rk_index@,
    })
}

/// The data plane before and after a name came from the server, and the name where it is to
/// be answered for.
pub open spec fn alias_learned(
    before: Outbox,
    name: Seq<char>,
    ip: Seq<char>,
    ip_valid: bool,
    now: u64,
    r: Option<String>,
    after: Outbox,
) -> bool {
    &&& (if learnable(name, ip_valid) {
        &&& r is Some <==> !before.local_aliases@.dom().contains(canonical(name))
        &&& r is Some ==> r->0@ == canonical(name)
        &&& name_learned(
            before.learned_aliases,
            canonical(name),
            ip,
            now,
            after.learned_aliases,
        )
    } else {
        r is None && after.learned_aliases == before.learned_aliases
    })
    &&& after == (Outbox {
        learned_aliases: after.learned_aliases,
        ..before
    })
}

/// The data plane before and after a name was looked for, and what was found.
pub open spec fn name_looked_up(
    before: Outbox,
    name: Seq<char>,
    now: u64,
    r: Resolution,
    after: Outbox,
) -> bool {
    &&& ({
        let c = canonical(name);
        let own = before.local_aliases@;
        let learned = before.learned_aliases@;
        if c.len() == 0 {
            r is Nothing && after.learned_aliases@ == learned
        } else if own.dom().contains(c) {
            r is Known && r->Known_0@ == own[c] && after.learned_aliases@ == learned
        } else if learned.dom().contains(c) && elapsed_ms(now, learned[c].at)
            < LEARNED_TTL_MS {
            r is Known && r->Known_0 == learned[c].ip && after.learned_aliases@
                == learned
        } else {
            r is Ask && r->Ask_0@ == c && after.learned_aliases@ == learned.remove(c)
        }
    })
    &&& after == (Outbox {
        learned_aliases: after.learned_aliases,
        ..before
    })
}

/// The data plane before and after the answer to a query was taken in.
pub open spec fn query_completed(
    before: Outbox,
    info: PeerInfo,
    facts: PeerFacts,
    fresh: FreshKeys,
    now: u64,
    r: Option<(RawKey, String)>,
    after: Outbox,
) -> bool {
    &&& (facts.public_key is None ==> r is None && after == before)
    &&& (facts.public_key is Some ==> {
        let pk = facts.public_key->0;
        let found = info.ip is Some && info.ip->0@.len() > 0;
        &&& info.alias is Some && info.ip is Some && learnable(
            info.alias->0@,
            facts.ip_valid,
        ) ==> name_learned(
            before.learned_aliases,
            canonical(info.alias->0@),
            info.ip->0@,
            now,
            after.learned_aliases,
        )
        &&& !(info.alias is Some && info.ip is Some && learnable(
            info.alias->0@,
            facts.ip_valid,
        )) ==> after.learned_aliases == before.learned_aliases
        &&& found ==> {
            &&& r is Some && (r->0).0 == pk && (r->0).1@ == info.ip->0@
            &&& after.ip_index@ == before.ip_index@.insert(info.ip->0@, pk)
            &&& told_of_peer(
                before,
                pk,
                info.ip->0@,
                facts.endpoint,
                facts.relay_rk,
                fresh,
                now,
                after,
            )
        }
        &&& !found ==> {
            &&& r is None
            &&& after == (Outbox {
                learned_aliases: after.learned_aliases,
                ..before
            })
        }
    })
    &&& after == (Outbox {
        peers: after.peers,
        ip_index: after.ip_index,
        addr_index: after.addr_index,
        rk_index: after.rk_index,
        learned_aliases: after.learned_aliases,
        ..before
    })
}

/// The data plane before and after a notice that a peer looks for this client.
pub open spec fn notice_taken(
    before: Outbox,
    info: PeerInfo,
    facts: PeerFacts,
    fresh: FreshKeys,
    now: u64,
    r: Option<RawKey>,
    after: Outbox,
) -> bool {
    &&& r == facts.public_key
    &&& (r is None ==> after == before)
    &&& (r matches Some(pk) ==> {
        &&& info.alias is Some && info.ip is Some && learnable(
            info.alias->0@,
            facts.ip_valid,
        ) ==> name_learned(
            before.learned_aliases,
            canonical(info.alias->0@),
            info.ip->0@,
            now,
            after.learned_aliases,
        )
        &&& !(info.alias is Some && info.ip is Some && learnable(
            info.alias->0@,
            facts.ip_valid,
        )) ==> after.learned_aliases == before.learned_aliases
        &&& noticed_peer(
            before,
            pk,
            facts.endpoint,
            facts.relay_rk,
            fresh,
            now,
            after,
        )
    })
    &&& after == (Outbox {
        peers: after.peers,
        addr_index: after.addr_index,
        rk_index: after.rk_index,
        learned_aliases: after.learned_aliases,
        ..before
    })
}

/// What was asked in the query that an answer belongs to; nothing for other answers.
pub fn response_key(resp: &ResponseBody) -> (r: String)
    ensures
        r@ == (match resp.data {
            ResponseData::QueryHit { req, .. } => req@,
            ResponseData::QueryMiss { req, .. } => req@,
            _ => Seq::empty(),
        }),
{
    match &resp.data {
        ResponseData::QueryHit { req, .. } => req.clone(),
        ResponseData::QueryMiss { req, .. } => req.clone(),
        _ => String::new(),
    }
}

/// What the answer to a query says of the peer that was asked for.
pub open spec fn result_of(resp: ResponseBody, r: Result<PeerInfo, String>) -> bool {
    match resp.data {
        ResponseData::QueryHit { req, ip, public_key, endpoint, relay_rk, alias } => {
            &&& r is Ok
            &&& r->Ok_0.public_key == public_key
            &&& r->Ok_0.endpoint == endpoint
            &&& r->Ok_0.relay_rk == relay_rk
            &&& r->Ok_0.alias == (if alias@.len() == 0 {
                None
            } else {
                Some(alias)
            })
            &&& r->Ok_0.ip == Some(ip)
        },
        _ => r is Err && r->Err_0@ == (match resp.error {
            Some(e) => e@,
            None => "查询失败"@,
        }),
    }
}

/// What the answer to a query says of the peer that was asked for.
pub fn response_result(resp: &ResponseBody) -> (r: Result<PeerInfo, String>)
    ensures
        result_of(*resp, r),
{
    match &resp.data {
        ResponseData::QueryHit { req: _, ip, public_key, endpoint, relay_rk, alias } => Ok(
            PeerInfo {
                public_key: public_key.clone(),
                endpoint: endpoint.clone(),
                relay_rk: crate::cert::copy_text(relay_rk),
                alias: if alias.as_str().is_empty() {
                    None
                } else {
                    Some(alias.clone())
                },
                ip: Some(ip.clone()),
            },
        ),
        _ => match &resp.error {
            Some(e) => Err(e.clone()),
            None => Err("查询失败".to_owned()),
        },
    }
}

/// What an answer comes to: nothing more than yes, or the reason for no.
pub fn plain_result(resp: &ResponseBody, fallback: &str) -> (r: Result<(), String>)
    ensures
        resp.ok ==> r is Ok,
        !resp.ok ==> r is Err && r->Err_0@ == (match resp.error {
            Some(e) => e@,
            None => fallback@,
        }),
{
    if resp.ok {
        Ok(())
    } else {
        match &resp.error {
            Some(e) => Err(e.clone()),
            None => Err(fallback.to_owned()),
        }
    }
}

} // verus!
