//! The built-in name server: it answers for the names of the mesh, so that
//! applications can write `computer:8080`.
//!
//! Only names that are known are answered for; nothing is ever passed on to another
//! name server. An unknown name is answered with NXDOMAIN, a question for anything
//! but an IPv4 address with an empty answer.
//!
//! Instants are milliseconds of one clock that does not run backwards.
use vstd::prelude::*;
use vstd::string::*;
use vstd::utf8::*;
use crate::alias::{canonical, canonical_name};
use crate::bytes::{be_bytes, be_nat, get_u16, push_bytes, put_u16, put_u32};
use crate::bytes::lemma_u16_round_trip;
use crate::client::aliases::Aliases;
use crate::client::peer::{elapsed, elapsed_ms};
use crate::net::{ipv4_octets, is_ipv4, parse_ipv4};
use crate::outside::{from_utf8_lossy, lossy_text};
use crate::seqs::keep_if;
use crate::table::Table;
use crate::text::{ascii_lower, fields, lowercase, lowered, split_on, texts};

verus! {

/// How long an answer is kept.
pub const CACHE_TTL_MS: u64 = 60000;

/// The length of a message's header.
pub const DNS_HEADER_LEN: usize = 12;

/// The longest label of a name.
pub const MAX_LABEL: usize = 63;

/// A name with one label more.
pub open spec fn with_label(name: Seq<char>, label: Seq<u8>) -> Seq<char> {
    (if name.len() > 0 {
        name.push('.')
    } else {
        name
    }) + lossy_text(label)
}

/// The name that stands at a place of a message, behind the labels read so far, and
/// where it ends. There is none where the message ends first or a label is too long.
pub open spec fn name_at(pkt: Seq<u8>, pos: int, sofar: Seq<char>) -> Option<(Seq<char>, int)>
    decreases pkt.len() - pos,
{
    if pos < 0 || pos >= pkt.len() {
        None
    } else if pkt[pos] == 0 {
        Some((sofar, pos + 1))
    } else if pkt[pos] > MAX_LABEL || pos + 1 + pkt[pos] > pkt.len() {
        None
    } else {
        name_at(
            pkt,
            pos + 1 + pkt[pos],
            with_label(sofar, pkt.subrange(pos + 1, pos + 1 + pkt[pos])),
        )
    }
}

/// A text without the dots at its end.
pub open spec fn undotted(s: Seq<char>) -> Seq<char>
    decreases s.len(),
{
    if s.len() > 0 && s.last() == '.' {
        undotted(s.drop_last())
    } else {
        s
    }
}

/// A question: the number of the message, the name in lower case, and what is asked.
/// There is none where the message is an answer, does not ask exactly one question,
/// or is cut short.
pub open spec fn question(pkt: Seq<u8>) -> Option<(u16, Seq<char>, u16)> {
    if pkt.len() < DNS_HEADER_LEN || pkt[2] >= 128 || be_nat(pkt.subrange(4, 6)) != 1 {
        None
    } else {
        match name_at(pkt, DNS_HEADER_LEN as int, Seq::empty()) {
            Some((name, end)) => if end + 4 > pkt.len() {
                None
            } else {
                Some(
                    (
                        be_nat(pkt.subrange(0, 2)) as u16,
                        lowered(undotted(name)),
                        be_nat(pkt.subrange(end, end + 2)) as u16,
                    ),
                )
            },
            None => None,
        }
    }
}

fn trim_dots(s: &str) -> (r: &str)
    ensures
        r@ == undotted(s@),
{
    let mut n: usize = s.unicode_len();
    assert(s@.subrange(0, n as int) =~= s@);
    while n > 0 && s.get_char(n - 1) == '.'
        invariant
            n <= s@.len(),
            undotted(s@) == undotted(s@.subrange(0, n as int)),
        ensures
            n <= s@.len(),
            undotted(s@) == s@.subrange(0, n as int),
        decreases n,
    {
        assert(s@.subrange(0, n as int).drop_last() =~= s@.subrange(0, n - 1));
        n = n - 1;
    }
    s.substring_char(0, n)
}

/// Reads a question.
pub fn parse_query(pkt: &[u8]) -> (r: Option<(u16, String, u16)>)
    ensures
        match (r, question(pkt@)) {
            (Some((id, name, qtype)), Some((sid, sname, sqtype))) => id == sid && name@ == sname
                && qtype == sqtype,
            (None, None) => true,
            _ => false,
        },
{
    if pkt.len() < DNS_HEADER_LEN {
        return None;
    }
    let txid: u16 = get_u16(pkt, 0);
    if pkt[2] >= 128 {
        return None;
    }
    if get_u16(pkt, 4) != 1 {
        return None;
    }
    let mut pos: usize = DNS_HEADER_LEN;
    let mut name = String::new();
    loop
        invariant_except_break
            name_at(pkt@, 12, Seq::empty()) == name_at(pkt@, pos as int, name@),
        invariant
            12 <= pos <= pkt@.len(),
            pkt@.len() >= 12,
            pkt@[2] < 128,
            be_nat(pkt@.subrange(4, 6)) == 1,
            txid == be_nat(pkt@.subrange(0, 2)),
        ensures
            12 <= pos <= pkt@.len(),
            name_at(pkt@, 12, Seq::empty()) == Some((name@, pos as int)),
        decreases pkt@.len() - pos,
    {
        if pos >= pkt.len() {
            return None;
        }
        let len: usize = pkt[pos] as usize;
        if len == 0 {
            pos = pos + 1;
            break;
        }
        if len > MAX_LABEL || len > pkt.len() - pos - 1 {
            return None;
        }
        let label = vstd::slice::slice_subrange(pkt, pos + 1, pos + 1 + len);
        if !name.as_str().is_empty() {
            name.push('.');
        }
        name.append(from_utf8_lossy(label).as_str());
        pos = pos + 1 + len;
    }
    if pkt.len() - pos < 4 {
        return None;
    }
    let qtype: u16 = get_u16(pkt, pos);
    Some((txid, lowercase(trim_dots(name.as_str())), qtype))
}

/// Whether a label can be written.
pub open spec fn writable(label: Seq<char>) -> bool {
    1 <= encode_utf8(label).len() <= MAX_LABEL
}

/// The labels of a name as they are written: each behind its length. Labels that
/// cannot be written are left out.
pub open spec fn label_bytes(labels: Seq<Seq<char>>) -> Seq<u8>
    decreases labels.len(),
{
    if labels.len() == 0 {
        Seq::empty()
    } else {
        let front = label_bytes(labels.drop_last());
        let bytes = encode_utf8(labels.last());
        if writable(labels.last()) {
            front + seq![bytes.len() as u8] + bytes
        } else {
            front
        }
    }
}

/// A name as it is written.
pub open spec fn name_bytes(name: Seq<char>) -> Seq<u8> {
    label_bytes(fields(name, '.')).push(0)
}

/// Writes a name.
pub fn encode_name(out: &mut Vec<u8>, name: &str)
    ensures
        final(out)@ == old(out)@ + name_bytes(name@),
{
    let labels = split_on(name, '.');
    let ghost f = fields(name@, '.');
    let mut i: usize = 0;
    assert(f.take(0) =~= Seq::<Seq<char>>::empty());
    assert(out@ =~= old(out)@ + label_bytes(f.take(0)));
    while i < labels.len()
        invariant
            i <= labels@.len(),
            f == texts(labels@),
            out@ == old(out)@ + label_bytes(f.take(i as int)),
        decreases labels@.len() - i,
    {
        let bytes = labels[i].as_str().as_bytes();
        proof {
            assert(f.take(i + 1).drop_last() =~= f.take(i as int));
            assert(f.take(i + 1).last() == labels@[i as int]@);
        }
        if bytes.len() > 0 && bytes.len() <= MAX_LABEL {
            out.push(bytes.len() as u8);
            push_bytes(out, bytes);
        }
        assert(out@ =~= old(out)@ + label_bytes(f.take(i + 1)));
        i = i + 1;
    }
    assert(f.take(f.len() as int) =~= f);
    out.push(0);
    assert(out@ =~= old(out)@ + name_bytes(name@));
}

/// An answer record: a pointer to the name in the question, an IPv4 address, and
/// that it is good for a minute.
pub open spec fn answer_record(ip: Seq<u8>) -> Seq<u8> {
    seq![0xC0u8, 0x0Cu8] + be_bytes(1, 2) + be_bytes(1, 2) + be_bytes(60, 4) + be_bytes(4, 2) + ip
}

/// A response: header, question, and the answer where there is one. Only a response
/// without an answer can say that the name does not exist.
pub open spec fn response(
    txid: u16,
    qname: Seq<char>,
    qtype: u16,
    ip: Option<Seq<u8>>,
    nxdomain: bool,
) -> Seq<u8> {
    let flags = if ip is None && nxdomain {
        0x8183nat
    } else {
        0x8180nat
    };
    let count = if ip is Some {
        1nat
    } else {
        0nat
    };
    be_bytes(txid as nat, 2) + be_bytes(flags, 2) + be_bytes(1, 2) + be_bytes(count, 2)
        + seq![0u8, 0u8, 0u8, 0u8] + name_bytes(qname) + be_bytes(qtype as nat, 2) + be_bytes(1, 2)
        + (match ip {
        Some(a) => answer_record(a),
        None => Seq::empty(),
    })
}

fn push_u16(out: &mut Vec<u8>, x: u16)
    ensures
        final(out)@ == old(out)@ + be_bytes(x as nat, 2),
{
    let b = put_u16(x);
    push_bytes(out, b.as_slice());
}

/// Builds a response.
pub fn build_response(txid: u16, qname: &str, qtype: u16, ip: Option<[u8; 4]>, nxdomain: bool) -> (r:
    Vec<u8>)
    ensures
        r@ == response(
            txid,
            qname@,
            qtype,
            match ip {
                Some(a) => Some(a@),
                None => None,
            },
            nxdomain,
        ),
        is_writable(undotted(qname@)) ==> answers(
            r@,
            txid,
            qname@,
            qtype,
            match ip {
                Some(a) => Some(a@),
                None => None,
            },
            nxdomain,
        ),
{
    let mut out: Vec<u8> = Vec::new();
    push_u16(&mut out, txid);
    push_u16(
        &mut out,
        if ip.is_none() && nxdomain {
            0x8183
        } else {
            0x8180
        },
    );
    push_u16(&mut out, 1);
    push_u16(
        &mut out,
        if ip.is_some() {
            1
        } else {
            0
        },
    );
    let zeros: [u8; 4] = [0u8; 4];
    push_bytes(&mut out, zeros.as_slice());
    proof {
        assert(zeros@ =~= seq![0u8, 0u8, 0u8, 0u8]);
    }
    encode_name(&mut out, qname);
    push_u16(&mut out, qtype);
    push_u16(&mut out, 1);
    if let Some(a) = ip {
        let ghost before = out@;
        let pointer: [u8; 2] = [0xC0, 0x0C];
        push_bytes(&mut out, pointer.as_slice());
        push_u16(&mut out, 1);
        push_u16(&mut out, 1);
        let ttl = put_u32(60);
        push_bytes(&mut out, ttl.as_slice());
        push_u16(&mut out, 4);
        push_bytes(&mut out, a.as_slice());
        proof {
            assert(pointer@ =~= seq![0xC0u8, 0x0Cu8]);
            assert(out@ =~= before + answer_record(a@));
        }
    }
    proof {
        assert(out@ =~= response(
            txid,
            qname@,
            qtype,
            match ip {
                Some(a) => Some(a@),
                None => None,
            },
            nxdomain,
        ));
        if is_writable(undotted(qname@)) {
            responses_are_read_back(
                txid,
                qname@,
                qtype,
                match ip {
                    Some(a) => Some(a@),
                    None => None,
                },
                nxdomain,
            );
        }
    }
    out
}

/// What is known of a name.
pub enum Lookup {
    Nothing,
    Known(String),
    /// Ask these resolvers, one after the other.
    Ask { key: String, resolvers: Vec<u64> },
}

/// What a question comes to.
pub enum DnsStep {
    /// No answer.
    Ignore,
    Answer(Vec<u8>),
    /// Ask these resolvers for the name, then answer.
    Ask { txid: u16, name: String, qtype: u16, key: String, resolvers: Vec<u64> },
}

/// The names of the client's own, the names that were learned of late, and the resolvers of
/// the connections.
pub struct DnsRegistry {
    local: Table<String, String>,
    cache: Table<String, (String, u64)>,
    resolvers: Vec<u64>,
    next_id: u64,
}

/// The meaning of a cache: for each name its address and when it was learned.
pub open spec fn cache_view(m: Map<Seq<char>, (String, u64)>) -> Map<Seq<char>, (Seq<char>, u64)> {
    m.map_values(|e: (String, u64)| (e.0@, e.1))
}

impl DnsRegistry {
    pub closed spec fn wf(&self) -> bool {
        self.local.wf() && self.cache.wf()
    }

    /// The client's own names with their addresses.
    pub closed spec fn own(&self) -> Map<Seq<char>, Seq<char>> {
        self.local@.map_values(|ip: String| ip@)
    }

    /// For each name its address and when it was learned.
    pub closed spec fn cached(&self) -> Map<Seq<char>, (Seq<char>, u64)> {
        cache_view(self.cache@)
    }

    /// The resolvers, in the order in which they registered.
    pub closed spec fn registered(&self) -> Seq<u64> {
        self.resolvers@
    }

    /// The id that the next resolver gets.
    pub closed spec fn upcoming(&self) -> u64 {
        self.next_id
    }

    /// The address of a name: that of a name of the client's own, else the one that was
    /// learned of late.
    pub open spec fn fresh_address(&self, key: Seq<char>, now: u64) -> Option<Seq<char>> {
        if self.own().dom().contains(key) {
            Some(self.own()[key])
        } else if self.cached().dom().contains(key) && elapsed_ms(now, self.cached()[key].1)
            < CACHE_TTL_MS {
            Some(self.cached()[key].0)
        } else {
            None
        }
    }

    pub fn new() -> (r: Self)
        ensures
            r.wf(),
            r.own() == Map::<Seq<char>, Seq<char>>::empty(),
            r.cached() == Map::<Seq<char>, (Seq<char>, u64)>::empty(),
            r.registered() == Seq::<u64>::empty(),
            r.upcoming() == 1,
    {
        let r = DnsRegistry {
            local: Table::new(),
            cache: Table::new(),
            resolvers: Vec::new(),
            next_id: 1,
        };
        assert(r.own() =~= Map::<Seq<char>, Seq<char>>::empty());
        assert(r.cached() =~= Map::<Seq<char>, (Seq<char>, u64)>::empty());
        r
    }

    /// Forgets the client's own names.
    pub fn forget_local(&mut self)
        requires
            old(self).wf(),
        ensures
            final(self).wf(),
            final(self).own() == Map::<Seq<char>, Seq<char>>::empty(),
            final(self).cached() == old(self).cached(),
            final(self).registered() == old(self).registered(),
            final(self).upcoming() == old(self).upcoming(),
    {
        self.local = Table::new();
        assert(self.own() =~= Map::<Seq<char>, Seq<char>>::empty());
    }

    /// Enters a name of the client's own. A blank name, or one for what is no IPv4
    /// address, is not entered.
    pub fn set_local(&mut self, name: &str, ip: &str)
        requires
            old(self).wf(),
        ensures
            final(self).wf(),
            final(self).cached() == old(self).cached(),
            final(self).registered() == old(self).registered(),
            final(self).upcoming() == old(self).upcoming(),
            final(self).own() == (if canonical(name@).len() > 0 && is_ipv4(ip@) {
                old(self).own().insert(canonical(name@), ip@)
            } else {
                old(self).own()
            }),
    {
        let key = canonical_name(name);
        if key.as_str().is_empty() || parse_ipv4(ip).is_none() {
            return;
        }
        let ghost k = key@;
        self.local.insert(key, ip.to_owned());
        assert(self.own() =~= old(self).own().insert(k, ip@));
    }

    /// Learns the address of a name. A blank name, or what is no IPv4 address, is not
    /// learned.
    pub fn insert(&mut self, name: &str, ip: &str, now: u64)
        requires
            old(self).wf(),
        ensures
            final(self).wf(),
            final(self).own() == old(self).own(),
            final(self).registered() == old(self).registered(),
            final(self).upcoming() == old(self).upcoming(),
            final(self).cached() == (if canonical(name@).len() > 0 && is_ipv4(ip@) {
                old(self).cached().insert(canonical(name@), (ip@, now))
            } else {
                old(self).cached()
            }),
    {
        let key = canonical_name(name);
        if key.as_str().is_empty() || parse_ipv4(ip).is_none() {
            return;
        }
        self.store(key, ip, now);
    }

    /// Keeps the address of a name as it is.
    pub fn store(&mut self, key: String, ip: &str, now: u64)
        requires
            old(self).wf(),
        ensures
            final(self).wf(),
            final(self).own() == old(self).own(),
            final(self).registered() == old(self).registered(),
            final(self).upcoming() == old(self).upcoming(),
            final(self).cached() == old(self).cached().insert(key@, (ip@, now)),
    {
        let ghost k = key@;
        self.cache.insert(key, (ip.to_owned(), now));
        assert(self.cached() =~= old(self).cached().insert(k, (ip@, now)));
    }

    /// Whether there is an id for one more resolver.
    pub fn can_register(&self) -> (r: bool)
        ensures
            r == (self.upcoming() < u64::MAX),
    {
        self.next_id < u64::MAX
    }

    /// Enters a resolver. Returns its id.
    pub fn register(&mut self) -> (r: u64)
        requires
            old(self).wf(),
            old(self).upcoming() < u64::MAX,
        ensures
            final(self).wf(),
            r == old(self).upcoming(),
            final(self).own() == old(self).own(),
            final(self).upcoming() == old(self).upcoming() + 1,
            final(self).registered() == old(self).registered().push(r),
            final(self).cached() == old(self).cached(),
    {
        let id: u64 = self.next_id;
        self.next_id = self.next_id + 1;
        self.resolvers.push(id);
        id
    }

    /// Takes a resolver out.
    pub fn unregister(&mut self, id: u64)
        requires
            old(self).wf(),
        ensures
            final(self).wf(),
            final(self).upcoming() == old(self).upcoming(),
            final(self).registered() == old(self).registered().filter(|x: u64| x != id),
            final(self).own() == old(self).own(),
            final(self).cached() == old(self).cached(),
    {
        let mut list: Vec<u64> = Vec::new();
        std::mem::swap(&mut list, &mut self.resolvers);
        let keep = |x: &u64| -> (b: bool)
            ensures
                b == (*x != id),
        { *x != id };
        self.resolvers = keep_if(list, keep, Ghost(|x: u64| x != id));
    }

    /// Looks a name up.
    pub fn lookup(&self, name: &str, now: u64) -> (r: Lookup)
        requires
            self.wf(),
        ensures
            looked_up(*self, name@, now, r),
    {
        let key = canonical_name(name);
        if key.as_str().is_empty() {
            return Lookup::Nothing;
        }
        if let Some(ip) = self.local.get(&key) {
            assert(self.own().dom().contains(key@));
            return Lookup::Known(ip.clone());
        }
        if let Some((ip, at)) = self.cache.get(&key) {
            assert(self.cached().dom().contains(key@));
            if elapsed(now, *at) < CACHE_TTL_MS {
                return Lookup::Known(ip.clone());
            }
        }
        Lookup::Ask { key, resolvers: copy_ids(&self.resolvers) }
    }

    /// The names that are known, with their addresses, in order: the client's own, and
    /// those that were learned.
    pub fn cached_names(&self) -> (r: Aliases)
        requires
            self.wf(),
        ensures
            r.wf(),
            r@ == self.cached().map_values(
                |e: (Seq<char>, u64)| e.0,
            ).union_prefer_right(self.own()),
    {
        let mut all = self.learned_names();
        let ghost learned = all@;
        let ghost ids = self.local.ids();
        let mut i: usize = 0;
        assert(learned.union_prefer_right(Map::<Seq<char>, Seq<char>>::empty()) =~= learned);
        while i < self.local.len()
            invariant
                self.wf(),
                all.wf(),
                ids == self.local.ids(),
                i <= ids.len(),
                forall|j: int| 0 <= j < i ==> all@.dom().contains(#[trigger] ids[j]),
                forall|k: Seq<char>|
                    all@.dom().contains(k) ==> learned.dom().contains(k) || self.own().dom().contains(
                        k,
                    ),
                forall|k: Seq<char>| learned.dom().contains(k) ==> all@.dom().contains(k),
                forall|j: int| 0 <= j < i ==> all@[#[trigger] ids[j]] == self.own()[ids[j]],
                forall|k: Seq<char>|
                    #![trigger all@[k]]
                    learned.dom().contains(k) && !self.own().dom().contains(k) ==> all@[k]
                        == learned[k],
            decreases ids.len() - i,
        {
            let key = self.local.key_at(i);
            let ip = self.local.value_at(i);
            proof {
                self.local.lemma_at(i as int);
                assert(self.own().dom().contains(ids[i as int]));
                assert(self.own()[ids[i as int]] == ip@);
            }
            all.insert(key.clone(), ip.clone());
            i = i + 1;
        }
        proof {
            self.local.lemma_dom();
            let want = learned.union_prefer_right(self.own());
            assert forall|k: Seq<char>| self.own().dom().contains(k) implies all@.dom().contains(k)
                && all@[k] == self.own()[k] by {
                assert(self.local@.dom().contains(k));
                assert(ids.contains(k));
                let j = choose|j: int| 0 <= j < ids.len() && ids[j] == k;
                assert(all@.dom().contains(ids[j]));
            }
            assert(all@ =~= want);
        }
        all
    }

    /// The names that were learned, with their addresses, in order.
    fn learned_names(&self) -> (r: Aliases)
        requires
            self.wf(),
        ensures
            r.wf(),
            r@ == self.cached().map_values(|e: (Seq<char>, u64)| e.0),
    {
        let mut out = Aliases::new();
        let mut i: usize = 0;
        let ghost m = self.cache@;
        let ghost ids = self.cache.ids();
        let ghost want = self.cached().map_values(|e: (Seq<char>, u64)| e.0);
        while i < self.cache.len()
            invariant
                self.wf(),
                out.wf(),
                m == self.cache@,
                ids == self.cache.ids(),
                want == self.cached().map_values(|e: (Seq<char>, u64)| e.0),
                i <= ids.len(),
                forall|j: int| 0 <= j < i ==> out@.dom().contains(#[trigger] ids[j]),
                out@.submap_of(want),
            decreases ids.len() - i,
        {
            let key = self.cache.key_at(i);
            let e = self.cache.value_at(i);
            proof {
                let k = ids[i as int];
                assert(self.cached().dom().contains(k));
                assert(want.dom().contains(k));
                assert(want[k] == e.0@);
            }
            out.insert(key.clone(), e.0.clone());
            i = i + 1;
        }
        proof {
            self.cache.lemma_dom();
            assert forall|k: Seq<char>| want.dom().contains(k) implies out@.dom().contains(k) by {
                assert(m.dom().contains(k));
                assert(ids.contains(k));
                let j = choose|j: int| 0 <= j < ids.len() && ids[j] == k;
                assert(out@.dom().contains(ids[j]));
            }
            assert(out@ =~= want);
        }
        out
    }

    /// Answers a question where the name is known.
    fn start_query(&self, pkt: &[u8], now: u64) -> (r: DnsStep)
        requires
            self.wf(),
        ensures
            query_begun(*self, pkt@, now, r),
    {
        let (txid, name, qtype) = match parse_query(pkt) {
            Some(q) => q,
            None => {
                return DnsStep::Ignore;
            },
        };
        if name.as_str().is_empty() {
            return DnsStep::Ignore;
        }
        if qtype != 1 {
            return DnsStep::Answer(build_response(txid, name.as_str(), qtype, None, false));
        }
        match self.lookup(name.as_str(), now) {
            Lookup::Nothing => DnsStep::Answer(
                build_response(txid, name.as_str(), qtype, None, true),
            ),
            Lookup::Known(ip) => DnsStep::Answer(
                answer_name(txid, name.as_str(), Some(ip.as_str())),
            ),
            Lookup::Ask { key, resolvers } => DnsStep::Ask { txid, name, qtype, key, resolvers },
        }
    }

    /// Answers a question as far as it can be answered at once.
    pub fn begin_query(&self, pkt: &[u8], now: u64) -> (r: DnsStep)
        requires
            self.wf(),
        ensures
            query_begun(*self, pkt@, now, r),
            forall|txid: u16, name: Seq<char>, a: Seq<u8>|
                #![trigger names_its_address(r, txid, name, a)]
                asks(pkt@, txid, name, 1) && is_spelled_well(name) && a.len() == 4 && knows(
                    *self,
                    lowered(name),
                    now,
                    crate::net::ipv4_chars(a),
                ) ==> names_its_address(r, txid, name, a),
    {
        let r = self.start_query(pkt, now);
        proof {
            assert forall|txid: u16, name: Seq<char>, a: Seq<u8>|
                #![trigger names_its_address(r, txid, name, a)]
                asks(pkt@, txid, name, 1) && is_spelled_well(name) && a.len() == 4 && knows(
                    *self,
                    lowered(name),
                    now,
                    crate::net::ipv4_chars(a),
                ) implies names_its_address(r, txid, name, a) by {
                a_device_is_found_by_its_name(*self, pkt@, txid, name, now, r, a);
            }
        }
        r
    }
}

/// What a look-up of a name comes to.
pub open spec fn looked_up(reg: DnsRegistry, name: Seq<char>, now: u64, r: Lookup) -> bool {
    let key = canonical(name);
    if key.len() == 0 {
        r is Nothing
    } else {
        match reg.fresh_address(key, now) {
            Some(ip) => r is Known && r->Known_0@ == ip,
            None => r is Ask && r->key@ == key && r->resolvers@ == reg.registered(),
        }
    }
}

/// What a question comes to, as far as it can be answered at once.
pub open spec fn query_begun(reg: DnsRegistry, pkt: Seq<u8>, now: u64, r: DnsStep) -> bool {
    match question(pkt) {
        None => r is Ignore,
        Some((txid, name, qtype)) => if name.len() == 0 {
            r is Ignore
        } else if qtype != 1 {
            r is Answer && r->Answer_0@ == response(txid, name, qtype, None, false)
        } else if canonical(name).len() == 0 {
            r is Answer && r->Answer_0@ == response(txid, name, qtype, None, true)
        } else {
            match reg.fresh_address(canonical(name), now) {
                Some(ip) => r is Answer && r->Answer_0@ == name_answer(
                    txid,
                    name,
                    Some(ip),
                ),
                None => {
                    &&& r is Ask
                    &&& r->Ask_txid == txid
                    &&& r->Ask_name@ == name
                    &&& r->Ask_qtype == qtype
                    &&& r->Ask_key@ == canonical(name)
                    &&& r->Ask_resolvers@ == reg.registered()
                },
            }
        },
    }
}

fn copy_ids(v: &Vec<u64>) -> (r: Vec<u64>)
    ensures
        r@ == v@,
{
    let mut out: Vec<u64> = Vec::new();
    let mut i: usize = 0;
    while i < v.len()
        invariant
            i <= v@.len(),
            out@ == v@.take(i as int),
        decreases v@.len() - i,
    {
        out.push(v[i]);
        assert(out@ =~= v@.take(i + 1));
        i = i + 1;
    }
    assert(out@ =~= v@);
    out
}

/// The answer to a question for the IPv4 address of a name, once it was looked up.
/// A name without an address, or with one that is no IPv4 address, does not exist.
pub open spec fn name_answer(txid: u16, name: Seq<char>, ip: Option<Seq<char>>) -> Seq<u8> {
    if ip is Some && is_ipv4(ip->0) {
        response(txid, name, 1, Some(ipv4_octets(ip->0)), false)
    } else {
        response(txid, name, 1, None, true)
    }
}

/// Answers a question for the IPv4 address of a name, once it was looked up.
pub fn answer_name(txid: u16, name: &str, ip: Option<&str>) -> (r: Vec<u8>)
    ensures
        r@ == name_answer(
            txid,
            name@,
            match ip {
                Some(t) => Some(t@),
                None => None,
            },
        ),
{
    let addr: Option<[u8; 4]> = match ip {
        Some(t) => parse_ipv4(t),
        None => None,
    };
    build_response(txid, name, 1, addr, addr.is_none())
}

/// What to do next to find the address of a name by asking resolvers.
pub enum AskStep {
    /// Ask this resolver.
    Ask(u64),
    /// It is found out: the address, or that nobody knows one.
    Done(Option<String>),
}

/// Goes on asking resolvers for a name. `asked` of them were asked so far, and `last` is
/// what the last one of these answered.
pub fn ask_next(resolvers: &Vec<u64>, asked: usize, last: Option<String>) -> (r: AskStep)
    ensures
        r == next_step(resolvers@, asked as nat, last),
{
    if last.is_some() {
        return AskStep::Done(last);
    }
    if asked < resolvers.len() {
        AskStep::Ask(resolvers[asked])
    } else {
        AskStep::Done(None)
    }
}

/// What to do next: the first answer counts, and without one the next resolver is asked
/// as long as there is one.
pub open spec fn next_step(resolvers: Seq<u64>, asked: nat, last: Option<String>) -> AskStep {
    if last is Some {
        AskStep::Done(last)
    } else if asked < resolvers.len() {
        AskStep::Ask(resolvers[asked as int])
    } else {
        AskStep::Done(None)
    }
}

/// What asking comes to, step by step, where each resolver answers as `answers` says:
/// which resolvers are asked from here on, and the address.
pub open spec fn inquiry(
    resolvers: Seq<u64>,
    answers: spec_fn(u64) -> Option<String>,
    asked: nat,
    last: Option<String>,
) -> (Seq<u64>, Option<String>)
    decreases resolvers.len() - asked,
    when asked <= resolvers.len()
{
    match next_step(resolvers, asked, last) {
        AskStep::Done(ip) => (Seq::empty(), ip),
        AskStep::Ask(id) => {
            let (rest, ip) = inquiry(resolvers, answers, asked + 1, answers(id));
            (seq![id] + rest, ip)
        },
    }
}

/// Resolvers are asked in the order in which they registered, until one answers; its answer
/// counts, and those behind it are not asked. `k` is the number of resolvers that are asked
/// in vain.
pub proof fn resolvers_are_asked_in_turn(
    resolvers: Seq<u64>,
    answers: spec_fn(u64) -> Option<String>,
    k: int,
)
    requires
        0 <= k <= resolvers.len(),
        forall|i: int| 0 <= i < k ==> answers(#[trigger] resolvers[i]) is None,
        k < resolvers.len() ==> answers(resolvers[k]) is Some,
    ensures
        inquiry(resolvers, answers, 0, None) == (if k < resolvers.len() {
            (resolvers.take(k + 1), answers(resolvers[k]))
        } else {
            (resolvers, None::<String>)
        }),
{
    lemma_inquiry(resolvers, answers, 0, k);
    assert(resolvers.subrange(0, resolvers.len() as int) =~= resolvers);
    if k < resolvers.len() {
        assert(resolvers.subrange(0, k + 1) =~= resolvers.take(k + 1));
    }
}

proof fn lemma_inquiry(
    resolvers: Seq<u64>,
    answers: spec_fn(u64) -> Option<String>,
    asked: nat,
    k: int,
)
    requires
        asked <= k <= resolvers.len(),
        forall|i: int| 0 <= i < k ==> answers(#[trigger] resolvers[i]) is None,
        k < resolvers.len() ==> answers(resolvers[k]) is Some,
    ensures
        inquiry(resolvers, answers, asked, None) == (if k < resolvers.len() {
            (resolvers.subrange(asked as int, k + 1), answers(resolvers[k]))
        } else {
            (resolvers.subrange(asked as int, resolvers.len() as int), None::<String>)
        }),
    decreases k - asked,
{
    if asked < k {
        lemma_inquiry(resolvers, answers, asked + 1, k);
        assert(answers(resolvers[asked as int]) is None);
        let end = if k < resolvers.len() {
            k + 1
        } else {
            resolvers.len() as int
        };
        assert(seq![resolvers[asked as int]] + resolvers.subrange(asked as int + 1, end)
            =~= resolvers.subrange(asked as int, end));
    } else if k < resolvers.len() {
        let ip = answers(resolvers[k]);
        assert(inquiry(resolvers, answers, asked + 1, ip) == (Seq::<u64>::empty(), ip));
        assert(seq![resolvers[k]] + Seq::<u64>::empty() =~= resolvers.subrange(k, k + 1));
    } else {
        assert(resolvers.subrange(asked as int, resolvers.len() as int) =~= Seq::<u64>::empty());
    }
}

/// An address that was found is given at once to everyone who asks within a minute, however
/// the name is spelled; no resolver is asked again.
pub proof fn a_found_address_is_given_again(
    before: DnsRegistry,
    after: DnsRegistry,
    key: Seq<char>,
    ip: Seq<char>,
    at: u64,
    name: Seq<char>,
    now: u64,
)
    requires
        after.own() == before.own(),
        after.cached() == before.cached().insert(key, (ip, at)),
        !before.own().dom().contains(key),
        canonical(name) == key,
        elapsed_ms(now, at) < CACHE_TTL_MS,
    ensures
        after.fresh_address(canonical(name), now) == Some(ip),
{
}

/// A name of the client's own has its own address, whatever was learned of it.
pub proof fn own_names_come_first(reg: DnsRegistry, key: Seq<char>, now: u64)
    requires
        reg.own().dom().contains(key),
    ensures
        reg.fresh_address(key, now) == Some(reg.own()[key]),
{
}

/// A response carries the number of its question, is marked as a response, says
/// NXDOMAIN exactly where the name does not exist and no answer is given, and counts its
/// answer.
pub proof fn responses_are_well_formed(
    txid: u16,
    qname: Seq<char>,
    qtype: u16,
    ip: Option<Seq<u8>>,
    nxdomain: bool,
)
    ensures
        ({
            let r = response(txid, qname, qtype, ip, nxdomain);
            &&& r.len() >= DNS_HEADER_LEN
            &&& be_nat(r.subrange(0, 2)) == txid
            &&& r[2] == 0x81
            &&& r[3] == (if ip is None && nxdomain {
                0x83u8
            } else {
                0x80u8
            })
            &&& be_nat(r.subrange(4, 6)) == 1
            &&& be_nat(r.subrange(6, 8)) == (if ip is Some {
                1int
            } else {
                0int
            })
        }),
{
    let r = response(txid, qname, qtype, ip, nxdomain);
    lemma_u16_round_trip(txid);
    lemma_u16_round_trip(1);
    lemma_u16_round_trip(0);
    lemma_u16_round_trip(0x8180);
    lemma_u16_round_trip(0x8183);
    assert(r.subrange(0, 2) =~= be_bytes(txid as nat, 2));
    assert(r.subrange(4, 6) =~= be_bytes(1, 2));
    assert(r.subrange(6, 8) =~= be_bytes(
        if ip is Some {
            1
        } else {
            0
        },
        2,
    ));
    reveal_with_fuel(be_bytes, 3);
}

/// A question is never taken for an answer, and the other way round: no response is
/// read as a question.
pub proof fn responses_are_no_questions(
    txid: u16,
    qname: Seq<char>,
    qtype: u16,
    ip: Option<Seq<u8>>,
    nxdomain: bool,
)
    ensures
        question(response(txid, qname, qtype, ip, nxdomain)) is None,
{
    responses_are_well_formed(txid, qname, qtype, ip, nxdomain);
}

/// Whether a message asks for a name: its header says that it is a question and the only
/// one, whatever else the header says, and the name and what is asked stand behind the
/// header, whatever follows.
pub open spec fn asks(pkt: Seq<u8>, txid: u16, name: Seq<char>, qtype: u16) -> bool {
    let end = DNS_HEADER_LEN + name_bytes(name).len();
    &&& end + 4 <= pkt.len()
    &&& pkt.subrange(0, 2) == be_bytes(txid as nat, 2)
    &&& pkt[2] < 128
    &&& pkt.subrange(4, 6) == be_bytes(1, 2)
    &&& pkt.subrange(DNS_HEADER_LEN as int, end as int) == name_bytes(name)
    &&& pkt.subrange(end as int, end + 2) == be_bytes(qtype as nat, 2)
}

/// The name that a question is for.
pub open spec fn asked_name(pkt: Seq<u8>) -> Option<Seq<char>> {
    match question(pkt) {
        Some((_, name, _)) => Some(name),
        None => None,
    }
}

/// Whether all labels of a name can be written.
pub open spec fn is_writable(name: Seq<char>) -> bool {
    forall|i: int| 0 <= i < fields(name, '.').len() ==> writable(#[trigger] fields(name, '.')[i])
}

/// One label, behind its length.
spec fn one_label(label: Seq<char>) -> Seq<u8> {
    if writable(label) {
        seq![encode_utf8(label).len() as u8] + encode_utf8(label)
    } else {
        Seq::empty()
    }
}

proof fn lemma_labels_from_left(labels: Seq<Seq<char>>)
    requires
        labels.len() > 0,
    ensures
        label_bytes(labels) == one_label(labels[0]) + label_bytes(labels.skip(1)),
    decreases labels.len(),
{
    let front = labels.drop_last();
    if labels.len() == 1 {
        assert(front =~= Seq::<Seq<char>>::empty());
        assert(labels.skip(1) =~= Seq::<Seq<char>>::empty());
        assert(label_bytes(labels) =~= one_label(labels[0]) + label_bytes(labels.skip(1)));
    } else {
        lemma_labels_from_left(front);
        assert(front.skip(1) =~= labels.skip(1).drop_last());
        assert(label_bytes(labels) =~= one_label(labels[0]) + label_bytes(labels.skip(1)));
    }
}

/// Labels put behind a name one after the other.
spec fn extended(name: Seq<char>, labels: Seq<Seq<char>>) -> Seq<char>
    decreases labels.len(),
{
    if labels.len() == 0 {
        name
    } else {
        extended(with_label(name, encode_utf8(labels[0])), labels.skip(1))
    }
}

proof fn lemma_read_labels(pkt: Seq<u8>, pos: int, sofar: Seq<char>, labels: Seq<Seq<char>>)
    requires
        0 <= pos,
        forall|i: int| 0 <= i < labels.len() ==> writable(#[trigger] labels[i]),
        pos + label_bytes(labels).len() + 1 <= pkt.len(),
        pkt.subrange(pos, pos + label_bytes(labels).len() + 1) == label_bytes(labels).push(0),
    ensures
        name_at(pkt, pos, sofar) == Some(
            (extended(sofar, labels), pos + label_bytes(labels).len() + 1),
        ),
    decreases labels.len(),
{
    let all = label_bytes(labels).push(0);
    let w = pkt.subrange(pos, pos + all.len());
    if labels.len() == 0 {
        assert(all[0] == 0);
        assert(w[0] == pkt[pos]);
    } else {
        lemma_labels_from_left(labels);
        let bytes = encode_utf8(labels[0]);
        let rest = labels.skip(1);
        let n = bytes.len() as int;
        assert(writable(labels[0]));
        assert(all[0] == n as u8);
        assert(w[0] == pkt[pos]);
        assert(pkt[pos] == n);
        assert(pkt.subrange(pos + 1, pos + 1 + n) =~= bytes) by {
            assert forall|j: int| 0 <= j < n implies pkt[pos + 1 + j] == bytes[j] by {
                assert(w[1 + j] == all[1 + j]);
            }
        }
        assert(label_bytes(labels).len() == 1 + n + label_bytes(rest).len());
        assert(pkt.subrange(
            pos + 1 + n,
            pos + 1 + n + label_bytes(rest).len() + 1,
        ) =~= label_bytes(rest).push(0)) by {
            assert forall|j: int| 0 <= j < label_bytes(rest).len() + 1 implies pkt[pos + 1 + n + j]
                == label_bytes(rest).push(0)[j] by {
                assert(w[1 + n + j] == all[1 + n + j]);
            }
        }
        assert forall|i: int| 0 <= i < rest.len() implies writable(#[trigger] rest[i]) by {
            assert(rest[i] == labels[i + 1]);
        }
        lemma_read_labels(pkt, pos + 1 + n, with_label(sofar, bytes), rest);
    }
}

proof fn lemma_extended_from_right(name: Seq<char>, labels: Seq<Seq<char>>)
    requires
        labels.len() > 0,
    ensures
        extended(name, labels) == with_label(
            extended(name, labels.drop_last()),
            encode_utf8(labels.last()),
        ),
    decreases labels.len(),
{
    let front = labels.drop_last();
    if labels.len() == 1 {
        assert(labels.skip(1) =~= Seq::<Seq<char>>::empty());
        assert(front =~= Seq::<Seq<char>>::empty());
        reveal_with_fuel(extended, 2);
    } else {
        let next = with_label(name, encode_utf8(labels[0]));
        lemma_extended_from_right(next, labels.skip(1));
        assert(labels.skip(1).drop_last() =~= front.skip(1));
        assert(labels.skip(1).last() == labels.last());
        assert(front[0] == labels[0]);
    }
}

/// Texts with dots between them.
spec fn dotted(f: Seq<Seq<char>>) -> Seq<char>
    decreases f.len(),
{
    if f.len() == 0 {
        Seq::empty()
    } else if f.len() == 1 {
        f[0]
    } else {
        dotted(f.drop_last()).push('.') + f.last()
    }
}

proof fn lemma_dotted_fields(s: Seq<char>)
    ensures
        dotted(fields(s, '.')) == s,
        fields(s, '.').len() > 0,
    decreases s.len(),
{
    let f = fields(s, '.');
    if s.len() == 0 {
        assert(dotted(f) =~= s);
    } else {
        let t = s.drop_last();
        lemma_dotted_fields(t);
        let ft = fields(t, '.');
        if s.last() == '.' {
            assert(f.drop_last() =~= ft);
            assert(dotted(f) =~= s);
        } else {
            assert(f.drop_last() =~= ft.drop_last());
            assert(f.last() == ft.last().push(s.last()));
            assert(t.push(s.last()) =~= s);
            if ft.len() == 1 {
                assert(dotted(ft) == ft[0]);
                assert(dotted(f) == f[0]);
            } else {
                assert(dotted(ft) == dotted(ft.drop_last()).push('.') + ft.last());
                assert(dotted(f) =~= dotted(ft).push(s.last()));
            }
        }
    }
}

proof fn lemma_extended_is_dotted(labels: Seq<Seq<char>>)
    requires
        forall|i: int| 0 <= i < labels.len() ==> writable(#[trigger] labels[i]),
    ensures
        extended(Seq::empty(), labels) == dotted(labels),
        labels.len() > 0 ==> dotted(labels).len() > 0,
    decreases labels.len(),
{
    if labels.len() > 0 {
        let front = labels.drop_last();
        let last = labels.last();
        assert forall|i: int| 0 <= i < front.len() implies writable(#[trigger] front[i]) by {
            assert(front[i] == labels[i]);
        }
        lemma_extended_is_dotted(front);
        lemma_extended_from_right(Seq::empty(), labels);
        encode_utf8_decode_utf8(last);
        encode_utf8_valid_utf8(last);
        assert(writable(labels[labels.len() - 1]));
        assert(last.len() > 0) by {
            if last.len() == 0 {
                assert(last =~= Seq::<char>::empty());
                assert(encode_utf8(last).len() == 0);
            }
        }
        if labels.len() == 1 {
            assert(front =~= Seq::<Seq<char>>::empty());
            assert(extended(Seq::<char>::empty(), front) =~= Seq::<char>::empty());
            assert(extended(Seq::empty(), labels) =~= dotted(labels));
        } else {
            assert(extended(Seq::empty(), labels) =~= dotted(labels));
        }
    }
}

/// Dots at the end of a name are not written.
proof fn lemma_undotted_bytes(name: Seq<char>)
    ensures
        name_bytes(undotted(name)) == name_bytes(name),
    decreases name.len(),
{
    if name.len() > 0 && name.last() == '.' {
        let front = name.drop_last();
        let f = fields(name, '.');
        lemma_undotted_bytes(front);
        assert(f.drop_last() =~= fields(front, '.'));
        assert(f.last() =~= Seq::<char>::empty());
        assert(encode_utf8(f.last()).len() == 0);
    }
}

/// Every question for a name is read back: the number, the name in lower case and without
/// the dots at its end, and what is asked. That holds of every name whose labels can be
/// written, with one to sixty-three bytes each.
pub proof fn questions_are_read_back(pkt: Seq<u8>, txid: u16, name: Seq<char>, qtype: u16)
    requires
        asks(pkt, txid, name, qtype),
        is_writable(undotted(name)),
    ensures
        question(pkt) == Some((txid, lowered(undotted(name)), qtype)),
{
    let bare = undotted(name);
    let labels = fields(bare, '.');
    lemma_u16_round_trip(txid);
    lemma_u16_round_trip(1);
    lemma_u16_round_trip(qtype);
    lemma_undotted_bytes(name);
    lemma_dotted_fields(bare);
    lemma_extended_is_dotted(labels);
    let n = label_bytes(labels).len() as int;
    assert(pkt.subrange(12, 12 + n + 1) =~= label_bytes(labels).push(0));
    lemma_read_labels(pkt, 12, Seq::empty(), labels);
    lemma_last_label(bare);
}

/// Whether two ASCII names are the same but for capitals and small letters and for dots at
/// their ends.
pub open spec fn same_name(a: Seq<char>, b: Seq<char>) -> bool {
    let x = undotted(a);
    let y = undotted(b);
    &&& is_ascii_chars(x) && is_ascii_chars(y)
    &&& x.len() == y.len()
    &&& forall|i: int| 0 <= i < x.len() ==> ascii_lower(#[trigger] x[i]) == ascii_lower(y[i])
}

/// However a name is spelled, in capitals or small letters, with or without a dot at its
/// end, the same name is read from the question.
pub proof fn spelling_makes_no_difference(
    p: Seq<u8>,
    q: Seq<u8>,
    txid_p: u16,
    txid_q: u16,
    a: Seq<char>,
    b: Seq<char>,
    qtype: u16,
)
    requires
        asks(p, txid_p, a, qtype),
        asks(q, txid_q, b, qtype),
        is_writable(undotted(a)),
        is_writable(undotted(b)),
        same_name(a, b),
    ensures
        asked_name(p) is Some,
        asked_name(p) == asked_name(q),
{
    questions_are_read_back(p, txid_p, a, qtype);
    questions_are_read_back(q, txid_q, b, qtype);
    assert(lowered(undotted(a)) =~= lowered(undotted(b)));
}

/// A name whose last label can be written does not end in a dot.
proof fn lemma_last_label(name: Seq<char>)
    requires
        fields(name, '.').len() > 0,
        writable(fields(name, '.').last()),
    ensures
        undotted(name) == name,
{
    if name.len() > 0 && name.last() == '.' {
        let last = fields(name, '.').last();
        assert(last =~= Seq::<char>::empty());
        assert(encode_utf8(last).len() == 0);
    }
}

/// The name that stands at a place of a message, spelled out or as a pointer to where it
/// is spelled out, and where it ends.
pub open spec fn name_or_pointer(pkt: Seq<u8>, pos: int) -> Option<(Seq<char>, int)> {
    if 0 <= pos < pkt.len() - 1 && pkt[pos] >= 0xC0 {
        match name_at(pkt, (pkt[pos] - 0xC0) * 256 + pkt[pos + 1], Seq::empty()) {
            Some((name, _)) => Some((name, pos + 2)),
            None => None,
        }
    } else {
        name_at(pkt, pos, Seq::empty())
    }
}

/// Whether one record stands at a place of a message, and ends it: for a name, of a type
/// and class, good for some seconds, with some data.
pub open spec fn ends_in_record(
    pkt: Seq<u8>,
    pos: int,
    name: Seq<char>,
    typ: nat,
    class: nat,
    seconds: nat,
    data: Seq<u8>,
) -> bool {
    match name_or_pointer(pkt, pos) {
        Some((n, at)) => {
            &&& n == name
            &&& at + 10 <= pkt.len()
            &&& be_nat(pkt.subrange(at, at + 2)) == typ
            &&& be_nat(pkt.subrange(at + 2, at + 4)) == class
            &&& be_nat(pkt.subrange(at + 4, at + 8)) == seconds
            &&& be_nat(pkt.subrange(at + 8, at + 10)) == data.len()
            &&& pkt.skip(at + 10) == data
        },
        None => false,
    }
}

/// Whether a message answers a question for a name, read by the format of messages: it
/// repeats the question, and where there is an address it goes on with one record for the
/// name that was asked for, of type A (1) and class IN (1), good for sixty seconds, whose
/// data are the four bytes of the address.
pub open spec fn answers(
    r: Seq<u8>,
    txid: u16,
    name: Seq<char>,
    qtype: u16,
    ip: Option<Seq<u8>>,
    nxdomain: bool,
) -> bool {
    let end = 12 + name_bytes(name).len() as int;
    &&& be_nat(r.subrange(0, 2)) == txid
    &&& r[2] >= 128
    &&& r[3] % 16 == (if ip is None && nxdomain {
        3int
    } else {
        0int
    })
    &&& be_nat(r.subrange(4, 6)) == 1
    &&& be_nat(r.subrange(6, 8)) == (if ip is Some {
        1int
    } else {
        0int
    })
    &&& be_nat(r.subrange(8, 10)) == 0 && be_nat(r.subrange(10, 12)) == 0
    &&& name_at(r, 12, Seq::empty()) == Some((undotted(name), end))
    &&& be_nat(r.subrange(end, end + 2)) == qtype
    &&& be_nat(r.subrange(end + 2, end + 4)) == 1
    &&& match ip {
        Some(a) => ends_in_record(r, end + 4, undotted(name), 1, 1, 60, a),
        None => r.len() == end + 4,
    }
}

/// A response read by the format of messages: it repeats the question, and where it has
/// an address it goes on with one record for the name that was asked for, of type A (1)
/// and class IN (1), good for sixty seconds, whose data are the four bytes of the address.
/// Without an address nothing follows the question.
pub proof fn responses_are_read_back(
    txid: u16,
    name: Seq<char>,
    qtype: u16,
    ip: Option<Seq<u8>>,
    nxdomain: bool,
)
    requires
        is_writable(undotted(name)),
        ip is Some ==> ip->0.len() == 4,
    ensures
        answers(response(txid, name, qtype, ip, nxdomain), txid, name, qtype, ip, nxdomain),
{
    let r = response(txid, name, qtype, ip, nxdomain);
    let bare = undotted(name);
    let labels = fields(bare, '.');
    responses_are_well_formed(txid, name, qtype, ip, nxdomain);
    lemma_response_parts(txid, name, qtype, ip, nxdomain);
    lemma_u16_round_trip(qtype);
    lemma_u16_round_trip(0);
    lemma_u16_round_trip(1);
    lemma_undotted_bytes(name);
    lemma_dotted_fields(bare);
    lemma_extended_is_dotted(labels);
    let end = 12 + name_bytes(name).len() as int;
    assert(name_bytes(name) == label_bytes(labels).push(0));
    lemma_read_labels(r, 12, Seq::empty(), labels);
    assert(be_nat(seq![0u8, 0u8]) == 0) by {
        reveal_with_fuel(be_nat, 3);
    }
    if ip is Some {
        lemma_record_parts(ip->0);
        let at = end + 4;
        let rec = answer_record(ip->0);
        assert(r.skip(at) == rec);
        assert(r[at] == rec[0] && r[at + 1] == rec[1]);
        assert(name_or_pointer(r, at) == Some((bare, at + 2)));
        assert(r.subrange(at + 2, at + 4) =~= rec.subrange(2, 4));
        assert(r.subrange(at + 4, at + 6) =~= rec.subrange(4, 6));
        assert(r.subrange(at + 6, at + 10) =~= rec.subrange(6, 10));
        assert(r.subrange(at + 10, at + 12) =~= rec.subrange(10, 12));
        assert(r.skip(at + 12) =~= rec.skip(12));
        lemma_u16_round_trip(4);
        crate::bytes::lemma_u32_round_trip(60);
    }
}

proof fn lemma_record_parts(ip: Seq<u8>)
    requires
        ip.len() == 4,
    ensures
        ({
            let rec = answer_record(ip);
            &&& rec.len() == 16
            &&& rec[0] == 0xC0 && rec[1] == 0x0C
            &&& rec.subrange(2, 4) == be_bytes(1, 2)
            &&& rec.subrange(4, 6) == be_bytes(1, 2)
            &&& rec.subrange(6, 10) == be_bytes(60, 4)
            &&& rec.subrange(10, 12) == be_bytes(4, 2)
            &&& rec.skip(12) == ip
        }),
{
    lemma_u16_round_trip(1);
    lemma_u16_round_trip(4);
    crate::bytes::lemma_u32_round_trip(60);
    let rec = answer_record(ip);
    assert(rec.subrange(2, 4) =~= be_bytes(1, 2));
    assert(rec.subrange(4, 6) =~= be_bytes(1, 2));
    assert(rec.subrange(6, 10) =~= be_bytes(60, 4));
    assert(rec.subrange(10, 12) =~= be_bytes(4, 2));
    assert(rec.skip(12) =~= ip);
}

proof fn lemma_response_parts(
    txid: u16,
    name: Seq<char>,
    qtype: u16,
    ip: Option<Seq<u8>>,
    nxdomain: bool,
)
    ensures
        ({
            let r = response(txid, name, qtype, ip, nxdomain);
            let nb = name_bytes(name);
            let end = 12 + nb.len() as int;
            let tail = match ip {
                Some(a) => answer_record(a),
                None => Seq::<u8>::empty(),
            };
            &&& r.len() == end + 4 + tail.len()
            &&& r.subrange(8, 10) == seq![0u8, 0u8]
            &&& r.subrange(10, 12) == seq![0u8, 0u8]
            &&& r.subrange(12, end) == nb
            &&& r.subrange(end, end + 2) == be_bytes(qtype as nat, 2)
            &&& r.subrange(end + 2, end + 4) == be_bytes(1, 2)
            &&& r.skip(end + 4) == tail
        }),
{
    lemma_u16_round_trip(txid);
    lemma_u16_round_trip(qtype);
    lemma_u16_round_trip(0);
    lemma_u16_round_trip(1);
    lemma_u16_round_trip(0x8180);
    lemma_u16_round_trip(0x8183);
    let r = response(txid, name, qtype, ip, nxdomain);
    let nb = name_bytes(name);
    let end = 12 + nb.len() as int;
    assert(r.subrange(8, 10) =~= seq![0u8, 0u8]);
    assert(r.subrange(10, 12) =~= seq![0u8, 0u8]);
    assert(r.subrange(12, end) =~= nb);
    assert(r.subrange(end, end + 2) =~= be_bytes(qtype as nat, 2));
    assert(r.subrange(end + 2, end + 4) =~= be_bytes(1, 2));
    assert(r.skip(end + 4) =~= (match ip {
        Some(a) => answer_record(a),
        None => Seq::<u8>::empty(),
    }));
}

/// Whether the registry knows the address of a name at an instant: as one of the client's
/// own, or learned less than a minute ago.
pub open spec fn knows(reg: DnsRegistry, key: Seq<char>, now: u64, ip: Seq<char>) -> bool {
    if reg.own().dom().contains(key) {
        reg.own()[key] == ip
    } else {
        reg.cached().dom().contains(key) && reg.cached()[key].0 == ip && now
            < reg.cached()[key].1 + 60_000
    }
}

/// A question for the IPv4 address of a name that is known is answered at once, with the
/// number of the question and with the address; one for a name that is not known is put to
/// all resolvers, in their order; and one for anything else than an IPv4 address gets an
/// answer without a record, which does not deny the name.
pub proof fn a_known_name_is_answered(
    reg: DnsRegistry,
    pkt: Seq<u8>,
    txid: u16,
    name: Seq<char>,
    qtype: u16,
    now: u64,
    r: DnsStep,
    ip: Seq<char>,
)
    requires
        asks(pkt, txid, name, qtype),
        is_writable(undotted(name)),
        is_writable(lowered(undotted(name))),
        undotted(lowered(undotted(name))) == lowered(undotted(name)),
        canonical(lowered(undotted(name))) == lowered(undotted(name)),
        lowered(undotted(name)).len() > 0,
        is_ipv4(ip),
        ipv4_octets(ip).len() == 4,
        query_begun(reg, pkt, now, r),
    ensures
        ({
            let key = lowered(undotted(name));
            let end = 12 + name_bytes(key).len() as int;
            let a = r->Answer_0@;
            &&& qtype == 1 && knows(reg, key, now, ip) ==> {
                &&& r is Answer
                &&& be_nat(a.subrange(0, 2)) == txid
                &&& a[3] % 16 == 0
                &&& be_nat(a.subrange(6, 8)) == 1
                &&& ends_in_record(a, end + 4, key, 1, 1, 60, ipv4_octets(ip))
            }
            &&& qtype == 1 && !reg.own().dom().contains(key) && (!reg.cached().dom().contains(key)
                || now >= reg.cached()[key].1 + 60_000) ==> r is Ask && r->Ask_key@ == key
                && r->Ask_txid == txid && r->Ask_name@ == key && r->Ask_resolvers@
                == reg.registered()
            &&& qtype != 1 ==> {
                &&& r is Answer
                &&& be_nat(a.subrange(0, 2)) == txid
                &&& a[3] % 16 == 0
                &&& be_nat(a.subrange(6, 8)) == 0
            }
        }),
{
    let key = lowered(undotted(name));
    questions_are_read_back(pkt, txid, name, qtype);
    responses_are_read_back(txid, key, 1, Some(ipv4_octets(ip)), false);
    responses_are_read_back(txid, key, qtype, None, false);
}

/// Once the resolvers were asked, the name is answered with the address that was found; a
/// name that nobody knows, or only with what is no IPv4 address, does not exist.
pub proof fn a_found_name_is_answered(txid: u16, name: Seq<char>, found: Option<Seq<char>>)
    requires
        is_writable(undotted(name)),
        found is Some && is_ipv4(found->0) ==> ipv4_octets(found->0).len() == 4,
    ensures
        ({
            let a = name_answer(txid, name, found);
            let end = 12 + name_bytes(name).len() as int;
            &&& be_nat(a.subrange(0, 2)) == txid
            &&& if found is Some && is_ipv4(found->0) {
                &&& a[3] % 16 == 0
                &&& be_nat(a.subrange(6, 8)) == 1
                &&& ends_in_record(a, end + 4, undotted(name), 1, 1, 60, ipv4_octets(found->0))
            } else {
                &&& a[3] % 16 == 3
                &&& be_nat(a.subrange(6, 8)) == 0
                &&& a.len() == end + 4
            }
        }),
{
    if found is Some && is_ipv4(found->0) {
        responses_are_read_back(txid, name, 1, Some(ipv4_octets(found->0)), false);
    } else {
        responses_are_read_back(txid, name, 1, None, true);
    }
}

/// Whether a name is spelled with letters, digits, dashes and underscores only, one to
/// thirty-two of them.
pub open spec fn is_spelled_well(name: Seq<char>) -> bool {
    &&& 1 <= name.len() <= 32
    &&& forall|i: int|
        0 <= i < name.len() ==> {
            let c = #[trigger] name[i];
            ('a' <= c && c <= 'z') || ('A' <= c && c <= 'Z') || ('0' <= c && c <= '9') || c == '-'
                || c == '_'
        }
}

/// Whether a question was answered with the address of the name, as its only record.
pub open spec fn names_its_address(
    r: DnsStep,
    txid: u16,
    name: Seq<char>,
    a: Seq<u8>,
) -> bool {
    &&& (r is Answer)
    &&& ({
        let m = r->Answer_0@;
        &&& be_nat(m.subrange(0, 2)) == txid
        &&& m[2] >= 128 && m[3] % 16 == 0
        &&& be_nat(m.subrange(6, 8)) == 1
        &&& ends_in_record(
            m,
            16 + name_bytes(lowered(name)).len() as int,
            lowered(name),
            1,
            1,
            60,
            a,
        )
    })
}

/// A question for the IPv4 address of a device, by its name in any spelling, is answered
/// with the address that is known for that name, as its only record.
pub proof fn a_device_is_found_by_its_name(
    reg: DnsRegistry,
    pkt: Seq<u8>,
    txid: u16,
    name: Seq<char>,
    now: u64,
    r: DnsStep,
    a: Seq<u8>,
)
    requires
        asks(pkt, txid, name, 1),
        is_spelled_well(name),
        a.len() == 4,
        knows(reg, lowered(name), now, crate::net::ipv4_chars(a)),
        query_begun(reg, pkt, now, r),
    ensures
        names_its_address(r, txid, name, a),
{
    let key = lowered(name);
    assert(is_ascii_chars(name)) by {
        assert forall|i: int| 0 <= i < name.len() implies '\0' <= #[trigger] name[i]
            <= '\u{7f}' by {}
    }
    assert(key.len() == name.len());
    assert forall|i: int| 0 <= i < key.len() implies {
        let c = #[trigger] key[i];
        ('a' <= c && c <= 'z') || ('0' <= c && c <= '9') || c == '-' || c == '_'
    } by {
        assert(key[i] == ascii_lower(name[i]));
    }
    crate::alias::names_obey_the_rules(key);
    crate::alias::checked_names_are_stable(key);
    assert(is_ascii_chars(key)) by {
        assert forall|i: int| 0 <= i < key.len() implies '\0' <= #[trigger] key[i]
            <= '\u{7f}' by {}
    }
    is_ascii_chars_encode_utf8(name);
    is_ascii_chars_encode_utf8(key);
    assert forall|i: int| 0 <= i < name.len() implies (#[trigger] name[i]) != '.' by {}
    assert forall|i: int| 0 <= i < key.len() implies (#[trigger] key[i]) != '.' by {}
    crate::net::lemma_one_field(name);
    crate::net::lemma_one_field(key);
    assert(name.last() == name[name.len() - 1]);
    assert(key.last() == key[key.len() - 1]);
    assert(undotted(name) == name && undotted(key) == key);
    assert(is_writable(name) && is_writable(key));
    crate::net::addresses_are_read_back(a);
    a_known_name_is_answered(reg, pkt, txid, name, 1, now, r, crate::net::ipv4_chars(a));
    questions_are_read_back(pkt, txid, name, 1);
    responses_are_read_back(txid, key, 1, Some(a), false);
}

/// A name that is known is found whatever the case it is written in, and one that is not is
/// put to all resolvers there are.
pub proof fn names_are_looked_up_where_they_are_known(
    reg: DnsRegistry,
    name: Seq<char>,
    now: u64,
    r: Lookup,
    ip: Seq<char>,
)
    requires
        looked_up(reg, name, now, r),
    ensures
        canonical(name).len() > 0 && knows(reg, canonical(name), now, ip) ==> r is Known
            && r->Known_0@ == ip,
        canonical(name).len() > 0 && !(r is Known) ==> r is Ask && r->resolvers@
            == reg.registered() && r->key@ == canonical(name),
        r is Known ==> knows(reg, canonical(name), now, r->Known_0@),
        canonical(name).len() == 0 ==> r is Nothing,
{
}

/// A label of one to sixty-three bytes is read from behind its length wherever it stands in a
/// message, and a longer one is refused, so is one that the message cuts short.
pub proof fn labels_have_up_to_sixty_three_bytes(
    before: Seq<u8>,
    label: Seq<u8>,
    behind: Seq<u8>,
    n: u8,
)
    requires
        1 <= n,
    ensures
        n <= 63 && label.len() == n ==> name_at(
            before + seq![n] + label + seq![0u8] + behind,
            before.len() as int,
            Seq::empty(),
        ) == Some((lossy_text(label), before.len() + n + 2)),
        n > 63 ==> name_at(
            before + seq![n] + label + seq![0u8] + behind,
            before.len() as int,
            Seq::empty(),
        ) is None,
        label.len() < n ==> name_at(before + seq![n] + label, before.len() as int, Seq::empty())
            is None,
{
    let pkt = before + seq![n] + label + seq![0u8] + behind;
    let at = before.len() as int;
    assert(pkt[at] == n);
    if n <= 63 && label.len() == n {
        assert(pkt.subrange(at + 1, at + 1 + n) =~= label);
        assert(with_label(Seq::empty(), label) =~= lossy_text(label));
        assert(pkt[at + 1 + n] == 0);
        assert(name_at(pkt, at + 1 + n, lossy_text(label)) == Some(
            (lossy_text(label), at + n + 2),
        ));
    }
    assert((before + seq![n] + label)[at] == n);
}

/// A label is written behind its length, where it has one to sixty-three bytes; else it is
/// left out.
pub proof fn labels_are_written_behind_their_lengths(labels: Seq<Seq<char>>, label: Seq<char>)
    ensures
        1 <= encode_utf8(label).len() <= 63 ==> label_bytes(labels.push(label)) == label_bytes(
            labels,
        ) + seq![encode_utf8(label).len() as u8] + encode_utf8(label),
        !(1 <= encode_utf8(label).len() <= 63) ==> label_bytes(labels.push(label))
            == label_bytes(labels),
{
    assert(labels.push(label).drop_last() =~= labels);
}

} // verus!
