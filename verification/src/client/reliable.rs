//! Ordered delivery on top of a transport that loses, repeats and reorders.
use vstd::prelude::*;
use std::collections::BTreeMap;
use crate::bytes::copy_bytes;

verus! {

/// How many unacknowledged packets are kept, and how many early ones.
pub const RELIABLE_WINDOW: usize = 512;

/// The meaning of a sequence of packets.
pub open spec fn packets_view(p: Seq<Vec<u8>>) -> Seq<Seq<u8>> {
    p.map_values(|v: Vec<u8>| v@)
}

/// The meaning of a buffer of early packets.
pub open spec fn buffer_view(m: Map<u64, Vec<u8>>) -> Map<u64, Seq<u8>> {
    m.map_values(|v: Vec<u8>| v@)
}

/// The last number of the unbroken run of numbers from `high` on, where every
/// number behind `high` is in `dom`.
pub open spec fn run_end(dom: Set<u64>, high: u64) -> u64
    decreases u64::MAX - high,
{
    if high < u64::MAX && dom.contains((high + 1) as u64) {
        run_end(dom, (high + 1) as u64)
    } else {
        high
    }
}

/// The least number of a set.
pub open spec fn is_least(dom: Set<u64>, k: u64) -> bool {
    dom.contains(k) && forall|j: u64| dom.contains(j) ==> k <= j
}

/// The least number of a set that is not empty.
pub open spec fn least(dom: Set<u64>) -> u64 {
    choose|k: u64| is_least(dom, k)
}

/// A buffer that has taken in one packet more and, where that makes it too
/// large, has dropped the packet with the lowest number.
pub open spec fn buffered(m: Map<u64, Seq<u8>>, seq: u64, payload: Seq<u8>) -> Map<u64, Seq<u8>> {
    let grown = m.insert(seq, payload);
    if grown.dom().len() > RELIABLE_WINDOW {
        grown.remove(least(grown.dom()))
    } else {
        grown
    }
}

/// The numbers from `from` up to and including `to`.
pub open spec fn span(from: int, to: int) -> Set<u64> {
    Set::new(|k: u64| from <= k <= to)
}

/// The packets that can be handed on when packet `seq` comes in and everything up
/// to `high` was handed on before.
pub open spec fn delivered_by(
    high: u64,
    buf: Map<u64, Seq<u8>>,
    seq: u64,
    payload: Seq<u8>,
) -> Seq<Seq<u8>> {
    if seq == high + 1 {
        seq![payload] + Seq::new(
            (run_end(buf.dom(), seq) - seq) as nat,
            |i: int| buf[(seq + 1 + i) as u64],
        )
    } else {
        Seq::empty()
    }
}

/// The high-water mark after packet `seq` has come in.
pub open spec fn high_after(high: u64, buf: Map<u64, Seq<u8>>, seq: u64) -> u64 {
    if seq == high + 1 {
        run_end(buf.dom(), seq)
    } else {
        high
    }
}

/// The early packets after packet `seq` has come in.
pub open spec fn buffer_after(
    high: u64,
    buf: Map<u64, Seq<u8>>,
    seq: u64,
    payload: Seq<u8>,
) -> Map<u64, Seq<u8>> {
    if seq <= high {
        buf
    } else if seq == high + 1 {
        buf.remove_keys(span(seq + 1, run_end(buf.dom(), seq) as int))
    } else {
        buffered(buf, seq, payload)
    }
}

pub proof fn lemma_run_end(dom: Set<u64>, high: u64)
    ensures
        high <= run_end(dom, high),
        forall|k: u64| high < k <= run_end(dom, high) ==> dom.contains(k),
        run_end(dom, high) < u64::MAX ==> !dom.contains((run_end(dom, high) + 1) as u64),
    decreases u64::MAX - high,
{
    if high < u64::MAX && dom.contains((high + 1) as u64) {
        lemma_run_end(dom, (high + 1) as u64);
    }
}

/// The lowest number in a buffer.
fn lowest(m: &BTreeMap<u64, Vec<u8>>) -> (r: Option<u64>)
    ensures
        match r {
            Some(k) => is_least(m@.dom(), k),
            None => m@.dom() == Set::<u64>::empty(),
        },
{
    broadcast use vstd::laws_cmp::group_laws_cmp;

    let mut best: Option<u64> = None;
    for k in it: m.keys()
        invariant
            it.seq().unref().to_set() == m@.dom(),
            match best {
                Some(b) => m@.dom().contains(b) && forall|j: int|
                    0 <= j < it.index() ==> b <= #[trigger] *it.seq()[j],
                None => it.index() == 0,
            },
    {
        proof {
            assert(it.seq().unref()[it.index()] == *k);
            assert(it.seq().unref().contains(*k));
        }
        let better = match best {
            Some(b) => *k < b,
            None => true,
        };
        if better {
            best = Some(*k);
        }
    }
    best
}

fn take_out(m: &mut BTreeMap<u64, Vec<u8>>, k: u64) -> (r: Option<Vec<u8>>)
    ensures
        final(m)@ == old(m)@.remove(k),
        match r {
            Some(v) => old(m)@.dom().contains(k) && v == old(m)@[k],
            None => !old(m)@.dom().contains(k),
        },
{
    broadcast use vstd::laws_cmp::group_laws_cmp;

    m.remove(&k)
}

fn put_in(m: &mut BTreeMap<u64, Vec<u8>>, k: u64, v: Vec<u8>)
    ensures
        final(m)@ == old(m)@.insert(k, v),
{
    broadcast use vstd::laws_cmp::group_laws_cmp;

    m.insert(k, v);
}

/// Takes in a packet. Returns the packets that can be handed on now, in order,
/// and the new high-water mark.
///
/// - The next packet in turn is handed on, and with it the unbroken run of early
///   packets behind it.
/// - A later packet is kept until its turn comes.
/// - A packet that was handed on before is ignored.
pub fn reorder_deliver(
    recv_high: u64,
    recv_buf: &mut BTreeMap<u64, Vec<u8>>,
    seq: u64,
    payload: &[u8],
) -> (r: (Vec<Vec<u8>>, u64))
    ensures
        packets_view(r.0@) == delivered_by(recv_high, buffer_view(old(recv_buf)@), seq, payload@),
        r.1 == high_after(recv_high, buffer_view(old(recv_buf)@), seq),
        buffer_view(final(recv_buf)@) == buffer_after(
            recv_high,
            buffer_view(old(recv_buf)@),
            seq,
            payload@,
        ),
{
    let mut delivered: Vec<Vec<u8>> = Vec::new();
    if seq <= recv_high {
        assert(packets_view(delivered@) =~= Seq::<Seq<u8>>::empty());
        return (delivered, recv_high);
    }
    if seq == recv_high + 1 {
        let mut high: u64 = seq;
        delivered.push(copy_bytes(payload));
        let ghost start = recv_buf@;
        proof {
            assert(start.remove_keys(span(seq + 1, seq as int)) =~= start);
            assert(packets_view(delivered@) =~= seq![payload@] + Seq::new(
                0,
                |i: int| start[(seq + 1 + i) as u64]@,
            ));
        }
        while high < u64::MAX
            invariant
                seq <= high,
                start == old(recv_buf)@,
                recv_buf@ == start.remove_keys(span(seq + 1, high as int)),
                run_end(start.dom(), seq) == run_end(start.dom(), high),
                packets_view(delivered@) == seq![payload@] + Seq::new(
                    (high - seq) as nat,
                    |i: int| start[(seq + 1 + i) as u64]@,
                ),
            ensures
                seq <= high,
                start == old(recv_buf)@,
                recv_buf@ == start.remove_keys(span(seq + 1, high as int)),
                run_end(start.dom(), seq) == high,
                packets_view(delivered@) == seq![payload@] + Seq::new(
                    (high - seq) as nat,
                    |i: int| start[(seq + 1 + i) as u64]@,
                ),
            decreases u64::MAX - high,
        {
            let next: u64 = high + 1;
            match take_out(recv_buf, next) {
                Some(p) => {
                    let ghost before = packets_view(delivered@);
                    delivered.push(p);
                    proof {
                        assert(start.dom().contains(next));
                        assert(packets_view(delivered@) =~= before.push(p@));
                        assert(packets_view(delivered@) =~= seq![payload@] + Seq::new(
                            (next - seq) as nat,
                            |i: int| start[(seq + 1 + i) as u64]@,
                        ));
                        assert(recv_buf@ =~= start.remove_keys(span(seq + 1, next as int)));
                    }
                    high = next;
                },
                None => {
                    proof {
                        assert(!start.dom().contains(next));
                        assert(recv_buf@ =~= start.remove_keys(span(seq + 1, high as int)));
                    }
                    break;
                },
            }
        }
        proof {
            let buf = buffer_view(start);
            assert(buf.dom() =~= start.dom());
            lemma_run_end(start.dom(), seq);
            assert(buffer_view(recv_buf@) =~= buffer_after(recv_high, buf, seq, payload@));
            assert(packets_view(delivered@) =~= delivered_by(recv_high, buf, seq, payload@));
        }
        return (delivered, high);
    }
    let ghost start = recv_buf@;
    let copy = copy_bytes(payload);
    put_in(recv_buf, seq, copy);
    let ghost grown = recv_buf@;
    proof {
        assert(buffer_view(grown) =~= buffer_view(start).insert(seq, payload@));
        assert(buffer_view(grown).dom() =~= grown.dom());
    }
    if recv_buf.len() > RELIABLE_WINDOW {
        if let Some(oldest) = lowest(recv_buf) {
            take_out(recv_buf, oldest);
            proof {
                assert(is_least(grown.dom(), least(grown.dom())));
                assert(oldest == least(grown.dom()));
                assert(buffer_view(recv_buf@) =~= buffer_view(grown).remove(oldest));
            }
        }
    }
    assert(packets_view(delivered@) =~= Seq::<Seq<u8>>::empty());
    (delivered, recv_high)
}

/// The packets in a buffer are packets of the stream.
pub open spec fn faithful(buf: Map<u64, Seq<u8>>, stream: spec_fn(u64) -> Seq<u8>) -> bool {
    forall|k: u64| buf.dom().contains(k) ==> #[trigger] buf[k] == stream(k)
}

/// The packets of a stream behind `from`, up to and including `to`.
pub open spec fn stretch(stream: spec_fn(u64) -> Seq<u8>, from: u64, to: u64) -> Seq<Seq<u8>> {
    Seq::new((to - from) as nat, |i: int| stream((from + 1 + i) as u64))
}

/// Whatever packet of a stream comes in, what is handed on is the stretch of the
/// stream behind the old high-water mark, up to the new one: nothing is left out,
/// repeated or out of order. The mark never goes back.
pub proof fn delivery_follows_the_stream(
    stream: spec_fn(u64) -> Seq<u8>,
    high: u64,
    buf: Map<u64, Seq<u8>>,
    seq: u64,
)
    requires
        faithful(buf, stream),
    ensures
        high <= high_after(high, buf, seq),
        delivered_by(high, buf, seq, stream(seq)) == stretch(
            stream,
            high,
            high_after(high, buf, seq),
        ),
        faithful(buffer_after(high, buf, seq, stream(seq)), stream),
{
    lemma_run_end(buf.dom(), seq);
    let d = delivered_by(high, buf, seq, stream(seq));
    let e = stretch(stream, high, high_after(high, buf, seq));
    if seq == high + 1 {
        assert(d.len() == e.len());
        assert forall|i: int| 0 <= i < d.len() implies d[i] == e[i] by {
            if i > 0 {
                let k = (high + 1 + i) as u64;
                assert(buf.dom().contains(k));
            }
        }
        assert(d =~= e);
    } else {
        assert(d =~= e);
    }
}

/// All packets handed on while the packets numbered `arrivals` come in, one
/// after the other.
pub open spec fn delivered_in_all(
    stream: spec_fn(u64) -> Seq<u8>,
    high: u64,
    buf: Map<u64, Seq<u8>>,
    arrivals: Seq<u64>,
) -> (Seq<Seq<u8>>, u64)
    decreases arrivals.len(),
{
    if arrivals.len() == 0 {
        (Seq::empty(), high)
    } else {
        let seq = arrivals[0];
        let rest = delivered_in_all(
            stream,
            high_after(high, buf, seq),
            buffer_after(high, buf, seq, stream(seq)),
            arrivals.skip(1),
        );
        (delivered_by(high, buf, seq, stream(seq)) + rest.0, rest.1)
    }
}

/// Reliable, ordered delivery: in whatever order, and however often, the packets
/// of a stream come in, the packets handed on are the stream from the first on,
/// each once and in order.
pub proof fn delivery_is_in_order_and_once(
    stream: spec_fn(u64) -> Seq<u8>,
    high: u64,
    buf: Map<u64, Seq<u8>>,
    arrivals: Seq<u64>,
)
    requires
        faithful(buf, stream),
    ensures
        ({
            let (all, end) = delivered_in_all(stream, high, buf, arrivals);
            high <= end && all == stretch(stream, high, end)
        }),
    decreases arrivals.len(),
{
    let (all, end) = delivered_in_all(stream, high, buf, arrivals);
    if arrivals.len() == 0 {
        assert(all =~= stretch(stream, high, end));
    } else {
        let seq = arrivals[0];
        delivery_follows_the_stream(stream, high, buf, seq);
        let mid = high_after(high, buf, seq);
        delivery_is_in_order_and_once(
            stream,
            mid,
            buffer_after(high, buf, seq, stream(seq)),
            arrivals.skip(1),
        );
        assert(all =~= stretch(stream, high, mid) + stretch(stream, mid, end));
        assert(all =~= stretch(stream, high, end));
    }
}

/// The packet that is waited for is handed on as soon as it comes, with all that follow
/// it without a gap: after that the next packet is not among those that came early.
pub proof fn the_awaited_packet_is_handed_on(
    high: u64,
    buf: Map<u64, Seq<u8>>,
    payload: Seq<u8>,
)
    requires
        high < u64::MAX,
    ensures
        ({
            let seq = (high + 1) as u64;
            let end = high_after(high, buf, seq);
            &&& end > high
            &&& delivered_by(high, buf, seq, payload).len() == end - high
            &&& delivered_by(high, buf, seq, payload)[0] == payload
            &&& end < u64::MAX ==> !buffer_after(high, buf, seq, payload).dom().contains(
                (end + 1) as u64,
            )
        }),
{
    lemma_run_end(buf.dom(), (high + 1) as u64);
}

/// A packet that was handed on before changes nothing.
pub proof fn a_replay_changes_nothing(
    high: u64,
    buf: Map<u64, Seq<u8>>,
    seq: u64,
    payload: Seq<u8>,
)
    requires
        seq <= high,
    ensures
        delivered_by(high, buf, seq, payload) == Seq::<Seq<u8>>::empty(),
        high_after(high, buf, seq) == high,
        buffer_after(high, buf, seq, payload) == buf,
{
}

/// The buffer of early packets never holds more than a window.
pub proof fn the_buffer_stays_bounded(
    high: u64,
    buf: Map<u64, Seq<u8>>,
    seq: u64,
    payload: Seq<u8>,
)
    requires
        buf.dom().finite(),
        buf.dom().len() <= RELIABLE_WINDOW,
    ensures
        buffer_after(high, buf, seq, payload).dom().finite(),
        buffer_after(high, buf, seq, payload).dom().len() <= RELIABLE_WINDOW,
{
    let after = buffer_after(high, buf, seq, payload);
    if seq <= high {
    } else if seq == high + 1 {
        assert(after.dom() =~= buf.dom().difference(span(seq + 1, run_end(buf.dom(), seq) as int)));
        vstd::set_lib::lemma_len_difference(
            buf.dom(),
            span(seq + 1, run_end(buf.dom(), seq) as int),
        );
    } else {
        let grown = buf.insert(seq, payload);
        assert(grown.dom() =~= buf.dom().insert(seq));
        if grown.dom().len() > RELIABLE_WINDOW {
            lemma_least_exists(grown.dom());
            assert(after.dom() =~= grown.dom().remove(least(grown.dom())));
        }
    }
}

/// A finite set of numbers that is not empty has a least one.
proof fn lemma_least_exists(dom: Set<u64>)
    requires
        dom.finite(),
        dom.len() > 0,
    ensures
        is_least(dom, least(dom)),
    decreases dom.len(),
{
    let x = dom.choose();
    let rest = dom.remove(x);
    if rest.len() == 0 {
        assert forall|j: u64| dom.contains(j) implies x <= j by {
            if j != x {
                assert(rest.contains(j));
            }
        }
        assert(is_least(dom, x));
    } else {
        lemma_least_exists(rest);
        let y = least(rest);
        let m = if x <= y { x } else { y };
        assert forall|j: u64| dom.contains(j) implies m <= j by {
            if j != x {
                assert(rest.contains(j));
            }
        }
        assert(is_least(dom, m));
    }
}

proof fn lemma_span_len(dom: Set<u64>, lo: int, hi: int)
    requires
        dom.finite(),
        lo <= hi + 1,
        forall|k: u64| dom.contains(k) ==> lo <= k <= hi,
    ensures
        dom.len() <= hi - lo + 1,
    decreases hi - lo + 1,
{
    if lo > hi {
        assert(dom =~= Set::empty());
    } else if 0 <= hi <= u64::MAX {
        let less = dom.remove(hi as u64);
        lemma_span_len(less, lo, hi - 1);
    } else {
        lemma_span_len(dom, lo, hi - 1);
    }
}

/// Nothing is lost on the way: where at most a window of packets is under way, and each of
/// them comes in at last or has come already, however often and in whatever order, all of
/// them are handed on.
pub proof fn everything_arrives_in_the_end(
    stream: spec_fn(u64) -> Seq<u8>,
    high: u64,
    buf: Map<u64, Seq<u8>>,
    arrivals: Seq<u64>,
    last: u64,
)
    requires
        faithful(buf, stream),
        buf.dom().finite(),
        high <= last <= high + 512,
        forall|k: u64| buf.dom().contains(k) ==> high + 1 < k <= last,
        forall|i: int| 0 <= i < arrivals.len() ==> (#[trigger] arrivals[i]) <= last,
        forall|k: u64| high < k <= last ==> #[trigger] buf.dom().contains(k) || arrivals.contains(k),
    ensures
        delivered_in_all(stream, high, buf, arrivals).1 == last,
        delivered_in_all(stream, high, buf, arrivals).0 == stretch(stream, high, last),
    decreases arrivals.len(),
{
    delivery_is_in_order_and_once(stream, high, buf, arrivals);
    if arrivals.len() == 0 {
        if high < last {
            assert(buf.dom().contains((high + 1) as u64) || arrivals.contains((high + 1) as u64));
        }
    } else {
        let seq = arrivals[0];
        let rest = arrivals.skip(1);
        let next = high_after(high, buf, seq);
        let after = buffer_after(high, buf, seq, stream(seq));
        delivery_follows_the_stream(stream, high, buf, seq);
        lemma_run_end(buf.dom(), seq);
        assert forall|i: int| 0 <= i < rest.len() implies (#[trigger] rest[i]) <= last by {
            assert(rest[i] == arrivals[i + 1]);
        }
        if seq > high + 1 {
            let grown = buf.insert(seq, stream(seq));
            assert(grown.dom() =~= buf.dom().insert(seq));
            lemma_span_len(grown.dom(), high + 2, last as int);
            assert(after == grown);
        } else if seq == high + 1 {
            assert(after.dom() =~= buf.dom().difference(span(seq + 1, next as int)));
            if next > seq {
                assert(buf.dom().contains(next));
            }
        }
        assert forall|k: u64| next < k <= last implies #[trigger] after.dom().contains(k)
            || rest.contains(k) by {
            assert(buf.dom().contains(k) || arrivals.contains(k));
            if arrivals.contains(k) && k != seq {
                let i = choose|i: int| 0 <= i < arrivals.len() && arrivals[i] == k;
                assert(rest[i - 1] == k);
            }
        }
        everything_arrives_in_the_end(stream, next, after, rest, last);
    }
}

/// Where there are too many early packets, the one with the lowest number goes; all others
/// stay.
pub proof fn the_lowest_early_packet_makes_room(
    high: u64,
    buf: Map<u64, Seq<u8>>,
    seq: u64,
    payload: Seq<u8>,
)
    requires
        high + 1 < seq,
        buf.dom().finite(),
        buf.dom().len() <= 512,
    ensures
        ({
            let after = buffer_after(high, buf, seq, payload);
            &&& forall|k: u64|
                #[trigger] after.dom().contains(k) ==> after[k] == (if k == seq {
                    payload
                } else {
                    buf[k]
                }) && (k == seq || buf.dom().contains(k))
            &&& buf.dom().len() < 512 ==> after.dom() == buf.dom().insert(seq)
            &&& forall|k: u64, j: u64|
                (k == seq || buf.dom().contains(k)) && !#[trigger] after.dom().contains(k)
                    && #[trigger] after.dom().contains(j) ==> k < j
        }),
{
    let grown = buf.insert(seq, payload);
    assert(grown.dom() =~= buf.dom().insert(seq));
    if grown.dom().len() > RELIABLE_WINDOW {
        lemma_least_exists(grown.dom());
        assert(is_least(grown.dom(), least(grown.dom())));
    }
}

} // verus!
