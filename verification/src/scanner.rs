//! Discovery scan collection.
//!
//! The embedding program broadcasts one probe (or unicasts across a range)
//! and gathers every datagram that arrives within the collection window;
//! per-destination send failures are simply absent from that collection and
//! never abort a scan. The collection step here is verified: it keeps, in
//! arrival order, the first well-formed probe reply from each source address
//! and drops duplicates and undecodable datagrams.

use vstd::prelude::*;
use crate::codec::{spec_probe_reply, valid_body, Response, decode_response};
use crate::ident::Ipv4;

verus! {

/// One datagram gathered during the collection window.
#[derive(Debug)]
pub struct ScanReply {
    /// Source address of the datagram.
    pub src: Ipv4,
    /// Its text.
    pub payload: String,
}

/// One responding device: its address and the identifier it reported.
#[derive(Debug)]
pub struct Discovered {
    pub addr: Ipv4,
    pub mac: String,
}

/// The identifier reported by a probe reply text, if it is one.
pub open spec fn probe_mac_of(s: Seq<char>) -> Option<Seq<char>> {
    if exists|m: Seq<char>| valid_body(m) && s == spec_probe_reply(m) {
        Some(choose|m: Seq<char>| valid_body(m) && s == spec_probe_reply(m))
    } else {
        None
    }
}

/// Two probe replies with the same text report the same identifier.
pub proof fn lemma_probe_reply_cancel(m1: Seq<char>, m2: Seq<char>)
    requires
        spec_probe_reply(m1) == spec_probe_reply(m2),
    ensures
        m1 == m2,
{
    let p = crate::codec::lit_probe_prefix().len() as int;
    let t = crate::codec::lit_tail().len() as int;
    assert(spec_probe_reply(m1).len() == p + m1.len() + t);
    assert(spec_probe_reply(m2).len() == p + m2.len() + t);
    assert(m1.len() == m2.len());
    assert forall|j: int| 0 <= j < m1.len() implies m1[j] == m2[j] by {
        assert(spec_probe_reply(m1)[p + j] == m1[j]);
        assert(spec_probe_reply(m2)[p + j] == m2[j]);
    }
    assert(m1 =~= m2);
}

pub open spec fn contains_addr(d: Seq<(Ipv4, Seq<char>)>, a: Ipv4) -> bool {
    exists|i: int| 0 <= i < d.len() && d[i].0 == a
}

/// What one scan's collection yields: for each datagram in order, its
/// reported identifier if it is a well-formed probe reply from an address
/// not yet seen.
pub open spec fn spec_collect(replies: Seq<ScanReply>) -> Seq<(Ipv4, Seq<char>)>
    decreases replies.len(),
{
    if replies.len() == 0 {
        Seq::empty()
    } else {
        let prev = spec_collect(replies.drop_last());
        let last = replies.last();
        match probe_mac_of(last.payload@) {
            Some(m) => if contains_addr(prev, last.src) {
                prev
            } else {
                prev.push((last.src, m))
            },
            None => prev,
        }
    }
}

/// The addresses a collection yields are pairwise distinct.
pub proof fn lemma_collect_addrs_distinct(replies: Seq<ScanReply>)
    ensures
        forall|i: int, j: int|
            0 <= i < j < spec_collect(replies).len() ==> #[trigger] spec_collect(replies)[i].0
                != #[trigger] spec_collect(replies)[j].0,
    decreases replies.len(),
{
    let out = spec_collect(replies);
    if replies.len() > 0 {
        let prev = spec_collect(replies.drop_last());
        let last = replies.last();
        lemma_collect_addrs_distinct(replies.drop_last());
        assert forall|i: int, j: int| 0 <= i < j < out.len() implies #[trigger] out[i].0
            != #[trigger] out[j].0 by {
            if j < prev.len() {
                assert(out[i] == prev[i] && out[j] == prev[j]);
            } else if out.len() > prev.len() {
                assert(out[i] == prev[i] && out[j] == (last.src, out[j].1));
                assert(!contains_addr(prev, last.src));
            }
        }
    }
}

#[verifier::loop_isolation(false)]
fn contains_address(d: &Vec<Discovered>, a: Ipv4) -> (r: bool)
    ensures
        r == contains_addr(d@.map_values(|x: Discovered| (x.addr, x.mac@)), a),
{
    let ghost dv = d@.map_values(|x: Discovered| (x.addr, x.mac@));
    let mut i: usize = 0;
    while i < d.len()
        invariant
            i <= d.len(),
            dv == d@.map_values(|x: Discovered| (x.addr, x.mac@)),
            forall|k: int| 0 <= k < i ==> dv[k].0 != a,
        decreases d.len() - i,
    {
        if d[i].addr == a {
            proof {
                assert(dv[i as int].0 == a);
            }
            return true;
        }
        i = i + 1;
    }
    false
}

/// Collects a scan: keeps the first well-formed probe reply from each source
/// address, in arrival order; duplicates and malformed datagrams are dropped.
#[verifier::loop_isolation(false)]
pub fn collect_discovered(replies: &Vec<ScanReply>) -> (r: Vec<Discovered>)
    ensures
        r@.map_values(|x: Discovered| (x.addr, x.mac@)) == spec_collect(replies@),
{
    let mut out: Vec<Discovered> = Vec::new();
    let mut i: usize = 0;
    proof {
        assert(out@.map_values(|x: Discovered| (x.addr, x.mac@))
            =~= spec_collect(replies@.subrange(0, 0)));
    }
    while i < replies.len()
        invariant
            i <= replies.len(),
            out@.map_values(|x: Discovered| (x.addr, x.mac@))
                == spec_collect(replies@.subrange(0, i as int)),
        decreases replies.len() - i,
    {
        let ghost pre = replies@.subrange(0, i as int);
        let ghost cur = replies@.subrange(0, i as int + 1);
        proof {
            assert(cur.drop_last() =~= pre);
            assert(cur.last() == replies@[i as int]);
        }
        let d = decode_response(replies[i].payload.as_str());
        match d {
            Ok(Response::ProbeReply(mac)) => {
                proof {
                    let s = replies@[i as int].payload@;
                    assert(valid_body(mac@) && s == spec_probe_reply(mac@));
                    let m0 = choose|m: Seq<char>| valid_body(m) && s == spec_probe_reply(m);
                    lemma_probe_reply_cancel(m0, mac@);
                    assert(probe_mac_of(s) == Some(mac@));
                }
                let dup = contains_address(&out, replies[i].src);
                if !dup {
                    let entry = Discovered { addr: replies[i].src, mac };
                    let ghost prevv = out@.map_values(|x: Discovered| (x.addr, x.mac@));
                    out.push(entry);
                    proof {
                        assert(out@.map_values(|x: Discovered| (x.addr, x.mac@))
                            =~= spec_collect(cur));
                    }
                }
            },
            Ok(_) => {
                proof {
                    let s = replies@[i as int].payload@;
                    assert forall|m: Seq<char>|
                        !(valid_body(m) && s == spec_probe_reply(m)) by {
                        if valid_body(m) && s == spec_probe_reply(m) {
                            assert(d matches Ok(resp) && resp matches Response::ProbeReply(x));
                        }
                    }
                    assert(probe_mac_of(s) is None);
                }
            },
            Err(_) => {
                proof {
                    let s = replies@[i as int].payload@;
                    assert forall|m: Seq<char>|
                        !(valid_body(m) && s == spec_probe_reply(m)) by {
                        if valid_body(m) && s == spec_probe_reply(m) {
                            assert(d matches Ok(resp) && resp matches Response::ProbeReply(x));
                        }
                    }
                    assert(probe_mac_of(s) is None);
                }
            },
        }
        i = i + 1;
    }
    proof {
        assert(replies@.subrange(0, replies@.len() as int) =~= replies@);
    }
    out
}

} // verus!
