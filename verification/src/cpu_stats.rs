//! Kernel-side UDP counters, as `/proc/net/snmp` prints them.
use crate::text::{
    beginning_with, being_text, first_where, lemma_texts_push, lines, lines_of, parse_u64, position,
    starts_with, texts, unsigned_of, words, words_of,
};
use vstd::prelude::*;

verus! {

/// Kernel-side UDP counters.
///
/// They tell "the protocol lost packets" apart from "the kernel threw them away
/// before the protocol ever saw them".
#[derive(Clone, Copy, Debug, PartialEq, Eq, Structural)]
pub struct UdpCounters {
    /// Datagrams dropped because the socket receive queue was full.
    pub rcvbuf_errors: u64,
    /// Datagrams dropped for any other reason (bad checksum, no buffer).
    pub in_errors: u64,
    /// Datagrams delivered to a port nobody was listening on.
    pub no_ports: u64,
    /// Send-side queue overflows.
    pub sndbuf_errors: u64,
}

impl Default for UdpCounters {
    fn default() -> (r: Self)
        ensures
            r == no_drops(),
    {
        UdpCounters { rcvbuf_errors: 0, in_errors: 0, no_ports: 0, sndbuf_errors: 0 }
    }
}

/// Counters that are all zero.
pub open spec fn no_drops() -> UdpCounters {
    UdpCounters { rcvbuf_errors: 0, in_errors: 0, no_ports: 0, sndbuf_errors: 0 }
}

/// `later - earlier`, or zero where a counter went backwards.
pub open spec fn grown(later: u64, earlier: u64) -> u64 {
    if later >= earlier {
        (later - earlier) as u64
    } else {
        0
    }
}

impl UdpCounters {
    /// Counters accumulated since `earlier`. A counter reset (or a namespace
    /// change) reads as zero rather than wrapping.
    #[must_use]
    pub fn since(self, earlier: Self) -> (r: Self)
        ensures
            r.rcvbuf_errors == grown(self.rcvbuf_errors, earlier.rcvbuf_errors),
            r.in_errors == grown(self.in_errors, earlier.in_errors),
            r.no_ports == grown(self.no_ports, earlier.no_ports),
            r.sndbuf_errors == grown(self.sndbuf_errors, earlier.sndbuf_errors),
    {
        UdpCounters {
            rcvbuf_errors: self.rcvbuf_errors.saturating_sub(earlier.rcvbuf_errors),
            in_errors: self.in_errors.saturating_sub(earlier.in_errors),
            no_ports: self.no_ports.saturating_sub(earlier.no_ports),
            sndbuf_errors: self.sndbuf_errors.saturating_sub(earlier.sndbuf_errors),
        }
    }
}

/// The lines of `text` that belong to the `Udp:` table: names, then values.
pub open spec fn udp_rows(text: Seq<char>) -> Seq<Seq<char>> {
    lines_of(text).filter(beginning_with("Udp:"@))
}

/// The value in column `field` of a table of `names` over `values`; zero where
/// the column is absent, short or not a number.
pub open spec fn column_value(
    names: Seq<Seq<char>>,
    values: Seq<Seq<char>>,
    field: Seq<char>,
) -> u64 {
    let at = first_where(names, being_text(field));
    if at < names.len() && at < values.len() {
        match unsigned_of(values[at], u64::MAX as int) {
            Some(n) => n as u64,
            None => 0,
        }
    } else {
        0
    }
}

/// What the first two `Udp:` lines of `text` say.
pub open spec fn counters_in(text: Seq<char>) -> UdpCounters {
    let rows = udp_rows(text);
    if rows.len() < 2 {
        no_drops()
    } else {
        let names = words_of(rows[0]);
        let values = words_of(rows[1]);
        UdpCounters {
            rcvbuf_errors: column_value(names, values, "RcvbufErrors"@),
            in_errors: column_value(names, values, "InErrors"@),
            no_ports: column_value(names, values, "NoPorts"@),
            sndbuf_errors: column_value(names, values, "SndbufErrors"@),
        }
    }
}

fn lookup(names: &Vec<String>, values: &Vec<String>, field: &str) -> (r: u64)
    ensures
        r == column_value(texts(names@), texts(values@), field@),
{
    let at: usize = position(names, field);
    if at < names.len() && at < values.len() {
        match parse_u64(values[at].as_str()) {
            Some(n) => n,
            None => 0,
        }
    } else {
        0
    }
}

/// Reads the `Udp:` table of `/proc/net/snmp`. Header and values are two parallel
/// lines, so a field is looked up by name rather than by position.
#[must_use]
pub fn udp_counters(text: &str) -> (r: UdpCounters)
    ensures
        r == counters_in(text@),
{
    let all = lines(text);
    let ghost keep = beginning_with("Udp:"@);
    let mut rows: Vec<String> = Vec::new();
    let mut i: usize = 0;
    proof {
        reveal(Seq::filter);
        assert(texts(rows@) =~= texts(all@).take(0).filter(keep));
    }
    while i < all.len()
        invariant
            i <= all@.len(),
            keep == beginning_with("Udp:"@),
            texts(rows@) == texts(all@).take(i as int).filter(keep),
        decreases all@.len() - i,
    {
        proof {
            reveal(Seq::filter);
            assert(texts(all@).take(i + 1).drop_last() =~= texts(all@).take(i as int));
        }
        if starts_with(all[i].as_str(), "Udp:") {
            let row = all[i].clone();
            proof {
                lemma_texts_push(rows@, row);
            }
            rows.push(row);
        }
        i += 1;
    }
    assert(texts(all@).take(all@.len() as int) =~= texts(all@));
    if rows.len() < 2 {
        return UdpCounters::default();
    }
    assert(texts(rows@)[0] == rows@[0]@ && texts(rows@)[1] == rows@[1]@);
    let names = words(rows[0].as_str());
    let values = words(rows[1].as_str());
    UdpCounters {
        rcvbuf_errors: lookup(&names, &values, "RcvbufErrors"),
        in_errors: lookup(&names, &values, "InErrors"),
        no_ports: lookup(&names, &values, "NoPorts"),
        sndbuf_errors: lookup(&names, &values, "SndbufErrors"),
    }
}

} // verus!
