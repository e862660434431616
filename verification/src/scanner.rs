//! Finding the ports that listen on this machine.
//!
//! Two sources are combined: the listing of listening sockets (with the
//! owning process of each), of which the ports that accept a TCP connection
//! are kept, and the configured fallback ports that accept one. Asking the
//! system and connecting are done by the caller; this module decides what is
//! asked and what the answers make.
use vstd::prelude::*;
use crate::models::{OpenPort, OpenPortView, open_port_views};
use crate::lsof::{listing_entries, parse_listing};
use crate::text::{trim, trimmed, all_white, tight, ascii_digit, lemma_trim_padding};
use crate::number::{
    decimal, decimal_value, all_ascii_digits, parse_i64, parse_i64_str, lemma_decimal_text,
    lemma_parse_i64_decimal,
};

verus! {

/// The elements of `s` whose flag in `flags` is set, in order.
pub open spec fn select<A>(s: Seq<A>, flags: Seq<bool>) -> Seq<A>
    decreases s.len(),
{
    if s.len() == 0 || flags.len() == 0 {
        seq![]
    } else if flags[0] {
        seq![s[0]] + select(s.drop_first(), flags.drop_first())
    } else {
        select(s.drop_first(), flags.drop_first())
    }
}

/// Whether some port of `s` is `port`.
pub open spec fn has_port(s: Seq<OpenPortView>, port: u16) -> bool {
    exists|i: int| 0 <= i < s.len() && (#[trigger] s[i]).port == port
}

/// The entries of `extra` whose port is not among those of `base`, in order.
pub open spec fn missing_from(base: Seq<OpenPortView>, extra: Seq<OpenPortView>) -> Seq<
    OpenPortView,
>
    decreases extra.len(),
{
    if extra.len() == 0 {
        seq![]
    } else if has_port(base, extra[0].port) {
        missing_from(base, extra.drop_first())
    } else {
        seq![extra[0]] + missing_from(base, extra.drop_first())
    }
}

/// What a scan reports: the listed ports that answered, then the fallback
/// ports that answered and were not listed.
pub open spec fn merged_scan(listed: Seq<OpenPortView>, fallback: Seq<OpenPortView>) -> Seq<
    OpenPortView,
> {
    listed + missing_from(listed, fallback)
}

/// A bare open port for each fallback port whose connection succeeded.
pub open spec fn fallback_found(ports: Seq<u16>, open: Seq<bool>) -> Seq<OpenPortView> {
    select(ports, open).map_values(
        |p: u16| OpenPortView { port: p, process_name: None, pid: None, start_time: None },
    )
}

/// Discovers listening ports.
pub struct PortScanner {
    timeout_ms: u64,
    fallback_ports: Vec<u16>,
}

impl PortScanner {
    pub closed spec fn spec_timeout_ms(&self) -> u64 {
        self.timeout_ms
    }

    pub closed spec fn spec_fallback_ports(&self) -> Seq<u16> {
        self.fallback_ports@
    }

    /// A scanner whose TCP connection attempts may take `timeout_ms`, and
    /// that tries `fallback_ports` directly.
    pub fn new(timeout_ms: u64, fallback_ports: Vec<u16>) -> (r: PortScanner)
        ensures
            r.spec_timeout_ms() == timeout_ms,
            r.spec_fallback_ports() == fallback_ports@,
    {
        PortScanner { timeout_ms, fallback_ports }
    }

    /// How long one TCP connection attempt may take, in milliseconds.
    pub fn timeout_ms(&self) -> (r: u64)
        ensures
            r == self.spec_timeout_ms(),
    {
        self.timeout_ms
    }

    /// The ports tried directly.
    pub fn fallback_ports(&self) -> (r: &Vec<u16>)
        ensures
            r@ == self.spec_fallback_ports(),
    {
        &self.fallback_ports
    }

    /// The open ports that an `lsof -i -P -n` listing reports (see
    /// `crate::lsof`).
    pub fn parse_lsof_output(&self, output: &str) -> (r: Vec<OpenPort>)
        ensures
            open_port_views(r@) == listing_entries(output@),
    {
        parse_listing(output)
    }

    /// Of the listed ports, those whose TCP connection succeeded:
    /// `responsive[i]` tells whether `ports[i]` accepted one; a port without
    /// a flag is dropped.
    pub fn keep_responsive(ports: Vec<OpenPort>, responsive: &Vec<bool>) -> (r: Vec<OpenPort>)
        ensures
            open_port_views(r@) == select(open_port_views(ports@), responsive@),
    {
        let n = ports.len();
        let fl = responsive.len();
        let ghost all = open_port_views(ports@);
        let mut r: Vec<OpenPort> = Vec::new();
        let mut i: usize = 0;
        assert(all.subrange(0, n as int) =~= all);
        assert(responsive@.subrange(0, fl as int) =~= responsive@);
        while i < n && i < fl
            invariant
                0 <= i <= n == ports@.len(),
                i <= fl == responsive@.len(),
                all == open_port_views(ports@),
                open_port_views(r@) + select(
                    all.subrange(i as int, n as int),
                    responsive@.subrange(i as int, fl as int),
                ) == select(all, responsive@),
            decreases n - i,
        {
            let ghost before = open_port_views(r@);
            let ghost s = all.subrange(i as int, n as int);
            let ghost f = responsive@.subrange(i as int, fl as int);
            assert(s.drop_first() =~= all.subrange(i + 1, n as int));
            assert(f.drop_first() =~= responsive@.subrange(i + 1, fl as int));
            if responsive[i] {
                let p = ports[i].duplicate();
                r.push(p);
                assert(open_port_views(r@) =~= before.push(p@));
                assert(before + (seq![s[0]] + select(s.drop_first(), f.drop_first()))
                    =~= before.push(p@) + select(s.drop_first(), f.drop_first()));
            }
            i = i + 1;
        }
        assert(select(all.subrange(i as int, n as int), responsive@.subrange(i as int, fl as int))
            =~= seq![]);
        assert(open_port_views(r@) + seq![] =~= open_port_views(r@));
        r
    }

    /// The fallback ports whose TCP connection succeeded, each as a port with
    /// nothing known of its process: `open[i]` tells whether the `i`-th
    /// fallback port accepted a connection; a port without a flag is left
    /// out.
    pub fn fallback_results(&self, open: &Vec<bool>) -> (r: Vec<OpenPort>)
        ensures
            open_port_views(r@) == fallback_found(self.spec_fallback_ports(), open@),
    {
        let n = self.fallback_ports.len();
        let fl = open.len();
        let ghost all = self.fallback_ports@;
        let ghost mk = |p: u16| OpenPortView { port: p, process_name: None, pid: None, start_time: None };
        let mut r: Vec<OpenPort> = Vec::new();
        let mut i: usize = 0;
        assert(all.subrange(0, n as int) =~= all);
        assert(open@.subrange(0, fl as int) =~= open@);
        while i < n && i < fl
            invariant
                0 <= i <= n == all.len(),
                i <= fl == open@.len(),
                all == self.fallback_ports@,
                mk == (|p: u16| OpenPortView { port: p, process_name: None, pid: None, start_time: None }),
                open_port_views(r@) + select(
                    all.subrange(i as int, n as int),
                    open@.subrange(i as int, fl as int),
                ).map_values(mk) == select(all, open@).map_values(mk),
            decreases n - i,
        {
            let ghost before = open_port_views(r@);
            let ghost s = all.subrange(i as int, n as int);
            let ghost f = open@.subrange(i as int, fl as int);
            assert(s.drop_first() =~= all.subrange(i + 1, n as int));
            assert(f.drop_first() =~= open@.subrange(i + 1, fl as int));
            if open[i] {
                let p = OpenPort::new(self.fallback_ports[i]);
                r.push(p);
                assert(open_port_views(r@) =~= before.push(p@));
                let ghost tail = select(s.drop_first(), f.drop_first());
                assert((seq![s[0]] + tail).map_values(mk) =~= seq![mk(s[0])] + tail.map_values(mk));
                assert(before + (seq![mk(s[0])] + tail.map_values(mk)) =~= before.push(p@)
                    + tail.map_values(mk));
            }
            i = i + 1;
        }
        assert(select(all.subrange(i as int, n as int), open@.subrange(i as int, fl as int))
            .map_values(mk) =~= seq![]);
        assert(open_port_views(r@) + seq![] =~= open_port_views(r@));
        r
    }
}

pub(crate) fn contains_port(s: &Vec<OpenPort>, port: u16) -> (r: bool)
    ensures
        r == has_port(open_port_views(s@), port),
{
    let ghost v = open_port_views(s@);
    let mut i: usize = 0;
    while i < s.len()
        invariant
            0 <= i <= s@.len(),
            v == open_port_views(s@),
            forall|j: int| 0 <= j < i ==> (#[trigger] v[j]).port != port,
        decreases s@.len() - i,
    {
        if s[i].port == port {
            assert(v[i as int].port == port);
            return true;
        }
        i = i + 1;
    }
    false
}

/// What a scan reports: the listed ports that answered, in order, then each
/// fallback port that answered and that the listing did not already report.
pub fn merge_scan_results(listed: Vec<OpenPort>, fallback: Vec<OpenPort>) -> (r: Vec<OpenPort>)
    ensures
        open_port_views(r@) == merged_scan(open_port_views(listed@), open_port_views(fallback@)),
{
    let ghost lv = open_port_views(listed@);
    let ghost fv = open_port_views(fallback@);
    let n = fallback.len();
    let mut r: Vec<OpenPort> = Vec::new();
    let mut k: usize = 0;
    while k < listed.len()
        invariant
            0 <= k <= listed@.len(),
            lv == open_port_views(listed@),
            open_port_views(r@) == lv.subrange(0, k as int),
        decreases listed@.len() - k,
    {
        let ghost before = open_port_views(r@);
        let p = listed[k].duplicate();
        r.push(p);
        assert(open_port_views(r@) =~= before.push(p@));
        assert(lv[k as int] == p@);
        assert(open_port_views(r@) =~= lv.subrange(0, k + 1));
        k = k + 1;
    }
    assert(lv.subrange(0, listed@.len() as int) =~= lv);
    assert(fv.subrange(0, n as int) =~= fv);
    let mut i: usize = 0;
    while i < n
        invariant
            0 <= i <= n == fallback@.len(),
            lv == open_port_views(listed@),
            fv == open_port_views(fallback@),
            open_port_views(r@) + missing_from(lv, fv.subrange(i as int, n as int)) == lv
                + missing_from(lv, fv),
        decreases n - i,
    {
        let ghost before = open_port_views(r@);
        let ghost s = fv.subrange(i as int, n as int);
        assert(s.drop_first() =~= fv.subrange(i + 1, n as int));
        if !contains_port(&listed, fallback[i].port) {
            let p = fallback[i].duplicate();
            r.push(p);
            assert(open_port_views(r@) =~= before.push(p@));
            assert(before + (seq![s[0]] + missing_from(lv, s.drop_first())) =~= before.push(p@)
                + missing_from(lv, s.drop_first()));
        }
        i = i + 1;
    }
    assert(missing_from(lv, fv.subrange(n as int, n as int)) =~= seq![]);
    assert(open_port_views(r@) + seq![] =~= open_port_views(r@));
    r
}

proof fn lemma_missing_from(base: Seq<OpenPortView>, extra: Seq<OpenPortView>)
    ensures
        forall|i: int|
            0 <= i < missing_from(base, extra).len() ==> !has_port(
                base,
                (#[trigger] missing_from(base, extra)[i]).port,
            ) && extra.contains(missing_from(base, extra)[i]),
        forall|i: int|
            0 <= i < extra.len() && !has_port(base, (#[trigger] extra[i]).port) ==> missing_from(
                base,
                extra,
            ).contains(extra[i]),
    decreases extra.len(),
{
    if extra.len() > 0 {
        let rest = extra.drop_first();
        lemma_missing_from(base, rest);
        let m = missing_from(base, extra);
        let mr = missing_from(base, rest);
        assert forall|i: int| 0 <= i < m.len() implies !has_port(base, (#[trigger] m[i]).port)
            && extra.contains(m[i]) by {
            if has_port(base, extra[0].port) {
                assert(m[i] == mr[i]);
                assert(rest.contains(mr[i]));
                let j = choose|j: int| 0 <= j < rest.len() && rest[j] == mr[i];
                assert(extra[j + 1] == rest[j]);
            } else if i == 0 {
                assert(m[0] == extra[0]);
            } else {
                assert(m[i] == mr[i - 1]);
                assert(rest.contains(mr[i - 1]));
                let j = choose|j: int| 0 <= j < rest.len() && rest[j] == mr[i - 1];
                assert(extra[j + 1] == rest[j]);
            }
        }
        assert forall|i: int|
            0 <= i < extra.len() && !has_port(base, (#[trigger] extra[i]).port) implies m.contains(
            extra[i]) by {
            if i == 0 {
                assert(m[0] == extra[0]);
            } else {
                assert(extra[i] == rest[i - 1]);
                assert(mr.contains(rest[i - 1]));
                let j = choose|j: int| 0 <= j < mr.len() && mr[j] == rest[i - 1];
                if has_port(base, extra[0].port) {
                    assert(m[j] == mr[j]);
                } else {
                    assert(m[j + 1] == mr[j]);
                }
            }
        }
    }
}

/// A scan keeps every listed port that answered, in order, in front; after
/// them come only fallback ports that answered, none on a port the listing
/// reported; and every fallback port that answered is reported, by the
/// listing or after it.
pub proof fn lemma_scan_covers_both_sources(listed: Seq<OpenPortView>, fallback: Seq<OpenPortView>)
    ensures
        merged_scan(listed, fallback).subrange(0, listed.len() as int) == listed,
        forall|i: int|
            listed.len() <= i < merged_scan(listed, fallback).len() ==> fallback.contains(
                #[trigger] merged_scan(listed, fallback)[i],
            ) && !has_port(listed, merged_scan(listed, fallback)[i].port),
        forall|i: int|
            0 <= i < fallback.len() ==> has_port(
                merged_scan(listed, fallback),
                (#[trigger] fallback[i]).port,
            ),
{
    lemma_missing_from(listed, fallback);
    let m = merged_scan(listed, fallback);
    let x = missing_from(listed, fallback);
    assert(m.subrange(0, listed.len() as int) =~= listed);
    assert forall|i: int| listed.len() <= i < m.len() implies fallback.contains(#[trigger] m[i])
        && !has_port(listed, m[i].port) by {
        assert(m[i] == x[i - listed.len()]);
    }
    assert forall|i: int| 0 <= i < fallback.len() implies has_port(m, (#[trigger] fallback[i]).port) by {
        if has_port(listed, fallback[i].port) {
            let j = choose|j: int| 0 <= j < listed.len() && (#[trigger] listed[j]).port == fallback[i].port;
            assert(m[j] == listed[j]);
        } else {
            assert(x.contains(fallback[i]));
            let j = choose|j: int| 0 <= j < x.len() && x[j] == fallback[i];
            assert(m[listed.len() + j] == x[j]);
        }
    }
}


// ---------------------------------------------------------------------------
// Process start times
/// The elapsed running time, in seconds, that `ps -o etimes= -p PID` printed:
/// the output without surrounding white space, read as an `i64`.
pub open spec fn elapsed_seconds(ps_output: Seq<char>) -> Option<int> {
    parse_i64(trim(ps_output))
}

/// Every elapsed time that `ps` can print is read back: the decimal text of
/// any number of seconds from 0 to `i64::MAX`, with any white space around
/// it (the padding and final newline that `ps` prints), gives that number,
/// and with a leading `-` its negation, as `str::parse::<i64>` reads the
/// trimmed text.
pub proof fn lemma_elapsed_reads_decimal(pre: Seq<char>, n: nat, post: Seq<char>)
    requires
        all_white(pre),
        all_white(post),
    ensures
        n <= 0x7fff_ffff_ffff_ffff ==> elapsed_seconds(pre + decimal(n) + post) == Some(n as int),
        n <= 0x8000_0000_0000_0000 ==> elapsed_seconds(pre + (seq!['-'] + decimal(n)) + post)
            == Some(-(n as int)),
{
    let d = decimal(n);
    lemma_decimal_text(n);
    lemma_parse_i64_decimal(n);
    assert(ascii_digit(d[0]) && ascii_digit(d[d.len() - 1]));
    assert(tight(d));
    lemma_trim_padding(pre, d, post);
    let neg = seq!['-'] + d;
    assert(neg[0] == '-');
    assert(neg.last() == d.last());
    assert(tight(neg));
    lemma_trim_padding(pre, neg, post);
}

/// The elapsed time is read as `str::parse::<i64>` reads the trimmed output:
/// a run of ASCII digits, leading zeros allowed, with an optional `+` or `-`
/// before it and any white space around, gives its value (negated after a
/// `-`) where that value fits in an `i64`, and nothing where it does not;
/// output that is only white space (a process that is gone) gives nothing.
pub proof fn lemma_elapsed_reads_digits(
    pre: Seq<char>,
    sign: Seq<char>,
    digits: Seq<char>,
    post: Seq<char>,
)
    requires
        all_white(pre),
        all_white(post),
        digits.len() > 0,
        all_ascii_digits(digits),
        sign == Seq::<char>::empty() || sign == seq!['+'] || sign == seq!['-'],
    ensures
        elapsed_seconds(pre + (sign + digits) + post) == (if sign == seq!['-'] {
            if decimal_value(digits) <= 0x8000_0000_0000_0000 {
                Some(-(decimal_value(digits) as int))
            } else {
                None
            }
        } else if decimal_value(digits) <= 0x7fff_ffff_ffff_ffff {
            Some(decimal_value(digits) as int)
        } else {
            None
        }),
        elapsed_seconds(pre) is None,
{
    let body = sign + digits;
    assert(ascii_digit(digits[0]) && ascii_digit(digits[digits.len() - 1]));
    assert(body.last() == digits.last());
    if sign.len() == 0 {
        assert(body =~= digits);
    } else {
        assert(body[0] == sign[0]);
        assert(body.drop_first() =~= digits);
    }
    assert(tight(body));
    lemma_trim_padding(pre, body, post);
    let e = Seq::<char>::empty();
    assert(pre + e + e =~= pre);
    lemma_trim_padding(pre, e, e);
}

/// Reads the elapsed running time that `ps -o etimes=` printed.
pub fn parse_elapsed_seconds(ps_output: &str) -> (r: Option<i64>)
    ensures
        match r {
            Some(e) => elapsed_seconds(ps_output@) == Some(e as int),
            None => elapsed_seconds(ps_output@) is None,
        },
{
    let t = trimmed(ps_output);
    parse_i64_str(t.as_str())
}

/// The Unix time at which a process started: the current Unix time
/// `now_secs` less the elapsed running time that `ps` printed; `None` where
/// that output is not a number.
pub fn process_start_time(ps_output: &str, now_secs: i64) -> (r: Option<i64>)
    requires
        elapsed_seconds(ps_output@) matches Some(e) ==> i64::MIN <= now_secs - e <= i64::MAX,
    ensures
        match elapsed_seconds(ps_output@) {
            Some(e) => r == Some((now_secs - e) as i64),
            None => r is None,
        },
{
    match parse_elapsed_seconds(ps_output) {
        Some(e) => Some(now_secs - e),
        None => None,
    }
}

} // verus!
