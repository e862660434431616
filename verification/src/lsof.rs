//! The listing of listening sockets that `lsof -i -P -n` prints, read line by
//! line.
//!
//! A line is taken when it has the shape
//! `COMMAND PID USER FD TYPE DEVICE SIZE TCP ADDRESS:PORT (LISTEN)`:
//! columns separated by white space, the PID made of decimal digits, the
//! eighth column exactly `TCP`, then an address, a colon, the port's digits,
//! white space and `(LISTEN)`; whatever follows is ignored. Where several
//! colons could end the address, the first one that the port and `(LISTEN)`
//! follow is taken. White space and digits are the Unicode classes.
use vstd::prelude::*;
use crate::text::{
    white_space, decimal_digit, is_white_space, is_decimal_digit, chars_of, chars_equal,
    chars_start_with, string_from_chars,
};
use crate::number::{decimal, parse_unsigned, parse_unsigned_chars, lemma_decimal_text, lemma_parse_unsigned_decimal};
use crate::text::ascii_digit;
use crate::models::{OpenPort, OpenPortView, open_port_views};

verus! {

// ---------------------------------------------------------------------------
// Lines
/// The first position at or after `i` that holds a newline, or the length.
pub open spec fn newline_index(s: Seq<char>, i: int) -> int
    decreases s.len() - i,
{
    if 0 <= i < s.len() && s[i] != '\n' {
        newline_index(s, i + 1)
    } else {
        i
    }
}

pub proof fn lemma_newline_index(s: Seq<char>, i: int)
    requires
        0 <= i <= s.len(),
    ensures
        i <= newline_index(s, i) <= s.len(),
        newline_index(s, i) < s.len() ==> s[newline_index(s, i)] == '\n',
        forall|k: int| i <= k < newline_index(s, i) ==> s[k] != '\n',
    decreases s.len() - i,
{
    if i < s.len() && s[i] != '\n' {
        lemma_newline_index(s, i + 1);
    }
}

/// A line without the carriage return that ended it.
pub open spec fn strip_cr(line: Seq<char>) -> Seq<char> {
    if line.len() > 0 && line.last() == '\r' {
        line.drop_last()
    } else {
        line
    }
}

/// The lines of `s` from position `p` on, as `str::lines` yields them: split
/// at each `\n`, a `\r` just before the `\n` dropped, and no empty line after
/// a final `\n`.
pub open spec fn lines_from(s: Seq<char>, p: int) -> Seq<Seq<char>>
    decreases s.len() - p,
{
    if p < 0 || p >= s.len() {
        seq![]
    } else {
        let n = newline_index(s, p);
        proof {
            lemma_newline_index(s, p);
        }
        if n < s.len() {
            seq![strip_cr(s.subrange(p, n))] + lines_from(s, n + 1)
        } else {
            seq![s.subrange(p, s.len() as int)]
        }
    }
}

/// The lines of `s`, as `str::lines` yields them.
pub open spec fn split_lines(s: Seq<char>) -> Seq<Seq<char>> {
    lines_from(s, 0)
}

// ---------------------------------------------------------------------------
// Columns
/// The end of the run of characters other than white space that starts at `p`.
pub open spec fn token_end(l: Seq<char>, p: int) -> int
    decreases l.len() - p,
{
    if 0 <= p < l.len() && !white_space(l[p]) {
        token_end(l, p + 1)
    } else {
        p
    }
}

/// The end of the run of white space that starts at `p`.
pub open spec fn space_end(l: Seq<char>, p: int) -> int
    decreases l.len() - p,
{
    if 0 <= p < l.len() && white_space(l[p]) {
        space_end(l, p + 1)
    } else {
        p
    }
}

/// The end of the run of decimal digits that starts at `p`.
pub open spec fn digits_end(l: Seq<char>, p: int) -> int
    decreases l.len() - p,
{
    if 0 <= p < l.len() && decimal_digit(l[p]) {
        digits_end(l, p + 1)
    } else {
        p
    }
}

/// Past one column and the white space after it, where both are there.
pub open spec fn skip_column(l: Seq<char>, p: int) -> Option<int> {
    let e = token_end(l, p);
    let w = space_end(l, e);
    if e > p && w > e {
        Some(w)
    } else {
        None
    }
}

/// Past `n` columns, each followed by white space.
pub open spec fn skip_columns(l: Seq<char>, p: int, n: nat) -> Option<int>
    decreases n,
{
    if n == 0 {
        Some(p)
    } else {
        match skip_column(l, p) {
            Some(w) => skip_columns(l, w, (n - 1) as nat),
            None => None,
        }
    }
}

pub open spec fn tcp_marker() -> Seq<char> {
    seq!['T', 'C', 'P']
}

pub open spec fn listen_marker() -> Seq<char> {
    seq!['(', 'L', 'I', 'S', 'T', 'E', 'N', ')']
}

/// The columns before the address: the command ends at `.0`, the PID lies in
/// `.1 .. .2`, the `TCP` column ends at `.3` and the white space after it at
/// `.4`.
pub open spec fn leading_columns(l: Seq<char>) -> Option<(int, int, int, int, int)> {
    let e1 = token_end(l, 0);
    let w1 = space_end(l, e1);
    let e2 = digits_end(l, w1);
    let w2 = space_end(l, e2);
    if e1 > 0 && w1 > e1 && e2 > w1 && w2 > e2 {
        match skip_columns(l, w2, 5) {
            Some(f) => if f + 3 <= l.len() && l.subrange(f, f + 3) == tcp_marker() && space_end(
                l,
                f + 3,
            ) > f + 3 {
                Some((e1, w1, e2, f + 3, space_end(l, f + 3)))
            } else {
                None
            },
            None => None,
        }
    } else {
        None
    }
}

/// Where `c` holds a colon followed by digits, white space and `(LISTEN)`:
/// the end of those digits.
pub open spec fn port_after(l: Seq<char>, c: int) -> Option<int> {
    let d = digits_end(l, c + 1);
    let w = space_end(l, d);
    if 0 <= c < l.len() && l[c] == ':' && d > c + 1 && w > d && w + 8 <= l.len() && l.subrange(
        w,
        w + 8,
    ) == listen_marker() {
        Some(d)
    } else {
        None
    }
}

/// The first position at or after `c` at which `port_after` holds, reached
/// without passing a newline.
pub open spec fn first_port_colon(l: Seq<char>, c: int) -> Option<int>
    decreases l.len() - c,
{
    if c < 0 || c >= l.len() {
        None
    } else if port_after(l, c) is Some {
        Some(c)
    } else if l[c] == '\n' {
        None
    } else {
        first_port_colon(l, c + 1)
    }
}

/// How a listing line splits: the command ends at `.0`, the PID lies in
/// `.1 .. .2`, the address in `.3 .. .4` (`.4` holds the colon) and the port
/// in `.4 + 1 .. .5`.
pub open spec fn line_parts(l: Seq<char>) -> Option<(int, int, int, int, int, int)> {
    match leading_columns(l) {
        None => None,
        Some(cols) => {
            let (e1, w1, e2, t, q) = cols;
            match first_port_colon(l, q + 1) {
                Some(c) => Some((e1, w1, e2, q, c, port_after(l, c)->0)),
                None => if q - t >= 2 && l[q - 1] != '\n' && port_after(l, q) is Some {
                    Some((e1, w1, e2, q - 1, q, port_after(l, q)->0))
                } else {
                    None
                },
            }
        },
    }
}

/// The addresses whose services are listed: every interface, loopback, and
/// the private ranges `192.168.*` and `10.*`.
pub open spec fn local_address(a: Seq<char>) -> bool {
    ||| a == "*"@
    ||| a == "127.0.0.1"@
    ||| a == "0.0.0.0"@
    ||| a == "localhost"@
    ||| a == "[::]"@
    ||| (a.len() >= "192.168."@.len() && a.subrange(0, "192.168."@.len() as int) == "192.168."@)
    ||| (a.len() >= "10."@.len() && a.subrange(0, "10."@.len() as int) == "10."@)
}

/// The open port that one listing line reports, if it is taken.
pub open spec fn line_entry(l: Seq<char>) -> Option<OpenPortView> {
    match line_parts(l) {
        None => None,
        Some(parts) => {
            let (e1, w1, e2, a, c, d) = parts;
            match parse_unsigned(l.subrange(c + 1, d), 65535) {
                None => None,
                Some(port) => if local_address(l.subrange(a, c)) {
                    Some(
                        OpenPortView {
                            port: port as u16,
                            process_name: Some(l.subrange(0, e1)),
                            pid: match parse_unsigned(l.subrange(w1, e2), 0xffff_ffff) {
                                Some(v) => Some(v as u32),
                                None => None,
                            },
                            start_time: None,
                        },
                    )
                } else {
                    None
                },
            }
        },
    }
}

/// The open ports that a sequence of lines reports, in order.
pub open spec fn line_entries(ls: Seq<Seq<char>>) -> Seq<OpenPortView>
    decreases ls.len(),
{
    if ls.len() == 0 {
        seq![]
    } else {
        match line_entry(ls[0]) {
            Some(e) => seq![e] + line_entries(ls.drop_first()),
            None => line_entries(ls.drop_first()),
        }
    }
}

/// The open ports that a whole listing reports, in order.
pub open spec fn listing_entries(output: Seq<char>) -> Seq<OpenPortView> {
    line_entries(split_lines(output))
}


// ---------------------------------------------------------------------------
// Reading a line
fn token_end_at(l: &Vec<char>, p: usize) -> (r: usize)
    requires
        p <= l@.len(),
    ensures
        r == token_end(l@, p as int),
        p <= r <= l@.len(),
{
    let mut i = p;
    while i < l.len() && !is_white_space(l[i])
        invariant
            p <= i <= l@.len(),
            token_end(l@, p as int) == token_end(l@, i as int),
        decreases l@.len() - i,
    {
        i = i + 1;
    }
    i
}

fn space_end_at(l: &Vec<char>, p: usize) -> (r: usize)
    requires
        p <= l@.len(),
    ensures
        r == space_end(l@, p as int),
        p <= r <= l@.len(),
{
    let mut i = p;
    while i < l.len() && is_white_space(l[i])
        invariant
            p <= i <= l@.len(),
            space_end(l@, p as int) == space_end(l@, i as int),
        decreases l@.len() - i,
    {
        i = i + 1;
    }
    i
}

fn digits_end_at(l: &Vec<char>, p: usize) -> (r: usize)
    requires
        p <= l@.len(),
    ensures
        r == digits_end(l@, p as int),
        p <= r <= l@.len(),
{
    let mut i = p;
    while i < l.len() && is_decimal_digit(l[i])
        invariant
            p <= i <= l@.len(),
            digits_end(l@, p as int) == digits_end(l@, i as int),
        decreases l@.len() - i,
    {
        i = i + 1;
    }
    i
}

fn skip_column_at(l: &Vec<char>, p: usize) -> (r: Option<usize>)
    requires
        p <= l@.len(),
    ensures
        match r {
            Some(w) => skip_column(l@, p as int) == Some(w as int) && w <= l@.len(),
            None => skip_column(l@, p as int) is None,
        },
{
    let e = token_end_at(l, p);
    let w = space_end_at(l, e);
    if e > p && w > e {
        Some(w)
    } else {
        None
    }
}

fn leading_columns_at(l: &Vec<char>) -> (r: Option<(usize, usize, usize, usize, usize)>)
    ensures
        match r {
            Some(t) => leading_columns(l@) == Some(
                (t.0 as int, t.1 as int, t.2 as int, t.3 as int, t.4 as int),
            ) && t.3 <= t.4 <= l@.len(),
            None => leading_columns(l@) is None,
        },
{
    let e1 = token_end_at(l, 0);
    let w1 = space_end_at(l, e1);
    let e2 = digits_end_at(l, w1);
    let w2 = space_end_at(l, e2);
    if !(e1 > 0 && w1 > e1 && e2 > w1 && w2 > e2) {
        return None;
    }
    let mut f = w2;
    let mut k: usize = 0;
    while k < 5
        invariant
            0 <= k <= 5,
            f <= l@.len(),
            e1 == token_end(l@, 0),
            w1 == space_end(l@, e1 as int),
            e2 == digits_end(l@, w1 as int),
            w2 == space_end(l@, e2 as int),
            e1 > 0 && w1 > e1 && e2 > w1 && w2 > e2,
            skip_columns(l@, w2 as int, 5) == skip_columns(l@, f as int, (5 - k) as nat),
        decreases 5 - k,
    {
        match skip_column_at(l, f) {
            Some(w) => {
                f = w;
            },
            None => {
                assert(skip_columns(l@, f as int, (5 - k) as nat) is None);
                assert(skip_columns(l@, w2 as int, 5) is None);
                return None;
            },
        }
        k = k + 1;
    }
    let n = l.len();
    if f <= n && n - f >= 3 && l[f] == 'T' && l[f + 1] == 'C' && l[f + 2] == 'P' {
        assert(l@.subrange(f as int, f + 3) =~= tcp_marker());
        let q = space_end_at(l, f + 3);
        if q > f + 3 {
            return Some((e1, w1, e2, f + 3, q));
        }
        None
    } else {
        proof {
            if f + 3 <= l@.len() {
                assert(l@.subrange(f as int, f + 3) != tcp_marker()) by {
                    if l@.subrange(f as int, f + 3) == tcp_marker() {
                        assert(l@.subrange(f as int, f + 3)[0] == 'T');
                        assert(l@.subrange(f as int, f + 3)[1] == 'C');
                        assert(l@.subrange(f as int, f + 3)[2] == 'P');
                    }
                }
            }
        }
        None
    }
}

fn port_after_at(l: &Vec<char>, c: usize) -> (r: Option<usize>)
    requires
        c < l@.len(),
    ensures
        match r {
            Some(d) => port_after(l@, c as int) == Some(d as int),
            None => port_after(l@, c as int) is None,
        },
{
    let n = l.len();
    let d = digits_end_at(l, c + 1);
    let w = space_end_at(l, d);
    if l[c] == ':' && d > c + 1 && w > d && n - w >= 8 {
        let ok = l[w] == '(' && l[w + 1] == 'L' && l[w + 2] == 'I' && l[w + 3] == 'S' && l[w
            + 4] == 'T' && l[w + 5] == 'E' && l[w + 6] == 'N' && l[w + 7] == ')';
        let ghost m = l@.subrange(w as int, w + 8);
        if ok {
            assert(m =~= listen_marker());
            Some(d)
        } else {
            assert(m != listen_marker()) by {
                if m == listen_marker() {
                    assert(m[0] == '(' && m[1] == 'L' && m[2] == 'I' && m[3] == 'S');
                    assert(m[4] == 'T' && m[5] == 'E' && m[6] == 'N' && m[7] == ')');
                }
            }
            None
        }
    } else {
        None
    }
}

fn first_port_colon_from(l: &Vec<char>, start: usize) -> (r: Option<usize>)
    ensures
        match r {
            Some(c) => first_port_colon(l@, start as int) == Some(c as int) && c < l@.len(),
            None => first_port_colon(l@, start as int) is None,
        },
{
    let mut c = start;
    while c < l.len()
        invariant
            start <= c,
            first_port_colon(l@, start as int) == first_port_colon(l@, c as int),
        decreases l@.len() - c,
    {
        if port_after_at(l, c).is_some() {
            return Some(c);
        }
        if l[c] == '\n' {
            return None;
        }
        c = c + 1;
    }
    None
}

proof fn lemma_first_port_colon(l: Seq<char>, s: int)
    ensures
        first_port_colon(l, s) matches Some(c) ==> port_after(l, c) is Some,
    decreases l.len() - s,
{
    if 0 <= s < l.len() && port_after(l, s) is None && l[s] != '\n' {
        lemma_first_port_colon(l, s + 1);
    }
}

fn line_parts_of(l: &Vec<char>) -> (r: Option<(usize, usize, usize, usize, usize, usize)>)
    ensures
        match r {
            Some(t) => line_parts(l@) == Some(
                (t.0 as int, t.1 as int, t.2 as int, t.3 as int, t.4 as int, t.5 as int),
            ),
            None => line_parts(l@) is None,
        },
{
    match leading_columns_at(l) {
        None => None,
        Some(cols) => {
            let (e1, w1, e2, t, q) = cols;
            if q >= l.len() {
                return None;
            }
            match first_port_colon_from(l, q + 1) {
                Some(c) => {
                    proof {
                        lemma_first_port_colon(l@, q + 1);
                    }
                    let d = port_after_at(l, c);
                    match d {
                        Some(d) => Some((e1, w1, e2, q, c, d)),
                        None => None,
                    }
                },
                None => {
                    if q - t >= 2 && l[q - 1] != '\n' {
                        match port_after_at(l, q) {
                            Some(d) => Some((e1, w1, e2, q - 1, q, d)),
                            None => None,
                        }
                    } else {
                        None
                    }
                },
            }
        },
    }
}


fn is_local_address(l: &Vec<char>, a: usize, c: usize) -> (r: bool)
    requires
        a <= c <= l@.len(),
    ensures
        r == local_address(l@.subrange(a as int, c as int)),
{
    let ghost s = l@.subrange(a as int, c as int);
    let p1 = chars_start_with(l, a, c, "192.168.");
    let p2 = chars_start_with(l, a, c, "10.");
    proof {
        assert(s.len() == c - a);
        assert(forall|n: int| 0 <= n <= s.len() ==> s.subrange(0, n) =~= l@.subrange(a as int, a + n));
    }
    chars_equal(l, a, c, "*") || chars_equal(l, a, c, "127.0.0.1") || chars_equal(
        l,
        a,
        c,
        "0.0.0.0",
    ) || chars_equal(l, a, c, "localhost") || chars_equal(l, a, c, "[::]") || p1 || p2
}

/// The open port that one listing line reports, if the line is taken.
fn line_entry_of(l: &Vec<char>) -> (r: Option<OpenPort>)
    ensures
        match r {
            Some(p) => line_entry(l@) == Some(p@),
            None => line_entry(l@) is None,
        },
{
    match line_parts_of(l) {
        None => None,
        Some(parts) => {
            let (e1, w1, e2, a, c, d) = parts;
            proof {
                lemma_line_parts_bounds(l@);
            }
            match parse_unsigned_chars(l, c + 1, d, 65535) {
                None => None,
                Some(port) => {
                    if is_local_address(l, a, c) {
                        let name = string_from_chars(l, 0, e1);
                        let pid = match parse_unsigned_chars(l, w1, e2, 0xffff_ffff) {
                            Some(v) => Some(v as u32),
                            None => None,
                        };
                        Some(
                            OpenPort {
                                port: port as u16,
                                process_name: Some(name),
                                pid,
                                start_time: None,
                            },
                        )
                    } else {
                        None
                    }
                },
            }
        },
    }
}

proof fn lemma_run_ends(l: Seq<char>, p: int)
    requires
        0 <= p <= l.len(),
    ensures
        p <= token_end(l, p) <= l.len(),
        p <= space_end(l, p) <= l.len(),
        p <= digits_end(l, p) <= l.len(),
    decreases l.len() - p,
{
    if p < l.len() {
        lemma_run_ends(l, p + 1);
    }
}

proof fn lemma_skip_columns_bounds(l: Seq<char>, p: int, n: nat)
    requires
        0 <= p <= l.len(),
    ensures
        skip_columns(l, p, n) matches Some(f) ==> p <= f <= l.len(),
    decreases n,
{
    if n > 0 {
        lemma_run_ends(l, p);
        lemma_run_ends(l, token_end(l, p));
        if let Some(w) = skip_column(l, p) {
            lemma_skip_columns_bounds(l, w, (n - 1) as nat);
        }
    }
}

proof fn lemma_first_port_colon_bounds(l: Seq<char>, s: int)
    ensures
        first_port_colon(l, s) matches Some(c) ==> s <= c < l.len(),
    decreases l.len() - s,
{
    if 0 <= s < l.len() && port_after(l, s) is None && l[s] != '\n' {
        lemma_first_port_colon_bounds(l, s + 1);
    }
}

/// The positions that `line_parts` gives lie in order inside the line.
pub proof fn lemma_line_parts_bounds(l: Seq<char>)
    ensures
        line_parts(l) matches Some(t) ==> 0 < t.0 < t.1 < t.2 <= t.3 < t.4 < t.4 + 1 < t.5
            <= l.len(),
{
    if let Some(cols) = leading_columns(l) {
        let (e1, w1, e2, t, q) = cols;
        lemma_run_ends(l, 0);
        lemma_run_ends(l, e1);
        lemma_run_ends(l, w1);
        lemma_run_ends(l, e2);
        let w2 = space_end(l, e2);
        lemma_skip_columns_bounds(l, w2, 5);
        let f = skip_columns(l, w2, 5)->0;
        lemma_run_ends(l, f + 3);
        lemma_first_port_colon_bounds(l, q + 1);
        lemma_first_port_colon(l, q + 1);
        if let Some(c) = first_port_colon(l, q + 1) {
            lemma_run_ends(l, c + 1);
        } else if q < l.len() {
            lemma_run_ends(l, q + 1);
        }
    }
}


/// The addresses that are kept: the wildcard, loopback and any-address forms,
/// and every address in the private ranges `192.168.*` and `10.*`.
pub proof fn lemma_local_address_forms(rest: Seq<char>)
    ensures
        local_address("*"@),
        local_address("127.0.0.1"@),
        local_address("0.0.0.0"@),
        local_address("localhost"@),
        local_address("[::]"@),
        local_address("192.168."@ + rest),
        local_address("10."@ + rest),
{
    assert(("192.168."@ + rest).subrange(0, "192.168."@.len() as int) =~= "192.168."@);
    assert(("10."@ + rest).subrange(0, "10."@.len() as int) =~= "10."@);
}

proof fn lemma_newline_index_shift(pre: Seq<char>, s: Seq<char>, i: int)
    requires
        0 <= i <= s.len(),
    ensures
        newline_index(pre + s, pre.len() + i) == pre.len() + newline_index(s, i),
    decreases s.len() - i,
{
    if i < s.len() {
        assert((pre + s)[pre.len() + i] == s[i]);
        if s[i] != '\n' {
            lemma_newline_index_shift(pre, s, i + 1);
        }
    }
}

proof fn lemma_lines_from_shift(pre: Seq<char>, s: Seq<char>, p: int)
    requires
        0 <= p,
    ensures
        lines_from(pre + s, pre.len() + p) == lines_from(s, p),
    decreases s.len() - p,
{
    let t = pre + s;
    let k = pre.len() as int;
    if p < s.len() {
        lemma_newline_index_shift(pre, s, p);
        lemma_newline_index(s, p);
        let n = newline_index(s, p);
        assert(t.subrange(k + p, k + n) =~= s.subrange(p, n));
        if n < s.len() {
            lemma_lines_from_shift(pre, s, n + 1);
        } else {
            assert(t.subrange(k + p, t.len() as int) =~= s.subrange(p, s.len() as int));
        }
    }
}

/// The entries of lines in sequence are the entries of each, in order.
proof fn lemma_line_entries_cons(x: Seq<char>, ys: Seq<Seq<char>>)
    ensures
        line_entries(seq![x] + ys) == line_entries(seq![x]) + line_entries(ys),
{
    let xs = seq![x] + ys;
    assert(xs[0] == x);
    assert(xs.drop_first() =~= ys);
    assert(seq![x].drop_first() =~= Seq::<Seq<char>>::empty());
    if let Some(e) = line_entry(x) {
        assert(line_entries(seq![x]) == seq![e] + line_entries(Seq::<Seq<char>>::empty()));
        assert(seq![e] + Seq::<OpenPortView>::empty() =~= seq![e]);
    } else {
        assert(line_entries(seq![x]) == line_entries(Seq::<Seq<char>>::empty()));
        assert(Seq::<OpenPortView>::empty() + line_entries(ys) =~= line_entries(ys));
    }
}

/// A listing is read line by line: a line ended by a newline (a carriage
/// return before it dropped) reports what it reports on its own, followed by
/// what the rest of the listing reports.
pub proof fn lemma_listing_by_lines(line: Seq<char>, rest: Seq<char>)
    requires
        forall|i: int| 0 <= i < line.len() ==> #[trigger] line[i] != '\n',
    ensures
        listing_entries(line + seq!['\n'] + rest) == line_entries(seq![strip_cr(line)])
            + listing_entries(rest),
{
    let pre = line + seq!['\n'];
    let s = pre + rest;
    assert(line + seq!['\n'] + rest == s);
    let k = line.len() as int;
    assert(s[k] == '\n');
    assert forall|i: int| 0 <= i < k implies #[trigger] s[i] != '\n' by {
        assert(s[i] == line[i]);
    }
    lemma_newline_index(s, 0);
    assert(newline_index(s, 0) == k) by {
        if newline_index(s, 0) < k {
            assert(s[newline_index(s, 0)] != '\n');
        }
    }
    assert(s.subrange(0, k) =~= line);
    lemma_lines_from_shift(pre, rest, 0);
    assert(split_lines(s) == seq![strip_cr(line)] + lines_from(s, k + 1));
    assert(pre.len() + 0 == k + 1);
    assert(lines_from(s, k + 1) == split_lines(rest));
    lemma_line_entries_cons(strip_cr(line), split_lines(rest));
}

/// The characters `v[lo..hi]` in a vector of their own, without a final
/// carriage return when `strip` is set.
fn line_chars(v: &Vec<char>, lo: usize, hi: usize, strip: bool) -> (r: Vec<char>)
    requires
        lo <= hi <= v@.len(),
    ensures
        r@ == (if strip {
            strip_cr(v@.subrange(lo as int, hi as int))
        } else {
            v@.subrange(lo as int, hi as int)
        }),
{
    let mut end = hi;
    if strip && hi > lo && v[hi - 1] == '\r' {
        end = hi - 1;
    }
    let mut r: Vec<char> = Vec::new();
    let mut i = lo;
    while i < end
        invariant
            lo <= i <= end <= hi <= v@.len(),
            r@ == v@.subrange(lo as int, i as int),
        decreases end - i,
    {
        r.push(v[i]);
        i = i + 1;
    }
    proof {
        if hi > lo {
            assert(v@.subrange(lo as int, hi as int).drop_last() =~= v@.subrange(
                lo as int,
                hi - 1,
            ));
        }
    }
    r
}

/// The open ports that an `lsof -i -P -n` listing reports, one for each line
/// that is taken, in the order of the lines. The start time of each is left
/// unknown: finding it asks the system about the process.
pub fn parse_listing(output: &str) -> (r: Vec<OpenPort>)
    ensures
        open_port_views(r@) == listing_entries(output@),
{
    let v = chars_of(output);
    let n = v.len();
    let mut r: Vec<OpenPort> = Vec::new();
    let mut pos: usize = 0;
    while pos < n
        invariant
            0 <= pos <= n == v@.len(),
            v@ == output@,
            open_port_views(r@) + line_entries(lines_from(v@, pos as int)) == listing_entries(
                output@,
            ),
        decreases n - pos,
    {
        let mut j = pos;
        while j < n && v[j] != '\n'
            invariant
                pos <= j <= n == v@.len(),
                newline_index(v@, pos as int) == newline_index(v@, j as int),
            decreases n - j,
        {
            j = j + 1;
        }
        let ghost ls = lines_from(v@, pos as int);
        let line = line_chars(&v, pos, j, j < n);
        assert(ls[0] == line@);
        let e = line_entry_of(&line);
        let ghost before = open_port_views(r@);
        let ghost rest = if j < n {
            lines_from(v@, j + 1)
        } else {
            seq![]
        };
        assert(ls.drop_first() =~= rest);
        match e {
            Some(p) => {
                r.push(p);
                assert(open_port_views(r@) =~= before.push(p@));
                assert(line_entries(ls) == seq![p@] + line_entries(rest));
                assert(before + (seq![p@] + line_entries(rest)) =~= before.push(p@)
                    + line_entries(rest));
            },
            None => {
                assert(line_entries(ls) == line_entries(rest));
            },
        }
        if j < n {
            pos = j + 1;
        } else {
            pos = n;
            assert(lines_from(v@, n as int) =~= seq![]);
        }
    }
    assert(lines_from(v@, pos as int) =~= seq![]);
    assert(open_port_views(r@) + seq![] =~= open_port_views(r@));
    r
}


// ---------------------------------------------------------------------------
// A line of the listing shape, read back
/// The columns between the user and the address: descriptor `3u`, type
/// `IPv4`, device `0x1`, size `0t0` and the protocol `TCP`, each followed by
/// a space.
pub open spec fn middle_columns() -> Seq<char> {
    seq!['3', 'u', ' ', 'I', 'P', 'v', '4', ' ', '0', 'x', '1', ' ', '0', 't', '0', ' ', 'T', 'C', 'P', ' ']
}

/// The line that `lsof -i -P -n` prints for a process listening on
/// `address:port`.
#[verifier::opaque]
pub open spec fn listen_line(
    command: Seq<char>,
    pid: u32,
    user: Seq<char>,
    address: Seq<char>,
    port: u16,
) -> Seq<char> {
    command + seq![' '] + decimal(pid as nat) + seq![' '] + user + seq![' '] + middle_columns()
        + address + seq![':'] + decimal(port as nat) + seq![' '] + listen_marker()
}

/// The text of one column: not empty, and no white space in it.
pub open spec fn column_text(s: Seq<char>) -> bool {
    s.len() > 0 && forall|i: int| 0 <= i < s.len() ==> !white_space(#[trigger] s[i])
}

proof fn lemma_token_run(l: Seq<char>, p: int, k: int)
    requires
        0 <= p,
        0 <= k,
        p + k <= l.len(),
        forall|i: int| p <= i < p + k ==> !white_space(#[trigger] l[i]),
        p + k < l.len() ==> white_space(l[p + k]),
    ensures
        token_end(l, p) == p + k,
    decreases k,
{
    if k > 0 {
        lemma_token_run(l, p + 1, k - 1);
    }
}

proof fn lemma_digit_run(l: Seq<char>, p: int, k: int)
    requires
        0 <= p,
        0 <= k,
        p + k <= l.len(),
        forall|i: int| p <= i < p + k ==> decimal_digit(#[trigger] l[i]),
        p + k < l.len() ==> !decimal_digit(l[p + k]),
    ensures
        digits_end(l, p) == p + k,
    decreases k,
{
    if k > 0 {
        lemma_digit_run(l, p + 1, k - 1);
    }
}

/// A column of text `t` at `p`, then one space, then a character that is not
/// white space.
proof fn lemma_column_at(l: Seq<char>, p: int, t: Seq<char>)
    requires
        0 <= p,
        p + t.len() + 1 < l.len(),
        l.subrange(p, p + t.len()) == t,
        column_text(t),
        l[p + t.len()] == ' ',
        !white_space(l[p + t.len() + 1]),
    ensures
        token_end(l, p) == p + t.len(),
        space_end(l, p + t.len()) == p + t.len() + 1,
        skip_column(l, p) == Some(p + t.len() + 1),
{
    assert forall|i: int| p <= i < p + t.len() implies !white_space(#[trigger] l[i]) by {
        assert(l[i] == l.subrange(p, p + t.len())[i - p]);
    }
    lemma_token_run(l, p, t.len() as int);
    assert(white_space(l[p + t.len()]));
    assert(space_end(l, p + t.len() + 1) == p + t.len() + 1);
}

/// The decimal text of `n` at `p`, then one space, then a character that is
/// not white space.
proof fn lemma_number_at(l: Seq<char>, p: int, n: nat)
    requires
        0 <= p,
        p + decimal(n).len() + 1 < l.len(),
        l.subrange(p, p + decimal(n).len()) == decimal(n),
        l[p + decimal(n).len()] == ' ',
        !white_space(l[p + decimal(n).len() + 1]),
    ensures
        digits_end(l, p) == p + decimal(n).len(),
        space_end(l, p + decimal(n).len()) == p + decimal(n).len() + 1,
{
    lemma_decimal_text(n);
    let k = decimal(n).len() as int;
    assert forall|i: int| p <= i < p + k implies decimal_digit(#[trigger] l[i]) by {
        assert(l[i] == decimal(n)[i - p]);
    }
    lemma_digit_run(l, p, k);
    assert(white_space(l[p + k]));
    assert(space_end(l, p + k + 1) == p + k + 1);
}

proof fn lemma_first_port_colon_past(l: Seq<char>, s: int, c: int)
    requires
        0 <= s <= c < l.len(),
        forall|i: int| s <= i < c ==> #[trigger] l[i] != ':' && l[i] != '\n',
        port_after(l, c) is Some,
    ensures
        first_port_colon(l, s) == Some(c),
    decreases c - s,
{
    if s < c {
        lemma_first_port_colon_past(l, s + 1, c);
    }
}


/// Where a line starts with `pre + x`, it starts with `pre`, and `x` follows.
proof fn lemma_split_prefix(l: Seq<char>, pre: Seq<char>, x: Seq<char>)
    requires
        pre.len() + x.len() <= l.len(),
        l.subrange(0, (pre.len() + x.len()) as int) == pre + x,
    ensures
        l.subrange(0, pre.len() as int) == pre,
        l.subrange(pre.len() as int, (pre.len() + x.len()) as int) == x,
{
    let n = (pre.len() + x.len()) as int;
    assert forall|i: int| 0 <= i < n implies l[i] == #[trigger] (pre + x)[i] by {
        assert(l[i] == l.subrange(0, n)[i]);
    }
    assert(l.subrange(0, pre.len() as int) =~= pre) by {
        assert forall|i: int| 0 <= i < pre.len() implies l.subrange(0, pre.len() as int)[i] == pre[i] by {
            assert((pre + x)[i] == pre[i]);
        }
    }
    assert(l.subrange(pre.len() as int, n) =~= x) by {
        assert forall|i: int| 0 <= i < x.len() implies l.subrange(pre.len() as int, n)[i] == x[i] by {
            assert((pre + x)[pre.len() + i] == x[i]);
        }
    }
}


/// Where the pieces of a listing line lie in `l`.
spec fn listen_layout(
    l: Seq<char>,
    command: Seq<char>,
    pid: u32,
    user: Seq<char>,
    address: Seq<char>,
    port: u16,
) -> bool {
    let pd = decimal(pid as nat);
    let nd = decimal(port as nat);
    let e1 = command.len() as int;
    let w1 = e1 + 1;
    let e2 = w1 + pd.len();
    let w2 = e2 + 1;
    let u = w2 + user.len();
    let m = u + 1;
    let q = m + 20;
    let c = q + address.len();
    let d = c + 1 + nd.len();
    let w = d + 1;
    &&& l.len() == w + 8
    &&& l.subrange(0, e1) == command
    &&& l.subrange(e1, w1) == seq![' ']
    &&& l.subrange(w1, e2) == pd
    &&& l.subrange(e2, w2) == seq![' ']
    &&& l.subrange(w2, u) == user
    &&& l.subrange(u, m) == seq![' ']
    &&& l.subrange(m, q) == middle_columns()
    &&& l.subrange(q, c) == address
    &&& l.subrange(c, c + 1) == seq![':']
    &&& l.subrange(c + 1, d) == nd
    &&& l.subrange(d, w) == seq![' ']
    &&& l.subrange(w, w + 8) == listen_marker()
}

/// Where each piece of a listing line lies.
proof fn lemma_listen_line_pieces(
    command: Seq<char>,
    pid: u32,
    user: Seq<char>,
    address: Seq<char>,
    port: u16,
)
    ensures
        listen_layout(listen_line(command, pid, user, address, port), command, pid, user, address, port),
{
    let l = listen_line(command, pid, user, address, port);
    let pd = decimal(pid as nat);
    let nd = decimal(port as nat);
    let p1 = command + seq![' '];
    let p2 = p1 + pd;
    let p3 = p2 + seq![' '];
    let p4 = p3 + user;
    let p5 = p4 + seq![' '];
    let p6 = p5 + middle_columns();
    let p7 = p6 + address;
    let p8 = p7 + seq![':'];
    let p9 = p8 + nd;
    let p10 = p9 + seq![' '];
    reveal(listen_line);
    assert(l == p10 + listen_marker());
    assert(l.subrange(0, l.len() as int) =~= l);
    lemma_split_prefix(l, p10, listen_marker());
    lemma_split_prefix(l, p9, seq![' ']);
    lemma_split_prefix(l, p8, nd);
    lemma_split_prefix(l, p7, seq![':']);
    lemma_split_prefix(l, p6, address);
    lemma_split_prefix(l, p5, middle_columns());
    lemma_split_prefix(l, p4, seq![' ']);
    lemma_split_prefix(l, p3, user);
    lemma_split_prefix(l, p2, seq![' ']);
    lemma_split_prefix(l, p1, pd);
    lemma_split_prefix(l, command, seq![' ']);
}

/// Every port number is read back. A line of the listing shape, for a
/// command, a user and a local address that are column texts (the address
/// without a colon), reports that command, the PID and the port, for every
/// PID and for every port from 0 to 65535; and a listing made of that line
/// reports that one open port.
pub proof fn lemma_listen_line_read(
    command: Seq<char>,
    pid: u32,
    user: Seq<char>,
    address: Seq<char>,
    port: u16,
)
    requires
        column_text(command),
        column_text(user),
        column_text(address),
        forall|i: int| 0 <= i < address.len() ==> #[trigger] address[i] != ':',
        local_address(address),
    ensures
        line_entry(listen_line(command, pid, user, address, port)) == Some(
            OpenPortView { port, process_name: Some(command), pid: Some(pid), start_time: None },
        ),
        listing_entries(listen_line(command, pid, user, address, port)) == seq![
            OpenPortView { port, process_name: Some(command), pid: Some(pid), start_time: None },
        ],
{
    let l = listen_line(command, pid, user, address, port);
    let entry = OpenPortView { port, process_name: Some(command), pid: Some(pid), start_time: None };
    lemma_listen_line_pieces(command, pid, user, address, port);
    lemma_listen_line_entry(l, command, pid, user, address, port);
    lemma_no_newline_in_listen_line(l, command, pid, user, address, port);
    lemma_single_line_listing(l);
}

/// The entry of a line laid out as a listing line.
#[verifier::rlimit(30)]
proof fn lemma_listen_line_entry(
    l: Seq<char>,
    command: Seq<char>,
    pid: u32,
    user: Seq<char>,
    address: Seq<char>,
    port: u16,
)
    requires
        listen_layout(l, command, pid, user, address, port),
        column_text(command),
        column_text(user),
        column_text(address),
        forall|i: int| 0 <= i < address.len() ==> #[trigger] address[i] != ':',
        local_address(address),
    ensures
        line_entry(l) == Some(
            OpenPortView { port, process_name: Some(command), pid: Some(pid), start_time: None },
        ),
{
    let pd = decimal(pid as nat);
    let nd = decimal(port as nat);
    let e1 = command.len() as int;
    let w1 = e1 + 1;
    let e2 = w1 + pd.len();
    let q = e2 + 1 + user.len() + 21;
    let c = q + address.len();
    let d = c + 1 + nd.len();
    lemma_listen_line_columns(l, command, pid, user, address, port);
    lemma_listen_line_port(l, command, pid, user, address, port);
    assert(line_parts(l) == Some((e1, w1, e2, q, c, d)));
    lemma_parse_unsigned_decimal(port as nat, 65535);
    lemma_parse_unsigned_decimal(pid as nat, 0xffff_ffff);
}

/// A listing of one line without a newline reports what that line reports.
proof fn lemma_single_line_listing(l: Seq<char>)
    requires
        l.len() > 0,
        forall|i: int| 0 <= i < l.len() ==> #[trigger] l[i] != '\n',
    ensures
        listing_entries(l) == match line_entry(l) {
            Some(e) => seq![e],
            None => Seq::<OpenPortView>::empty(),
        },
{
    lemma_newline_index(l, 0);
    assert(newline_index(l, 0) == l.len());
    assert(l.subrange(0, l.len() as int) =~= l);
    assert(split_lines(l) == seq![l]);
    assert(seq![l].drop_first() =~= Seq::<Seq<char>>::empty());
    if let Some(e) = line_entry(l) {
        assert(line_entries(seq![l]) == seq![e] + line_entries(Seq::<Seq<char>>::empty()));
        assert(seq![e] + Seq::<OpenPortView>::empty() =~= seq![e]);
    } else {
        assert(line_entries(seq![l]) == line_entries(Seq::<Seq<char>>::empty()));
    }
}

/// The columns of a listing line up to its address.
#[verifier::rlimit(30)]
proof fn lemma_listen_line_columns(
    l: Seq<char>,
    command: Seq<char>,
    pid: u32,
    user: Seq<char>,
    address: Seq<char>,
    port: u16,
)
    requires
        listen_layout(l, command, pid, user, address, port),
        column_text(command),
        column_text(user),
        column_text(address),
    ensures
        ({
            let e1 = command.len() as int;
            let e2 = e1 + 1 + decimal(pid as nat).len();
            let q = e2 + 1 + user.len() + 21;
            leading_columns(l) == Some((e1, e1 + 1, e2, q - 1, q))
        }),
{
    let pd = decimal(pid as nat);
    lemma_decimal_text(pid as nat);
    let e1 = command.len() as int;
    let w1 = e1 + 1;
    let e2 = w1 + pd.len();
    let w2 = e2 + 1;
    let u = w2 + user.len();
    let m = u + 1;
    let f = m + 16;
    let q = m + 20;
    let mid = middle_columns();
    assert forall|k: int| 0 <= k < 20 implies l[m + k] == #[trigger] mid[k] by {
        assert(l[m + k] == l.subrange(m, q)[k]);
    }
    assert(l[e1] == l.subrange(e1, w1)[0]);
    assert(l[w1] == l.subrange(w1, e2)[0]);
    assert(ascii_digit(pd[0]));
    lemma_column_at(l, 0, command);
    assert(l[e2] == l.subrange(e2, w2)[0]);
    assert(l[w2] == l.subrange(w2, u)[0]);
    lemma_number_at(l, w1, pid as nat);
    assert(l[u] == l.subrange(u, m)[0]);
    assert(l[m] == mid[0]);
    lemma_column_at(l, w2, user);
    // the five columns that are skipped
    assert(l.subrange(m, m + 2) =~= seq!['3', 'u']) by {
        assert(l[m + 1] == mid[1]);
    }
    assert(l.subrange(m + 3, m + 7) =~= seq!['I', 'P', 'v', '4']) by {
        assert(l[m + 3] == mid[3] && l[m + 4] == mid[4] && l[m + 5] == mid[5] && l[m + 6] == mid[6]);
    }
    assert(l.subrange(m + 8, m + 11) =~= seq!['0', 'x', '1']) by {
        assert(l[m + 8] == mid[8] && l[m + 9] == mid[9] && l[m + 10] == mid[10]);
    }
    assert(l.subrange(m + 12, m + 15) =~= seq!['0', 't', '0']) by {
        assert(l[m + 12] == mid[12] && l[m + 13] == mid[13] && l[m + 14] == mid[14]);
    }
    assert(l[m + 2] == mid[2] && l[m + 7] == mid[7] && l[m + 11] == mid[11] && l[m + 15] == mid[15]);
    assert(l[m + 16] == mid[16] && l[m + 19] == mid[19]);
    lemma_column_at(l, m, seq!['3', 'u']);
    lemma_column_at(l, m + 3, seq!['I', 'P', 'v', '4']);
    lemma_column_at(l, m + 8, seq!['0', 'x', '1']);
    lemma_column_at(l, m + 12, seq!['0', 't', '0']);
    assert(skip_columns(l, f, 0) == Some(f));
    assert(skip_columns(l, m + 12, 1) == Some(f));
    assert(skip_columns(l, m + 8, 2) == Some(f));
    assert(skip_columns(l, m + 3, 3) == Some(f));
    assert(skip_columns(l, m, 4) == Some(f));
    assert(skip_columns(l, w2, 5) == Some(f));
    // the protocol and the address
    assert(l.subrange(f, f + 3) =~= tcp_marker()) by {
        assert(l[m + 17] == mid[17] && l[m + 18] == mid[18]);
    }
    assert(l[q] == l.subrange(q, q + address.len())[0]);
    assert(!white_space(address[0]));
    assert(space_end(l, f + 4) == q);
    assert(space_end(l, f + 3) == q);
}

/// A listing line holds no newline.
proof fn lemma_no_newline_in_listen_line(
    l: Seq<char>,
    command: Seq<char>,
    pid: u32,
    user: Seq<char>,
    address: Seq<char>,
    port: u16,
)
    requires
        listen_layout(l, command, pid, user, address, port),
        column_text(command),
        column_text(user),
        column_text(address),
    ensures
        forall|i: int| 0 <= i < l.len() ==> #[trigger] l[i] != '\n',
{
    let pd = decimal(pid as nat);
    let nd = decimal(port as nat);
    lemma_decimal_text(pid as nat);
    lemma_decimal_text(port as nat);
    let e1 = command.len() as int;
    let w1 = e1 + 1;
    let e2 = w1 + pd.len();
    let w2 = e2 + 1;
    let u = w2 + user.len();
    let m = u + 1;
    let q = m + 20;
    let c = q + address.len();
    let d = c + 1 + nd.len();
    let w = d + 1;
    let mid = middle_columns();
    let lm = listen_marker();
    assert forall|i: int| 0 <= i < l.len() implies #[trigger] l[i] != '\n' by {
        if i < e1 {
            assert(l[i] == l.subrange(0, e1)[i]);
        } else if i < w1 {
            assert(l[i] == l.subrange(e1, w1)[i - e1]);
        } else if i < e2 {
            assert(l[i] == l.subrange(w1, e2)[i - w1]);
            assert(ascii_digit(pd[i - w1]));
        } else if i < w2 {
            assert(l[i] == l.subrange(e2, w2)[i - e2]);
        } else if i < u {
            assert(l[i] == l.subrange(w2, u)[i - w2]);
        } else if i < m {
            assert(l[i] == l.subrange(u, m)[i - u]);
        } else if i < q {
            assert(l[i] == l.subrange(m, q)[i - m]);
            assert(mid[i - m] != '\n');
        } else if i < c {
            assert(l[i] == l.subrange(q, c)[i - q]);
        } else if i < c + 1 {
            assert(l[i] == l.subrange(c, c + 1)[i - c]);
        } else if i < d {
            assert(l[i] == l.subrange(c + 1, d)[i - c - 1]);
            assert(ascii_digit(nd[i - c - 1]));
        } else if i < w {
            assert(l[i] == l.subrange(d, w)[i - d]);
        } else {
            assert(l[i] == l.subrange(w, w + 8)[i - w]);
            assert(lm[i - w] != '\n');
        }
    }
}

/// The port of a listing line: the colon after the address, then the port's
/// digits, a space and `(LISTEN)`.
proof fn lemma_listen_line_port(
    l: Seq<char>,
    command: Seq<char>,
    pid: u32,
    user: Seq<char>,
    address: Seq<char>,
    port: u16,
)
    requires
        listen_layout(l, command, pid, user, address, port),
        column_text(address),
        forall|i: int| 0 <= i < address.len() ==> #[trigger] address[i] != ':',
    ensures
        ({
            let q = command.len() + 1 + decimal(pid as nat).len() + 1 + user.len() + 21int;
            let c = q + address.len();
            let d = c + 1 + decimal(port as nat).len();
            &&& port_after(l, c) == Some(d)
            &&& first_port_colon(l, q + 1) == Some(c)
        }),
{
    let pd = decimal(pid as nat);
    let nd = decimal(port as nat);
    lemma_decimal_text(port as nat);
    let q = command.len() + 1 + pd.len() + 1 + user.len() + 21int;
    let c = q + address.len();
    let d = c + 1 + nd.len();
    let w = d + 1;
    assert(l[c] == l.subrange(c, c + 1)[0]);
    assert(l[d] == l.subrange(d, w)[0]);
    assert(l[w] == l.subrange(w, w + 8)[0]);
    lemma_number_at(l, c + 1, port as nat);
    assert(port_after(l, c) == Some(d));
    assert forall|i: int| q + 1 <= i < c implies #[trigger] l[i] != ':' && l[i] != '\n' by {
        assert(l[i] == l.subrange(q, c)[i - q]);
        assert(!white_space(address[i - q]));
    }
    lemma_first_port_colon_past(l, q + 1, c);
}

} // verus!
