//! Character-level helpers on strings, stated over `Seq<char>`.
//!
//! The character classes follow Unicode: `white_space` is the `White_Space`
//! property (what `char::is_whitespace` and the `\s` class of a Unicode regex
//! test), `decimal_digit` is the `Decimal_Number` category (the `\d` class).
use vstd::prelude::*;

verus! {

/// Unicode `White_Space`.
pub open spec fn white_space(c: char) -> bool {
    let u = c as u32;
    (9 <= u && u <= 13) || u == 32 || u == 0x85 || u == 0xa0 || u == 0x1680
        || (0x2000 <= u && u <= 0x200a) || u == 0x2028 || u == 0x2029 || u == 0x202f
        || u == 0x205f || u == 0x3000
}

/// Unicode general category `Decimal_Number`.
pub open spec fn decimal_digit(c: char) -> bool {
    let u = c as u32;
    (0x30 <= u && u <= 0x39)
            || (0x660 <= u && u <= 0x669)
            || (0x6f0 <= u && u <= 0x6f9)
            || (0x7c0 <= u && u <= 0x7c9)
            || (0x966 <= u && u <= 0x96f)
            || (0x9e6 <= u && u <= 0x9ef)
            || (0xa66 <= u && u <= 0xa6f)
            || (0xae6 <= u && u <= 0xaef)
            || (0xb66 <= u && u <= 0xb6f)
            || (0xbe6 <= u && u <= 0xbef)
            || (0xc66 <= u && u <= 0xc6f)
            || (0xce6 <= u && u <= 0xcef)
            || (0xd66 <= u && u <= 0xd6f)
            || (0xde6 <= u && u <= 0xdef)
            || (0xe50 <= u && u <= 0xe59)
            || (0xed0 <= u && u <= 0xed9)
            || (0xf20 <= u && u <= 0xf29)
            || (0x1040 <= u && u <= 0x1049)
            || (0x1090 <= u && u <= 0x1099)
            || (0x17e0 <= u && u <= 0x17e9)
            || (0x1810 <= u && u <= 0x1819)
            || (0x1946 <= u && u <= 0x194f)
            || (0x19d0 <= u && u <= 0x19d9)
            || (0x1a80 <= u && u <= 0x1a89)
            || (0x1a90 <= u && u <= 0x1a99)
            || (0x1b50 <= u && u <= 0x1b59)
            || (0x1bb0 <= u && u <= 0x1bb9)
            || (0x1c40 <= u && u <= 0x1c49)
            || (0x1c50 <= u && u <= 0x1c59)
            || (0xa620 <= u && u <= 0xa629)
            || (0xa8d0 <= u && u <= 0xa8d9)
            || (0xa900 <= u && u <= 0xa909)
            || (0xa9d0 <= u && u <= 0xa9d9)
            || (0xa9f0 <= u && u <= 0xa9f9)
            || (0xaa50 <= u && u <= 0xaa59)
            || (0xabf0 <= u && u <= 0xabf9)
            || (0xff10 <= u && u <= 0xff19)
            || (0x104a0 <= u && u <= 0x104a9)
            || (0x10d30 <= u && u <= 0x10d39)
            || (0x10d40 <= u && u <= 0x10d49)
            || (0x11066 <= u && u <= 0x1106f)
            || (0x110f0 <= u && u <= 0x110f9)
            || (0x11136 <= u && u <= 0x1113f)
            || (0x111d0 <= u && u <= 0x111d9)
            || (0x112f0 <= u && u <= 0x112f9)
            || (0x11450 <= u && u <= 0x11459)
            || (0x114d0 <= u && u <= 0x114d9)
            || (0x11650 <= u && u <= 0x11659)
            || (0x116c0 <= u && u <= 0x116c9)
            || (0x116d0 <= u && u <= 0x116e3)
            || (0x11730 <= u && u <= 0x11739)
            || (0x118e0 <= u && u <= 0x118e9)
            || (0x11950 <= u && u <= 0x11959)
            || (0x11bf0 <= u && u <= 0x11bf9)
            || (0x11c50 <= u && u <= 0x11c59)
            || (0x11d50 <= u && u <= 0x11d59)
            || (0x11da0 <= u && u <= 0x11da9)
            || (0x11f50 <= u && u <= 0x11f59)
            || (0x16130 <= u && u <= 0x16139)
            || (0x16a60 <= u && u <= 0x16a69)
            || (0x16ac0 <= u && u <= 0x16ac9)
            || (0x16b50 <= u && u <= 0x16b59)
            || (0x16d70 <= u && u <= 0x16d79)
            || (0x1ccf0 <= u && u <= 0x1ccf9)
            || (0x1d7ce <= u && u <= 0x1d7ff)
            || (0x1e140 <= u && u <= 0x1e149)
            || (0x1e2f0 <= u && u <= 0x1e2f9)
            || (0x1e4f0 <= u && u <= 0x1e4f9)
            || (0x1e5f1 <= u && u <= 0x1e5fa)
            || (0x1e950 <= u && u <= 0x1e959)
            || (0x1fbf0 <= u && u <= 0x1fbf9)
}

/// An ASCII digit `0`..`9`.
pub open spec fn ascii_digit(c: char) -> bool {
    48 <= (c as u32) && (c as u32) <= 57
}

pub fn is_white_space(c: char) -> (b: bool)
    ensures
        b == white_space(c),
{
    let u: u32 = c as u32;
    (9 <= u && u <= 13) || u == 32 || u == 0x85 || u == 0xa0 || u == 0x1680
        || (0x2000 <= u && u <= 0x200a) || u == 0x2028 || u == 0x2029 || u == 0x202f
        || u == 0x205f || u == 0x3000
}

pub fn is_decimal_digit(c: char) -> (b: bool)
    ensures
        b == decimal_digit(c),
{
    let u: u32 = c as u32;
    (0x30 <= u && u <= 0x39)
            || (0x660 <= u && u <= 0x669)
            || (0x6f0 <= u && u <= 0x6f9)
            || (0x7c0 <= u && u <= 0x7c9)
            || (0x966 <= u && u <= 0x96f)
            || (0x9e6 <= u && u <= 0x9ef)
            || (0xa66 <= u && u <= 0xa6f)
            || (0xae6 <= u && u <= 0xaef)
            || (0xb66 <= u && u <= 0xb6f)
            || (0xbe6 <= u && u <= 0xbef)
            || (0xc66 <= u && u <= 0xc6f)
            || (0xce6 <= u && u <= 0xcef)
            || (0xd66 <= u && u <= 0xd6f)
            || (0xde6 <= u && u <= 0xdef)
            || (0xe50 <= u && u <= 0xe59)
            || (0xed0 <= u && u <= 0xed9)
            || (0xf20 <= u && u <= 0xf29)
            || (0x1040 <= u && u <= 0x1049)
            || (0x1090 <= u && u <= 0x1099)
            || (0x17e0 <= u && u <= 0x17e9)
            || (0x1810 <= u && u <= 0x1819)
            || (0x1946 <= u && u <= 0x194f)
            || (0x19d0 <= u && u <= 0x19d9)
            || (0x1a80 <= u && u <= 0x1a89)
            || (0x1a90 <= u && u <= 0x1a99)
            || (0x1b50 <= u && u <= 0x1b59)
            || (0x1bb0 <= u && u <= 0x1bb9)
            || (0x1c40 <= u && u <= 0x1c49)
            || (0x1c50 <= u && u <= 0x1c59)
            || (0xa620 <= u && u <= 0xa629)
            || (0xa8d0 <= u && u <= 0xa8d9)
            || (0xa900 <= u && u <= 0xa909)
            || (0xa9d0 <= u && u <= 0xa9d9)
            || (0xa9f0 <= u && u <= 0xa9f9)
            || (0xaa50 <= u && u <= 0xaa59)
            || (0xabf0 <= u && u <= 0xabf9)
            || (0xff10 <= u && u <= 0xff19)
            || (0x104a0 <= u && u <= 0x104a9)
            || (0x10d30 <= u && u <= 0x10d39)
            || (0x10d40 <= u && u <= 0x10d49)
            || (0x11066 <= u && u <= 0x1106f)
            || (0x110f0 <= u && u <= 0x110f9)
            || (0x11136 <= u && u <= 0x1113f)
            || (0x111d0 <= u && u <= 0x111d9)
            || (0x112f0 <= u && u <= 0x112f9)
            || (0x11450 <= u && u <= 0x11459)
            || (0x114d0 <= u && u <= 0x114d9)
            || (0x11650 <= u && u <= 0x11659)
            || (0x116c0 <= u && u <= 0x116c9)
            || (0x116d0 <= u && u <= 0x116e3)
            || (0x11730 <= u && u <= 0x11739)
            || (0x118e0 <= u && u <= 0x118e9)
            || (0x11950 <= u && u <= 0x11959)
            || (0x11bf0 <= u && u <= 0x11bf9)
            || (0x11c50 <= u && u <= 0x11c59)
            || (0x11d50 <= u && u <= 0x11d59)
            || (0x11da0 <= u && u <= 0x11da9)
            || (0x11f50 <= u && u <= 0x11f59)
            || (0x16130 <= u && u <= 0x16139)
            || (0x16a60 <= u && u <= 0x16a69)
            || (0x16ac0 <= u && u <= 0x16ac9)
            || (0x16b50 <= u && u <= 0x16b59)
            || (0x16d70 <= u && u <= 0x16d79)
            || (0x1ccf0 <= u && u <= 0x1ccf9)
            || (0x1d7ce <= u && u <= 0x1d7ff)
            || (0x1e140 <= u && u <= 0x1e149)
            || (0x1e2f0 <= u && u <= 0x1e2f9)
            || (0x1e4f0 <= u && u <= 0x1e4f9)
            || (0x1e5f1 <= u && u <= 0x1e5fa)
            || (0x1e950 <= u && u <= 0x1e959)
            || (0x1fbf0 <= u && u <= 0x1fbf9)
}

pub fn is_ascii_digit(c: char) -> (b: bool)
    ensures
        b == ascii_digit(c),
{
    let u: u32 = c as u32;
    48 <= u && u <= 57
}

/// The characters of `s`, in order.
pub fn chars_of(s: &str) -> (v: Vec<char>)
    ensures
        v@ == s@,
{
    let mut v: Vec<char> = Vec::new();
    for c in it: s.chars()
        invariant
            v@ == it.seq().subrange(0, it.index() as int),
    {
        v.push(c);
    }
    v
}


/// Appends one character: calls `String::push`, which std documents as
/// appending the given `char` to the end of the string.
#[verifier::external_body]
pub(crate) fn push_char(s: &mut String, c: char)
    ensures
        final(s)@ == old(s)@.push(c),
{
    s.push(c);
}

/// Appends `v[lo..hi]` to `s`.
pub fn push_chars(s: &mut String, v: &Vec<char>, lo: usize, hi: usize)
    requires
        lo <= hi <= v@.len(),
    ensures
        final(s)@ == old(s)@ + v@.subrange(lo as int, hi as int),
{
    let mut i = lo;
    while i < hi
        invariant
            lo <= i <= hi <= v@.len(),
            s@ == old(s)@ + v@.subrange(lo as int, i as int),
        decreases hi - i,
    {
        push_char(s, v[i]);
        assert(v@.subrange(lo as int, (i + 1) as int) =~= v@.subrange(lo as int, i as int).push(
            v@[i as int],
        ));
        i = i + 1;
    }
}

/// A new string holding `v[lo..hi]`.
pub fn string_from_chars(v: &Vec<char>, lo: usize, hi: usize) -> (s: String)
    requires
        lo <= hi <= v@.len(),
    ensures
        s@ == v@.subrange(lo as int, hi as int),
{
    let mut s = String::new();
    push_chars(&mut s, v, lo, hi);
    assert(Seq::<char>::empty() + v@.subrange(lo as int, hi as int) =~= v@.subrange(
        lo as int,
        hi as int,
    ));
    s
}

/// Appends a string slice.
pub fn push_str(s: &mut String, t: &str)
    ensures
        final(s)@ == old(s)@ + t@,
{
    let v = chars_of(t);
    push_chars(s, &v, 0, v.len());
    assert(v@.subrange(0, v@.len() as int) =~= v@);
}

/// Whether two string slices hold the same characters.
pub fn str_equals(a: &str, b: &str) -> (r: bool)
    ensures
        r == (a@ == b@),
{
    let x = String::from_str(a);
    let y = String::from_str(b);
    x == y
}

/// Whether `v[lo..hi]` equals `t`.
pub fn chars_equal(v: &Vec<char>, lo: usize, hi: usize, t: &str) -> (r: bool)
    requires
        lo <= hi <= v@.len(),
    ensures
        r == (v@.subrange(lo as int, hi as int) == t@),
{
    let w = chars_of(t);
    if hi - lo != w.len() {
        return false;
    }
    let mut k: usize = 0;
    while k < w.len()
        invariant
            lo <= hi <= v@.len(),
            hi - lo == w@.len(),
            w@ == t@,
            0 <= k <= w@.len(),
            forall|j: int| 0 <= j < k ==> v@[lo + j] == w@[j],
        decreases w@.len() - k,
    {
        if v[lo + k] != w[k] {
            assert(v@.subrange(lo as int, hi as int)[k as int] != t@[k as int]);
            return false;
        }
        k = k + 1;
    }
    assert(v@.subrange(lo as int, hi as int) =~= t@);
    true
}

/// Whether `t` is a prefix of `v[lo..hi]`.
pub fn chars_start_with(v: &Vec<char>, lo: usize, hi: usize, t: &str) -> (r: bool)
    requires
        lo <= hi <= v@.len(),
    ensures
        r == (t@.len() <= hi - lo && v@.subrange(lo as int, lo + t@.len()) == t@),
{
    let w = chars_of(t);
    if w.len() > hi - lo {
        return false;
    }
    let r = chars_equal(v, lo, lo + w.len(), t);
    r
}

// ---------------------------------------------------------------------------
// Trimming
/// `s` without its leading white space.
pub open spec fn trim_start(s: Seq<char>) -> Seq<char>
    decreases s.len(),
{
    if s.len() > 0 && white_space(s[0]) {
        trim_start(s.drop_first())
    } else {
        s
    }
}

/// `s` without its trailing white space.
pub open spec fn trim_end(s: Seq<char>) -> Seq<char>
    decreases s.len(),
{
    if s.len() > 0 && white_space(s.last()) {
        trim_end(s.drop_last())
    } else {
        s
    }
}

/// `s` without leading and trailing white space, as `str::trim` gives it.
pub open spec fn trim(s: Seq<char>) -> Seq<char> {
    trim_end(trim_start(s))
}

/// `str::trim`, returned as an owned string.
pub fn trimmed(s: &str) -> (r: String)
    ensures
        r@ == trim(s@),
{
    let v = chars_of(s);
    let n = v.len();
    let mut i: usize = 0;
    assert(v@.subrange(0, n as int) =~= v@);
    while i < n && is_white_space(v[i])
        invariant
            0 <= i <= n == v@.len(),
            trim_start(v@) == trim_start(v@.subrange(i as int, n as int)),
        decreases n - i,
    {
        assert(v@.subrange(i as int, n as int).drop_first() =~= v@.subrange(
            (i + 1) as int,
            n as int,
        ));
        i = i + 1;
    }
    assert(trim_start(v@) == v@.subrange(i as int, n as int));
    let mut j: usize = n;
    while j > i && is_white_space(v[j - 1])
        invariant
            0 <= i <= j <= n == v@.len(),
            trim(v@) == trim_end(v@.subrange(i as int, j as int)),
        decreases j - i,
    {
        assert(v@.subrange(i as int, j as int).drop_last() =~= v@.subrange(
            i as int,
            (j - 1) as int,
        ));
        j = j - 1;
    }
    string_from_chars(&v, i, j)
}


/// Whether every character of `s` is white space.
pub open spec fn all_white(s: Seq<char>) -> bool {
    forall|i: int| 0 <= i < s.len() ==> white_space(#[trigger] s[i])
}

/// Whether `s` neither starts nor ends with white space.
pub open spec fn tight(s: Seq<char>) -> bool {
    s.len() > 0 ==> !white_space(s[0]) && !white_space(s.last())
}

proof fn lemma_trim_start_padding(pre: Seq<char>, x: Seq<char>)
    requires
        all_white(pre),
        x.len() > 0 ==> !white_space(x[0]),
    ensures
        trim_start(pre + x) == x,
    decreases pre.len(),
{
    if pre.len() == 0 {
        assert(pre + x =~= x);
        if x.len() > 0 {
            assert(!white_space(x[0]));
        }
    } else {
        assert((pre + x).drop_first() =~= pre.drop_first() + x);
        assert(white_space((pre + x)[0]));
        lemma_trim_start_padding(pre.drop_first(), x);
    }
}

proof fn lemma_trim_end_padding(x: Seq<char>, post: Seq<char>)
    requires
        all_white(post),
        x.len() > 0 ==> !white_space(x.last()),
    ensures
        trim_end(x + post) == x,
    decreases post.len(),
{
    if post.len() == 0 {
        assert(x + post =~= x);
    } else {
        assert((x + post).drop_last() =~= x + post.drop_last());
        assert(white_space((x + post).last()));
        lemma_trim_end_padding(x, post.drop_last());
    }
}

/// Trimming removes exactly the white space around a text: surrounding a
/// text that neither starts nor ends with white space by any white space
/// and trimming gives the text back, whatever its length.
pub proof fn lemma_trim_padding(pre: Seq<char>, body: Seq<char>, post: Seq<char>)
    requires
        all_white(pre),
        all_white(post),
        tight(body),
    ensures
        trim(pre + body + post) == body,
{
    let x = body + post;
    assert(pre + body + post =~= pre + x);
    if body.len() > 0 {
        assert(x[0] == body[0]);
    } else {
        assert(x =~= post);
        assert forall|i: int| 0 <= i < x.len() implies white_space(#[trigger] x[i]) by {}
        if x.len() > 0 {
            // the text is only white space: trimming empties it
        }
    }
    if body.len() > 0 {
        lemma_trim_start_padding(pre, x);
        lemma_trim_end_padding(body, post);
    } else {
        lemma_trim_all_white(pre + body + post);
        assert(trim(pre + body + post) =~= body);
    }
}

proof fn lemma_trim_start_all_white(s: Seq<char>)
    requires
        all_white(s),
    ensures
        trim_start(s) == Seq::<char>::empty(),
    decreases s.len(),
{
    if s.len() > 0 {
        assert(white_space(s[0]));
        lemma_trim_start_all_white(s.drop_first());
    } else {
        assert(s =~= Seq::<char>::empty());
    }
}

proof fn lemma_trim_all_white(s: Seq<char>)
    requires
        all_white(s),
    ensures
        trim(s) == Seq::<char>::empty(),
{
    lemma_trim_start_all_white(s);
}

/// What trimming leaves is a contiguous part of the text, preceded and
/// followed only by white space, and neither starting nor ending with white
/// space: nothing but the surrounding white space is removed.
pub proof fn lemma_trim_shape(s: Seq<char>)
    ensures
        exists|a: int, b: int|
            0 <= a <= b <= s.len() && trim(s) == s.subrange(a, b) && all_white(s.subrange(0, a))
                && all_white(s.subrange(b, s.len() as int)) && tight(s.subrange(a, b)),
{
    let n = s.len() as int;
    let a = choose_first_non_white(s);
    let b = choose_last_non_white(s, a);
    assert(s =~= s.subrange(0, a) + s.subrange(a, b) + s.subrange(b, n));
    lemma_trim_padding(s.subrange(0, a), s.subrange(a, b), s.subrange(b, n));
}

spec fn first_non_white_from(s: Seq<char>, i: int) -> int
    decreases s.len() - i,
{
    if 0 <= i < s.len() && white_space(s[i]) {
        first_non_white_from(s, i + 1)
    } else {
        i
    }
}

proof fn lemma_first_non_white_from(s: Seq<char>, i: int)
    requires
        0 <= i <= s.len(),
        forall|k: int| 0 <= k < i ==> white_space(#[trigger] s[k]),
    ensures
        i <= first_non_white_from(s, i) <= s.len(),
        forall|k: int| 0 <= k < first_non_white_from(s, i) ==> white_space(#[trigger] s[k]),
        first_non_white_from(s, i) < s.len() ==> !white_space(s[first_non_white_from(s, i)]),
    decreases s.len() - i,
{
    if i < s.len() && white_space(s[i]) {
        lemma_first_non_white_from(s, i + 1);
    }
}

proof fn choose_first_non_white(s: Seq<char>) -> (a: int)
    ensures
        0 <= a <= s.len(),
        all_white(s.subrange(0, a)),
        a < s.len() ==> !white_space(s[a]),
{
    lemma_first_non_white_from(s, 0);
    let a = first_non_white_from(s, 0);
    assert forall|i: int| 0 <= i < a implies white_space(#[trigger] s.subrange(0, a)[i]) by {
        assert(s.subrange(0, a)[i] == s[i]);
    }
    a
}

spec fn last_non_white_end(s: Seq<char>, a: int, j: int) -> int
    decreases j - a,
{
    if a < j && j <= s.len() && white_space(s[j - 1]) {
        last_non_white_end(s, a, j - 1)
    } else {
        j
    }
}

proof fn lemma_last_non_white_end(s: Seq<char>, a: int, j: int)
    requires
        0 <= a <= j <= s.len(),
        forall|k: int| j <= k < s.len() ==> white_space(#[trigger] s[k]),
    ensures
        a <= last_non_white_end(s, a, j) <= j,
        forall|k: int| last_non_white_end(s, a, j) <= k < s.len() ==> white_space(#[trigger] s[k]),
        a < last_non_white_end(s, a, j) ==> !white_space(s[last_non_white_end(s, a, j) - 1]),
    decreases j - a,
{
    if a < j && white_space(s[j - 1]) {
        lemma_last_non_white_end(s, a, j - 1);
    }
}

proof fn choose_last_non_white(s: Seq<char>, a: int) -> (b: int)
    requires
        0 <= a <= s.len(),
        a < s.len() ==> !white_space(s[a]),
    ensures
        a <= b <= s.len(),
        all_white(s.subrange(b, s.len() as int)),
        tight(s.subrange(a, b)),
{
    lemma_last_non_white_end(s, a, s.len() as int);
    let b = last_non_white_end(s, a, s.len() as int);
    assert forall|i: int| 0 <= i < s.len() - b implies white_space(
        #[trigger] s.subrange(b, s.len() as int)[i],
    ) by {
        assert(s.subrange(b, s.len() as int)[i] == s[b + i]);
    }
    if a < b {
        assert(s.subrange(a, b)[0] == s[a]);
        assert(s.subrange(a, b).last() == s[b - 1]);
    }
    b
}

} // verus!
