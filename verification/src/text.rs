//! Character-level text operations on `Seq<char>`, each with an executable
//! counterpart on `Vec<char>` proved against it.
use vstd::prelude::*;

verus! {

// ─── Specifications ─────────────────────────────────────────────────────────

/// The characters with the Unicode `White_Space` property, which is what
/// `char::is_whitespace` tests.
pub open spec fn is_ws(c: char) -> bool {
    ||| c == ' '
    ||| ('\t' <= c && c <= '\r')
    ||| c == '\u{85}'
    ||| c == '\u{a0}'
    ||| c == '\u{1680}'
    ||| ('\u{2000}' <= c && c <= '\u{200a}')
    ||| c == '\u{2028}'
    ||| c == '\u{2029}'
    ||| c == '\u{202f}'
    ||| c == '\u{205f}'
    ||| c == '\u{3000}'
}

/// `s` without its leading whitespace.
pub open spec fn trim_start(s: Seq<char>) -> Seq<char>
    decreases s.len(),
{
    if s.len() > 0 && is_ws(s[0]) {
        trim_start(s.drop_first())
    } else {
        s
    }
}

/// `s` without its trailing whitespace.
pub open spec fn trim_end(s: Seq<char>) -> Seq<char>
    decreases s.len(),
{
    if s.len() > 0 && is_ws(s.last()) {
        trim_end(s.drop_last())
    } else {
        s
    }
}

/// `s` without leading and trailing whitespace (`str::trim`).
pub open spec fn trim(s: Seq<char>) -> Seq<char> {
    trim_end(trim_start(s))
}

/// `p` is a prefix of `s`.
pub open spec fn starts_with(s: Seq<char>, p: Seq<char>) -> bool {
    p.len() <= s.len() && s.take(p.len() as int) == p
}

/// `p` occurs in `s` at position `i`.
pub open spec fn occurs_at(s: Seq<char>, p: Seq<char>, i: int) -> bool {
    0 <= i && i + p.len() <= s.len() && s.subrange(i, i + p.len()) == p
}

/// `p` occurs somewhere in `s` (`str::contains`).
pub open spec fn contains(s: Seq<char>, p: Seq<char>) -> bool {
    exists|i: int| occurs_at(s, p, i)
}

/// `s` with every leading copy of a non-empty `p` removed (`str::trim_start_matches`).
pub open spec fn strip_all_prefix(s: Seq<char>, p: Seq<char>) -> Seq<char>
    decreases s.len(),
{
    if p.len() > 0 && starts_with(s, p) {
        strip_all_prefix(s.skip(p.len() as int), p)
    } else {
        s
    }
}

/// The part of `s` after its last `c`, or all of `s` where `c` does not occur
/// (the last item of `str::split`).
pub open spec fn after_last(s: Seq<char>, c: char) -> Seq<char>
    decreases s.len(),
{
    if s.len() == 0 {
        s
    } else if s.last() == c {
        Seq::empty()
    } else {
        after_last(s.drop_last(), c).push(s.last())
    }
}

/// A line with one trailing carriage return removed.
pub open spec fn strip_cr(l: Seq<char>) -> Seq<char> {
    if l.len() > 0 && l.last() == '\r' {
        l.drop_last()
    } else {
        l
    }
}

/// Reading `s` from the left: the lines finished so far and the line being read.
pub open spec fn line_scan(s: Seq<char>) -> (Seq<Seq<char>>, Seq<char>)
    decreases s.len(),
{
    if s.len() == 0 {
        (Seq::empty(), Seq::empty())
    } else {
        let (done, cur) = line_scan(s.drop_last());
        if s.last() == '\n' {
            (done.push(strip_cr(cur)), Seq::empty())
        } else {
            (done, cur.push(s.last()))
        }
    }
}

/// The lines of `s` (`str::lines`): split at `\n`, a `\r` before a `\n` dropped,
/// and no empty line after a final `\n`.
pub open spec fn lines(s: Seq<char>) -> Seq<Seq<char>> {
    let (done, cur) = line_scan(s);
    if cur.len() > 0 {
        done.push(cur)
    } else {
        done
    }
}

/// Every line followed by `\n`, in order.
pub open spec fn join_lines(ls: Seq<Seq<char>>) -> Seq<char>
    decreases ls.len(),
{
    if ls.len() == 0 {
        Seq::empty()
    } else {
        join_lines(ls.drop_last()) + ls.last() + seq!['\n']
    }
}

/// Every character of `s` is ASCII.
pub open spec fn all_ascii(s: Seq<char>) -> bool {
    forall|i: int| 0 <= i < s.len() ==> (#[trigger] s[i] as u32) < 128
}

/// The ASCII lowercase of one character.
pub open spec fn ascii_lower(c: char) -> char {
    if 'A' <= c && c <= 'Z' {
        ((c as u32) + 32) as char
    } else {
        c
    }
}

/// The ASCII lowercase of every character of `s`.
pub open spec fn ascii_lowercase(s: Seq<char>) -> Seq<char> {
    Seq::new(s.len(), |i: int| ascii_lower(s[i]))
}

/// How many bytes encode `c` in UTF-8 (`char::len_utf8`).
pub open spec fn char_utf8_len(c: char) -> nat {
    if (c as u32) < 0x80 {
        1
    } else if (c as u32) < 0x800 {
        2
    } else if (c as u32) < 0x10000 {
        3
    } else {
        4
    }
}

/// How many bytes encode `s` in UTF-8 (`str::len`).
pub open spec fn utf8_len(s: Seq<char>) -> nat
    decreases s.len(),
{
    if s.len() == 0 {
        0
    } else {
        utf8_len(s.drop_last()) + char_utf8_len(s.last())
    }
}

/// What `str::to_lowercase` returns on `s`.
pub uninterp spec fn lowercase(s: Seq<char>) -> Seq<char>;

/// The lowercase of `s` as `str::to_lowercase` gives it: the ASCII mapping on
/// ASCII text.
pub open spec fn to_lower(s: Seq<char>) -> Seq<char> {
    if all_ascii(s) {
        ascii_lowercase(s)
    } else {
        lowercase(s)
    }
}

/// The lowercase hexadecimal digit of `d` (below 16).
pub open spec fn hex_digit(d: nat) -> char {
    if d < 10 {
        ((d + 48) as u32) as char
    } else {
        ((d + 87) as u32) as char
    }
}

/// The last `k` lowercase hexadecimal digits of `n`, zero-padded.
pub open spec fn hex_digits(n: nat, k: nat) -> Seq<char>
    decreases k,
{
    if k == 0 {
        Seq::empty()
    } else {
        hex_digits(n / 16, (k - 1) as nat).push(hex_digit(n % 16))
    }
}

// ─── Trusted calls into std ─────────────────────────────────────────────────

/// `String::push`: the string afterwards is the string before with `c` at its end.
#[verifier::external_body]
pub(crate) fn push_char(s: &mut String, c: char)
    ensures
        final(s)@ == old(s)@.push(c),
{
    s.push(c);
}

/// `str::to_lowercase`: its result is named `lowercase`. On ASCII input the
/// Unicode lowercase mapping is the ASCII one (`A`–`Z` to `a`–`z`, every other
/// character kept), as `char::to_ascii_lowercase` documents; nothing more is
/// stated of other input.
#[verifier::external_body]
pub(crate) fn str_to_lowercase(s: &str) -> (r: String)
    ensures
        r@ == lowercase(s@),
        all_ascii(s@) ==> r@ == ascii_lowercase(s@),
{
    s.to_lowercase()
}

// ─── Executable counterparts ────────────────────────────────────────────────

/// The characters of `s`.
pub fn chars_of(s: &str) -> (v: Vec<char>)
    ensures
        v@ == s@,
{
    let n: usize = s.unicode_len();
    let mut v: Vec<char> = Vec::new();
    let mut i: usize = 0;
    while i < n
        invariant
            n == s@.len(),
            i <= n,
            v@ == s@.take(i as int),
        decreases n - i,
    {
        v.push(s.get_char(i));
        i += 1;
        assert(s@.take(i as int) =~= v@);
    }
    assert(s@.take(n as int) =~= s@);
    v
}

/// A `String` holding the characters of `v`.
pub fn string_of(v: &Vec<char>) -> (s: String)
    ensures
        s@ == v@,
{
    let mut s = String::new();
    let mut i: usize = 0;
    while i < v.len()
        invariant
            i <= v.len(),
            s@ == v@.take(i as int),
        decreases v.len() - i,
    {
        push_char(&mut s, v[i]);
        i += 1;
        assert(v@.take(i as int) =~= s@);
    }
    assert(v@.take(v.len() as int) =~= v@);
    s
}

/// Tests one character for whitespace.
pub fn char_is_ws(c: char) -> (b: bool)
    ensures
        b == is_ws(c),
{
    c == ' ' || ('\t' <= c && c <= '\r') || c == '\u{85}' || c == '\u{a0}' || c == '\u{1680}'
        || ('\u{2000}' <= c && c <= '\u{200a}') || c == '\u{2028}' || c == '\u{2029}'
        || c == '\u{202f}' || c == '\u{205f}' || c == '\u{3000}'
}

/// The characters of `v` from `lo` up to `hi`.
pub fn slice_of(v: &Vec<char>, lo: usize, hi: usize) -> (r: Vec<char>)
    requires
        lo <= hi <= v.len(),
    ensures
        r@ == v@.subrange(lo as int, hi as int),
{
    let mut r: Vec<char> = Vec::new();
    let mut i = lo;
    while i < hi
        invariant
            lo <= i <= hi <= v.len(),
            r@ == v@.subrange(lo as int, i as int),
        decreases hi - i,
    {
        r.push(v[i]);
        i += 1;
        assert(r@ =~= v@.subrange(lo as int, i as int));
    }
    r
}

proof fn lemma_trim_start_skip(s: Seq<char>, i: int)
    requires
        0 <= i <= s.len(),
        forall|j: int| 0 <= j < i ==> is_ws(#[trigger] s[j]),
    ensures
        trim_start(s) == trim_start(s.skip(i)),
    decreases i,
{
    if i > 0 {
        assert(s.skip(1) =~= s.drop_first());
        lemma_trim_start_skip(s.drop_first(), i - 1);
        assert(s.drop_first().skip(i - 1) =~= s.skip(i));
    } else {
        assert(s.skip(0) =~= s);
    }
}

proof fn lemma_trim_end_take(s: Seq<char>, i: int)
    requires
        0 <= i <= s.len(),
        forall|j: int| i <= j < s.len() ==> is_ws(#[trigger] s[j]),
    ensures
        trim_end(s) == trim_end(s.take(i)),
    decreases s.len() - i,
{
    if i < s.len() {
        assert(s.take(s.len() - 1) =~= s.drop_last());
        lemma_trim_end_take(s.drop_last(), i);
        assert(s.drop_last().take(i) =~= s.take(i));
    } else {
        assert(s.take(i) =~= s);
    }
}

/// `v` without leading and trailing whitespace.
pub fn trim_vec(v: &Vec<char>) -> (r: Vec<char>)
    ensures
        r@ == trim(v@),
{
    let mut lo: usize = 0;
    while lo < v.len() && char_is_ws(v[lo])
        invariant
            lo <= v.len(),
            forall|j: int| 0 <= j < lo ==> is_ws(#[trigger] v@[j]),
        decreases v.len() - lo,
    {
        lo += 1;
    }
    proof {
        lemma_trim_start_skip(v@, lo as int);
    }
    let ghost t = v@.skip(lo as int);
    assert(trim_start(t) == t);
    let mut hi: usize = v.len();
    while hi > lo && char_is_ws(v[hi - 1])
        invariant
            lo <= hi <= v.len(),
            t == v@.skip(lo as int),
            forall|j: int| hi <= j < v.len() ==> is_ws(#[trigger] v@[j]),
        decreases hi,
    {
        hi -= 1;
    }
    proof {
        assert forall|j: int| hi - lo <= j < t.len() implies is_ws(#[trigger] t[j]) by {
            assert(t[j] == v@[j + lo]);
        }
        lemma_trim_end_take(t, hi - lo);
        assert(t.take(hi - lo) =~= v@.subrange(lo as int, hi as int));
    }
    slice_of(v, lo, hi)
}

/// Whether `p` is a prefix of `v` from position `at` on.
pub fn starts_with_at(v: &Vec<char>, at: usize, p: &Vec<char>) -> (b: bool)
    requires
        at <= v.len(),
    ensures
        b == starts_with(v@.skip(at as int), p@),
{
    if p.len() > v.len() - at {
        return false;
    }
    let mut i: usize = 0;
    while i < p.len()
        invariant
            p.len() <= v.len() - at,
            at <= v.len(),
            i <= p.len(),
            forall|j: int| 0 <= j < i ==> v@[at + j] == p@[j],
        decreases p.len() - i,
    {
        if v[at + i] != p[i] {
            assert(v@.skip(at as int).take(p.len() as int)[i as int] != p@[i as int]);
            return false;
        }
        i += 1;
    }
    assert(v@.skip(at as int).take(p.len() as int) =~= p@);
    true
}

/// Whether `p` is a prefix of `v`.
pub fn starts_with_vec(v: &Vec<char>, p: &Vec<char>) -> (b: bool)
    ensures
        b == starts_with(v@, p@),
{
    assert(v@.skip(0) =~= v@);
    starts_with_at(v, 0, p)
}

/// Whether `p` occurs in `v`.
pub fn contains_vec(v: &Vec<char>, p: &Vec<char>) -> (b: bool)
    ensures
        b == contains(v@, p@),
{
    if p.len() > v.len() {
        assert forall|i: int| !occurs_at(v@, p@, i) by {}
        return false;
    }
    let last: usize = v.len() - p.len();
    let mut i: usize = 0;
    loop
        invariant
            p.len() <= v.len(),
            last == v.len() - p.len(),
            i <= last,
            forall|j: int| 0 <= j < i ==> !occurs_at(v@, p@, j),
        decreases last - i,
    {
        assert(v@.skip(i as int).take(p.len() as int) =~= v@.subrange(i as int, i + p.len()));
        if starts_with_at(v, i, p) {
            assert(occurs_at(v@, p@, i as int));
            return true;
        }
        if i == last {
            assert forall|j: int| !occurs_at(v@, p@, j) by {}
            return false;
        }
        i += 1;
    }
}

/// `v` with every leading copy of `p` removed.
pub fn strip_all_prefix_vec(v: &Vec<char>, p: &Vec<char>) -> (r: Vec<char>)
    ensures
        r@ == strip_all_prefix(v@, p@),
{
    if p.len() == 0 {
        return slice_of(v, 0, v.len());
    }
    let mut at: usize = 0;
    assert(v@.skip(0) =~= v@);
    while starts_with_at(v, at, p)
        invariant
            p.len() > 0,
            at <= v.len(),
            strip_all_prefix(v@.skip(at as int), p@) == strip_all_prefix(v@, p@),
        decreases v.len() - at,
    {
        assert(v@.skip(at as int).skip(p.len() as int) =~= v@.skip(at + p.len()));
        at += p.len();
    }
    slice_of(v, at, v.len())
}

/// The part of `v` after its last `c`, or all of `v`.
pub fn after_last_vec(v: &Vec<char>, c: char) -> (r: Vec<char>)
    ensures
        r@ == after_last(v@, c),
{
    let mut i: usize = v.len();
    assert(v@.take(i as int) =~= v@);
    assert(v@.skip(i as int) =~= Seq::<char>::empty());
    while i > 0 && v[i - 1] != c
        invariant
            i <= v.len(),
            after_last(v@, c) == after_last(v@.take(i as int), c) + v@.skip(i as int),
        decreases i,
    {
        assert(v@.take(i as int).drop_last() =~= v@.take(i - 1));
        assert(v@.skip(i - 1) =~= seq![v@[i - 1]] + v@.skip(i as int));
        assert(after_last(v@.take(i - 1), c).push(v@[i - 1]) + v@.skip(i as int)
            =~= after_last(v@.take(i - 1), c) + v@.skip(i - 1));
        i -= 1;
    }
    assert(after_last(v@.take(i as int), c) =~= Seq::<char>::empty());
    slice_of(v, i, v.len())
}

/// The lines of `v`.
pub fn lines_vec(v: &Vec<char>) -> (r: Vec<Vec<char>>)
    ensures
        r@.map_values(|l: Vec<char>| l@) == lines(v@),
{
    let mut done: Vec<Vec<char>> = Vec::new();
    let mut cur: Vec<char> = Vec::new();
    let mut i: usize = 0;
    while i < v.len()
        invariant
            i <= v.len(),
            line_scan(v@.take(i as int)) == (done@.map_values(|l: Vec<char>| l@), cur@),
        decreases v.len() - i,
    {
        let c = v[i];
        assert(v@.take(i + 1).drop_last() =~= v@.take(i as int));
        if c == '\n' {
            let mut line = cur;
            if line.len() > 0 && line[line.len() - 1] == '\r' {
                line.pop();
            }
            done.push(line);
            cur = Vec::new();
        } else {
            cur.push(c);
        }
        i += 1;
        assert(done@.map_values(|l: Vec<char>| l@) =~= line_scan(v@.take(i as int)).0);
    }
    assert(v@.take(v.len() as int) =~= v@);
    if cur.len() > 0 {
        done.push(cur);
    }
    assert(done@.map_values(|l: Vec<char>| l@) =~= lines(v@));
    done
}

/// The lowercase of the characters of `v`, by `str::to_lowercase`.
pub fn lowercase_vec(v: &Vec<char>) -> (r: Vec<char>)
    ensures
        r@ == to_lower(v@),
{
    let s = string_of(v);
    let l = str_to_lowercase(s.as_str());
    chars_of(l.as_str())
}

proof fn lemma_utf8_len_prefix(s: Seq<char>, j: int)
    requires
        0 <= j <= s.len(),
    ensures
        utf8_len(s.take(j)) <= utf8_len(s),
    decreases s.len() - j,
{
    if j < s.len() {
        lemma_utf8_len_prefix(s.drop_last(), j);
        assert(s.drop_last().take(j) =~= s.take(j));
    } else {
        assert(s.take(j) =~= s);
    }
}

/// Whether more than `bound` bytes encode `v` in UTF-8.
pub fn utf8_len_exceeds(v: &Vec<char>, bound: usize) -> (b: bool)
    requires
        bound <= usize::MAX - 4,
    ensures
        b == (utf8_len(v@) > bound),
{
    let mut n: usize = 0;
    let mut i: usize = 0;
    assert(v@.take(0) =~= Seq::<char>::empty());
    while i < v.len()
        invariant
            bound <= usize::MAX - 4,
            i <= v.len(),
            n <= bound,
            n == utf8_len(v@.take(i as int)),
        decreases v.len() - i,
    {
        let c = v[i];
        let w: usize = if (c as u32) < 0x80 {
            1
        } else if (c as u32) < 0x800 {
            2
        } else if (c as u32) < 0x10000 {
            3
        } else {
            4
        };
        assert(v@.take(i + 1).drop_last() =~= v@.take(i as int));
        n = n + w;
        i += 1;
        if n > bound {
            proof {
                lemma_utf8_len_prefix(v@, i as int);
            }
            return true;
        }
    }
    assert(v@.take(i as int) =~= v@);
    false
}

/// The lowercase hexadecimal digit of `d`.
pub fn hex_digit_exec(d: u64) -> (c: char)
    requires
        d < 16,
    ensures
        c == hex_digit(d as nat),
{
    let table = ['0', '1', '2', '3', '4', '5', '6', '7', '8', '9', 'a', 'b', 'c', 'd', 'e', 'f'];
    let c = table[d as usize];
    assert(c == hex_digit(d as nat)) by {
        assert(table@ == seq!['0', '1', '2', '3', '4', '5', '6', '7', '8', '9', 'a', 'b', 'c', 'd', 'e', 'f']);
    }
    c
}

/// The last `k` lowercase hexadecimal digits of `n`, zero-padded.
pub fn hex_digits_exec(n: u64, k: usize) -> (r: Vec<char>)
    ensures
        r@ == hex_digits(n as nat, k as nat),
    decreases k,
{
    if k == 0 {
        Vec::new()
    } else {
        let mut r = hex_digits_exec(n / 16, k - 1);
        r.push(hex_digit_exec(n % 16));
        r
    }
}

} // verus!
