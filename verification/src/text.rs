//! Character-level helpers shared by the parsers: Unicode whitespace, ASCII
//! case folding, trimming, and conversions between strings, characters and
//! raw bytes.

use vstd::prelude::*;

verus! {

/// Unicode `White_Space` property (what `char::is_whitespace` tests).
pub open spec fn is_ws(c: char) -> bool {
    let u = c as u32;
    (0x9 <= u && u <= 0xD) || u == 0x20 || u == 0x85 || u == 0xA0 || u == 0x1680
        || (0x2000 <= u && u <= 0x200A) || u == 0x2028 || u == 0x2029 || u == 0x202F
        || u == 0x205F || u == 0x3000
}

/// Unicode general category `Cc` (what `char::is_control` tests).
pub open spec fn is_control(c: char) -> bool {
    let u = c as u32;
    u <= 0x1F || (0x7F <= u && u <= 0x9F)
}

pub open spec fn ascii_lower(c: char) -> char {
    if 'A' <= c && c <= 'Z' {
        ((c as u32) + 32) as char
    } else {
        c
    }
}

pub open spec fn lower_seq(s: Seq<char>) -> Seq<char> {
    s.map_values(|c: char| ascii_lower(c))
}

/// `str::eq_ignore_ascii_case`.
pub open spec fn eq_ci(a: Seq<char>, b: Seq<char>) -> bool {
    lower_seq(a) == lower_seq(b)
}

pub fn exec_is_ws(c: char) -> (r: bool)
    ensures r == is_ws(c),
{
    let u = c as u32;
    (0x9 <= u && u <= 0xD) || u == 0x20 || u == 0x85 || u == 0xA0 || u == 0x1680
        || (0x2000 <= u && u <= 0x200A) || u == 0x2028 || u == 0x2029 || u == 0x202F
        || u == 0x205F || u == 0x3000
}

pub fn lower_char(c: char) -> (r: char)
    ensures r == ascii_lower(c),
{
    if 'A' <= c && c <= 'Z' {
        let u = (c as u8) + 32;
        u as char
    } else {
        c
    }
}

pub fn chars_of(s: &str) -> (r: Vec<char>)
    ensures r@ == s@,
{
    let mut out: Vec<char> = Vec::new();
    for c in it: s.chars()
        invariant
            out@ == it.seq().take(it.index() as int),
            it.seq() == s@,
    {
        out.push(c);
    }
    out
}


/// `String::push`: appends one character to the end of the string.
#[verifier::external_body]
fn push_char(s: &mut String, c: char)
    ensures
        final(s)@ == old(s)@.push(c),
{
    s.push(c);
}

pub fn string_from_chars(v: &[char]) -> (r: String)
    ensures r@ == v@,
{
    let mut out = String::new();
    let mut i: usize = 0;
    while i < v.len()
        invariant
            0 <= i <= v.len(),
            out@ == v@.take(i as int),
        decreases v.len() - i,
    {
        push_char(&mut out, v[i]);
        i += 1;
        assert(out@ =~= v@.take(i as int));
    }
    assert(v@.take(v.len() as int) =~= v@);
    out
}


/// `s` with every trailing `x` removed.
pub open spec fn trim_end_by<A>(s: Seq<A>, x: A) -> Seq<A>
    decreases s.len(),
{
    if s.len() > 0 && s.last() == x {
        trim_end_by(s.drop_last(), x)
    } else {
        s
    }
}

/// `s` with every leading `x` removed.
pub open spec fn trim_start_by<A>(s: Seq<A>, x: A) -> Seq<A>
    decreases s.len(),
{
    if s.len() > 0 && s.first() == x {
        trim_start_by(s.drop_first(), x)
    } else {
        s
    }
}

/// Index of the first element after the leading run of `x`.
pub fn skip_leading(v: &Vec<char>, x: char) -> (i: usize)
    ensures
        i <= v.len(),
        v@.skip(i as int) == trim_start_by(v@, x),
{
    let mut i: usize = 0;
    assert(v@.skip(0) =~= v@);
    while i < v.len() && v[i] == x
        invariant
            i <= v.len(),
            trim_start_by(v@.skip(i as int), x) == trim_start_by(v@, x),
        decreases v.len() - i,
    {
        assert(v@.skip(i as int).drop_first() =~= v@.skip(i + 1));
        i += 1;
    }
    i
}

/// Length of `v` without the trailing run of `x`.
pub fn strip_trailing(v: &Vec<char>, x: char) -> (e: usize)
    ensures
        e <= v.len(),
        v@.take(e as int) == trim_end_by(v@, x),
{
    let mut e: usize = v.len();
    assert(v@.take(e as int) =~= v@);
    while e > 0 && v[e - 1] == x
        invariant
            e <= v.len(),
            trim_end_by(v@.take(e as int), x) == trim_end_by(v@, x),
        decreases e,
    {
        assert(v@.take(e as int).drop_last() =~= v@.take(e - 1));
        e -= 1;
    }
    e
}

/// Appends `src[from..to]` to `out`.
pub fn push_range(out: &mut Vec<char>, src: &Vec<char>, from: usize, to: usize)
    requires
        from <= to <= src.len(),
    ensures
        final(out)@ == old(out)@ + src@.subrange(from as int, to as int),
{
    let mut i = from;
    while i < to
        invariant
            from <= i <= to <= src.len(),
            out@ == old(out)@ + src@.subrange(from as int, i as int),
        decreases to - i,
    {
        out.push(src[i]);
        i += 1;
        assert(out@ =~= old(out)@ + src@.subrange(from as int, i as int));
    }
}


/// `s` split at every `sep` (the pieces of `str::split`).
pub open spec fn split_by<A>(s: Seq<A>, sep: A) -> Seq<Seq<A>>
    decreases s.len(),
{
    if s.len() == 0 {
        seq![Seq::empty()]
    } else {
        let rest = split_by(s.drop_last(), sep);
        if s.last() == sep {
            rest.push(Seq::empty())
        } else {
            rest.update(rest.len() - 1, rest.last().push(s.last()))
        }
    }
}

pub proof fn lemma_split_by_nonempty<A>(s: Seq<A>, sep: A)
    ensures
        split_by(s, sep).len() >= 1,
    decreases s.len(),
{
    if s.len() > 0 {
        lemma_split_by_nonempty(s.drop_last(), sep);
    }
}

/// Whether some element of `s` is one of `set`.
pub open spec fn contains_any<A>(s: Seq<A>, set: Seq<A>) -> bool {
    exists|i: int| 0 <= i < s.len() && set.contains(#[trigger] s[i])
}


pub open spec fn starts_with<A>(s: Seq<A>, prefix: Seq<A>) -> bool {
    s.len() >= prefix.len() && s.take(prefix.len() as int) == prefix
}

pub open spec fn ends_with<A>(s: Seq<A>, suffix: Seq<A>) -> bool {
    s.len() >= suffix.len() && s.skip(s.len() - suffix.len()) == suffix
}

/// Whether `v` spells exactly the characters of `lit`.
pub fn chars_eq(v: &Vec<char>, lit: &str) -> (r: bool)
    ensures
        r == (v@ == lit@),
{
    let l = chars_of(lit);
    if v.len() != l.len() {
        return false;
    }
    let mut i: usize = 0;
    while i < v.len()
        invariant
            i <= v.len() == l.len(),
            l@ == lit@,
            forall|j: int| 0 <= j < i ==> v@[j] == l@[j],
        decreases v.len() - i,
    {
        if v[i] != l[i] {
            return false;
        }
        i += 1;
    }
    assert(v@ =~= l@);
    true
}

/// Whether two strings hold the same characters.
pub fn str_eq(a: &str, b: &str) -> (r: bool)
    ensures
        r == (a@ == b@),
{
    let v = chars_of(a);
    chars_eq(&v, b)
}

/// Whether `v[from..from + lit.len()]` spells `lit`.
pub fn chars_match_at(v: &Vec<char>, from: usize, lit: &str) -> (r: bool)
    requires
        from <= v.len(),
    ensures
        r == (from + lit@.len() <= v.len()
            && v@.subrange(from as int, from + lit@.len()) == lit@),
{
    let l = chars_of(lit);
    if l.len() > v.len() - from {
        return false;
    }
    let mut i: usize = 0;
    while i < l.len()
        invariant
            i <= l.len(),
            from + l.len() <= v.len(),
            l@ == lit@,
            forall|j: int| 0 <= j < i ==> v@[from + j] == l@[j],
        decreases l.len() - i,
    {
        if v[from + i] != l[i] {
            assert(v@.subrange(from as int, from + l@.len())[i as int] != l@[i as int]);
            return false;
        }
        i += 1;
    }
    assert(v@.subrange(from as int, from + l@.len()) =~= l@);
    true
}

pub fn chars_starts_with(v: &Vec<char>, lit: &str) -> (r: bool)
    ensures
        r == starts_with(v@, lit@),
{
    let r = chars_match_at(v, 0, lit);
    assert(v@.subrange(0, lit@.len() as int) =~= v@.take(lit@.len() as int));
    r
}

pub fn chars_ends_with(v: &Vec<char>, lit: &str) -> (r: bool)
    ensures
        r == ends_with(v@, lit@),
{
    let n = lit.unicode_len();
    if n > v.len() {
        return false;
    }
    let r = chars_match_at(v, v.len() - n, lit);
    assert(v@.subrange(v.len() - n, v.len() - n + lit@.len()) =~= v@.skip(v.len() - n));
    r
}

/// ASCII-lowercased copy of the characters.
pub fn lower_chars(v: &Vec<char>) -> (r: Vec<char>)
    ensures
        r@ == lower_seq(v@),
{
    let mut out: Vec<char> = Vec::new();
    let mut i: usize = 0;
    while i < v.len()
        invariant
            i <= v.len(),
            out@ == lower_seq(v@.take(i as int)),
        decreases v.len() - i,
    {
        out.push(lower_char(v[i]));
        i += 1;
        assert(out@ =~= lower_seq(v@.take(i as int)));
    }
    assert(v@.take(i as int) =~= v@);
    out
}

/// ASCII-lowercased characters of a string.
pub fn lower_str(s: &str) -> (r: Vec<char>)
    ensures
        r@ == lower_seq(s@),
{
    let v = chars_of(s);
    lower_chars(&v)
}

/// `str::eq_ignore_ascii_case`.
pub fn eq_ignore_ascii_case(a: &str, b: &str) -> (r: bool)
    ensures
        r == eq_ci(a@, b@),
{
    let la = lower_str(a);
    let lb = lower_str(b);
    if la.len() != lb.len() {
        return false;
    }
    let mut i: usize = 0;
    while i < la.len()
        invariant
            i <= la.len() == lb.len(),
            la@ == lower_seq(a@),
            lb@ == lower_seq(b@),
            forall|j: int| 0 <= j < i ==> la@[j] == lb@[j],
        decreases la.len() - i,
    {
        if la[i] != lb[i] {
            assert(la@[i as int] != lb@[i as int]);
            return false;
        }
        i += 1;
    }
    assert(la@ =~= lb@);
    true
}


pub open spec fn trim_start_ws(s: Seq<char>) -> Seq<char>
    decreases s.len(),
{
    if s.len() > 0 && is_ws(s.first()) {
        trim_start_ws(s.drop_first())
    } else {
        s
    }
}

pub open spec fn trim_end_ws(s: Seq<char>) -> Seq<char>
    decreases s.len(),
{
    if s.len() > 0 && is_ws(s.last()) {
        trim_end_ws(s.drop_last())
    } else {
        s
    }
}

/// `str::trim`: without leading and trailing Unicode whitespace.
pub open spec fn trim_ws(s: Seq<char>) -> Seq<char> {
    trim_end_ws(trim_start_ws(s))
}

/// Bounds of the whitespace-trimmed part of `v[from..]`.
pub fn trim_bounds(v: &Vec<char>, from: usize) -> (r: (usize, usize))
    requires
        from <= v.len(),
    ensures
        from <= r.0 <= r.1 <= v.len(),
        v@.subrange(r.0 as int, r.1 as int) == trim_ws(v@.skip(from as int)),
        v@.subrange(r.0 as int, v.len() as int) == trim_start_ws(v@.skip(from as int)),
{
    let mut a = from;
    while a < v.len() && exec_is_ws(v[a])
        invariant
            from <= a <= v.len(),
            trim_start_ws(v@.skip(a as int)) == trim_start_ws(v@.skip(from as int)),
        decreases v.len() - a,
    {
        assert(v@.skip(a as int).drop_first() =~= v@.skip(a + 1));
        a += 1;
    }
    assert(v@.skip(a as int) =~= v@.subrange(a as int, v.len() as int));
    let mut b = v.len();
    while b > a && exec_is_ws(v[b - 1])
        invariant
            a <= b <= v.len(),
            trim_end_ws(v@.subrange(a as int, b as int)) == trim_end_ws(v@.subrange(a as int, v.len() as int)),
        decreases b,
    {
        assert(v@.subrange(a as int, b as int).drop_last() =~= v@.subrange(a as int, b - 1));
        b -= 1;
    }
    (a, b)
}

/// What `str::len` reports for a string of these characters: the length of
/// its UTF-8 encoding.
pub open spec fn byte_len(s: Seq<char>) -> nat {
    (vstd::utf8::encode_utf8(s).len() as usize) as nat
}

pub open spec fn is_digit(c: char) -> bool {
    '0' <= c && c <= '9'
}

pub open spec fn all_digits(ds: Seq<char>) -> bool {
    forall|i: int| 0 <= i < ds.len() ==> is_digit(#[trigger] ds[i])
}

/// Decimal value of a digit string.
pub open spec fn digits_value(ds: Seq<char>) -> nat
    decreases ds.len(),
{
    if ds.len() == 0 {
        0
    } else {
        digits_value(ds.drop_last()) * 10 + ((ds.last() as u32) - 48) as nat
    }
}

/// `str::parse` of an unsigned integer type whose maximum is `max`: an
/// optional `+`, then at least one ASCII digit, the value at most `max`.
pub open spec fn parse_unsigned(s: Seq<char>, max: nat) -> Option<nat> {
    let ds = if s.len() > 0 && s[0] == '+' {
        s.drop_first()
    } else {
        s
    };
    if ds.len() > 0 && all_digits(ds) && digits_value(ds) <= max {
        Some(digits_value(ds))
    } else {
        None
    }
}

proof fn lemma_digits_mono(ds: Seq<char>, k: int)
    requires
        0 <= k <= ds.len(),
        all_digits(ds),
    ensures
        digits_value(ds.take(k)) <= digits_value(ds),
    decreases ds.len() - k,
{
    if k < ds.len() {
        lemma_digits_mono(ds, k + 1);
        assert(ds.take(k + 1).drop_last() =~= ds.take(k));
        assert(is_digit(ds[k]));
    } else {
        assert(ds.take(k) =~= ds);
    }
}

/// Parses `v[from..to]` as an unsigned decimal no greater than `max`.
pub fn parse_decimal(v: &Vec<char>, from: usize, to: usize, max: u64) -> (r: Option<u64>)
    requires
        from <= to <= v.len(),
    ensures
        match r {
            Some(n) => parse_unsigned(v@.subrange(from as int, to as int), max as nat) == Some(n as nat),
            None => parse_unsigned(v@.subrange(from as int, to as int), max as nat) is None,
        },
{
    let ghost s = v@.subrange(from as int, to as int);
    let mut start = from;
    if from < to && v[from] == '+' {
        start = from + 1;
    }
    let ghost ds = v@.subrange(start as int, to as int);
    assert(ds =~= (if s.len() > 0 && s[0] == '+' { s.drop_first() } else { s }));
    if start == to {
        return None;
    }
    let mut acc: u64 = 0;
    let mut i = start;
    assert(ds.take(0) =~= Seq::<char>::empty());
    while i < to
        invariant
            start <= i <= to <= v.len(),
            ds == v@.subrange(start as int, to as int),
            s == v@.subrange(from as int, to as int),
            ds == (if s.len() > 0 && s[0] == '+' { s.drop_first() } else { s }),
            ds.len() > 0,
            all_digits(ds.take(i - start)),
            acc as nat == digits_value(ds.take(i - start)),
            acc <= max,
        decreases to - i,
    {
        let c = v[i];
        assert(ds[i - start] == c);
        if !('0' <= c && c <= '9') {
            assert(!all_digits(ds));
            return None;
        }
        let d = (c as u32 - 48) as u64;
        assert(ds.take(i + 1 - start).drop_last() =~= ds.take(i - start));
        assert(all_digits(ds.take(i + 1 - start)));
        if d > max || acc > (max - d) / 10 {
            assert(acc * 10 + d > max) by (nonlinear_arith)
                requires
                    d > max || acc > (max - d) / 10,
                    d <= max ==> acc > (max - d) / 10 || d > max,
            ;
            proof {
                assert(digits_value(ds.take(i + 1 - start)) == acc * 10 + d);
                if all_digits(ds) {
                    lemma_digits_mono(ds, i + 1 - start);
                    assert(digits_value(ds) > max);
                }
            }
            return None;
        }
        assert(acc * 10 + d <= max) by (nonlinear_arith)
            requires
                acc <= (max - d) / 10,
                d <= 9,
                d <= max,
        ;
        acc = acc * 10 + d;
        i += 1;
    }
    assert(ds.take(to - start) =~= ds);
    Some(acc)
}

/// The characters `String::from_utf8_lossy` decodes from `bytes`.
pub uninterp spec fn lossy(bytes: Seq<u8>) -> Seq<char>;

/// `String::from_utf8_lossy`: decodes `bytes` as UTF-8, replacing invalid
/// sequences with U+FFFD. The result is named by `lossy`; on valid UTF-8 it
/// is the plain decoding (the function then borrows the input unchanged).
#[verifier::external_body]
pub(crate) fn utf8_lossy(bytes: &[u8]) -> (s: String)
    ensures
        s@ == lossy(bytes@),
        vstd::utf8::valid_utf8(bytes@) ==> s@ == vstd::utf8::decode_utf8(bytes@),
{
    String::from_utf8_lossy(bytes).into_owned()
}


/// The text `format!("{:?}", s)` gives for a string.
pub uninterp spec fn debug_text(s: Seq<char>) -> Seq<char>;

/// `<str as Debug>::fmt` through `format!("{:?}")`: the string in double
/// quotes with special characters escaped; named by `debug_text`.
#[verifier::external_body]
pub(crate) fn debug_str(s: &str) -> (r: String)
    ensures
        r@ == debug_text(s@),
{
    format!("{:?}", s)
}

/// `String::from_utf8_lossy` of `s[from..to]`.
pub fn lossy_range(s: &Vec<u8>, from: usize, to: usize) -> (r: String)
    requires
        from <= to <= s.len(),
    ensures
        r@ == lossy(s@.subrange(from as int, to as int)),
{
    let slice = vstd::slice::slice_subrange(s.as_slice(), from, to);
    utf8_lossy(slice)
}

/// Copy of `v[from..]` without leading and trailing whitespace.
pub fn trimmed_from(v: &Vec<char>, from: usize) -> (r: Vec<char>)
    requires
        from <= v.len(),
    ensures
        r@ == trim_ws(v@.skip(from as int)),
{
    let (a, b) = trim_bounds(v, from);
    let mut out: Vec<char> = Vec::new();
    push_range(&mut out, v, a, b);
    assert(out@ =~= v@.subrange(a as int, b as int));
    out
}

/// Index of the first `c` in `v` at or after `from` (or the length).
pub open spec fn find_from(s: Seq<char>, c: char, i: nat) -> nat
    decreases s.len() - i,
{
    if i >= s.len() {
        s.len()
    } else if s[i as int] == c {
        i
    } else {
        find_from(s, c, i + 1)
    }
}

pub fn find_char(v: &Vec<char>, c: char, from: usize) -> (r: usize)
    requires
        from <= v.len(),
    ensures
        r == find_from(v@, c, from as nat),
        from <= r <= v.len(),
        r < v.len() ==> v@[r as int] == c,
{
    let mut i = from;
    while i < v.len() && v[i] != c
        invariant
            from <= i <= v.len(),
            find_from(v@, c, i as nat) == find_from(v@, c, from as nat),
        decreases v.len() - i,
    {
        i += 1;
    }
    i
}

/// Whether `t` occurs in `s` as a contiguous run.
pub open spec fn contains_seq(s: Seq<char>, t: Seq<char>) -> bool {
    exists|i: int| 0 <= i && i + t.len() <= s.len() && #[trigger] s.subrange(i, i + t.len()) == t
}

pub fn chars_contains(v: &Vec<char>, lit: &str) -> (r: bool)
    ensures
        r == contains_seq(v@, lit@),
{
    let n = lit.unicode_len();
    if n > v.len() {
        return false;
    }
    if n == 0 {
        assert(v@.subrange(0, 0int + lit@.len()) =~= lit@);
        return true;
    }
    let count = v.len() - n + 1;
    let mut i: usize = 0;
    while i < count
        invariant
            n == lit@.len(),
            1 <= n <= v.len(),
            count == v.len() - n + 1,
            i <= count,
            forall|j: int| 0 <= j < i ==> #[trigger] v@.subrange(j, j + n) != lit@,
        decreases count - i,
    {
        if chars_match_at(v, i, lit) {
            return true;
        }
        i += 1;
    }
    false
}


/// Index of the first space or tab at or after `from` (or the length).
pub fn find_space_or_tab(v: &Vec<char>, from: usize) -> (r: usize)
    requires
        from <= v.len(),
    ensures
        r == crate::goldsrc::ini::first_blank_char(v@, from as nat),
        from <= r <= v.len(),
{
    let mut i = from;
    while i < v.len() && !(v[i] == ' ' || v[i] == '\t')
        invariant
            from <= i <= v.len(),
            crate::goldsrc::ini::first_blank_char(v@, i as nat) == crate::goldsrc::ini::first_blank_char(v@, from as nat),
        decreases v.len() - i,
    {
        i += 1;
    }
    i
}


/// `a` followed by `b`.
pub fn concat2(a: &str, b: &str) -> (r: String)
    ensures
        r@ == a@ + b@,
{
    let mut v = chars_of(a);
    let w = chars_of(b);
    push_range(&mut v, &w, 0, w.len());
    assert(w@.subrange(0, w.len() as int) =~= w@);
    string_from_chars(&v)
}

/// `a`, `b` and `c` one after another.
pub fn concat3(a: &str, b: &str, c: &str) -> (r: String)
    ensures
        r@ == a@ + b@ + c@,
{
    let ab = concat2(a, b);
    concat2(ab.as_str(), c)
}

/// `trim_start_ws` leaves an empty text or one that starts with a non-space.
pub proof fn lemma_trim_start_ws_shape(s: Seq<char>)
    ensures
        trim_start_ws(s).len() == 0 || !is_ws(trim_start_ws(s).first()),
        trim_start_ws(s).len() <= s.len(),
    decreases s.len(),
{
    if s.len() > 0 && is_ws(s.first()) {
        lemma_trim_start_ws_shape(s.drop_first());
    }
}

/// `trim_end_ws` keeps a prefix that is empty or ends with a non-space.
pub proof fn lemma_trim_end_ws_shape(s: Seq<char>)
    ensures
        trim_end_ws(s).len() <= s.len(),
        trim_end_ws(s) == s.take(trim_end_ws(s).len() as int),
        trim_end_ws(s).len() == 0 || !is_ws(trim_end_ws(s).last()),
    decreases s.len(),
{
    if s.len() > 0 && is_ws(s.last()) {
        lemma_trim_end_ws_shape(s.drop_last());
        let t = trim_end_ws(s.drop_last());
        assert(s.drop_last().take(t.len() as int) =~= s.take(t.len() as int));
    } else {
        assert(s.take(s.len() as int) =~= s);
    }
}

/// A trimmed text is empty or starts and ends with a non-space.
pub proof fn lemma_trim_ws_shape(s: Seq<char>)
    ensures
        trim_ws(s).len() == 0 || (!is_ws(trim_ws(s).first()) && !is_ws(trim_ws(s).last())),
{
    let u = trim_start_ws(s);
    lemma_trim_start_ws_shape(s);
    lemma_trim_end_ws_shape(u);
    let t = trim_end_ws(u);
    if t.len() > 0 {
        assert(t.first() == u.take(t.len() as int)[0]);
    }
}

/// Trimming twice is trimming once.
pub proof fn lemma_trim_ws_idempotent(s: Seq<char>)
    ensures
        trim_ws(trim_ws(s)) == trim_ws(s),
{
    lemma_trim_ws_shape(s);
    let t = trim_ws(s);
    assert(trim_start_ws(t) == t);
    assert(trim_end_ws(t) == t);
}

/// Leading spaces do not change a trimmed text.
pub proof fn lemma_trim_ws_after_space(s: Seq<char>)
    ensures
        trim_ws(seq![' '] + s) == trim_ws(s),
{
    assert((seq![' '] + s).drop_first() =~= s);
}

} // verus!
