//! Character-level text operations shared by the parser, the normalizer and
//! the renderers. Every operation is stated over `Seq<char>`, the view of
//! `str` and `String`.
use vstd::prelude::*;

verus! {

/// The std method `String::push`: the contract claims that it appends the
/// character at the end of the string and changes nothing else, as its
/// documentation says ("Appends the given `char` to the end of this
/// `String`").
pub assume_specification[ std::string::String::push ](s: &mut std::string::String, ch: char)
    ensures
        final(s)@ == old(s)@.push(ch),
;

/// Lexicographic order on character sequences (the order of `str`'s `Ord`,
/// since UTF-8 preserves the order of code points).
pub open spec fn str_lt(a: Seq<char>, b: Seq<char>) -> bool
    decreases a.len(),
{
    if a.len() == 0 {
        b.len() > 0
    } else if b.len() == 0 {
        false
    } else if a[0] != b[0] {
        a[0] < b[0]
    } else {
        str_lt(a.drop_first(), b.drop_first())
    }
}

/// The characters of a string, as a vector.
pub fn chars_of(s: &str) -> (v: Vec<char>)
    ensures
        v@ == s@,
{
    let n = s.unicode_len();
    let mut v: Vec<char> = Vec::new();
    let mut i: usize = 0;
    while i < n
        invariant
            n == s@.len(),
            i <= n,
            v@ == s@.subrange(0, i as int),
        decreases n - i,
    {
        v.push(s.get_char(i));
        i = i + 1;
    }
    assert(v@ =~= s@);
    v
}

/// A string holding exactly the given characters.
pub fn string_from_chars(cs: &[char]) -> (r: String)
    ensures
        r@ == cs@,
{
    let mut r = String::new();
    let mut i: usize = 0;
    while i < cs.len()
        invariant
            i <= cs@.len(),
            r@ == cs@.subrange(0, i as int),
        decreases cs@.len() - i,
    {
        r.push(cs[i]);
        i = i + 1;
    }
    assert(r@ =~= cs@);
    r
}

/// Whether two strings hold the same characters.
pub fn str_equal(a: &str, b: &str) -> (r: bool)
    ensures
        r == (a@ == b@),
{
    let x = chars_of(a);
    let y = chars_of(b);
    if x.len() != y.len() {
        return false;
    }
    let mut i: usize = 0;
    while i < x.len()
        invariant
            x@ == a@,
            y@ == b@,
            x@.len() == y@.len(),
            i <= x@.len(),
            forall|j: int| 0 <= j < i ==> x@[j] == y@[j],
        decreases x@.len() - i,
    {
        if x[i] != y[i] {
            return false;
        }
        i = i + 1;
    }
    assert(x@ =~= y@);
    true
}

/// Lexicographic comparison of two strings.
pub fn str_less(a: &str, b: &str) -> (r: bool)
    ensures
        r == str_lt(a@, b@),
{
    let x = chars_of(a);
    let y = chars_of(b);
    let mut i: usize = 0;
    assert(a@.skip(0) =~= a@);
    assert(b@.skip(0) =~= b@);
    while i < x.len() && i < y.len() && x[i] == y[i]
        invariant
            x@ == a@,
            y@ == b@,
            i <= x@.len(),
            i <= y@.len(),
            str_lt(a@, b@) == str_lt(a@.skip(i as int), b@.skip(i as int)),
        decreases x@.len() - i,
    {
        proof {
            let sa = a@.skip(i as int);
            let sb = b@.skip(i as int);
            assert(sa.drop_first() =~= a@.skip(i + 1));
            assert(sb.drop_first() =~= b@.skip(i + 1));
        }
        i = i + 1;
    }
    proof {
        let sa = a@.skip(i as int);
        let sb = b@.skip(i as int);
        if i < x.len() {
            assert(sa[0] == x@[i as int]);
        }
        if i < y.len() {
            assert(sb[0] == y@[i as int]);
        }
    }
    if i == x.len() {
        i < y.len()
    } else if i == y.len() {
        false
    } else {
        x[i] < y[i]
    }
}

/// The decimal digit character for `d < 10`.
pub open spec fn digit_char(d: nat) -> char {
    if d == 0 { '0' }
    else if d == 1 { '1' }
    else if d == 2 { '2' }
    else if d == 3 { '3' }
    else if d == 4 { '4' }
    else if d == 5 { '5' }
    else if d == 6 { '6' }
    else if d == 7 { '7' }
    else if d == 8 { '8' }
    else { '9' }
}

/// The decimal rendering of a natural number, without leading zeros.
pub open spec fn decimal(n: nat) -> Seq<char>
    decreases n,
{
    if n < 10 {
        seq![digit_char(n)]
    } else {
        decimal(n / 10).push(digit_char(n % 10))
    }
}

fn digit(d: usize) -> (c: char)
    requires
        d < 10,
    ensures
        c == digit_char(d as nat),
{
    if d == 0 { '0' }
    else if d == 1 { '1' }
    else if d == 2 { '2' }
    else if d == 3 { '3' }
    else if d == 4 { '4' }
    else if d == 5 { '5' }
    else if d == 6 { '6' }
    else if d == 7 { '7' }
    else if d == 8 { '8' }
    else { '9' }
}

/// Appends the decimal rendering of `n` (what `{}` prints for an integer).
pub fn push_decimal(out: &mut String, n: usize)
    ensures
        final(out)@ == old(out)@ + decimal(n as nat),
    decreases n,
{
    if n < 10 {
        out.push(digit(n));
        assert(decimal(n as nat) =~= seq![digit_char(n as nat)]);
    } else {
        push_decimal(out, n / 10);
        out.push(digit(n % 10));
    }
}

/// Whether `needle` occurs in `hay` starting at position `i`.
pub open spec fn occurs_at(hay: Seq<char>, needle: Seq<char>, i: int) -> bool {
    0 <= i && i + needle.len() <= hay.len() && hay.subrange(i, i + needle.len()) == needle
}

/// The first position at or after `from` where `needle` occurs in `hay`.
pub open spec fn find_from(hay: Seq<char>, needle: Seq<char>, from: int) -> Option<int>
    decreases hay.len() + 1 - from,
{
    if from < 0 || from + needle.len() > hay.len() {
        None
    } else if occurs_at(hay, needle, from) {
        Some(from)
    } else {
        find_from(hay, needle, from + 1)
    }
}

/// The first position where `needle` occurs in `hay` (`str::find`, counted in
/// characters).
pub open spec fn find_seq(hay: Seq<char>, needle: Seq<char>) -> Option<int> {
    find_from(hay, needle, 0)
}

/// A found position lies inside the text and the needle occurs there.
pub proof fn lemma_find_seq_bounds(hay: Seq<char>, needle: Seq<char>)
    ensures
        find_seq(hay, needle) matches Some(i) ==> 0 <= i && occurs_at(hay, needle, i),
{
    lemma_find_from_bounds(hay, needle, 0);
}

proof fn lemma_find_from_bounds(hay: Seq<char>, needle: Seq<char>, from: int)
    ensures
        find_from(hay, needle, from) matches Some(i) ==> from <= i && occurs_at(hay, needle, i),
    decreases hay.len() + 1 - from,
{
    if from < 0 || from + needle.len() > hay.len() {
    } else if occurs_at(hay, needle, from) {
    } else {
        lemma_find_from_bounds(hay, needle, from + 1);
    }
}

/// The position of the first occurrence of `needle` in `hay`.
pub fn find_str(hay: &[char], needle: &[char]) -> (r: Option<usize>)
    ensures
        r matches Some(i) ==> find_seq(hay@, needle@) == Some(i as int),
        r is None ==> find_seq(hay@, needle@) is None,
{
    let n = hay.len();
    let m = needle.len();
    if m > n {
        return None;
    }
    let mut i: usize = 0;
    while i <= n - m
        invariant
            n == hay@.len(),
            m == needle@.len(),
            m <= n,
            i <= n - m + 1,
            find_seq(hay@, needle@) == find_from(hay@, needle@, i as int),
        decreases n - i,
    {
        let mut j: usize = 0;
        let mut matched = true;
        while j < m
            invariant
                n == hay@.len(),
                m == needle@.len(),
                i + m <= n,
                j <= m,
                matched <==> (forall|k: int| 0 <= k < j ==> hay@[i + k] == needle@[k]),
            decreases m - j,
        {
            if hay[i + j] != needle[j] {
                matched = false;
            }
            j = j + 1;
        }
        if matched {
            assert(hay@.subrange(i as int, i + m) =~= needle@);
            return Some(i);
        }
        assert(!occurs_at(hay@, needle@, i as int)) by {
            if occurs_at(hay@, needle@, i as int) {
                assert forall|k: int| 0 <= k < m implies hay@[i + k] == needle@[k] by {
                    assert(hay@.subrange(i as int, i + m)[k] == hay@[i + k]);
                }
            }
        }
        i = i + 1;
    }
    None
}

/// The first position of a character in a sequence.
pub open spec fn find_char_seq(s: Seq<char>, c: char) -> Option<int> {
    find_seq(s, seq![c])
}

/// The position of the first occurrence of `c`.
pub fn find_char(s: &[char], c: char) -> (r: Option<usize>)
    ensures
        r matches Some(i) ==> find_char_seq(s@, c) == Some(i as int),
        r is None ==> find_char_seq(s@, c) is None,
{
    let pat: Vec<char> = vec![c];
    assert(pat@ =~= seq![c]);
    find_str(s, pat.as_slice())
}

/// Whether `needle` occurs anywhere in `hay`.
pub fn contains_str(hay: &[char], needle: &[char]) -> (r: bool)
    ensures
        r == (find_seq(hay@, needle@) is Some),
{
    find_str(hay, needle).is_some()
}

/// A copy of the characters `s[from..to]`.
pub fn slice_chars(s: &[char], from: usize, to: usize) -> (r: Vec<char>)
    requires
        from <= to <= s@.len(),
    ensures
        r@ == s@.subrange(from as int, to as int),
{
    let mut r: Vec<char> = Vec::new();
    let mut i = from;
    while i < to
        invariant
            from <= i <= to <= s@.len(),
            r@ == s@.subrange(from as int, i as int),
        decreases to - i,
    {
        r.push(s[i]);
        i = i + 1;
    }
    r
}

/// Appends a copy of a character slice to a string.
pub fn push_chars(out: &mut String, cs: &[char])
    ensures
        final(out)@ == old(out)@ + cs@,
{
    let mut i: usize = 0;
    while i < cs.len()
        invariant
            i <= cs@.len(),
            out@ == old(out)@ + cs@.subrange(0, i as int),
        decreases cs@.len() - i,
    {
        out.push(cs[i]);
        i = i + 1;
    }
    assert(cs@.subrange(0, cs@.len() as int) =~= cs@);
}

/// The characters that Unicode marks `White_Space` (those that
/// `char::is_whitespace` accepts).
pub open spec fn is_white_space(c: char) -> bool {
    let u = c as u32;
    (0x9 <= u && u <= 0xD) || u == 0x20 || u == 0x85 || u == 0xA0 || u == 0x1680
        || (0x2000 <= u && u <= 0x200A) || u == 0x2028 || u == 0x2029 || u == 0x202F
        || u == 0x205F || u == 0x3000
}

fn white_space(c: char) -> (r: bool)
    ensures
        r == is_white_space(c),
{
    let u = c as u32;
    (0x9 <= u && u <= 0xD) || u == 0x20 || u == 0x85 || u == 0xA0 || u == 0x1680
        || (0x2000 <= u && u <= 0x200A) || u == 0x2028 || u == 0x2029 || u == 0x202F
        || u == 0x205F || u == 0x3000
}

/// `s` without its leading white space.
pub open spec fn trim_start_seq(s: Seq<char>) -> Seq<char>
    decreases s.len(),
{
    if s.len() > 0 && is_white_space(s[0]) {
        trim_start_seq(s.drop_first())
    } else {
        s
    }
}

/// `s` with every trailing character satisfying `is_white_space` removed.
pub open spec fn trim_end_seq(s: Seq<char>) -> Seq<char>
    decreases s.len(),
{
    if s.len() > 0 && is_white_space(s.last()) {
        trim_end_seq(s.drop_last())
    } else {
        s
    }
}

/// `s` with every trailing `c` removed (`str::trim_end_matches` with a char).
pub open spec fn trim_end_char_seq(s: Seq<char>, c: char) -> Seq<char>
    decreases s.len(),
{
    if s.len() > 0 && s.last() == c {
        trim_end_char_seq(s.drop_last(), c)
    } else {
        s
    }
}

/// `str::trim`: white space removed at both ends.
pub fn trim(s: &[char]) -> (r: Vec<char>)
    ensures
        r@ == trim_end_seq(trim_start_seq(s@)),
{
    let n = s.len();
    let mut a: usize = 0;
    assert(s@.skip(0) =~= s@);
    while a < n && white_space(s[a])
        invariant
            n == s@.len(),
            a <= n,
            trim_start_seq(s@) == trim_start_seq(s@.skip(a as int)),
        decreases n - a,
    {
        assert(s@.skip(a as int).drop_first() =~= s@.skip(a + 1));
        a = a + 1;
    }
    assert(trim_start_seq(s@.skip(a as int)) == s@.skip(a as int));
    assert(s@.skip(a as int) =~= s@.subrange(a as int, n as int));
    let mut b: usize = n;
    while b > a && white_space(s[b - 1])
        invariant
            n == s@.len(),
            a <= b <= n,
            trim_end_seq(s@.subrange(a as int, n as int)) == trim_end_seq(
                s@.subrange(a as int, b as int),
            ),
        decreases b,
    {
        assert(s@.subrange(a as int, b as int).drop_last() =~= s@.subrange(a as int, b - 1));
        b = b - 1;
    }
    slice_chars(s, a, b)
}

/// `str::trim_end_matches` with a single character.
pub fn trim_end_char(s: &[char], c: char) -> (r: Vec<char>)
    ensures
        r@ == trim_end_char_seq(s@, c),
{
    let n = s.len();
    let mut b: usize = n;
    assert(s@.subrange(0, n as int) =~= s@);
    while b > 0 && s[b - 1] == c
        invariant
            n == s@.len(),
            b <= n,
            trim_end_char_seq(s@, c) == trim_end_char_seq(s@.subrange(0, b as int), c),
        decreases b,
    {
        assert(s@.subrange(0, b as int).drop_last() =~= s@.subrange(0, b - 1));
        b = b - 1;
    }
    assert(s@.subrange(0, n as int) =~= s@);
    slice_chars(s, 0, b)
}

} // verus!
