//! Character-level helpers on text: Unicode trimming, ASCII case folding and
//! line-end stripping, each with its meaning stated on `Seq<char>`.

use vstd::prelude::*;

verus! {

/// Whether `c` carries the Unicode `White_Space` property.
pub open spec fn is_white_space(c: char) -> bool {
    let u = c as u32;
    ||| 0x09 <= u <= 0x0D
    ||| u == 0x20
    ||| u == 0x85
    ||| u == 0xA0
    ||| u == 0x1680
    ||| 0x2000 <= u <= 0x200A
    ||| u == 0x2028
    ||| u == 0x2029
    ||| u == 0x202F
    ||| u == 0x205F
    ||| u == 0x3000
}

/// `s` without its leading white space.
pub open spec fn trim_start(s: Seq<char>) -> Seq<char>
    decreases s.len(),
{
    if s.len() > 0 && is_white_space(s.first()) {
        trim_start(s.drop_first())
    } else {
        s
    }
}

/// `s` without its trailing white space.
pub open spec fn trim_end(s: Seq<char>) -> Seq<char>
    decreases s.len(),
{
    if s.len() > 0 && is_white_space(s.last()) {
        trim_end(s.drop_last())
    } else {
        s
    }
}

/// `s` without leading and trailing white space.
pub open spec fn trim(s: Seq<char>) -> Seq<char> {
    trim_end(trim_start(s))
}

/// `s` without its trailing line feeds.
pub open spec fn strip_line_feeds(s: Seq<char>) -> Seq<char>
    decreases s.len(),
{
    if s.len() > 0 && s.last() == '\n' {
        strip_line_feeds(s.drop_last())
    } else {
        s
    }
}

/// Code point of the ASCII lower-case form of `c`: `A`..`Z` move to `a`..`z`,
/// every other character stays.
pub open spec fn ascii_lower(c: char) -> int {
    if 'A' <= c && c <= 'Z' {
        c as int + 32
    } else {
        c as int
    }
}

/// Whether `key` is `s` with every character in ASCII lower case.
pub open spec fn lowers_to(s: Seq<char>, key: Seq<char>) -> bool {
    &&& s.len() == key.len()
    &&& forall|i: int| 0 <= i < s.len() ==> ascii_lower(#[trigger] s[i]) == key[i] as int
}

pub fn char_is_white_space(c: char) -> (b: bool)
    ensures
        b == is_white_space(c),
{
    let u: u32 = c as u32;
    (0x09 <= u && u <= 0x0D) || u == 0x20 || u == 0x85 || u == 0xA0 || u == 0x1680 || (0x2000 <= u
        && u <= 0x200A) || u == 0x2028 || u == 0x2029 || u == 0x202F || u == 0x205F || u == 0x3000
}

/// The characters of `s`, in order.
pub fn chars_of(s: &str) -> (v: Vec<char>)
    ensures
        v@ == s@,
{
    let mut v: Vec<char> = Vec::new();
    for c in it: s.chars()
        invariant
            v@ == it.seq().take(it.index() as int),
    {
        v.push(c);
    }
    v
}

/// Whether two texts are the same, character for character.
pub fn same_text(a: &str, b: &str) -> (r: bool)
    ensures
        r == (a@ == b@),
{
    let x = chars_of(a);
    let y = chars_of(b);
    if x.len() != y.len() {
        return false;
    }
    let mut i: usize = 0;
    while i < x.len()
        invariant
            i <= x.len(),
            x.len() == y.len(),
            x@ == a@,
            y@ == b@,
            forall|j: int| 0 <= j < i ==> x@[j] == y@[j],
        decreases x.len() - i,
    {
        if x[i] != y[i] {
            return false;
        }
        i += 1;
    }
    assert(x@ =~= y@);
    true
}

/// Number of leading white-space characters of `v`.
fn leading_white_space(v: &Vec<char>) -> (a: usize)
    ensures
        a <= v.len(),
        trim_start(v@) == v@.skip(a as int),
{
    let mut a: usize = 0;
    assert(v@.skip(0) == v@);
    while a < v.len() && char_is_white_space(v[a])
        invariant
            a <= v.len(),
            trim_start(v@) == trim_start(v@.skip(a as int)),
        decreases v.len() - a,
    {
        assert(v@.skip(a as int).drop_first() == v@.skip(a + 1));
        a += 1;
    }
    a
}

/// End of the part of `v` from `a` on that is left once trailing white space
/// is cut.
fn trailing_white_space(v: &Vec<char>, a: usize) -> (b: usize)
    requires
        a <= v.len(),
    ensures
        a <= b <= v.len(),
        trim_end(v@.skip(a as int)) == v@.subrange(a as int, b as int),
{
    let mut b: usize = v.len();
    assert(v@.skip(a as int) == v@.subrange(a as int, b as int));
    while b > a && char_is_white_space(v[b - 1])
        invariant
            a <= b <= v.len(),
            trim_end(v@.skip(a as int)) == trim_end(v@.subrange(a as int, b as int)),
        decreases b,
    {
        assert(v@.subrange(a as int, b as int).drop_last() == v@.subrange(a as int, b - 1));
        b -= 1;
    }
    b
}

/// `s` without leading and trailing white space, as an owned string.
pub fn trimmed(s: &str) -> (r: String)
    ensures
        r@ == trim(s@),
{
    let v = chars_of(s);
    let a = leading_white_space(&v);
    let b = trailing_white_space(&v, a);
    s.substring_char(a, b).to_owned()
}

/// `s` without its trailing line feeds, as an owned string.
pub fn without_line_feeds(s: &str) -> (r: String)
    ensures
        r@ == strip_line_feeds(s@),
{
    let v = chars_of(s);
    let mut b: usize = v.len();
    assert(v@ == v@.take(b as int));
    while b > 0 && v[b - 1] == '\n'
        invariant
            b <= v.len(),
            strip_line_feeds(v@) == strip_line_feeds(v@.take(b as int)),
        decreases b,
    {
        assert(v@.take(b as int).drop_last() == v@.take(b - 1));
        b -= 1;
    }
    assert(v@.take(b as int) == s@.subrange(0, b as int));
    s.substring_char(0, b).to_owned()
}

/// Code point of `c`.
fn code(c: char) -> (u: u32)
    ensures
        u == c as int,
{
    c as u32
}

/// Code point of the ASCII lower-case form of `c`.
fn lower_code(c: char) -> (u: u32)
    ensures
        u == ascii_lower(c),
{
    if 'A' <= c && c <= 'Z' {
        c as u32 + 32
    } else {
        c as u32
    }
}

/// Whether `s`, trimmed and put in ASCII lower case, reads `key`.
pub fn is_key(s: &str, key: &str) -> (b: bool)
    ensures
        b == lowers_to(trim(s@), key@),
{
    let v = chars_of(s);
    let k = chars_of(key);
    let a = leading_white_space(&v);
    let e = trailing_white_space(&v, a);
    let ghost t = trim(s@);
    assert(t == v@.subrange(a as int, e as int));
    if e - a != k.len() {
        return false;
    }
    let mut i: usize = 0;
    while i < k.len()
        invariant
            i <= k.len(),
            a <= e <= v.len(),
            e - a == k.len(),
            k@ == key@,
            t == trim(s@),
            t == v@.subrange(a as int, e as int),
            forall|j: int| 0 <= j < i ==> ascii_lower(#[trigger] t[j]) == key@[j] as int,
        decreases k.len() - i,
    {
        let c: char = v[a + i];
        let want: char = k[i];
        assert(t[i as int] == c);
        if lower_code(c) != code(want) {
            assert(ascii_lower(t[i as int]) != key@[i as int] as int);
            return false;
        }
        i += 1;
    }
    true
}

} // verus!
