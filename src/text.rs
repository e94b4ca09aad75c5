//! Character-level helpers shared by the codecs: decimal digits, white space
//! and building strings.
use vstd::prelude::*;
use vstd::string::*;

verus! {

/// Whether `c` is an ASCII decimal digit.
pub open spec fn is_digit(c: char) -> bool {
    48 <= (c as u32) <= 57
}

/// The value of the ASCII digit `c`.
pub open spec fn digit_value(c: char) -> int {
    (c as u32) as int - 48
}

/// The character of the decimal digit `d`.
pub open spec fn digit_char(d: int) -> char {
    if d == 0 { '0' }
    else if d == 1 { '1' }
    else if d == 2 { '2' }
    else if d == 3 { '3' }
    else if d == 4 { '4' }
    else if d == 5 { '5' }
    else if d == 6 { '6' }
    else if d == 7 { '7' }
    else if d == 8 { '8' }
    else { '9' }
}

/// The decimal digits of `n`, most significant first, without leading zeros
/// (zero is `"0"`).
pub open spec fn decimal(n: nat) -> Seq<char>
    decreases n,
{
    if n < 10 {
        seq![digit_char(n as int)]
    } else {
        decimal(n / 10).push(digit_char((n % 10) as int))
    }
}

/// The text of the decimal digit `d`.
pub fn digit_str(d: u64) -> (r: &'static str)
    requires
        d < 10,
    ensures
        r@ == seq![digit_char(d as int)],
{
    proof {
        reveal_strlit("0");
        reveal_strlit("1");
        reveal_strlit("2");
        reveal_strlit("3");
        reveal_strlit("4");
        reveal_strlit("5");
        reveal_strlit("6");
        reveal_strlit("7");
        reveal_strlit("8");
        reveal_strlit("9");
    }
    match d {
        0 => "0",
        1 => "1",
        2 => "2",
        3 => "3",
        4 => "4",
        5 => "5",
        6 => "6",
        7 => "7",
        8 => "8",
        _ => "9",
    }
}

/// Appends the decimal digits of `n` to `s`.
pub fn push_decimal(s: &mut String, n: u64)
    ensures
        final(s)@ == old(s)@ + decimal(n as nat),
    decreases n,
{
    if n >= 10 {
        push_decimal(s, n / 10);
    }
    s.append(digit_str(n % 10));
}

} // verus!

verus! {

/// The characters of `s`, in order.
pub fn chars_of(s: &str) -> (r: Vec<char>)
    ensures
        r@ == s@,
{
    let mut r: Vec<char> = Vec::new();
    for c in it: s.chars()
        invariant
            r@ == it.seq().take(it.index() as int),
    {
        r.push(c);
    }
    r
}

/// Whether `c` has the Unicode `White_Space` property, the test that
/// `str::trim` applies.
pub open spec fn is_white_space(c: char) -> bool {
    let u = c as u32;
    ||| 0x9 <= u <= 0xd
    ||| u == 0x20
    ||| u == 0x85
    ||| u == 0xa0
    ||| u == 0x1680
    ||| 0x2000 <= u <= 0x200a
    ||| u == 0x2028
    ||| u == 0x2029
    ||| u == 0x202f
    ||| u == 0x205f
    ||| u == 0x3000
}

pub fn white_space(c: char) -> (r: bool)
    ensures
        r == is_white_space(c),
{
    let u = c as u32;
    (0x9 <= u && u <= 0xd) || u == 0x20 || u == 0x85 || u == 0xa0 || u == 0x1680 || (0x2000 <= u
        && u <= 0x200a) || u == 0x2028 || u == 0x2029 || u == 0x202f || u == 0x205f || u == 0x3000
}

/// The index of the first character at or after `i` that is not white space
/// (or the length).
pub open spec fn skip_white(s: Seq<char>, i: int) -> int
    decreases s.len() - i,
{
    if 0 <= i < s.len() && is_white_space(s[i]) {
        skip_white(s, i + 1)
    } else {
        i
    }
}

/// The index just past the last character before `j` that is not white space
/// (or zero).
pub open spec fn skip_white_back(s: Seq<char>, j: int) -> int
    decreases j,
{
    if 0 < j <= s.len() && is_white_space(s[j - 1]) {
        skip_white_back(s, j - 1)
    } else {
        j
    }
}

/// `s` without leading and trailing white space.
pub open spec fn trim(s: Seq<char>) -> Seq<char> {
    let a = skip_white(s, 0);
    let b = skip_white_back(s, s.len() as int);
    if a < b {
        s.subrange(a, b)
    } else {
        Seq::empty()
    }
}

proof fn lemma_skip_white_bounds(s: Seq<char>, i: int)
    requires
        0 <= i <= s.len(),
    ensures
        i <= skip_white(s, i) <= s.len(),
        skip_white(s, i) < s.len() ==> !is_white_space(s[skip_white(s, i)]),
        forall|k: int| i <= k < skip_white(s, i) ==> is_white_space(#[trigger] s[k]),
    decreases s.len() - i,
{
    if i < s.len() && is_white_space(s[i]) {
        lemma_skip_white_bounds(s, i + 1);
    }
}

proof fn lemma_skip_white_back_bounds(s: Seq<char>, j: int)
    requires
        0 <= j <= s.len(),
    ensures
        0 <= skip_white_back(s, j) <= j,
        skip_white_back(s, j) > 0 ==> !is_white_space(s[skip_white_back(s, j) - 1]),
        forall|k: int| skip_white_back(s, j) <= k < j ==> is_white_space(#[trigger] s[k]),
    decreases j,
{
    if 0 < j && is_white_space(s[j - 1]) {
        lemma_skip_white_back_bounds(s, j - 1);
    }
}

/// The bounds of `trim(d[lo..hi])` within `d`: the trimmed window is
/// `d[a..b]`.
pub fn trim_bounds(d: &Vec<char>, lo: usize, hi: usize) -> (r: (usize, usize))
    requires
        lo <= hi <= d@.len(),
    ensures
        lo <= r.0 <= r.1 <= hi,
        d@.subrange(r.0 as int, r.1 as int) == trim(d@.subrange(lo as int, hi as int)),
{
    let ghost line = d@.subrange(lo as int, hi as int);
    let mut a: usize = lo;
    while a < hi && white_space(d[a])
        invariant
            lo <= a <= hi <= d@.len(),
            line == d@.subrange(lo as int, hi as int),
            skip_white(line, (a - lo) as int) == skip_white(line, 0),
        decreases hi - a,
    {
        assert(line[(a - lo) as int] == d@[a as int]);
        a = a + 1;
    }
    assert(skip_white(line, 0) == (a - lo) as int) by {
        if a < hi {
            assert(line[(a - lo) as int] == d@[a as int]);
        }
    }
    let mut b: usize = hi;
    while b > a && white_space(d[b - 1])
        invariant
            lo <= a <= b <= hi <= d@.len(),
            line == d@.subrange(lo as int, hi as int),
            skip_white_back(line, (b - lo) as int) == skip_white_back(line, line.len() as int),
            forall|k: int| (b - lo) <= k < line.len() ==> is_white_space(#[trigger] line[k]),
        decreases b - a,
    {
        assert(line[(b - 1 - lo) as int] == d@[b - 1]);
        b = b - 1;
    }
    proof {
        lemma_skip_white_bounds(line, 0);
        lemma_skip_white_back_bounds(line, line.len() as int);
        let sa = skip_white(line, 0);
        let sb = skip_white_back(line, line.len() as int);
        if b > a {
            assert(line[(b - 1 - lo) as int] == d@[b - 1]);
            assert(sb == (b - lo) as int);
            assert(sa < sb);
            assert(d@.subrange(a as int, b as int) =~= line.subrange(sa, sb));
        } else {
            // every character of the window is white space
            assert(sb <= sa) by {
                if sb > sa {
                    assert(is_white_space(line[sb - 1]));
                }
            }
            assert(d@.subrange(a as int, b as int) =~= Seq::<char>::empty());
        }
    }
    (a, b)
}

} // verus!
