//! Character-level text helpers shared by the parsers: whitespace trimming,
//! splitting at a separator and decimal rendering, each with its meaning
//! stated over `Seq<char>`.
use vstd::prelude::*;

verus! {

/// Whether `c` has the Unicode `White_Space` property, the set of characters
/// that `str::trim` removes.
pub open spec fn is_white_space(c: char) -> bool {
    let u = c as u32;
    ||| 0x09 <= u <= 0x0D
    ||| u == 0x20
    ||| u == 0x85
    ||| u == 0xA0
    ||| u == 0x1680
    ||| 0x2000 <= u <= 0x200A
    ||| u == 0x2028
    ||| u == 0x2029
    ||| u == 0x202F
    ||| u == 0x205F
    ||| u == 0x3000
}

/// `s` without its leading whitespace.
pub open spec fn trim_start(s: Seq<char>) -> Seq<char>
    decreases s.len(),
{
    if s.len() > 0 && is_white_space(s[0]) {
        trim_start(s.drop_first())
    } else {
        s
    }
}

/// `s` without its trailing whitespace.
pub open spec fn trim_end(s: Seq<char>) -> Seq<char>
    decreases s.len(),
{
    if s.len() > 0 && is_white_space(s.last()) {
        trim_end(s.drop_last())
    } else {
        s
    }
}

/// `s` without leading and trailing whitespace, as `str::trim` gives it.
pub open spec fn trim(s: Seq<char>) -> Seq<char> {
    trim_end(trim_start(s))
}

/// The part of `s` before the first `sep`, or all of `s` when it holds none.
pub open spec fn before_first(s: Seq<char>, sep: char) -> Seq<char> {
    match s.index_of_first(sep) {
        Some(i) => s.take(i),
        None => s,
    }
}

/// The part of `s` after the first `sep`, when it holds one.
pub open spec fn after_first(s: Seq<char>, sep: char) -> Option<Seq<char>> {
    match s.index_of_first(sep) {
        Some(i) => Some(s.skip(i + 1)),
        None => None,
    }
}

/// The character of the decimal digit `d`.
pub open spec fn digit_char(d: nat) -> char {
    if d == 0 {
        '0'
    } else if d == 1 {
        '1'
    } else if d == 2 {
        '2'
    } else if d == 3 {
        '3'
    } else if d == 4 {
        '4'
    } else if d == 5 {
        '5'
    } else if d == 6 {
        '6'
    } else if d == 7 {
        '7'
    } else if d == 8 {
        '8'
    } else {
        '9'
    }
}

/// The decimal representation of `n`, without leading zeros.
pub open spec fn decimal(n: nat) -> Seq<char>
    decreases n,
{
    if n < 10 {
        seq![digit_char(n)]
    } else {
        decimal(n / 10).push(digit_char(n % 10))
    }
}

/// The number whose decimal digits are the characters of `s`, each digit
/// counted as its distance from `'0'`.
pub open spec fn decimal_value(s: Seq<char>) -> int
    decreases s.len(),
{
    if s.len() == 0 {
        0
    } else {
        decimal_value(s.drop_last()) * 10 + ((s.last() as u32) - ('0' as u32))
    }
}

/// Whether `c` is one of the characters `'0'` to `'9'`.
pub open spec fn is_decimal_digit(c: char) -> bool {
    '0' as u32 <= c as u32 <= '9' as u32
}

/// The decimal representation of `n` is a non-empty string of the digits
/// `'0'` to `'9'` that reads back as `n`, and it starts with `'0'` only
/// when `n` is zero.
pub proof fn lemma_decimal_reads_back(n: nat)
    ensures
        decimal(n).len() > 0,
        forall|i: int| 0 <= i < decimal(n).len() ==> is_decimal_digit(#[trigger] decimal(n)[i]),
        decimal_value(decimal(n)) == n,
        decimal(n)[0] == '0' ==> n == 0,
    decreases n,
{
    let d = (n % 10) as nat;
    assert(digit_char(d) as u32 - '0' as u32 == d && is_decimal_digit(digit_char(d))) by {
        assert('0' as u32 == 48);
        assert('1' as u32 == 49);
        assert('2' as u32 == 50);
        assert('3' as u32 == 51);
        assert('4' as u32 == 52);
        assert('5' as u32 == 53);
        assert('6' as u32 == 54);
        assert('7' as u32 == 55);
        assert('8' as u32 == 56);
        assert('9' as u32 == 57);
    }
    if n < 10 {
        let s = decimal(n);
        assert(s.drop_last() =~= Seq::<char>::empty());
        assert(d == n);
        assert(s.last() == digit_char(d));
        assert(decimal_value(s) == decimal_value(s.drop_last()) * 10 + ((s.last() as u32) - ('0' as u32)));
    } else {
        let q = (n / 10) as nat;
        lemma_decimal_reads_back(q);
        let s = decimal(n);
        assert(s == decimal(q).push(digit_char(d)));
        assert(s.drop_last() =~= decimal(q));
        assert(q * 10 + d == n) by (nonlinear_arith)
            requires
                q == n / 10,
                d == n % 10,
        ;
        assert forall|i: int| 0 <= i < s.len() implies is_decimal_digit(#[trigger] s[i]) by {
            if i < s.len() - 1 {
                assert(s[i] == decimal(q)[i]);
            }
        }
        assert(s.last() == digit_char(d));
        assert(decimal_value(s) == decimal_value(decimal(q)) * 10 + d);
        assert(s[0] == decimal(q)[0]);
        assert(q > 0);
    }
}

/// `String::push` appends one character.
pub assume_specification[ String::push ](s: &mut String, ch: char)
    ensures
        final(s)@ == old(s)@.push(ch),
;

/// Whether `c` is a whitespace character.
pub fn is_white_space_char(c: char) -> (b: bool)
    ensures
        b == is_white_space(c),
{
    let u = c as u32;
    (0x09 <= u && u <= 0x0D) || u == 0x20 || u == 0x85 || u == 0xA0 || u == 0x1680 || (0x2000
        <= u && u <= 0x200A) || u == 0x2028 || u == 0x2029 || u == 0x202F || u == 0x205F || u
        == 0x3000
}

/// The characters of `s`, one per element.
pub fn chars_of(s: &str) -> (v: Vec<char>)
    ensures
        v@ == s@,
{
    let n = s.unicode_len();
    let mut v: Vec<char> = Vec::new();
    let mut i: usize = 0;
    while i < n
        invariant
            n == s@.len(),
            i <= n,
            v@ == s@.take(i as int),
        decreases n - i,
    {
        let c = s.get_char(i);
        v.push(c);
        i = i + 1;
        assert(v@ =~= s@.take(i as int));
    }
    assert(v@ =~= s@);
    v
}

/// Appends the characters `v[from..to]` to `s`.
pub fn push_chars(s: &mut String, v: &Vec<char>, from: usize, to: usize)
    requires
        from <= to <= v@.len(),
    ensures
        final(s)@ == old(s)@ + v@.subrange(from as int, to as int),
{
    let mut i = from;
    while i < to
        invariant
            from <= i <= to <= v@.len(),
            s@ == old(s)@ + v@.subrange(from as int, i as int),
        decreases to - i,
    {
        s.push(v[i]);
        i = i + 1;
        assert(s@ =~= old(s)@ + v@.subrange(from as int, i as int));
    }
}

/// A string of the characters `v[from..to]`.
pub fn string_of(v: &Vec<char>, from: usize, to: usize) -> (s: String)
    requires
        from <= to <= v@.len(),
    ensures
        s@ == v@.subrange(from as int, to as int),
{
    let mut s = String::new();
    push_chars(&mut s, v, from, to);
    assert(s@ =~= v@.subrange(from as int, to as int));
    s
}

proof fn lemma_trim_start_step(s: Seq<char>, i: int)
    requires
        0 <= i < s.len(),
        is_white_space(s[i]),
    ensures
        trim_start(s.skip(i)) == trim_start(s.skip(i + 1)),
{
    assert(s.skip(i).drop_first() =~= s.skip(i + 1));
}

proof fn lemma_trim_end_step(s: Seq<char>, i: int, j: int)
    requires
        0 <= i < j <= s.len(),
        is_white_space(s[j - 1]),
    ensures
        trim_end(s.subrange(i, j)) == trim_end(s.subrange(i, j - 1)),
{
    assert(s.subrange(i, j).drop_last() =~= s.subrange(i, j - 1));
}

/// The bounds `(i, j)` such that `v[i..j]` is `v[from..to]` trimmed of whitespace.
pub fn trim_bounds(v: &Vec<char>, from: usize, to: usize) -> (r: (usize, usize))
    requires
        from <= to <= v@.len(),
    ensures
        from <= r.0 <= r.1 <= to,
        v@.subrange(r.0 as int, r.1 as int) == trim(v@.subrange(from as int, to as int)),
{
    let ghost s = v@.subrange(from as int, to as int);
    let mut i: usize = from;
    assert(s.skip(0) =~= s);
    while i < to && is_white_space_char(v[i])
        invariant
            from <= i <= to <= v@.len(),
            s == v@.subrange(from as int, to as int),
            trim_start(s) == trim_start(s.skip(i - from)),
        decreases to - i,
    {
        proof {
            lemma_trim_start_step(s, i - from);
        }
        i = i + 1;
    }
    assert(trim_start(s.skip(i - from)) == s.skip(i - from));
    let mut j: usize = to;
    assert(s.skip(i - from) =~= v@.subrange(i as int, to as int));
    while j > i && is_white_space_char(v[j - 1])
        invariant
            from <= i <= j <= to <= v@.len(),
            s == v@.subrange(from as int, to as int),
            trim(s) == trim_end(v@.subrange(i as int, j as int)),
        decreases j - i,
    {
        proof {
            lemma_trim_end_step(v@, i as int, j as int);
        }
        j = j - 1;
    }
    (i, j)
}

/// `s` without leading and trailing whitespace.
pub fn trimmed(s: &str) -> (r: String)
    ensures
        r@ == trim(s@),
{
    let v = chars_of(s);
    assert(v@.subrange(0, v@.len() as int) =~= v@);
    let (i, j) = trim_bounds(&v, 0, v.len());
    string_of(&v, i, j)
}

/// The index of the first `c` in `v[from..]`, if any.
pub fn find_char(v: &Vec<char>, from: usize, c: char) -> (r: Option<usize>)
    requires
        from <= v@.len(),
    ensures
        r == match v@.skip(from as int).index_of_first(c) {
            Some(k) => Some((from + k) as usize),
            None => None::<usize>,
        },
        r matches Some(i) ==> from <= i < v@.len() && v@[i as int] == c,
{
    let ghost s = v@.skip(from as int);
    let n = v.len();
    let mut i = from;
    while i < n
        invariant
            from <= i <= n == v@.len(),
            s == v@.skip(from as int),
            forall|k: int| from <= k < i ==> v@[k] != c,
        decreases n - i,
    {
        if v[i] == c {
            assert(s[i - from] == c);
            assert(s.contains(c));
            proof {
                s.index_of_first_ensures(c);
            }
            let ghost k = s.index_of_first(c)->0;
            assert(k == i - from) by {
                if k < i - from {
                    assert(v@[from + k] == c);
                }
            }
            return Some(i);
        }
        i = i + 1;
    }
    proof {
        s.index_of_first_ensures(c);
    }
    assert(!s.contains(c)) by {
        if s.contains(c) {
            let k = choose|k: int| 0 <= k < s.len() && s[k] == c;
            assert(v@[from + k] == c);
        }
    }
    None
}

/// Appends the decimal representation of `n` to `s`.
pub fn push_decimal(s: &mut String, n: u16)
    ensures
        final(s)@ == old(s)@ + decimal(n as nat),
    decreases n,
{
    if n >= 10 {
        push_decimal(s, n / 10);
    }
    let d = n % 10;
    let c = if d == 0 {
        '0'
    } else if d == 1 {
        '1'
    } else if d == 2 {
        '2'
    } else if d == 3 {
        '3'
    } else if d == 4 {
        '4'
    } else if d == 5 {
        '5'
    } else if d == 6 {
        '6'
    } else if d == 7 {
        '7'
    } else if d == 8 {
        '8'
    } else {
        '9'
    };
    s.push(c);
    proof {
        if n >= 10 {
            assert(old(s)@ + decimal((n / 10) as nat) + seq![c] =~= old(s)@ + decimal(n as nat));
        } else {
            assert(old(s)@.push(c) =~= old(s)@ + decimal(n as nat));
        }
    }
}

} // verus!
