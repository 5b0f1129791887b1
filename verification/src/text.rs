//! Text helpers: Unicode white space, trimming, decimal numbers.

use vstd::prelude::*;

verus! {

/// The Unicode `White_Space` property (PropList.txt): tab to carriage
/// return, space, next line, no-break space, ogham space mark, the general
/// punctuation spaces U+2000 to U+200A, line and paragraph separators,
/// narrow no-break space, medium mathematical space and ideographic space.
pub open spec fn is_white_space(c: char) -> bool {
    let u: u32 = c as u32;
    (0x9 <= u && u <= 0xD) || u == 0x20 || u == 0x85 || u == 0xA0 || u == 0x1680 || (0x2000 <= u
        && u <= 0x200A) || u == 0x2028 || u == 0x2029 || u == 0x202F || u == 0x205F || u == 0x3000
}

/// Whether `c` is Unicode white space.
pub fn is_whitespace(c: char) -> (b: bool)
    ensures
        b == is_white_space(c),
{
    let u: u32 = c as u32;
    (0x9 <= u && u <= 0xD) || u == 0x20 || u == 0x85 || u == 0xA0 || u == 0x1680 || (0x2000 <= u
        && u <= 0x200A) || u == 0x2028 || u == 0x2029 || u == 0x202F || u == 0x205F || u == 0x3000
}

/// Index of the first character at or after `i` that is not white space
/// (the length if there is none).
pub open spec fn skip_white(s: Seq<char>, i: nat) -> nat
    decreases s.len() - i,
{
    if i >= s.len() || !is_white_space(s[i as int]) {
        i
    } else {
        skip_white(s, i + 1)
    }
}

/// End of `s[..j]` with its trailing white space removed.
pub open spec fn drop_white_back(s: Seq<char>, j: nat) -> nat
    decreases j,
{
    if j == 0 || j > s.len() || !is_white_space(s[j - 1]) {
        j
    } else {
        drop_white_back(s, (j - 1) as nat)
    }
}

/// `s` without leading and trailing white space.
pub open spec fn trimmed(s: Seq<char>) -> Seq<char> {
    let a: nat = skip_white(s, 0);
    if a >= s.len() {
        Seq::empty()
    } else {
        s.subrange(a as int, drop_white_back(s, s.len()) as int)
    }
}

proof fn lemma_drop_back_bounds(s: Seq<char>, j: nat, a: nat)
    requires
        j <= s.len(),
        a < j,
        !is_white_space(s[a as int]),
    ensures
        a < drop_white_back(s, j) <= j,
    decreases j,
{
    if j > 0 && is_white_space(s[j - 1]) {
        lemma_drop_back_bounds(s, (j - 1) as nat, a);
    }
}

/// `s` without leading and trailing white space.
pub fn trim(s: &str) -> (r: String)
    ensures
        r@ == trimmed(s@),
{
    let n: usize = s.unicode_len();
    let mut a: usize = 0;
    while a < n && is_whitespace(s.get_char(a))
        invariant
            n == s@.len(),
            a <= n,
            skip_white(s@, a as nat) == skip_white(s@, 0),
        decreases n - a,
    {
        a = a + 1;
    }
    if a >= n {
        return String::new();
    }
    proof {
        lemma_drop_back_bounds(s@, n as nat, a as nat);
    }
    let mut b: usize = n;
    while b > a + 1 && is_whitespace(s.get_char(b - 1))
        invariant
            n == s@.len(),
            a < n,
            !is_white_space(s@[a as int]),
            a < b <= n,
            drop_white_back(s@, b as nat) == drop_white_back(s@, n as nat),
        decreases b,
    {
        b = b - 1;
    }
    proof {
        if b > a + 1 {
            assert(!is_white_space(s@[b - 1]));
        } else {
            assert(b == a + 1);
            assert(!is_white_space(s@[b - 1]));
        }
        assert(drop_white_back(s@, b as nat) == b);
    }
    String::from_str(s.substring_char(a, b))
}

/// Decimal digit `d` as a character.
pub open spec fn digit_char(d: nat) -> char {
    if d == 0 {
        '0'
    } else if d == 1 {
        '1'
    } else if d == 2 {
        '2'
    } else if d == 3 {
        '3'
    } else if d == 4 {
        '4'
    } else if d == 5 {
        '5'
    } else if d == 6 {
        '6'
    } else if d == 7 {
        '7'
    } else if d == 8 {
        '8'
    } else {
        '9'
    }
}

/// Decimal notation of `n`, without sign or leading zeros.
pub open spec fn decimal(n: nat) -> Seq<char>
    decreases n,
{
    if n < 10 {
        seq![digit_char(n)]
    } else {
        decimal(n / 10).push(digit_char(n % 10))
    }
}

/// Decimal notation of `n`.
pub fn decimal_string(n: usize) -> (s: String)
    ensures
        s@ == decimal(n as nat),
    decreases n,
{
    let digits = "0123456789";
    proof {
        reveal_strlit("0123456789");
    }
    let d: usize = n % 10;
    let piece = digits.substring_char(d, d + 1);
    assert(piece@ =~= seq![digit_char(d as nat)]);
    if n < 10 {
        String::from_str(piece)
    } else {
        let mut s = decimal_string(n / 10);
        s.append(piece);
        assert(s@ =~= decimal((n / 10) as nat).push(digit_char((n % 10) as nat)));
        s
    }
}

} // verus!
