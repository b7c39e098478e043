//! Verified text helpers: character-level string comparison, suffix tests,
//! trailing-character trimming, and decimal rendering of counters.
//!
//! Archive member names and tool paths are ordinary strings; every string
//! operation the merge logic needs is implemented here against a `Seq<char>`
//! model so the rest of the crate can state exact contracts over views.

use vstd::prelude::*;

verus! {

/// Relies on `String::push`: appends the given character to the string.
#[verifier::external_body]
pub(crate) fn push_char(s: &mut String, c: char)
    ensures
        final(s)@ == old(s)@.push(c),
{
    s.push(c);
}

/// Character-wise string equality.
pub fn str_eq(a: &str, b: &str) -> (r: bool)
    ensures
        r == (a@ == b@),
{
    let alen = a.unicode_len();
    let blen = b.unicode_len();
    if alen != blen {
        return false;
    }
    let mut i: usize = 0;
    while i < alen
        invariant
            i <= alen,
            alen == a@.len(),
            alen == b@.len(),
            forall|k: int| 0 <= k < i ==> a@[k] == b@[k],
        decreases alen - i,
    {
        if a.get_char(i) != b.get_char(i) {
            return false;
        }
        i = i + 1;
    }
    proof {
        assert(a@ =~= b@);
    }
    true
}

/// `suffix` is the tail of `s`.
pub open spec fn has_suffix(s: Seq<char>, suffix: Seq<char>) -> bool {
    &&& suffix.len() <= s.len()
    &&& s.subrange(s.len() - suffix.len(), s.len() as int) == suffix
}

/// Character-wise suffix test, as used to classify archive and object paths.
pub fn str_ends_with(s: &str, suffix: &str) -> (r: bool)
    ensures
        r == has_suffix(s@, suffix@),
{
    let slen = s.unicode_len();
    let plen = suffix.unicode_len();
    if plen > slen {
        return false;
    }
    let off = slen - plen;
    let mut i: usize = 0;
    while i < plen
        invariant
            i <= plen,
            plen <= slen,
            off == slen - plen,
            slen == s@.len(),
            plen == suffix@.len(),
            forall|k: int| 0 <= k < i ==> s@[off + k] == suffix@[k],
        decreases plen - i,
    {
        if s.get_char(off + i) != suffix.get_char(i) {
            proof {
                let tail = s@.subrange(s@.len() - suffix@.len(), s@.len() as int);
                assert(tail[i as int] == s@[off + i]);
            }
            return false;
        }
        i = i + 1;
    }
    proof {
        assert(s@.subrange(s@.len() - suffix@.len(), s@.len() as int) =~= suffix@);
    }
    true
}

/// Membership of a character in a small set of characters.
pub fn char_in(cs: &Vec<char>, c: char) -> (r: bool)
    ensures
        r == cs@.contains(c),
{
    let mut i: usize = 0;
    while i < cs.len()
        invariant
            i <= cs@.len(),
            forall|k: int| 0 <= k < i ==> cs@[k] != c,
        decreases cs@.len() - i,
    {
        if cs[i] == c {
            return true;
        }
        i = i + 1;
    }
    false
}

/// `s` with every trailing character drawn from `cs` removed.
pub open spec fn spec_trim_trailing(s: Seq<char>, cs: Seq<char>) -> Seq<char>
    decreases s.len(),
{
    if s.len() > 0 && cs.contains(s.last()) {
        spec_trim_trailing(s.drop_last(), cs)
    } else {
        s
    }
}

/// Removes every trailing character of `s` that occurs in `cs`.
pub fn trim_trailing(s: &str, cs: &Vec<char>) -> (r: String)
    ensures
        r@ == spec_trim_trailing(s@, cs@),
{
    let mut end: usize = s.unicode_len();
    proof {
        assert(s@.subrange(0, end as int) =~= s@);
    }
    while end > 0 && char_in(cs, s.get_char(end - 1))
        invariant
            end <= s@.len(),
            spec_trim_trailing(s@, cs@) == spec_trim_trailing(s@.subrange(0, end as int), cs@),
        decreases end,
    {
        proof {
            let cur = s@.subrange(0, end as int);
            assert(cur.last() == s@[end - 1]);
            assert(cur.drop_last() =~= s@.subrange(0, end - 1));
        }
        end = end - 1;
    }
    let r = s.substring_char(0, end).to_owned();
    proof {
        let cur = s@.subrange(0, end as int);
        if end > 0 {
            assert(cur.last() == s@[end - 1]);
        }
        assert(spec_trim_trailing(cur, cs@) == cur);
    }
    r
}

/// The ten decimal digit characters, by value.
pub open spec fn spec_digit(d: nat) -> char {
    if d == 0 {
        '0'
    } else if d == 1 {
        '1'
    } else if d == 2 {
        '2'
    } else if d == 3 {
        '3'
    } else if d == 4 {
        '4'
    } else if d == 5 {
        '5'
    } else if d == 6 {
        '6'
    } else if d == 7 {
        '7'
    } else if d == 8 {
        '8'
    } else {
        '9'
    }
}

/// `c` is one of the characters `'0'` through `'9'`.
pub open spec fn is_decimal_digit(c: char) -> bool {
    c == '0' || c == '1' || c == '2' || c == '3' || c == '4' || c == '5' || c == '6' || c == '7'
        || c == '8' || c == '9'
}

/// The usual decimal rendering of `n`, most significant digit first.
pub open spec fn spec_decimal(n: nat) -> Seq<char>
    decreases n,
{
    if n < 10 {
        seq![spec_digit(n)]
    } else {
        spec_decimal(n / 10) + seq![spec_digit(n % 10)]
    }
}

fn digit_char(d: usize) -> (c: char)
    requires
        d < 10,
    ensures
        c == spec_digit(d as nat),
{
    if d == 0 {
        '0'
    } else if d == 1 {
        '1'
    } else if d == 2 {
        '2'
    } else if d == 3 {
        '3'
    } else if d == 4 {
        '4'
    } else if d == 5 {
        '5'
    } else if d == 6 {
        '6'
    } else if d == 7 {
        '7'
    } else if d == 8 {
        '8'
    } else {
        '9'
    }
}

/// Renders `n` in decimal, as appended to a colliding member's name.
pub fn usize_to_string(n: usize) -> (s: String)
    ensures
        s@ == spec_decimal(n as nat),
    decreases n,
{
    if n < 10 {
        let mut s = String::new();
        push_char(&mut s, digit_char(n));
        proof {
            assert(s@ =~= spec_decimal(n as nat));
        }
        s
    } else {
        let mut s = usize_to_string(n / 10);
        push_char(&mut s, digit_char(n % 10));
        proof {
            assert(s@ =~= spec_decimal(n as nat));
        }
        s
    }
}

/// The payload byte at character position `i` of a wide-character buffer:
/// every other byte carries one character.
pub open spec fn wide_byte(b: Seq<u8>, i: int) -> u8 {
    b[2 * i]
}

/// Decodes an archiver-installation path read from the registry as wide
/// characters: takes every other byte of the buffer, `len` characters of
/// payload, padded with NUL characters to the fixed result width.
pub fn get_string_from_u8(buffer: &[u8; 1024], len: usize) -> (r: String)
    requires
        len <= 512,
        forall|i: int| 0 <= i < len ==> #[trigger] wide_byte(buffer@, i) < 128,
    ensures
        r@.len() == 512,
        forall|i: int| 0 <= i < len ==> r@[i] == wide_byte(buffer@, i) as char,
        forall|i: int| len <= i < 512 ==> r@[i] == '\0',
{
    let mut s = String::new();
    let mut i: usize = 0;
    while i < len
        invariant
            i <= len,
            len <= 512,
            forall|k: int| 0 <= k < len ==> #[trigger] wide_byte(buffer@, k) < 128,
            s@.len() == i,
            forall|k: int| 0 <= k < i ==> s@[k] == wide_byte(buffer@, k) as char,
        decreases len - i,
    {
        let b = buffer[2 * i];
        push_char(&mut s, b as char);
        i = i + 1;
    }
    while i < 512
        invariant
            len <= i <= 512,
            s@.len() == i,
            forall|k: int| 0 <= k < len ==> s@[k] == wide_byte(buffer@, k) as char,
            forall|k: int| len <= k < i ==> s@[k] == '\0',
        decreases 512 - i,
    {
        push_char(&mut s, '\0');
        i = i + 1;
    }
    s
}

/// A decimal rendering is never empty and consists of digit characters only.
pub proof fn lemma_decimal_digits(n: nat)
    ensures
        spec_decimal(n).len() >= 1,
        forall|i: int| 0 <= i < spec_decimal(n).len() ==> is_decimal_digit(spec_decimal(n)[i]),
    decreases n,
{
    if n >= 10 {
        lemma_decimal_digits(n / 10);
    }
}

/// Distinct numbers have distinct decimal renderings.
pub proof fn lemma_decimal_injective(a: nat, b: nat)
    requires
        a != b,
    ensures
        spec_decimal(a) != spec_decimal(b),
    decreases a + b,
{
    if a < 10 && b < 10 {
        assert(spec_decimal(a)[0] != spec_decimal(b)[0]);
    } else if a < 10 {
        lemma_decimal_digits(b / 10);
        assert(spec_decimal(a).len() != spec_decimal(b).len());
    } else if b < 10 {
        lemma_decimal_digits(a / 10);
        assert(spec_decimal(a).len() != spec_decimal(b).len());
    } else {
        if a % 10 != b % 10 {
            assert(spec_decimal(a).last() != spec_decimal(b).last());
        } else {
            lemma_decimal_injective(a / 10, b / 10);
            if spec_decimal(a) == spec_decimal(b) {
                assert(spec_decimal(a).drop_last() =~= spec_decimal(a / 10));
                assert(spec_decimal(b).drop_last() =~= spec_decimal(b / 10));
                assert(false);
            }
        }
    }
}

} // verus!
