//! Text predicates used by the mappers and analyzers: equality, substring and
//! prefix tests over the UTF-8 encoding of a string, and case folding.

use vstd::prelude::*;
use vstd::utf8::*;
use vstd::string::*;

verus! {

broadcast use {encode_utf8_decode_utf8};

/// `needle` occurs as a contiguous run of `hay`.
pub open spec fn has_sub(hay: Seq<u8>, needle: Seq<u8>) -> bool {
    exists|i: int| 0 <= i && i + needle.len() <= hay.len() && #[trigger] hay.subrange(i, i + needle.len()) == needle
}

/// `prefix` is a prefix of `s`.
pub open spec fn has_prefix(s: Seq<u8>, prefix: Seq<u8>) -> bool {
    prefix.len() <= s.len() && s.subrange(0, prefix.len() as int) == prefix
}

/// Whether `s` contains `needle`, as a run of its UTF-8 bytes.
pub open spec fn text_has(s: Seq<char>, needle: Seq<char>) -> bool {
    has_sub(encode_utf8(s), encode_utf8(needle))
}

/// Whether `s` starts with `prefix`.
pub open spec fn text_starts(s: Seq<char>, prefix: Seq<char>) -> bool {
    has_prefix(encode_utf8(s), encode_utf8(prefix))
}

/// Byte-wise equality of two slices.
pub fn bytes_eq(a: &[u8], b: &[u8]) -> (r: bool)
    ensures
        r == (a@ == b@),
{
    if a.len() != b.len() {
        return false;
    }
    let mut i: usize = 0;
    while i < a.len()
        invariant
            a@.len() == b@.len(),
            i <= a@.len(),
            forall|j: int| 0 <= j < i ==> a@[j] == b@[j],
        decreases a@.len() - i,
    {
        if a[i] != b[i] {
            return false;
        }
        i = i + 1;
    }
    assert(a@ =~= b@);
    true
}

/// Whether the bytes of `needle` start at offset `at` of `hay`.
fn bytes_match_at(hay: &[u8], needle: &[u8], at: usize) -> (r: bool)
    requires
        at + needle@.len() <= hay@.len(),
    ensures
        r == (hay@.subrange(at as int, at + needle@.len()) == needle@),
{
    let hay_len = hay.len();
    let mut j: usize = 0;
    while j < needle.len()
        invariant
            hay_len == hay@.len(),
            at + needle@.len() <= hay@.len(),
            j <= needle@.len(),
            forall|k: int| 0 <= k < j ==> hay@[at + k] == needle@[k],
        decreases needle@.len() - j,
    {
        if hay[at + j] != needle[j] {
            assert(hay@.subrange(at as int, at + needle@.len())[j as int] != needle@[j as int]);
            return false;
        }
        j = j + 1;
    }
    assert(hay@.subrange(at as int, at + needle@.len()) =~= needle@);
    true
}

/// Whether `needle` occurs in `hay`.
pub fn bytes_contain(hay: &[u8], needle: &[u8]) -> (r: bool)
    ensures
        r == has_sub(hay@, needle@),
{
    if needle.len() > hay.len() {
        return false;
    }
    let last = hay.len() - needle.len();
    let mut i: usize = 0;
    loop
        invariant
            last + needle@.len() == hay@.len(),
            i <= last,
            forall|k: int| 0 <= k < i ==> #[trigger] hay@.subrange(k, k + needle@.len()) != needle@,
        decreases last - i,
    {
        if bytes_match_at(hay, needle, i) {
            return true;
        }
        if i == last {
            return false;
        }
        i = i + 1;
    }
}

/// Whether `prefix` is a prefix of `s`.
pub fn bytes_start_with(s: &[u8], prefix: &[u8]) -> (r: bool)
    ensures
        r == has_prefix(s@, prefix@),
{
    if prefix.len() > s.len() {
        return false;
    }
    bytes_match_at(s, prefix, 0)
}

/// Equality of two strings.
pub fn str_eq(a: &str, b: &str) -> (r: bool)
    ensures
        r == (a@ == b@),
{
    let r = bytes_eq(a.as_bytes(), b.as_bytes());
    proof {
        if r {
            assert(decode_utf8(encode_utf8(a@)) == a@);
            assert(decode_utf8(encode_utf8(b@)) == b@);
        }
    }
    r
}

/// Whether `needle` occurs in `hay`.
pub fn str_contains(hay: &str, needle: &str) -> (r: bool)
    ensures
        r == text_has(hay@, needle@),
{
    bytes_contain(hay.as_bytes(), needle.as_bytes())
}

/// Whether `s` starts with `prefix`.
pub fn str_starts_with(s: &str, prefix: &str) -> (r: bool)
    ensures
        r == text_starts(s@, prefix@),
{
    bytes_start_with(s.as_bytes(), prefix.as_bytes())
}

/// A copy of `s`.
pub fn owned(s: &str) -> (r: String)
    ensures
        r@ == s@,
{
    s.to_owned()
}

/// The lower-case mapping of a string, as `str::to_lowercase` computes it.
pub uninterp spec fn lowercase_of(s: Seq<char>) -> Seq<char>;

/// Calls `str::to_lowercase`. The Unicode case mapping it applies is named,
/// not restated: the result is `lowercase_of` the input.
#[verifier::external_body]
pub(crate) fn to_lower(s: &str) -> (r: String)
    ensures
        r@ == lowercase_of(s@),
{
    s.to_lowercase()
}

/// `s` without its underscores.
pub open spec fn without_underscores(s: Seq<char>) -> Seq<char> {
    s.filter(|c: char| c != '_')
}

/// `s` with each underscore removed and every other character kept in order.
pub(crate) fn remove_underscores(s: &str) -> (r: String)
    ensures
        r@ == without_underscores(s@),
{
    let n = s.unicode_len();
    let mut out = String::new();
    let mut i: usize = 0;
    while i < n
        invariant
            n == s@.len(),
            i <= n,
            out@ == without_underscores(s@.take(i as int)),
        decreases n - i,
    {
        let c = s.get_char(i);
        proof {
            assert(s@.take(i + 1) =~= s@.take(i as int).push(s@[i as int]));
            s@.take(i as int).lemma_filter_push(s@[i as int], |c: char| c != '_');
        }
        if c != '_' {
            let one = s.substring_char(i, i + 1);
            assert(one@ =~= seq![c]);
            out.append(one);
        }
        i = i + 1;
    }
    assert(s@.take(n as int) =~= s@);
    out
}

/// `s` with its leading run of `c` removed.
pub open spec fn strip_front(s: Seq<char>, c: char) -> Seq<char>
    decreases s.len(),
{
    if s.len() > 0 && s[0] == c {
        strip_front(s.drop_first(), c)
    } else {
        s
    }
}

/// `s` with its trailing run of `c` removed.
pub open spec fn strip_back(s: Seq<char>, c: char) -> Seq<char>
    decreases s.len(),
{
    if s.len() > 0 && s.last() == c {
        strip_back(s.drop_last(), c)
    } else {
        s
    }
}

/// `s` with every leading and trailing `c` removed.
pub open spec fn trimmed(s: Seq<char>, c: char) -> Seq<char> {
    strip_back(strip_front(s, c), c)
}

/// Stripping the leading run of `c` from the characters from `i` on, when
/// all before `i` are `c`.
proof fn lemma_strip_front(s: Seq<char>, c: char, i: int)
    requires
        0 <= i <= s.len(),
        forall|k: int| 0 <= k < i ==> s[k] == c,
    ensures
        strip_front(s, c) == strip_front(s.skip(i), c),
    decreases i,
{
    if i > 0 {
        assert(s.drop_first().skip(i - 1) =~= s.skip(i));
        lemma_strip_front(s.drop_first(), c, i - 1);
    } else {
        assert(s.skip(0) =~= s);
    }
}

/// Stripping the trailing run of `c` from the characters before `j`, when
/// all from `j` on are `c`.
proof fn lemma_strip_back(s: Seq<char>, c: char, j: int)
    requires
        0 <= j <= s.len(),
        forall|k: int| j <= k < s.len() ==> s[k] == c,
    ensures
        strip_back(s, c) == strip_back(s.take(j), c),
    decreases s.len() - j,
{
    if j < s.len() {
        assert(s.drop_last().take(j) =~= s.take(j));
        lemma_strip_back(s.drop_last(), c, j);
    } else {
        assert(s.take(j) =~= s);
    }
}

/// `s` without its leading and trailing runs of `c`.
pub(crate) fn trim_char(s: &str, c: char) -> (r: &str)
    ensures
        r@ == trimmed(s@, c),
{
    let n = s.unicode_len();
    let mut start: usize = 0;
    while start < n && s.get_char(start) == c
        invariant
            n == s@.len(),
            start <= n,
            forall|k: int| 0 <= k < start ==> s@[k] == c,
        decreases n - start,
    {
        start = start + 1;
    }
    let mut end: usize = n;
    while end > start && s.get_char(end - 1) == c
        invariant
            n == s@.len(),
            start <= end <= n,
            forall|k: int| end <= k < n ==> s@[k] == c,
        decreases end,
    {
        end = end - 1;
    }
    let r = s.substring_char(start, end);
    proof {
        lemma_strip_front(s@, c, start as int);
        let rest = s@.skip(start as int);
        if start < n {
            assert(rest[0] == s@[start as int]);
            assert(strip_front(rest, c) == rest);
        } else {
            assert(rest.len() == 0);
        }
        lemma_strip_back(rest, c, end - start);
        assert(rest.take(end - start) =~= s@.subrange(start as int, end as int));
        let kept = s@.subrange(start as int, end as int);
        if end > start {
            assert(kept.last() == s@[end - 1]);
        }
        assert(strip_back(kept, c) == kept);
    }
    r
}

/// The value of character `c` as a digit in `radix`, if it is one: `0` to
/// `9`, then `a` to `z` (or `A` to `Z`) from ten on.
pub open spec fn digit_value(c: char, radix: u32) -> Option<int> {
    let x = c as u32;
    let v: int = if 48 <= x <= 57 {
        x - 48
    } else if 97 <= x <= 122 {
        x - 97 + 10
    } else if 65 <= x <= 90 {
        x - 65 + 10
    } else {
        36
    };
    if v < radix { Some(v) } else { None }
}

/// The number the digits `s` spell in `radix`, most significant first, if
/// every character is a digit.
pub open spec fn digits_value(s: Seq<char>, radix: u32) -> Option<int>
    decreases s.len(),
{
    if s.len() == 0 {
        Some(0)
    } else {
        match (digits_value(s.drop_last(), radix), digit_value(s.last(), radix)) {
            (Some(v), Some(d)) => Some(v * radix + d),
            _ => None,
        }
    }
}

/// What `i64::from_str_radix` reads from a text in a radix: an optional `+`
/// or `-` followed by at least one digit, and nothing else; `None` otherwise
/// or when the value does not fit in `i64`.
#[verifier::opaque]
pub open spec fn radix_value(s: Seq<char>, radix: u32) -> Option<i64> {
    let signed = s.len() > 0 && (s[0] == '-' || s[0] == '+');
    let body = if signed { s.drop_first() } else { s };
    if body.len() == 0 {
        None
    } else {
        match digits_value(body, radix) {
            Some(v) => {
                let x = if s[0] == '-' { -v } else { v };
                if i64::MIN <= x <= i64::MAX { Some(x as i64) } else { None }
            },
            None => None,
        }
    }
}

/// The value of `c` as a digit in `radix` ([`digit_value`]).
fn digit_of(c: char, radix: u32) -> (r: Option<u32>)
    ensures
        match r {
            Some(d) => digit_value(c, radix) == Some(d as int),
            None => digit_value(c, radix) is None,
        },
{
    let x = c as u32;
    let v: u32 = if 48 <= x && x <= 57 {
        x - 48
    } else if 97 <= x && x <= 122 {
        x - 97 + 10
    } else if 65 <= x && x <= 90 {
        x - 65 + 10
    } else {
        36
    };
    if v < radix { Some(v) } else { None }
}

/// The number `s` spells in `radix` as `i64::from_str_radix` reads it
/// ([`radix_value`]): an optional sign, then at least one digit and nothing
/// else; `None` otherwise or when the value does not fit in `i64`.
pub(crate) fn parse_radix(s: &str, radix: u32) -> (r: Option<i64>)
    requires
        2 <= radix <= 36,
    ensures
        r == radix_value(s@, radix),
{
    reveal(radix_value);
    let n = s.unicode_len();
    if n == 0 {
        return None;
    }
    let c0 = s.get_char(0);
    let neg = c0 == '-';
    let signed = neg || c0 == '+';
    let start: usize = if signed { 1 } else { 0 };
    let ghost body = if signed { s@.drop_first() } else { s@ };
    assert(s@[0] == c0);
    if start == n {
        assert(body.len() == 0);
        return None;
    }
    let limit: i128 = 9223372036854775808;
    let mut v: i128 = 0;
    let mut over = false;
    let ghost mut gv: int = 0;
    let mut i: usize = start;
    assert(body =~= s@.subrange(start as int, n as int));
    assert(body == if s@.len() > 0 && (s@[0] == '-' || s@[0] == '+') { s@.drop_first() } else { s@ });
    while i < n
        invariant
            2 <= radix <= 36,
            n == s@.len(),
            start <= i <= n,
            body == s@.subrange(start as int, n as int),
            body == if s@.len() > 0 && (s@[0] == '-' || s@[0] == '+') { s@.drop_first() } else { s@ },
            n > 0,
            neg == (s@[0] == '-'),
            limit == 9223372036854775808,
            digits_value(s@.subrange(start as int, i as int), radix) == Some(gv),
            gv >= 0,
            over ==> gv > limit,
            !over ==> v == gv && 0 <= v <= limit,
        decreases n - i,
    {
        let c = s.get_char(i);
        let ghost sub = s@.subrange(start as int, i + 1);
        assert(sub.drop_last() =~= s@.subrange(start as int, i as int));
        assert(sub.last() == c);
        match digit_of(c, radix) {
            None => {
                assert(digits_value(sub, radix) is None);
                proof {
                    reveal(radix_value);
                    lemma_digits_none(s@, radix, start as int, i + 1, n as int);
                    assert(digits_value(body, radix) is None);
                    assert(body == if s@.len() > 0 && (s@[0] == '-' || s@[0] == '+') { s@.drop_first() } else { s@ });
                }
                return None;
            },
            Some(d) => {
                proof {
                    assert(gv * radix >= gv) by (nonlinear_arith)
                        requires gv >= 0, radix >= 2;
                    gv = gv * radix + d;
                }
                if !over {
                    assert(v * (radix as i128) <= 9223372036854775808 * 36) by (nonlinear_arith)
                        requires 0 <= v <= 9223372036854775808, 2 <= radix <= 36;
                    assert(v * (radix as i128) >= 0) by (nonlinear_arith)
                        requires 0 <= v, 2 <= radix;
                    let w: i128 = v * (radix as i128) + (d as i128);
                    if w > limit {
                        over = true;
                    } else {
                        v = w;
                    }
                }
            },
        }
        i = i + 1;
    }
    assert(s@.subrange(start as int, n as int) == body);
    if over {
        return None;
    }
    let x: i128 = if neg { -v } else { v };
    if x > 9223372036854775807 {
        None
    } else {
        Some(x as i64)
    }
}

/// Once a prefix of the digits holds a non-digit, so does every longer one.
proof fn lemma_digits_none(s: Seq<char>, radix: u32, start: int, i: int, n: int)
    requires
        0 <= start <= i <= n <= s.len(),
        digits_value(s.subrange(start, i), radix) is None,
    ensures
        digits_value(s.subrange(start, n), radix) is None,
    decreases n - i,
{
    if i < n {
        assert(s.subrange(start, i + 1).drop_last() =~= s.subrange(start, i));
        lemma_digits_none(s, radix, start, i + 1, n);
    }
}

/// The character of a decimal digit.
pub open spec fn digit_char(d: usize) -> char {
    if d == 0 { '0' } else if d == 1 { '1' } else if d == 2 { '2' } else if d == 3 { '3' } else if d == 4 { '4' }
    else if d == 5 { '5' } else if d == 6 { '6' } else if d == 7 { '7' } else if d == 8 { '8' } else { '9' }
}

/// The decimal spelling of a number: its digits, most significant first,
/// with no leading zero (`"0"` for zero).
#[verifier::opaque]
pub open spec fn decimal_of(n: usize) -> Seq<char>
    decreases n,
{
    if n < 10 { seq![digit_char(n)] } else { decimal_of(n / 10).push(digit_char(n % 10)) }
}

/// The decimal digit `d` as text.
fn digit_text(d: usize) -> (r: &'static str)
    requires
        d < 10,
    ensures
        r@ == seq![digit_char(d)],
{
    proof {
        reveal_strlit("0");
        reveal_strlit("1");
        reveal_strlit("2");
        reveal_strlit("3");
        reveal_strlit("4");
        reveal_strlit("5");
        reveal_strlit("6");
        reveal_strlit("7");
        reveal_strlit("8");
        reveal_strlit("9");
    }
    if d == 0 { "0" } else if d == 1 { "1" } else if d == 2 { "2" } else if d == 3 { "3" } else if d == 4 { "4" }
    else if d == 5 { "5" } else if d == 6 { "6" } else if d == 7 { "7" } else if d == 8 { "8" } else { "9" }
}

/// The number `n` written in decimal ([`decimal_of`]).
pub(crate) fn decimal(n: usize) -> (r: String)
    ensures
        r@ == decimal_of(n),
    decreases n,
{
    reveal(decimal_of);
    if n < 10 {
        let t = digit_text(n);
        String::from_str(t)
    } else {
        let mut s = decimal(n / 10);
        let t = digit_text(n % 10);
        s.append(t);
        assert(s@ =~= decimal_of(n / 10).push(digit_char(n % 10)));
        s
    }
}

} // verus!
