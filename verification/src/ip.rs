//! The grammar of IP address literals: dotted-quad IPv4, and IPv6 in its
//! colon-separated form with one optional `::` and an optional trailing
//! dotted quad.

use vstd::prelude::*;
use vstd::string::StrSliceExecFns;

verus! {

/// No literal is longer than this.
pub const MAX_LITERAL: usize = 45;

pub open spec fn is_digit(c: char) -> bool {
    48 <= c as u32 <= 57
}

pub open spec fn is_hex(c: char) -> bool {
    is_digit(c) || 97 <= c as u32 <= 102 || 65 <= c as u32 <= 70
}

/// The place of the first `c` in `s[i..end)`; `end` where there is none.
pub open spec fn first_of(s: Seq<char>, c: char, i: int, end: int) -> int
    decreases end - i,
{
    if i >= end {
        end
    } else if s[i] == c {
        i
    } else {
        first_of(s, c, i + 1, end)
    }
}

/// The place of the first `::` in `s` at or after `i`; the length where
/// there is none.
pub open spec fn first_gap(s: Seq<char>, i: int) -> int
    decreases s.len() - i,
{
    if i < 0 || i + 1 >= s.len() {
        s.len() as int
    } else if s[i] == ':' && s[i + 1] == ':' {
        i
    } else {
        first_gap(s, i + 1)
    }
}

/// `s[i..j)` is one to four hexadecimal digits.
pub open spec fn is_group(s: Seq<char>, i: int, j: int) -> bool {
    1 <= j - i <= 4 && forall|k: int| i <= k < j ==> is_hex(#[trigger] s[k])
}

/// `s[i..j)` is a decimal number of one to three digits, at most 255, with
/// no zero in front of another digit.
pub open spec fn is_octet(s: Seq<char>, i: int, j: int) -> bool {
    &&& 1 <= j - i <= 3
    &&& forall|k: int| i <= k < j ==> is_digit(#[trigger] s[k])
    &&& (j - i > 1 ==> s[i] != '0')
    &&& (j - i == 3 ==> (s[i] as u32 - 48) * 100 + (s[i + 1] as u32 - 48) * 10 + (s[i + 2] as u32
        - 48) <= 255)
}

/// The number of octets in `s[i..end)` where that is a list of octets with
/// a dot between each two; -1 where it is not.
pub open spec fn octets_in(s: Seq<char>, i: int, end: int) -> int
    decreases end - i,
{
    if i >= end {
        -1
    } else {
        let j = first_of(s, '.', i, end);
        if !is_octet(s, i, j) {
            -1
        } else if j >= end {
            1
        } else {
            let rest = octets_in(s, j + 1, end);
            if rest < 0 {
                -1
            } else {
                rest + 1
            }
        }
    }
}

/// `s[i..end)` is a dotted quad.
pub open spec fn is_quad(s: Seq<char>, i: int, end: int) -> bool {
    octets_in(s, i, end) == 4
}

/// The number of 16-bit groups that `s[i..end)` stands for where it is a
/// list of groups with a colon between each two, the last of which may be
/// a dotted quad, which stands for two; -1 where it is not.
pub open spec fn groups_in(s: Seq<char>, i: int, end: int, quad: bool) -> int
    decreases end - i,
{
    if i >= end {
        -1
    } else {
        let j = first_of(s, ':', i, end);
        if j >= end {
            if is_group(s, i, end) {
                1
            } else if quad && is_quad(s, i, end) {
                2
            } else {
                -1
            }
        } else if !is_group(s, i, j) {
            -1
        } else {
            let rest = groups_in(s, j + 1, end, quad);
            if rest < 0 {
                -1
            } else {
                rest + 1
            }
        }
    }
}

pub open spec fn is_ipv4(s: Seq<char>) -> bool {
    s.len() <= MAX_LITERAL && is_quad(s, 0, s.len() as int)
}

/// Without `::` the text is eight groups. With it, the text before it is
/// empty or a list of groups, the text after it is empty or a list of
/// groups that may end in a dotted quad, and at most seven groups are
/// written.
pub open spec fn is_ipv6(s: Seq<char>) -> bool {
    let n = s.len() as int;
    let p = first_gap(s, 0);
    s.len() <= MAX_LITERAL && if p >= n {
        groups_in(s, 0, n, true) == 8
    } else {
        let head = if p == 0 {
            0
        } else {
            groups_in(s, 0, p, false)
        };
        let tail = if p + 2 == n {
            0
        } else {
            groups_in(s, p + 2, n, true)
        };
        head >= 0 && tail >= 0 && head + tail <= 7
    }
}

/// The text is an IPv4 or an IPv6 literal.
pub open spec fn is_ip_literal(s: Seq<char>) -> bool {
    is_ipv4(s) || is_ipv6(s)
}

fn digit(c: char) -> (r: bool)
    ensures
        r == is_digit(c),
{
    let v = c as u32;
    48 <= v && v <= 57
}

fn hex(c: char) -> (r: bool)
    ensures
        r == is_hex(c),
{
    let v = c as u32;
    (48 <= v && v <= 57) || (97 <= v && v <= 102) || (65 <= v && v <= 70)
}

fn find(s: &str, c: char, i: usize, end: usize) -> (r: usize)
    requires
        i <= end <= s@.len(),
    ensures
        r == first_of(s@, c, i as int, end as int),
        i <= r <= end,
{
    let mut k = i;
    while k < end
        invariant
            i <= k <= end <= s@.len(),
            first_of(s@, c, k as int, end as int) == first_of(s@, c, i as int, end as int),
        decreases end - k,
    {
        if s.get_char(k) == c {
            return k;
        }
        k += 1;
    }
    end
}

fn find_gap(s: &str, n: usize) -> (r: usize)
    requires
        n == s@.len(),
    ensures
        r == first_gap(s@, 0),
        r >= n || r + 2 <= n,
{
    let mut k: usize = 0;
    while n - k > 1
        invariant
            n == s@.len(),
            k <= n,
            first_gap(s@, k as int) == first_gap(s@, 0),
        decreases n - k,
    {
        if s.get_char(k) == ':' && s.get_char(k + 1) == ':' {
            return k;
        }
        k += 1;
    }
    n
}

fn group(s: &str, i: usize, j: usize) -> (r: bool)
    requires
        i <= j <= s@.len(),
    ensures
        r == is_group(s@, i as int, j as int),
{
    if j - i < 1 || j - i > 4 {
        return false;
    }
    let mut k = i;
    while k < j
        invariant
            i <= k <= j <= s@.len(),
            forall|m: int| i <= m < k ==> is_hex(#[trigger] s@[m]),
        decreases j - k,
    {
        if !hex(s.get_char(k)) {
            return false;
        }
        k += 1;
    }
    true
}

fn octet(s: &str, i: usize, j: usize) -> (r: bool)
    requires
        i <= j <= s@.len(),
    ensures
        r == is_octet(s@, i as int, j as int),
{
    if j - i < 1 || j - i > 3 {
        return false;
    }
    let mut k = i;
    while k < j
        invariant
            i <= k <= j <= s@.len(),
            forall|m: int| i <= m < k ==> is_digit(#[trigger] s@[m]),
        decreases j - k,
    {
        if !digit(s.get_char(k)) {
            return false;
        }
        k += 1;
    }
    if j - i > 1 && s.get_char(i) == '0' {
        return false;
    }
    if j - i == 3 {
        assert(is_digit(s@[i as int]) && is_digit(s@[i + 1]) && is_digit(s@[i + 2]));
        let a = s.get_char(i) as u32 - 48;
        let b = s.get_char(i + 1) as u32 - 48;
        let c = s.get_char(i + 2) as u32 - 48;
        return a * 100 + b * 10 + c <= 255;
    }
    true
}

fn count_octets(s: &str, i: usize, end: usize) -> (r: Option<usize>)
    requires
        i <= end <= s@.len(),
    ensures
        match r {
            Some(n) => octets_in(s@, i as int, end as int) == n,
            None => octets_in(s@, i as int, end as int) == -1,
        },
        octets_in(s@, i as int, end as int) <= end - i,
    decreases end - i,
{
    if i >= end {
        return None;
    }
    let j = find(s, '.', i, end);
    if !octet(s, i, j) {
        None
    } else if j >= end {
        Some(1)
    } else {
        match count_octets(s, j + 1, end) {
            None => None,
            Some(rest) => Some(rest + 1),
        }
    }
}

fn count_groups(s: &str, i: usize, end: usize, quad: bool) -> (r: Option<usize>)
    requires
        i <= end <= s@.len(),
    ensures
        match r {
            Some(n) => groups_in(s@, i as int, end as int, quad) == n,
            None => groups_in(s@, i as int, end as int, quad) == -1,
        },
        groups_in(s@, i as int, end as int, quad) <= end - i,
    decreases end - i,
{
    if i >= end {
        return None;
    }
    let j = find(s, ':', i, end);
    if j >= end {
        if group(s, i, end) {
            Some(1)
        } else if quad {
            match count_octets(s, i, end) {
                Some(n) => if n == 4 {
                    Some(2)
                } else {
                    None
                },
                None => None,
            }
        } else {
            None
        }
    } else if !group(s, i, j) {
        None
    } else {
        match count_groups(s, j + 1, end, quad) {
            None => None,
            Some(rest) => Some(rest + 1),
        }
    }
}

/// Whether the text is a dotted-quad IPv4 literal.
pub fn parses_as_ipv4(s: &str) -> (r: bool)
    ensures
        r == is_ipv4(s@),
{
    let n = s.unicode_len();
    if n > MAX_LITERAL {
        return false;
    }
    match count_octets(s, 0, n) {
        Some(k) => k == 4,
        None => false,
    }
}

/// Whether the text is an IPv6 literal.
pub fn parses_as_ipv6(s: &str) -> (r: bool)
    ensures
        r == is_ipv6(s@),
{
    let n = s.unicode_len();
    if n > MAX_LITERAL {
        return false;
    }
    let p = find_gap(s, n);
    if p >= n {
        match count_groups(s, 0, n, true) {
            Some(k) => k == 8,
            None => false,
        }
    } else {
        let head = if p == 0 {
            Some(0)
        } else {
            count_groups(s, 0, p, false)
        };
        let tail = if p + 2 == n {
            Some(0)
        } else {
            count_groups(s, p + 2, n, true)
        };
        match (head, tail) {
            (Some(h), Some(t)) => h + t <= 7,
            _ => false,
        }
    }
}

/// Whether the text is an IPv4 or an IPv6 literal.
pub fn parses_as_ip(s: &str) -> (r: bool)
    ensures
        r == is_ip_literal(s@),
{
    parses_as_ipv4(s) || parses_as_ipv6(s)
}

} // verus!
