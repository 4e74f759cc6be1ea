//! Region coordinates from a container's file name, "r.<x>.<z>.<extension>".

use vstd::prelude::*;

verus! {

/// Where the last component of a path starts among its first `n` characters:
/// just past the last '/', or 0.
pub open spec fn name_start(s: Seq<char>, n: int) -> int
    decreases n,
{
    if n <= 0 || n > s.len() {
        0
    } else if s[n - 1] == '/' {
        n
    } else {
        name_start(s, n - 1)
    }
}

/// The last component of a path.
pub open spec fn file_name(path: Seq<char>) -> Seq<char> {
    path.subrange(name_start(path, path.len() as int), path.len() as int)
}

/// The position of the first '.' at or after `i`, or the length when there is none.
pub open spec fn dot_from(s: Seq<char>, i: int) -> int
    decreases s.len() - i,
{
    if i < 0 || i >= s.len() {
        s.len() as int
    } else if s[i] == '.' {
        i
    } else {
        dot_from(s, i + 1)
    }
}

pub open spec fn is_digit(c: char) -> bool {
    '0' <= c <= '9'
}

pub open spec fn all_digits(s: Seq<char>) -> bool {
    forall|i: int| 0 <= i < s.len() ==> is_digit(#[trigger] s[i])
}

/// The number that a run of decimal digits stands for.
pub open spec fn digits_value(s: Seq<char>) -> nat
    decreases s.len(),
{
    if s.len() == 0 {
        0
    } else {
        digits_value(s.drop_last()) * 10 + (s.last() as nat - '0' as nat) as nat
    }
}

/// The integer that a text stands for: an optional sign, then one digit or more.
pub open spec fn integer_value(s: Seq<char>) -> Option<int> {
    if s.len() > 0 && (s[0] == '-' || s[0] == '+') {
        let d = s.subrange(1, s.len() as int);
        if d.len() > 0 && all_digits(d) {
            Some(
                if s[0] == '-' {
                    -digits_value(d)
                } else {
                    digits_value(d) as int
                },
            )
        } else {
            None
        }
    } else if s.len() > 0 && all_digits(s) {
        Some(digits_value(s) as int)
    } else {
        None
    }
}

/// The 64-bit integer that a text stands for, if it stands for one in range.
pub open spec fn i64_value(s: Seq<char>) -> Option<i64> {
    match integer_value(s) {
        Some(v) => if i64::MIN <= v <= i64::MAX {
            Some(v as i64)
        } else {
            None
        },
        None => None,
    }
}

/// The region coordinates that a path names: its file name must be "r.",
/// an integer, ".", an integer, then "." and an extension.
pub open spec fn region_coords(path: Seq<char>) -> Option<(i64, i64)> {
    let name = file_name(path);
    let a = dot_from(name, 2);
    let b = dot_from(name, a + 1);
    if name.len() >= 2 && name[0] == 'r' && name[1] == '.' && a < name.len() && b < name.len() {
        match (i64_value(name.subrange(2, a)), i64_value(name.subrange(a + 1, b))) {
            (Some(x), Some(z)) => Some((x, z)),
            _ => None,
        }
    } else {
        None
    }
}

proof fn lemma_digits_grow(s: Seq<char>, j: int, k: int)
    requires
        0 <= j <= k <= s.len(),
        all_digits(s),
    ensures
        digits_value(s.subrange(0, j)) <= digits_value(s.subrange(0, k)),
    decreases k - j,
{
    if j < k {
        lemma_digits_grow(s, j, k - 1);
        assert(s.subrange(0, k).drop_last() =~= s.subrange(0, k - 1));
    }
}

/// Parses the integer in `s[lo..hi]`.
fn parse_i64(s: &Vec<char>, lo: usize, hi: usize) -> (r: Option<i64>)
    requires
        lo <= hi <= s@.len(),
    ensures
        r == i64_value(s@.subrange(lo as int, hi as int)),
{
    let ghost t = s@.subrange(lo as int, hi as int);
    if lo == hi {
        return None;
    }
    let neg = s[lo] == '-';
    let start = if s[lo] == '-' || s[lo] == '+' {
        lo + 1
    } else {
        lo
    };
    if start == hi {
        return None;
    }
    let ghost d = s@.subrange(start as int, hi as int);
    assert(start > lo ==> d =~= t.subrange(1, t.len() as int));
    assert(start == lo ==> d =~= t);
    let limit: u128 = if neg {
        0x8000_0000_0000_0000
    } else {
        0x7fff_ffff_ffff_ffff
    };
    let mut acc: u128 = 0;
    let mut i: usize = start;
    while i < hi
        invariant
            lo <= start <= i <= hi <= s@.len(),
            start < hi,
            t == s@.subrange(lo as int, hi as int),
            start > lo ==> d == t.subrange(1, t.len() as int),
            start == lo ==> d == t,
            start > lo <==> (s@[lo as int] == '-' || s@[lo as int] == '+'),
            neg == (s@[lo as int] == '-'),
            limit == (if neg {
                0x8000_0000_0000_0000u128
            } else {
                0x7fff_ffff_ffff_ffffu128
            }),
            d == s@.subrange(start as int, hi as int),
            acc <= limit <= 0x8000_0000_0000_0000,
            all_digits(s@.subrange(start as int, i as int)),
            acc == digits_value(s@.subrange(start as int, i as int)),
        decreases hi - i,
    {
        let c = s[i];
        if !('0' <= c && c <= '9') {
            assert(!is_digit(d[i - start]));
            return None;
        }
        let ghost prefix = s@.subrange(start as int, i as int + 1);
        assert(prefix.drop_last() =~= s@.subrange(start as int, i as int));
        assert(all_digits(prefix));
        acc = acc * 10 + (c as u128 - '0' as u128);
        if acc > limit {
            proof {
                if all_digits(d) {
                    assert(d.subrange(0, i - start + 1) =~= prefix);
                    assert(d.subrange(0, d.len() as int) =~= d);
                    lemma_digits_grow(d, i - start + 1, d.len() as int);
                }
            }
            return None;
        }
        i += 1;
    }
    assert(s@.subrange(start as int, i as int) =~= d);
    if neg {
        Some((0 - (acc as i128)) as i64)
    } else {
        Some(acc as i64)
    }
}

/// The characters of a string, in order.
fn chars_of(s: &str) -> (r: Vec<char>)
    ensures
        r@ == s@,
{
    let n = s.unicode_len();
    let mut out: Vec<char> = Vec::new();
    let mut i: usize = 0;
    while i < n
        invariant
            n == s@.len(),
            i <= n,
            out@ == s@.subrange(0, i as int),
        decreases n - i,
    {
        out.push(s.get_char(i));
        i += 1;
        assert(out@ =~= s@.subrange(0, i as int));
    }
    assert(out@ =~= s@);
    out
}

/// Parses the region coordinates out of a container's path; `None` when its
/// file name does not have the form "r.<x>.<z>.<extension>".
pub fn region_filename_parser(filepath: &str) -> (r: Option<(i64, i64)>)
    ensures
        r == region_coords(filepath@),
{
    let path = chars_of(filepath);
    let len = path.len();
    // start of the file name
    let mut st: usize = len;
    while st > 0 && path[st - 1] != '/'
        invariant
            st <= len == path@.len(),
            name_start(path@, len as int) == name_start(path@, st as int),
        decreases st,
    {
        st -= 1;
    }
    let ghost name = path@.subrange(st as int, len as int);
    assert(name == file_name(path@));
    if len - st < 2 || path[st] != 'r' || path[st + 1] != '.' {
        return None;
    }
    // first '.' after "r."
    let mut a: usize = st + 2;
    while a < len && path[a] != '.'
        invariant
            st + 2 <= a <= len == path@.len(),
            name == path@.subrange(st as int, len as int),
            dot_from(name, 2) == dot_from(name, a - st),
        decreases len - a,
    {
        a += 1;
    }
    if a == len {
        return None;
    }
    let mut b: usize = a + 1;
    while b < len && path[b] != '.'
        invariant
            st + 2 <= a,
            a + 1 <= b <= len == path@.len(),
            name == path@.subrange(st as int, len as int),
            dot_from(name, (a - st) + 1) == dot_from(name, b - st),
        decreases len - b,
    {
        b += 1;
    }
    if b == len {
        return None;
    }
    assert(name.subrange(2, a - st) =~= path@.subrange(st + 2, a as int));
    assert(name.subrange(a - st + 1, b - st) =~= path@.subrange(a + 1, b as int));
    let x = parse_i64(&path, st + 2, a);
    let z = parse_i64(&path, a + 1, b);
    match (x, z) {
        (Some(x), Some(z)) => Some((x, z)),
        _ => None,
    }
}

} // verus!
