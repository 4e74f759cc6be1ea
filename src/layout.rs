//! The layout of an uncompressed tree document, checked before the document
//! is decoded: every length is non-negative and fits in the bytes that
//! remain, every tag kind is known, and compounds and lists nest at most
//! [`MAX_DEPTH`] deep.

use crate::bytes::{be_u32, read_be_u32};
use vstd::prelude::*;

verus! {

/// How deep compounds and lists may nest, the root compound included.
pub const MAX_DEPTH: u32 = 512;

/// The end of `width` bytes from `pos`, if they are there.
pub open spec fn fixed_end(b: Seq<u8>, pos: nat, width: nat) -> Option<nat> {
    if pos + width <= b.len() {
        Some(pos + width)
    } else {
        None
    }
}

/// The end of a string at `pos`: a big-endian 16-bit byte count, then the bytes.
pub open spec fn string_end(b: Seq<u8>, pos: nat) -> Option<nat> {
    if pos + 2 <= b.len() {
        fixed_end(b, pos + 2, b[pos as int] as nat * 256 + b[pos + 1int] as nat)
    } else {
        None
    }
}

/// The end of an array at `pos`: a non-negative big-endian 32-bit item count,
/// then the items, `width` bytes each.
pub open spec fn array_end(b: Seq<u8>, pos: nat, width: nat) -> Option<nat> {
    if pos + 4 <= b.len() && b[pos as int] < 0x80 {
        fixed_end(b, pos + 4, be_u32(b, pos as int) * width)
    } else {
        None
    }
}

/// The end of a payload of tag kind `id` at `pos`, with compounds and lists
/// nesting at most `depth` deep; `None` when no such payload is there.
pub open spec fn payload_end(b: Seq<u8>, id: u8, pos: nat, depth: nat) -> Option<nat>
    decreases depth, 0nat, 0nat,
{
    if id == 1 {
        fixed_end(b, pos, 1)
    } else if id == 2 {
        fixed_end(b, pos, 2)
    } else if id == 3 || id == 5 {
        fixed_end(b, pos, 4)
    } else if id == 4 || id == 6 {
        fixed_end(b, pos, 8)
    } else if id == 7 {
        array_end(b, pos, 1)
    } else if id == 8 {
        string_end(b, pos)
    } else if id == 9 {
        if depth == 0 || pos + 5 > b.len() || b[pos + 1int] >= 0x80 {
            None
        } else {
            elements_end(b, b[pos as int], pos + 5, be_u32(b, pos + 1int), (depth - 1) as nat)
        }
    } else if id == 10 {
        if depth == 0 {
            None
        } else {
            entries_end(b, pos, (depth - 1) as nat)
        }
    } else if id == 11 {
        array_end(b, pos, 4)
    } else if id == 12 {
        array_end(b, pos, 8)
    } else {
        None
    }
}

/// The end of `n` list elements of tag kind `id` from `pos`.
pub open spec fn elements_end(b: Seq<u8>, id: u8, pos: nat, n: nat, depth: nat) -> Option<nat>
    decreases depth, 1nat, n,
{
    if n == 0 {
        Some(pos)
    } else {
        match payload_end(b, id, pos, depth) {
            Some(p) => elements_end(b, id, p, (n - 1) as nat, depth),
            None => None,
        }
    }
}

/// The end of the named entries of a compound from `pos`, its end tag included.
pub open spec fn entries_end(b: Seq<u8>, pos: nat, depth: nat) -> Option<nat>
    decreases depth, 1nat, b.len() - pos,
{
    if pos >= b.len() {
        None
    } else if b[pos as int] == 0 {
        Some(pos + 1)
    } else {
        match string_end(b, pos + 1) {
            None => None,
            Some(q) => match payload_end(b, b[pos as int], q, depth) {
                Some(p) => if pos < p <= b.len() {
                    entries_end(b, p, depth)
                } else {
                    None
                },
                None => None,
            },
        }
    }
}

/// The bytes begin with a document: a root compound tag with its name and a
/// payload laid out as above.
pub open spec fn well_laid_out(b: Seq<u8>) -> bool {
    &&& b.len() >= 1
    &&& b[0] == 10
    &&& match string_end(b, 1) {
        Some(q) => payload_end(b, 10, q, MAX_DEPTH as nat) is Some,
        None => false,
    }
}

fn check_fixed(b: &[u8], pos: usize, width: u64) -> (r: Option<usize>)
    requires
        pos <= b@.len(),
    ensures
        match r {
            Some(p) => fixed_end(b@, pos as nat, width as nat) == Some(p as nat),
            None => fixed_end(b@, pos as nat, width as nat) is None,
        },
{
    if width <= (b.len() - pos) as u64 {
        Some(pos + width as usize)
    } else {
        None
    }
}

fn check_string(b: &[u8], pos: usize) -> (r: Option<usize>)
    requires
        pos <= b@.len(),
    ensures
        match r {
            Some(p) => string_end(b@, pos as nat) == Some(p as nat),
            None => string_end(b@, pos as nat) is None,
        },
{
    if b.len() - pos < 2 {
        return None;
    }
    let n = (b[pos] as u64) * 256 + b[pos + 1] as u64;
    check_fixed(b, pos + 2, n)
}

fn check_array(b: &[u8], pos: usize, width: u64) -> (r: Option<usize>)
    requires
        pos <= b@.len(),
        width <= 8,
    ensures
        match r {
            Some(p) => array_end(b@, pos as nat, width as nat) == Some(p as nat),
            None => array_end(b@, pos as nat, width as nat) is None,
        },
{
    if b.len() - pos < 4 || b[pos] >= 0x80 {
        return None;
    }
    let n = read_be_u32(b, pos);
    proof {
        assert(n as nat * width as nat <= 0xffff_ffff * 8) by (nonlinear_arith)
            requires
                n <= 0xffff_ffff,
                width <= 8,
        ;
    }
    check_fixed(b, pos + 4, n as u64 * width)
}

/// Checks a payload of tag kind `id` at `pos`.
fn check_payload(b: &[u8], id: u8, pos: usize, depth: u32) -> (r: Option<usize>)
    requires
        pos <= b@.len(),
    ensures
        match r {
            Some(p) => payload_end(b@, id, pos as nat, depth as nat) == Some(p as nat)
                && p <= b@.len(),
            None => payload_end(b@, id, pos as nat, depth as nat) is None,
        },
    decreases depth,
{
    if id == 1 {
        check_fixed(b, pos, 1)
    } else if id == 2 {
        check_fixed(b, pos, 2)
    } else if id == 3 || id == 5 {
        check_fixed(b, pos, 4)
    } else if id == 4 || id == 6 {
        check_fixed(b, pos, 8)
    } else if id == 7 {
        check_array(b, pos, 1)
    } else if id == 8 {
        check_string(b, pos)
    } else if id == 9 {
        if depth == 0 || b.len() - pos < 5 || b[pos + 1] >= 0x80 {
            return None;
        }
        let elem = b[pos];
        let n = read_be_u32(b, pos + 1);
        let ghost d = (depth - 1) as nat;
        let ghost start = (pos + 5) as nat;
        assert(payload_end(b@, id, pos as nat, depth as nat) == elements_end(
            b@,
            elem,
            start,
            n as nat,
            d,
        ));
        let mut cur: usize = pos + 5;
        let mut left: u32 = n;
        while left > 0
            invariant
                cur <= b@.len(),
                elements_end(b@, elem, start, n as nat, d) == elements_end(
                    b@,
                    elem,
                    cur as nat,
                    left as nat,
                    d,
                ),
                d == depth - 1,
                payload_end(b@, id, pos as nat, depth as nat) == elements_end(
                    b@,
                    elem,
                    start,
                    n as nat,
                    d,
                ),
            decreases left,
        {
            match check_payload(b, elem, cur, depth - 1) {
                Some(p) => {
                    cur = p;
                },
                None => {
                    return None;
                },
            }
            left -= 1;
        }
        Some(cur)
    } else if id == 10 {
        if depth == 0 {
            return None;
        }
        let ghost d = (depth - 1) as nat;
        assert(payload_end(b@, id, pos as nat, depth as nat) == entries_end(b@, pos as nat, d));
        let mut cur: usize = pos;
        loop
            invariant
                cur <= b@.len(),
                entries_end(b@, pos as nat, d) == entries_end(b@, cur as nat, d),
                d == depth - 1,
                payload_end(b@, id, pos as nat, depth as nat) == entries_end(b@, pos as nat, d),
            decreases b@.len() - cur,
        {
            if cur >= b.len() {
                return None;
            }
            let tag = b[cur];
            if tag == 0 {
                return Some(cur + 1);
            }
            let q = match check_string(b, cur + 1) {
                Some(q) => q,
                None => {
                    return None;
                },
            };
            let p = match check_payload(b, tag, q, depth - 1) {
                Some(p) => p,
                None => {
                    return None;
                },
            };
            if p <= cur {
                return None;
            }
            cur = p;
        }
    } else if id == 11 {
        check_array(b, pos, 4)
    } else if id == 12 {
        check_array(b, pos, 8)
    } else {
        None
    }
}

/// Whether the bytes begin with a document whose lengths and nesting can be
/// decoded safely.
pub fn is_well_laid_out(b: &[u8]) -> (r: bool)
    ensures
        r == well_laid_out(b@),
{
    if b.len() < 1 || b[0] != 10 {
        return false;
    }
    match check_string(b, 1) {
        Some(q) => check_payload(b, 10, q, MAX_DEPTH).is_some(),
        None => false,
    }
}

} // verus!
