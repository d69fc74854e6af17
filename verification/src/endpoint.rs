//! Endpoint resolution: classify a specifier as a file path or, when it
//! carries the `netdd://` prefix, parse the remainder as a socket address
//! (`a.b.c.d:port`, or `[v6]:port` with optional `%scope`). The grammar is
//! defined by the spec functions here; the executable parser is proved to
//! return exactly what they describe. Resolution performs no I/O.

use vstd::prelude::*;

verus! {

/// A digit byte, `'0'` through `'9'`.
pub open spec fn is_digit(b: u8) -> bool {
    48 <= b <= 57
}

/// Value of a digit byte.
pub open spec fn digit_val(b: u8) -> nat {
    (b - 48) as nat
}

/// All bytes of `s` are decimal digits.
pub open spec fn all_digits(s: Seq<u8>) -> bool {
    forall|i: int| 0 <= i < s.len() ==> is_digit(s[i])
}

/// Value of a run of decimal digits, most significant first.
pub open spec fn dec_val(s: Seq<u8>) -> nat
    decreases s.len(),
{
    if s.len() == 0 {
        0
    } else {
        dec_val(s.drop_last()) * 10 + digit_val(s.last())
    }
}

/// First index holding byte `b`, if any.
pub open spec fn find_pos(s: Seq<u8>, b: u8) -> Option<int>
    decreases s.len(),
{
    if s.len() == 0 {
        None
    } else if s[0] == b {
        Some(0)
    } else {
        match find_pos(s.drop_first(), b) {
            Some(i) => Some(i + 1),
            None => None,
        }
    }
}

/// `find_pos` returns the first occurrence: what it yields holds `b`, and
/// nothing before it does; `None` means `b` does not occur at all.
pub proof fn lemma_find_pos(s: Seq<u8>, b: u8)
    ensures
        match find_pos(s, b) {
            Some(i) => 0 <= i < s.len() && s[i] == b && (forall|j: int| 0 <= j < i ==> s[j] != b),
            None => forall|j: int| 0 <= j < s.len() ==> s[j] != b,
        },
    decreases s.len(),
{
    if s.len() == 0 {
    } else if s[0] == b {
    } else {
        lemma_find_pos(s.drop_first(), b);
        assert forall|j: int| 1 <= j < s.len() implies s.drop_first()[j - 1] == s[j] by {}
    }
}

/// Extending a digit run by one digit can only increase its value.
proof fn lemma_dec_val_step(s: Seq<u8>, i: int)
    requires
        0 <= i < s.len(),
    ensures
        dec_val(s.subrange(0, i)) <= dec_val(s.subrange(0, i + 1)),
        dec_val(s.subrange(0, i + 1)) == dec_val(s.subrange(0, i)) * 10 + digit_val(s[i]),
{
    assert(s.subrange(0, i + 1).drop_last() =~= s.subrange(0, i));
    assert(s.subrange(0, i + 1).last() == s[i]);
}

/// The value of a digit-run prefix never exceeds the value of the whole run.
proof fn lemma_dec_val_prefix(s: Seq<u8>, i: int)
    requires
        0 <= i <= s.len(),
    ensures
        dec_val(s.subrange(0, i)) <= dec_val(s),
    decreases s.len() - i,
{
    if i == s.len() {
        assert(s.subrange(0, i) =~= s);
    } else {
        lemma_dec_val_step(s, i);
        lemma_dec_val_prefix(s, i + 1);
    }
}

/// Parse a run of decimal digits whose value is at most `max`. Returns the
/// value exactly when the text is one or more digits and the value fits.
fn parse_decimal(s: &[u8], max: u32) -> (r: Option<u32>)
    ensures
        match r {
            Some(v) => s@.len() >= 1 && all_digits(s@) && dec_val(s@) == v && v <= max,
            None => !(s@.len() >= 1 && all_digits(s@) && dec_val(s@) <= max),
        },
{
    if s.len() == 0 {
        return None;
    }
    let mut acc: u64 = 0;
    let mut i: usize = 0;
    while i < s.len()
        invariant
            0 <= i <= s@.len(),
            all_digits(s@.subrange(0, i as int)),
            acc == dec_val(s@.subrange(0, i as int)),
            acc <= max,
            max <= u32::MAX,
        decreases s@.len() - i,
    {
        let b = s[i];
        if !(48 <= b && b <= 57) {
            assert(!all_digits(s@)) by {
                assert(s@[i as int] == b);
            }
            return None;
        }
        proof {
            lemma_dec_val_step(s@, i as int);
        }
        let nacc: u64 = acc * 10 + ((b - 48) as u64);
        if nacc > max as u64 {
            proof {
                lemma_dec_val_prefix(s@, i + 1);
            }
            return None;
        }
        acc = nacc;
        assert(all_digits(s@.subrange(0, i + 1))) by {
            assert(forall|j: int| 0 <= j < i ==> s@.subrange(0, i + 1)[j] == s@.subrange(0, i as int)[j]);
            assert(s@.subrange(0, i + 1)[i as int] == b);
        }
        i = i + 1;
    }
    assert(s@.subrange(0, s@.len() as int) =~= s@);
    Some(acc as u32)
}

/// A hex digit byte: `0-9`, `a-f`, `A-F`.
pub open spec fn is_hex_digit(b: u8) -> bool {
    is_digit(b) || (97 <= b <= 102) || (65 <= b <= 70)
}

/// Value of a hex digit byte.
pub open spec fn hex_digit_val(b: u8) -> nat {
    if is_digit(b) {
        (b - 48) as nat
    } else if 97 <= b <= 102 {
        (b - 87) as nat
    } else {
        (b - 55) as nat
    }
}

/// All bytes of `s` are hex digits.
pub open spec fn all_hex_digits(s: Seq<u8>) -> bool {
    forall|i: int| 0 <= i < s.len() ==> is_hex_digit(s[i])
}

/// Value of a run of hex digits, most significant first.
pub open spec fn hex_val(s: Seq<u8>) -> nat
    decreases s.len(),
{
    if s.len() == 0 {
        0
    } else {
        hex_val(s.drop_last()) * 16 + hex_digit_val(s.last())
    }
}

/// A group of an IPv6 address: one to four hex digits.
pub open spec fn valid_hex_group(s: Seq<u8>) -> bool {
    1 <= s.len() <= 4 && all_hex_digits(s)
}

/// At most four hex digits stay under sixteen bits.
proof fn lemma_hex_val_bound(s: Seq<u8>)
    requires
        all_hex_digits(s),
    ensures
        s.len() <= 1 ==> hex_val(s) < 0x10,
        s.len() <= 2 ==> hex_val(s) < 0x100,
        s.len() <= 3 ==> hex_val(s) < 0x1000,
        s.len() <= 4 ==> hex_val(s) < 0x10000,
    decreases s.len(),
{
    if s.len() > 0 {
        lemma_hex_val_bound(s.drop_last());
        assert(hex_digit_val(s.last()) < 16);
    }
}

/// Parse one IPv6 group: one to four hex digits, value as sixteen bits.
fn parse_hex_group(s: &[u8]) -> (r: Option<u16>)
    ensures
        match r {
            Some(v) => valid_hex_group(s@) && hex_val(s@) == v,
            None => !valid_hex_group(s@),
        },
{
    if s.len() == 0 || s.len() > 4 {
        return None;
    }
    let mut acc: u32 = 0;
    let mut i: usize = 0;
    while i < s.len()
        invariant
            0 <= i <= s@.len(),
            s@.len() <= 4,
            all_hex_digits(s@.subrange(0, i as int)),
            acc == hex_val(s@.subrange(0, i as int)),
            acc < 0x10000,
            i < s@.len() ==> acc < 0x1000,
        decreases s@.len() - i,
    {
        let b = s[i];
        let d: u32;
        if 48 <= b && b <= 57 {
            d = (b - 48) as u32;
        } else if 97 <= b && b <= 102 {
            d = (b - 87) as u32;
        } else if 65 <= b && b <= 70 {
            d = (b - 55) as u32;
        } else {
            assert(!all_hex_digits(s@)) by {
                assert(s@[i as int] == b);
            }
            return None;
        }
        assert(s@.subrange(0, i + 1).drop_last() =~= s@.subrange(0, i as int));
        assert(s@.subrange(0, i + 1).last() == b);
        acc = acc * 16 + d;
        assert(all_hex_digits(s@.subrange(0, i + 1))) by {
            assert(forall|j: int| 0 <= j < i ==> s@.subrange(0, i + 1)[j] == s@.subrange(0, i as int)[j]);
            assert(s@.subrange(0, i + 1)[i as int] == b);
        }
        i = i + 1;
        proof {
            if i < s@.len() {
                lemma_hex_val_bound(s@.subrange(0, i as int));
            }
        }
    }
    assert(s@.subrange(0, s@.len() as int) =~= s@);
    proof {
        lemma_hex_val_bound(s@);
    }
    Some(acc as u16)
}

/// First index holding byte `b`, as executable code.
fn find_byte(s: &[u8], b: u8) -> (r: Option<usize>)
    ensures
        match r {
            Some(i) => find_pos(s@, b) == Some(i as int) && i < s@.len() && s@[i as int] == b
                && (forall|j: int| 0 <= j < i ==> s@[j] != b),
            None => find_pos(s@, b) is None && (forall|j: int| 0 <= j < s@.len() ==> s@[j] != b),
        },
{
    proof {
        lemma_find_pos(s@, b);
    }
    let mut i: usize = 0;
    while i < s.len()
        invariant
            0 <= i <= s@.len(),
            forall|j: int| 0 <= j < i ==> s@[j] != b,
            match find_pos(s@, b) {
                Some(k) => 0 <= k < s@.len() && s@[k] == b && (forall|j: int| 0 <= j < k ==> s@[j] != b),
                None => forall|j: int| 0 <= j < s@.len() ==> s@[j] != b,
            },
        decreases s@.len() - i,
    {
        if s[i] == b {
            return Some(i);
        }
        i = i + 1;
    }
    None
}

/// An IPv4 octet: decimal digits, no leading zero, value at most 255.
pub open spec fn valid_octet(s: Seq<u8>) -> bool {
    s.len() >= 1 && all_digits(s) && (s.len() > 1 ==> s[0] != 48) && dec_val(s) <= 255
}

/// The four octets of a dotted-quad IPv4 address, if `s` is one.
pub open spec fn spec_ipv4(s: Seq<u8>) -> Option<(u8, u8, u8, u8)> {
    match find_pos(s, 46) {
        Some(i1) => {
            let p1 = s.subrange(0, i1);
            let r1 = s.subrange(i1 + 1, s.len() as int);
            match find_pos(r1, 46) {
                Some(i2) => {
                    let p2 = r1.subrange(0, i2);
                    let r2 = r1.subrange(i2 + 1, r1.len() as int);
                    match find_pos(r2, 46) {
                        Some(i3) => {
                            let p3 = r2.subrange(0, i3);
                            let p4 = r2.subrange(i3 + 1, r2.len() as int);
                            if find_pos(p4, 46) is None && valid_octet(p1) && valid_octet(p2)
                                && valid_octet(p3) && valid_octet(p4) {
                                Some(
                                    (
                                        dec_val(p1) as u8,
                                        dec_val(p2) as u8,
                                        dec_val(p3) as u8,
                                        dec_val(p4) as u8,
                                    ),
                                )
                            } else {
                                None
                            }
                        },
                        None => None,
                    }
                },
                None => None,
            }
        },
        None => None,
    }
}

/// Parse one IPv4 octet.
fn parse_octet(s: &[u8]) -> (r: Option<u8>)
    ensures
        match r {
            Some(v) => valid_octet(s@) && dec_val(s@) == v,
            None => !valid_octet(s@),
        },
{
    match parse_decimal(s, 255) {
        Some(v) => {
            if s.len() > 1 && s[0] == 48 {
                None
            } else {
                Some(v as u8)
            }
        },
        None => None,
    }
}

/// Parse a dotted-quad IPv4 address.
fn parse_ipv4(s: &[u8]) -> (r: Option<(u8, u8, u8, u8)>)
    ensures
        r == spec_ipv4(s@),
{
    let i1 = match find_byte(s, 46) {
        Some(i) => i,
        None => { return None; },
    };
    let n = s.len();
    let p1 = vstd::slice::slice_subrange(s, 0, i1);
    let r1 = vstd::slice::slice_subrange(s, i1 + 1, n);
    let i2 = match find_byte(r1, 46) {
        Some(i) => i,
        None => { return None; },
    };
    let n1 = r1.len();
    let p2 = vstd::slice::slice_subrange(r1, 0, i2);
    let r2 = vstd::slice::slice_subrange(r1, i2 + 1, n1);
    let i3 = match find_byte(r2, 46) {
        Some(i) => i,
        None => { return None; },
    };
    let n2 = r2.len();
    let p3 = vstd::slice::slice_subrange(r2, 0, i3);
    let p4 = vstd::slice::slice_subrange(r2, i3 + 1, n2);
    if find_byte(p4, 46).is_some() {
        return None;
    }
    let a = match parse_octet(p1) {
        Some(v) => v,
        None => { return None; },
    };
    let b = match parse_octet(p2) {
        Some(v) => v,
        None => { return None; },
    };
    let c = match parse_octet(p3) {
        Some(v) => v,
        None => { return None; },
    };
    let d = match parse_octet(p4) {
        Some(v) => v,
        None => { return None; },
    };
    Some((a, b, c, d))
}

/// First index where `"::"` begins, if anywhere.
pub open spec fn find_double_colon(s: Seq<u8>) -> Option<int>
    decreases s.len(),
{
    if s.len() < 2 {
        None
    } else if s[0] == 58 && s[1] == 58 {
        Some(0)
    } else {
        match find_double_colon(s.drop_first()) {
            Some(i) => Some(i + 1),
            None => None,
        }
    }
}

/// `find_double_colon` returns the first occurrence of `"::"`.
proof fn lemma_find_double_colon(s: Seq<u8>)
    ensures
        match find_double_colon(s) {
            Some(i) => 0 <= i && i + 1 < s.len() && s[i] == 58 && s[i + 1] == 58
                && (forall|j: int| 0 <= j < i ==> !((#[trigger] s[j]) == 58 && s[j + 1] == 58)),
            None => forall|j: int| 0 <= j && j + 1 < s.len() ==> !((#[trigger] s[j]) == 58 && s[j + 1] == 58),
        },
    decreases s.len(),
{
    if s.len() < 2 {
    } else if s[0] == 58 && s[1] == 58 {
    } else {
        let d = s.drop_first();
        lemma_find_double_colon(d);
        match find_double_colon(s) {
            Some(i) => {
                assert(d[i - 1] == s[i]);
                assert(d[i] == s[i + 1]);
                assert forall|j: int| 0 <= j < i implies !((#[trigger] s[j]) == 58 && s[j + 1]
                    == 58) by {
                    if j >= 1 {
                        assert(d[j - 1] == s[j]);
                        assert(d[j] == s[j + 1]);
                    }
                }
            },
            None => {
                assert forall|j: int| 0 <= j && j + 1 < s.len() implies !((#[trigger] s[j]) == 58
                    && s[j + 1] == 58) by {
                    if j >= 1 {
                        assert(d[j - 1] == s[j]);
                        assert(d[j] == s[j + 1]);
                    }
                }
            },
        }
    }
}

/// Scan for the first `"::"`, as executable code.
fn scan_double_colon(s: &[u8]) -> (r: Option<usize>)
    ensures
        match r {
            Some(i) => find_double_colon(s@) == Some(i as int) && i + 1 < s@.len()
                && s@[i as int] == 58 && s@[i + 1] == 58,
            None => find_double_colon(s@) is None,
        },
{
    proof {
        lemma_find_double_colon(s@);
    }
    if s.len() < 2 {
        return None;
    }
    let mut i: usize = 0;
    while i < s.len() - 1
        invariant
            s@.len() >= 2,
            0 <= i,
            i + 1 <= s@.len(),
            forall|j: int| 0 <= j < i ==> !((#[trigger] s@[j]) == 58 && s@[j + 1] == 58),
            match find_double_colon(s@) {
                Some(k) => 0 <= k && k + 1 < s@.len() && s@[k] == 58 && s@[k + 1] == 58
                    && (forall|j: int| 0 <= j < k ==> !((#[trigger] s@[j]) == 58 && s@[j + 1] == 58)),
                None => forall|j: int| 0 <= j && j + 1 < s@.len() ==> !((#[trigger] s@[j]) == 58 && s@[j + 1] == 58),
            },
        decreases s@.len() - i,
    {
        if s[i] == 58 && s[i + 1] == 58 {
            return Some(i);
        }
        i = i + 1;
    }
    None
}


/// Group texts separated by single colons, read left to right: each piece is
/// a hex group, except that the last may be a dotted-quad IPv4 address
/// (standing for two groups) when `allow_v4` holds. `fuel` caps the number
/// of pieces; an address never needs more than eight.
pub open spec fn spec_groups(s: Seq<u8>, fuel: nat, allow_v4: bool) -> Option<Seq<u16>>
    decreases fuel,
{
    if fuel == 0 {
        None
    } else {
        match find_pos(s, 58) {
            None => if valid_hex_group(s) {
                Some(seq![hex_val(s) as u16])
            } else {
                match spec_ipv4(s) {
                    Some((a, b, c, d)) => if allow_v4 {
                        Some(seq![(a * 256 + b) as u16, (c * 256 + d) as u16])
                    } else {
                        None
                    },
                    None => None,
                }
            },
            Some(i) => {
                let p = s.subrange(0, i);
                let rest = s.subrange(i + 1, s.len() as int);
                if valid_hex_group(p) {
                    match spec_groups(rest, (fuel - 1) as nat, allow_v4) {
                        Some(g) => Some(seq![hex_val(p) as u16] + g),
                        None => None,
                    }
                } else {
                    None
                }
            },
        }
    }
}

/// `n` zero groups.
pub open spec fn zero_segs(n: nat) -> Seq<u16> {
    Seq::new(n, |i: int| 0u16)
}

/// The eight groups of an IPv6 address text: either eight groups joined by
/// single colons, or a `::` once, standing for the elided zero groups.
pub open spec fn spec_ipv6(s: Seq<u8>) -> Option<Seq<u16>> {
    match find_double_colon(s) {
        None => match spec_groups(s, 8, true) {
            Some(g) => if g.len() == 8 {
                Some(g)
            } else {
                None
            },
            None => None,
        },
        Some(i) => {
            let l = s.subrange(0, i);
            let r = s.subrange(i + 2, s.len() as int);
            let lg = if l.len() == 0 {
                Some(Seq::<u16>::empty())
            } else {
                spec_groups(l, 8, false)
            };
            let rg = if r.len() == 0 {
                Some(Seq::<u16>::empty())
            } else {
                spec_groups(r, 8, true)
            };
            match (lg, rg) {
                (Some(a), Some(b)) => if a.len() + b.len() <= 7 {
                    Some(a + zero_segs((8 - a.len() - b.len()) as nat) + b)
                } else {
                    None
                },
                _ => None,
            }
        },
    }
}

/// Parse colon-separated groups, mirroring `spec_groups`.
fn parse_groups(s: &[u8], fuel: usize, allow_v4: bool) -> (r: Option<Vec<u16>>)
    ensures
        match r {
            Some(v) => spec_groups(s@, fuel as nat, allow_v4) == Some(v@) && 1 <= v@.len()
                && v@.len() <= fuel + 1,
            None => spec_groups(s@, fuel as nat, allow_v4) is None,
        },
    decreases fuel,
{
    if fuel == 0 {
        return None;
    }
    match find_byte(s, 58) {
        None => {
            match parse_hex_group(s) {
                Some(v) => {
                    let mut out: Vec<u16> = Vec::new();
                    out.push(v);
                    assert(out@ =~= seq![hex_val(s@) as u16]);
                    Some(out)
                },
                None => {
                    match parse_ipv4(s) {
                        Some((a, b, c, d)) => {
                            if allow_v4 {
                                let mut out: Vec<u16> = Vec::new();
                                out.push((a as u16) * 256 + (b as u16));
                                out.push((c as u16) * 256 + (d as u16));
                                assert(out@ =~= seq![
                                    (a * 256 + b) as u16,
                                    (c * 256 + d) as u16,
                                ]);
                                Some(out)
                            } else {
                                None
                            }
                        },
                        None => None,
                    }
                },
            }
        },
        Some(i) => {
            let n = s.len();
            let p = vstd::slice::slice_subrange(s, 0, i);
            let rest = vstd::slice::slice_subrange(s, i + 1, n);
            match parse_hex_group(p) {
                Some(v) => {
                    match parse_groups(rest, fuel - 1, allow_v4) {
                        Some(mut g) => {
                            let mut out: Vec<u16> = Vec::new();
                            out.push(v);
                            let ghost gview = g@;
                            out.append(&mut g);
                            assert(out@ =~= seq![hex_val(p@) as u16] + gview);
                            Some(out)
                        },
                        None => None,
                    }
                },
                None => None,
            }
        },
    }
}

/// Parse an IPv6 address text into its eight groups, mirroring `spec_ipv6`.
fn parse_ipv6(s: &[u8]) -> (r: Option<Vec<u16>>)
    ensures
        match r {
            Some(v) => spec_ipv6(s@) == Some(v@) && v@.len() == 8,
            None => spec_ipv6(s@) is None,
        },
{
    match scan_double_colon(s) {
        None => {
            match parse_groups(s, 8, true) {
                Some(v) => {
                    if v.len() == 8 {
                        Some(v)
                    } else {
                        None
                    }
                },
                None => None,
            }
        },
        Some(i) => {
            let n = s.len();
            let l = vstd::slice::slice_subrange(s, 0, i);
            let rr = vstd::slice::slice_subrange(s, i + 2, n);
            let lg: Option<Vec<u16>> = if l.len() == 0 {
                let empty: Vec<u16> = Vec::new();
                assert(empty@ =~= Seq::<u16>::empty());
                Some(empty)
            } else {
                parse_groups(l, 8, false)
            };
            let rg: Option<Vec<u16>> = if rr.len() == 0 {
                let empty: Vec<u16> = Vec::new();
                assert(empty@ =~= Seq::<u16>::empty());
                Some(empty)
            } else {
                parse_groups(rr, 8, true)
            };
            match (lg, rg) {
                (Some(mut a), Some(mut b)) => {
                    if a.len() + b.len() <= 7 {
                        let ghost aview = a@;
                        let ghost bview = b@;
                        let zeros: usize = 8 - a.len() - b.len();
                        let mut k: usize = 0;
                        while k < zeros
                            invariant
                                0 <= k <= zeros,
                                a@ =~= aview + zero_segs(k as nat),
                            decreases zeros - k,
                        {
                            a.push(0u16);
                            assert(aview + zero_segs((k + 1) as nat) =~= (aview + zero_segs(
                                k as nat,
                            )).push(0u16));
                            k = k + 1;
                        }
                        a.append(&mut b);
                        assert(a@ =~= aview + zero_segs(zeros as nat) + bview);
                        Some(a)
                    } else {
                        None
                    }
                },
                _ => None,
            }
        },
    }
}


/// A resolved host: a dotted-quad IPv4 address, or an IPv6 address as its
/// eight groups plus a numeric scope identifier (zero when none was given).
#[derive(Debug, Clone)]
pub enum HostAddr {
    V4(u8, u8, u8, u8),
    V6 { segs: Vec<u16>, scope: u32 },
}

/// Ghost model of a host.
pub enum HostModel {
    V4(u8, u8, u8, u8),
    V6(Seq<u16>, u32),
}

impl View for HostAddr {
    type V = HostModel;

    open spec fn view(&self) -> HostModel {
        match self {
            HostAddr::V4(a, b, c, d) => HostModel::V4(*a, *b, *c, *d),
            HostAddr::V6 { segs, scope } => HostModel::V6(segs@, *scope),
        }
    }
}

impl HostAddr {
    /// An IPv6 host carries exactly eight groups.
    pub open spec fn wf(&self) -> bool {
        match self {
            HostAddr::V4(_, _, _, _) => true,
            HostAddr::V6 { segs, scope } => segs@.len() == 8,
        }
    }
}

/// A resolved `host:port` pair.
#[derive(Debug, Clone)]
pub struct SockAddr {
    pub host: HostAddr,
    pub port: u16,
}

impl View for SockAddr {
    type V = (HostModel, u16);

    open spec fn view(&self) -> (HostModel, u16) {
        (self.host@, self.port)
    }
}

impl SockAddr {
    pub open spec fn wf(&self) -> bool {
        self.host.wf()
    }
}

/// A resolved endpoint: a filesystem path kept as the specifier's bytes,
/// or a network address.
#[derive(Debug, Clone)]
pub enum Endpoint {
    FilePath(Vec<u8>),
    NetworkAddress(SockAddr),
}

/// Ghost model of an endpoint.
pub enum EndpointModel {
    FilePath(Seq<u8>),
    Network(HostModel, u16),
}

impl View for Endpoint {
    type V = EndpointModel;

    open spec fn view(&self) -> EndpointModel {
        match self {
            Endpoint::FilePath(p) => EndpointModel::FilePath(p@),
            Endpoint::NetworkAddress(sa) => EndpointModel::Network(sa.host@, sa.port),
        }
    }
}

impl Endpoint {
    pub open spec fn wf(&self) -> bool {
        match self {
            Endpoint::FilePath(_) => true,
            Endpoint::NetworkAddress(sa) => sa.wf(),
        }
    }
}

/// A specifier that carries the network prefix but no parseable address.
#[derive(Debug, PartialEq, Eq, Structural)]
pub struct ParseError;

/// A port text: one or more digits, value at most 65535.
pub open spec fn valid_port(s: Seq<u8>) -> bool {
    s.len() >= 1 && all_digits(s) && dec_val(s) <= 0xFFFF
}

/// A scope text: one or more digits, value fitting thirty-two bits.
pub open spec fn valid_scope(s: Seq<u8>) -> bool {
    s.len() >= 1 && all_digits(s) && dec_val(s) <= 0xFFFFFFFF
}

/// The address a `host:port` text denotes: either `a.b.c.d:port`, or
/// `[v6]:port` where the bracketed part may end in `%scope`.
pub open spec fn spec_socket_addr(s: Seq<u8>) -> Option<(HostModel, u16)> {
    if s.len() > 0 && s[0] == 91 {
        match find_pos(s, 93) {
            Some(j) => if j + 1 < s.len() && s[j + 1] == 58 {
                let inside = s.subrange(1, j);
                let port = s.subrange(j + 2, s.len() as int);
                if valid_port(port) {
                    match find_pos(inside, 37) {
                        None => match spec_ipv6(inside) {
                            Some(g) => Some((HostModel::V6(g, 0), dec_val(port) as u16)),
                            None => None,
                        },
                        Some(k) => {
                            let addr = inside.subrange(0, k);
                            let sc = inside.subrange(k + 1, inside.len() as int);
                            if valid_scope(sc) {
                                match spec_ipv6(addr) {
                                    Some(g) => Some(
                                        (
                                            HostModel::V6(g, dec_val(sc) as u32),
                                            dec_val(port) as u16,
                                        ),
                                    ),
                                    None => None,
                                }
                            } else {
                                None
                            }
                        },
                    }
                } else {
                    None
                }
            } else {
                None
            },
            None => None,
        }
    } else {
        match find_pos(s, 58) {
            Some(i) => {
                let left = s.subrange(0, i);
                let port = s.subrange(i + 1, s.len() as int);
                match spec_ipv4(left) {
                    Some((a, b, c, d)) => if valid_port(port) {
                        Some((HostModel::V4(a, b, c, d), dec_val(port) as u16))
                    } else {
                        None
                    },
                    None => None,
                }
            },
            None => None,
        }
    }
}

/// Parse a `host:port` text, mirroring `spec_socket_addr`.
fn parse_socket_addr(s: &[u8]) -> (r: Option<SockAddr>)
    ensures
        match r {
            Some(sa) => spec_socket_addr(s@) == Some(sa@) && sa.wf(),
            None => spec_socket_addr(s@) is None,
        },
{
    let n = s.len();
    if n > 0 && s[0] == 91 {
        let j = match find_byte(s, 93) {
            Some(j) => j,
            None => { return None; },
        };
        if !(j + 1 < n && s[j + 1] == 58) {
            return None;
        }
        let inside = vstd::slice::slice_subrange(s, 1, j);
        let port_text = vstd::slice::slice_subrange(s, j + 2, n);
        let port = match parse_decimal(port_text, 0xFFFF) {
            Some(v) => v as u16,
            None => { return None; },
        };
        let ni = inside.len();
        match find_byte(inside, 37) {
            None => {
                match parse_ipv6(inside) {
                    Some(segs) => Some(SockAddr { host: HostAddr::V6 { segs, scope: 0 }, port }),
                    None => None,
                }
            },
            Some(k) => {
                let addr = vstd::slice::slice_subrange(inside, 0, k);
                let sc_text = vstd::slice::slice_subrange(inside, k + 1, ni);
                let scope = match parse_decimal(sc_text, 0xFFFFFFFF) {
                    Some(v) => v,
                    None => { return None; },
                };
                match parse_ipv6(addr) {
                    Some(segs) => Some(SockAddr { host: HostAddr::V6 { segs, scope }, port }),
                    None => None,
                }
            },
        }
    } else {
        let i = match find_byte(s, 58) {
            Some(i) => i,
            None => { return None; },
        };
        let left = vstd::slice::slice_subrange(s, 0, i);
        let port_text = vstd::slice::slice_subrange(s, i + 1, n);
        let (a, b, c, d) = match parse_ipv4(left) {
            Some(q) => q,
            None => { return None; },
        };
        match parse_decimal(port_text, 0xFFFF) {
            Some(v) => Some(SockAddr { host: HostAddr::V4(a, b, c, d), port: v as u16 }),
            None => None,
        }
    }
}

/// The network-scheme prefix, `netdd://`.
pub open spec fn netdd_prefix() -> Seq<u8> {
    seq![110u8, 101u8, 116u8, 100u8, 100u8, 58u8, 47u8, 47u8]
}

/// `s` begins with `netdd://`.
pub open spec fn has_netdd_prefix(s: Seq<u8>) -> bool {
    s.len() >= 8 && s.subrange(0, 8) == netdd_prefix()
}

/// What a specifier resolves to: with the network prefix, the socket address
/// it carries (or nothing, when that address is malformed); without it, the
/// specifier itself as a file path, unmodified.
pub open spec fn spec_resolve(s: Seq<u8>) -> Option<EndpointModel> {
    if has_netdd_prefix(s) {
        match spec_socket_addr(s.subrange(8, s.len() as int)) {
            Some((h, p)) => Some(EndpointModel::Network(h, p)),
            None => None,
        }
    } else {
        Some(EndpointModel::FilePath(s))
    }
}

/// Check for the `netdd://` prefix.
fn has_prefix(s: &[u8]) -> (r: bool)
    ensures
        r == has_netdd_prefix(s@),
{
    if s.len() < 8 {
        return false;
    }
    let ok = s[0] == 110 && s[1] == 101 && s[2] == 116 && s[3] == 100 && s[4] == 100 && s[5] == 58
        && s[6] == 47 && s[7] == 47;
    if ok {
        assert(s@.subrange(0, 8) =~= netdd_prefix());
        true
    } else {
        assert(!has_netdd_prefix(s@)) by {
            if s@.subrange(0, 8) == netdd_prefix() {
                assert(forall|q: int| 0 <= q < 8 ==> s@[q] == #[trigger] s@.subrange(0, 8)[q]);
            }
        }
        false
    }
}

/// Resolve a specifier: a `netdd://host:port` network endpoint, or a file
/// path taken verbatim. Fails exactly when the prefix is present but the
/// address after it is malformed. Performs no I/O.
pub fn resolve(s: &[u8]) -> (r: Result<Endpoint, ParseError>)
    ensures
        match r {
            Ok(e) => spec_resolve(s@) == Some(e@) && e.wf(),
            Err(_) => spec_resolve(s@) is None,
        },
{
    if has_prefix(s) {
        let n = s.len();
        let rest = vstd::slice::slice_subrange(s, 8, n);
        match parse_socket_addr(rest) {
            Some(sa) => Ok(Endpoint::NetworkAddress(sa)),
            None => Err(ParseError),
        }
    } else {
        Ok(Endpoint::FilePath(vstd::slice::slice_to_vec(s)))
    }
}


/// A specifier without the network prefix resolves to a file-path endpoint
/// holding the specifier unmodified.
pub proof fn lemma_resolve_file(s: Seq<u8>)
    requires
        !has_netdd_prefix(s),
    ensures
        spec_resolve(s) == Some(EndpointModel::FilePath(s)),
{
}

/// A specifier with the network prefix and a well-formed address resolves to
/// a network endpoint with exactly the host and port the address denotes.
pub proof fn lemma_resolve_network(s: Seq<u8>, h: HostModel, p: u16)
    requires
        has_netdd_prefix(s),
        spec_socket_addr(s.subrange(8, s.len() as int)) == Some((h, p)),
    ensures
        spec_resolve(s) == Some(EndpointModel::Network(h, p)),
{
}

/// A specifier with the network prefix but a malformed address does not
/// resolve: the resolver fails before any I/O could be attempted.
pub proof fn lemma_resolve_malformed(s: Seq<u8>)
    requires
        has_netdd_prefix(s),
        spec_socket_addr(s.subrange(8, s.len() as int)) is None,
    ensures
        spec_resolve(s) is None,
{
}


} // verus!
