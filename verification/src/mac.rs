//! Parsing of MAC addresses written as six hexadecimal octets separated by
//! colons, such as `00:11:22:33:44:55`.
use vstd::prelude::*;
use vstd::string::StringSliceAdditionalSpecFns;

verus! {

/// Why a MAC address was refused.
#[derive(Debug, Clone, PartialEq, Eq)]
pub enum MacParseError {
    /// The text does not split into exactly six colon-separated parts.
    WrongOctetCount,
    /// A part is not a hexadecimal number from 0 to 255; the part is given.
    InvalidOctet(Vec<u8>),
}

/// The parts of `b` between separators `sep`, in order; a text without
/// separator is one part, and an empty text is one empty part.
pub open spec fn spec_split(b: Seq<u8>, sep: u8) -> Seq<Seq<u8>>
    decreases b.len(),
{
    if b.len() == 0 {
        seq![Seq::<u8>::empty()]
    } else {
        let prev = spec_split(b.drop_last(), sep);
        if b.last() == sep {
            prev.push(Seq::empty())
        } else {
            prev.update(prev.len() - 1, prev.last().push(b.last()))
        }
    }
}

/// The value of an ASCII hexadecimal digit, if `c` is one.
pub open spec fn spec_hex_digit(c: u8) -> Option<int> {
    if 0x30 <= c <= 0x39 {
        Some(c - 0x30)
    } else if 0x61 <= c <= 0x66 {
        Some(c - 0x61 + 10)
    } else if 0x41 <= c <= 0x46 {
        Some(c - 0x41 + 10)
    } else {
        None
    }
}

/// The value of a run of hexadecimal digits, if all are digits.
pub open spec fn spec_hex_value(d: Seq<u8>) -> Option<int>
    decreases d.len(),
{
    if d.len() == 0 {
        Some(0)
    } else {
        match (spec_hex_value(d.drop_last()), spec_hex_digit(d.last())) {
            (Some(v), Some(x)) => Some(v * 16 + x),
            _ => None,
        }
    }
}

/// An octet written in hexadecimal: an optional `+`, then at least one
/// hexadecimal digit, with a value of at most 255 (leading zeros allowed).
pub open spec fn spec_hex_octet(p: Seq<u8>) -> Option<u8> {
    let digits = if p.len() > 0 && p[0] == 0x2b { p.skip(1) } else { p };
    if digits.len() == 0 {
        None
    } else {
        match spec_hex_value(digits) {
            Some(v) => if v <= 255 { Some(v as u8) } else { None },
            None => None,
        }
    }
}

/// Index of the first part that is not an octet, if any.
pub open spec fn spec_first_bad(parts: Seq<Seq<u8>>) -> Option<int>
    decreases parts.len(),
{
    if parts.len() == 0 {
        None
    } else {
        match spec_first_bad(parts.drop_last()) {
            Some(i) => Some(i),
            None => if spec_hex_octet(parts.last()) is None {
                Some(parts.len() - 1)
            } else {
                None
            },
        }
    }
}

proof fn lemma_first_bad_found(parts: Seq<Seq<u8>>, k: int)
    requires
        0 <= k < parts.len(),
        spec_first_bad(parts.take(k)) is None,
        spec_hex_octet(parts[k]) is None,
    ensures
        spec_first_bad(parts) == Some(k),
    decreases parts.len() - k,
{
    assert(parts.take(k + 1).drop_last() =~= parts.take(k));
    lemma_first_bad_extend(parts, k + 1);
}

proof fn lemma_first_bad_extend(parts: Seq<Seq<u8>>, m: int)
    requires
        1 <= m <= parts.len(),
        spec_first_bad(parts.take(m)) == Some(m - 1),
    ensures
        spec_first_bad(parts) == Some(m - 1),
    decreases parts.len() - m,
{
    if m < parts.len() {
        assert(parts.take(m + 1).drop_last() =~= parts.take(m));
        lemma_first_bad_keep(parts, m);
    } else {
        assert(parts.take(m) =~= parts);
    }
}

proof fn lemma_first_bad_keep(parts: Seq<Seq<u8>>, m: int)
    requires
        1 <= m <= parts.len(),
        spec_first_bad(parts.take(m)) is Some,
    ensures
        spec_first_bad(parts) == spec_first_bad(parts.take(m)),
    decreases parts.len() - m,
{
    if m < parts.len() {
        assert(parts.take(m + 1).drop_last() =~= parts.take(m));
        lemma_first_bad_keep(parts, m + 1);
    } else {
        assert(parts.take(m) =~= parts);
    }
}

/// Value of a hexadecimal digit byte.
fn hex_digit(c: u8) -> (r: Option<u8>)
    ensures
        r matches Some(v) ==> spec_hex_digit(c) == Some(v as int),
        r is None ==> spec_hex_digit(c) is None,
        r matches Some(v) ==> v < 16,
{
    if 0x30 <= c && c <= 0x39 {
        Some(c - 0x30)
    } else if 0x61 <= c && c <= 0x66 {
        Some(c - 0x61 + 10)
    } else if 0x41 <= c && c <= 0x46 {
        Some(c - 0x41 + 10)
    } else {
        None
    }
}

proof fn lemma_hex_value_nonneg(d: Seq<u8>)
    ensures
        spec_hex_value(d) matches Some(v) ==> v >= 0,
    decreases d.len(),
{
    if d.len() > 0 {
        lemma_hex_value_nonneg(d.drop_last());
    }
}

proof fn lemma_hex_value_grows(d: Seq<u8>, k: int)
    requires
        0 <= k <= d.len(),
        spec_hex_value(d) is Some,
    ensures
        spec_hex_value(d.take(k)) is Some,
        spec_hex_value(d.take(k))->0 <= spec_hex_value(d)->0,
    decreases d.len() - k,
{
    if k == d.len() {
        assert(d.take(k) =~= d);
    } else {
        lemma_hex_value_grows(d, k + 1);
        assert(d.take(k + 1).drop_last() =~= d.take(k));
        lemma_hex_value_nonneg(d.take(k));
    }
}

proof fn lemma_hex_value_prefix_bad(d: Seq<u8>, k: int)
    requires
        0 <= k <= d.len(),
        spec_hex_value(d.take(k)) is None,
    ensures
        spec_hex_value(d) is None,
    decreases d.len() - k,
{
    if k == d.len() {
        assert(d.take(k) =~= d);
    } else {
        assert(d.take(k + 1).drop_last() =~= d.take(k));
        lemma_hex_value_prefix_bad(d, k + 1);
    }
}

/// Parses one octet written in hexadecimal (optional `+`, then digits).
pub fn parse_hex_octet(p: &[u8]) -> (r: Option<u8>)
    ensures
        r == spec_hex_octet(p@),
{
    let mut start: usize = 0;
    if p.len() > 0 && p[0] == 0x2b {
        start = 1;
    }
    let ghost digits = p@.skip(start as int);
    assert(digits =~= (if p@.len() > 0 && p@[0] == 0x2b { p@.skip(1) } else { p@ }));
    if start >= p.len() {
        return None;
    }
    let mut v: u32 = 0;
    let mut i: usize = start;
    while i < p.len()
        invariant
            start <= i <= p.len(),
            start < p.len(),
            digits == p@.skip(start as int),
            digits == (if p@.len() > 0 && p@[0] == 0x2b { p@.skip(1) } else { p@ }),
            spec_hex_value(digits.take(i - start)) == Some(v as int),
            v <= 255,
        decreases p.len() - i,
    {
        let ghost k = (i - start) as int;
        assert(digits.take(k + 1).drop_last() =~= digits.take(k));
        assert(digits.take(k + 1).last() == p@[i as int]);
        match hex_digit(p[i]) {
            Some(d) => {
                let nv = v * 16 + d as u32;
                if nv > 255 {
                    proof {
                        lemma_hex_value_grows_bad(digits, k + 1);
                        assert(spec_hex_value(digits) is None || spec_hex_value(digits)->0 > 255);
                        assert(digits.len() > 0);
                    }
                    return None;
                }
                v = nv;
            },
            None => {
                proof {
                    assert(spec_hex_digit(p@[i as int]) is None);
                    assert(spec_hex_value(digits.take(k + 1)) is None);
                    lemma_hex_value_prefix_bad(digits, k + 1);
                    assert(digits.len() > 0);
                }
                return None;
            },
        }
        i = i + 1;
    }
    assert(digits.take((p.len() - start) as int) =~= digits);
    Some(v as u8)
}

proof fn lemma_hex_value_grows_bad(d: Seq<u8>, k: int)
    requires
        0 <= k <= d.len(),
        spec_hex_value(d.take(k)) matches Some(v) && v > 255,
    ensures
        spec_hex_value(d) is None || spec_hex_value(d)->0 > 255,
{
    if spec_hex_value(d) is Some {
        lemma_hex_value_grows(d, k);
    }
}

/// Splits bytes at every `sep`.
pub fn split_bytes(b: &[u8], sep: u8) -> (parts: Vec<Vec<u8>>)
    ensures
        parts@.map_values(|v: Vec<u8>| v@) == spec_split(b@, sep),
{
    let mut parts: Vec<Vec<u8>> = Vec::new();
    let mut cur: Vec<u8> = Vec::new();
    let mut i: usize = 0;
    assert(b@.take(0) =~= Seq::<u8>::empty());
    while i < b.len()
        invariant
            i <= b.len(),
            parts@.map_values(|v: Vec<u8>| v@).push(cur@) == spec_split(b@.take(i as int), sep),
        decreases b.len() - i,
    {
        let ghost before = parts@.map_values(|v: Vec<u8>| v@).push(cur@);
        assert(b@.take(i + 1).drop_last() =~= b@.take(i as int));
        assert(b@.take(i + 1).last() == b@[i as int]);
        if b[i] == sep {
            let done = cur;
            parts.push(done);
            cur = Vec::new();
            assert(parts@.map_values(|v: Vec<u8>| v@).push(cur@) =~= before.push(Seq::empty()));
        } else {
            cur.push(b[i]);
            assert(parts@.map_values(|v: Vec<u8>| v@).push(cur@) =~= before.update(
                before.len() - 1,
                before.last().push(b@[i as int]),
            ));
        }
        i = i + 1;
    }
    let ghost before = parts@.map_values(|v: Vec<u8>| v@);
    parts.push(cur);
    assert(parts@.map_values(|v: Vec<u8>| v@) =~= before.push(cur@));
    assert(b@.take(b.len() as int) =~= b@);
    parts
}

/// The address that text `b` parses to, if it parses: six parts between
/// colons, each an octet.
pub open spec fn spec_parse_mac(b: Seq<u8>) -> Option<Seq<u8>> {
    let parts = spec_split(b, 0x3a);
    if parts.len() == 6 && spec_first_bad(parts) is None {
        Some(Seq::new(6, |i: int| spec_hex_octet(parts[i])->0))
    } else {
        None
    }
}

/// Parses a MAC address written as six hexadecimal octets separated by
/// colons; each octet may have a leading `+` and leading zeros.
pub fn parse_mac_address(mac_str: &str) -> (r: Result<[u8; 6], MacParseError>)
    ensures
        ({
            let parts = spec_split(mac_str.spec_bytes(), 0x3a);
            &&& (r matches Err(MacParseError::WrongOctetCount)) <==> parts.len() != 6
            &&& (r matches Err(MacParseError::InvalidOctet(p))) <==> (parts.len() == 6
                && spec_first_bad(parts) is Some)
            &&& r matches Err(MacParseError::InvalidOctet(p)) ==> p@ == parts[spec_first_bad(parts)->0]
            &&& r is Ok <==> (parts.len() == 6 && spec_first_bad(parts) is None)
            &&& r matches Ok(mac) ==> forall|i: int|
                0 <= i < 6 ==> spec_hex_octet(parts[i]) == Some(#[trigger] mac@[i])
            &&& r matches Ok(mac) ==> spec_parse_mac(mac_str.spec_bytes()) == Some(mac@)
            &&& r is Err ==> spec_parse_mac(mac_str.spec_bytes()) is None
        }),
{
    let bytes = mac_str.as_bytes();
    let parts = split_bytes(bytes, 0x3a);
    let ghost ps = parts@.map_values(|v: Vec<u8>| v@);
    if parts.len() != 6 {
        return Err(MacParseError::WrongOctetCount);
    }
    let mut mac = [0u8; 6];
    let mut i: usize = 0;
    assert(ps.take(0) =~= Seq::<Seq<u8>>::empty());
    while i < 6
        invariant
            i <= 6,
            parts.len() == 6,
            ps == parts@.map_values(|v: Vec<u8>| v@),
            ps == spec_split(mac_str.spec_bytes(), 0x3a),
            spec_first_bad(ps.take(i as int)) is None,
            forall|k: int| 0 <= k < i ==> spec_hex_octet(ps[k]) == Some(#[trigger] mac@[k]),
        decreases 6 - i,
    {
        assert(ps[i as int] == parts@[i as int]@);
        match parse_hex_octet(parts[i].as_slice()) {
            Some(v) => {
                mac[i] = v;
                assert(ps.take(i + 1).drop_last() =~= ps.take(i as int));
            },
            None => {
                proof {
                    assert(spec_hex_octet(ps[i as int]) is None);
                    lemma_first_bad_found(ps, i as int);
                }
                let bad = clone_bytes(parts[i].as_slice());
                assert(bad@ == ps[i as int]);
                return Err(MacParseError::InvalidOctet(bad));
            },
        }
        i = i + 1;
    }
    proof {
        assert(ps.take(6) =~= ps);
    }
    Ok(mac)
}

/// A copy of a byte slice.
fn clone_bytes(s: &[u8]) -> (v: Vec<u8>)
    ensures
        v@ == s@,
{
    let mut v: Vec<u8> = Vec::new();
    let mut i: usize = 0;
    while i < s.len()
        invariant
            i <= s.len(),
            v@ == s@.take(i as int),
        decreases s.len() - i,
    {
        v.push(s[i]);
        i = i + 1;
        assert(v@ =~= s@.take(i as int));
    }
    assert(s@.take(s.len() as int) =~= s@);
    v
}

/// The uppercase hexadecimal digit of a value below 16.
pub open spec fn spec_upper_hex(x: int) -> u8 {
    if x < 10 {
        (0x30 + x) as u8
    } else {
        (0x41 + x - 10) as u8
    }
}

/// An octet as two uppercase hexadecimal digits.
pub open spec fn spec_hex_pair(b: u8) -> Seq<u8> {
    seq![spec_upper_hex(b as int / 16), spec_upper_hex(b as int % 16)]
}

/// A MAC address as the server prints it: six two-digit uppercase
/// hexadecimal octets separated by colons.
pub open spec fn spec_format_mac(mac: [u8; 6]) -> Seq<u8> {
    spec_hex_pair(mac[0]) + seq![0x3au8] + spec_hex_pair(mac[1]) + seq![0x3au8] + spec_hex_pair(mac[2])
        + seq![0x3au8] + spec_hex_pair(mac[3]) + seq![0x3au8] + spec_hex_pair(mac[4]) + seq![0x3au8]
        + spec_hex_pair(mac[5])
}

proof fn lemma_split_no_sep(b: Seq<u8>, sep: u8)
    requires
        forall|k: int| 0 <= k < b.len() ==> b[k] != sep,
    ensures
        spec_split(b, sep) == seq![b],
    decreases b.len(),
{
    if b.len() == 0 {
        assert(b =~= Seq::<u8>::empty());
    } else {
        let d = b.drop_last();
        assert forall|k: int| 0 <= k < d.len() implies d[k] != sep by {
            assert(d[k] == b[k]);
        }
        lemma_split_no_sep(d, sep);
        assert(b[b.len() - 1] != sep);
        assert(d.push(b.last()) =~= b);
        assert(spec_split(b, sep) =~= seq![b]);
    }
}

proof fn lemma_split_append(a: Seq<u8>, sep: u8, b: Seq<u8>)
    requires
        forall|k: int| 0 <= k < b.len() ==> b[k] != sep,
    ensures
        spec_split(a + seq![sep] + b, sep) == spec_split(a, sep).push(b),
    decreases b.len(),
{
    let whole = a + seq![sep] + b;
    if b.len() == 0 {
        assert(b =~= Seq::<u8>::empty());
        assert(whole.drop_last() =~= a);
        assert(whole.last() == sep);
    } else {
        let d = b.drop_last();
        assert forall|k: int| 0 <= k < d.len() implies d[k] != sep by {
            assert(d[k] == b[k]);
        }
        lemma_split_append(a, sep, d);
        assert(whole.drop_last() =~= a + seq![sep] + d);
        assert(b[b.len() - 1] != sep);
        assert(whole.last() == b.last());
        assert(d.push(b.last()) =~= b);
        assert(spec_split(whole, sep) =~= spec_split(a, sep).push(b));
    }
}

proof fn lemma_hex_pair_octet(b: u8)
    ensures
        spec_hex_octet(spec_hex_pair(b)) == Some(b),
        forall|k: int| 0 <= k < 2 ==> spec_hex_pair(b)[k] != 0x3au8,
{
    let d = spec_hex_pair(b);
    let hi = b as int / 16;
    let lo = b as int % 16;
    assert(spec_hex_digit(spec_upper_hex(hi)) == Some(hi));
    assert(spec_hex_digit(spec_upper_hex(lo)) == Some(lo));
    let d1 = d.drop_last();
    assert(d1 =~= seq![spec_upper_hex(hi)]);
    assert(d1.drop_last() =~= Seq::<u8>::empty());
    assert(spec_hex_value(d1.drop_last()) == Some(0int));
    assert(d1.last() == spec_upper_hex(hi));
    assert(spec_hex_value(d1) == Some(hi));
    assert(d.last() == spec_upper_hex(lo));
    assert(spec_hex_value(d) == Some(hi * 16 + lo));
}

proof fn lemma_first_bad_push(parts: Seq<Seq<u8>>, x: Seq<u8>)
    requires
        spec_first_bad(parts) is None,
        spec_hex_octet(x) is Some,
    ensures
        spec_first_bad(parts.push(x)) is None,
{
    assert(parts.push(x).drop_last() =~= parts);
}

/// Parsing a MAC address as the server prints it (`{:02X}` octets
/// joined by colons) gives the address back: the text has six parts, each
/// an octet, whose values are the address.
pub proof fn lemma_mac_roundtrip(mac: [u8; 6])
    ensures
        spec_parse_mac(spec_format_mac(mac)) == Some(mac@),
        ({
            let parts = spec_split(spec_format_mac(mac), 0x3a);
            &&& parts.len() == 6
            &&& spec_first_bad(parts) is None
            &&& forall|i: int| 0 <= i < 6 ==> spec_hex_octet(#[trigger] parts[i]) == Some(mac@[i])
        }),
{
    let h0 = spec_hex_pair(mac[0]);
    let h1 = spec_hex_pair(mac[1]);
    let h2 = spec_hex_pair(mac[2]);
    let h3 = spec_hex_pair(mac[3]);
    let h4 = spec_hex_pair(mac[4]);
    let h5 = spec_hex_pair(mac[5]);
    lemma_hex_pair_octet(mac[0]);
    lemma_hex_pair_octet(mac[1]);
    lemma_hex_pair_octet(mac[2]);
    lemma_hex_pair_octet(mac[3]);
    lemma_hex_pair_octet(mac[4]);
    lemma_hex_pair_octet(mac[5]);
    let c = seq![0x3au8];
    lemma_split_no_sep(h0, 0x3a);
    lemma_split_append(h0, 0x3a, h1);
    lemma_split_append(h0 + c + h1, 0x3a, h2);
    lemma_split_append(h0 + c + h1 + c + h2, 0x3a, h3);
    lemma_split_append(h0 + c + h1 + c + h2 + c + h3, 0x3a, h4);
    lemma_split_append(h0 + c + h1 + c + h2 + c + h3 + c + h4, 0x3a, h5);
    let parts = spec_split(spec_format_mac(mac), 0x3a);
    assert(spec_format_mac(mac) =~= h0 + c + h1 + c + h2 + c + h3 + c + h4 + c + h5);
    assert(parts =~= seq![h0, h1, h2, h3, h4, h5]);
    let e = Seq::<Seq<u8>>::empty();
    lemma_first_bad_push(e, h0);
    lemma_first_bad_push(e.push(h0), h1);
    lemma_first_bad_push(e.push(h0).push(h1), h2);
    lemma_first_bad_push(e.push(h0).push(h1).push(h2), h3);
    lemma_first_bad_push(e.push(h0).push(h1).push(h2).push(h3), h4);
    lemma_first_bad_push(e.push(h0).push(h1).push(h2).push(h3).push(h4), h5);
    assert(e.push(h0).push(h1).push(h2).push(h3).push(h4).push(h5) =~= parts);
    assert(Seq::new(6, |i: int| spec_hex_octet(parts[i])->0) =~= mac@);
}

} // verus!
