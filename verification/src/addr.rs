//! Address types: the four-octet IPv4 and eight-segment IPv6 forms the
//! pseudo-header checksums take, and a six-octet link-layer hardware
//! address with parsing and formatting.

use vstd::prelude::*;
use vstd::string::StrSliceExecFns;
use vstd::string::StringExecFns;

verus! {

/// A hexadecimal digit, either case.
pub open spec fn is_hex_digit(c: char) -> bool {
    (48 <= c as u32 && c as u32 <= 57) || (97 <= c as u32 && c as u32 <= 102) || (65 <= c as u32
        && c as u32 <= 70)
}

/// The value of a hexadecimal digit.
pub open spec fn hex_value(c: char) -> int {
    if 48 <= c as u32 && c as u32 <= 57 {
        c as u32 - 48
    } else if 97 <= c as u32 && c as u32 <= 102 {
        c as u32 - 87
    } else {
        c as u32 - 55
    }
}

/// A well-formed address component: one or two hexadecimal digits.
pub open spec fn component_ok(s: Seq<char>) -> bool {
    1 <= s.len() <= 2 && forall|i: int| 0 <= i < s.len() ==> is_hex_digit(s[i])
}

/// The byte value of a well-formed component.
pub open spec fn component_val(s: Seq<char>) -> int {
    if s.len() == 1 {
        hex_value(s[0])
    } else {
        hex_value(s[0]) * 16 + hex_value(s[1])
    }
}

/// The address made of six component values.
pub open spec fn mac_from(p: Seq<u8>) -> MacAddr {
    MacAddr(p[0], p[1], p[2], p[3], p[4], p[5])
}

/// One left-to-right pass over the text: `cur` holds the characters of the
/// component being read, `parts` the values of the components already read.
/// A seventh component is reported as soon as it is seen, before its own
/// validity is examined; an ill-formed component is reported where it
/// stands; too few components only once the whole text is well-formed.
pub open spec fn scan_parts(s: Seq<char>, cur: Seq<char>, parts: Seq<u8>) -> Result<
    MacAddr,
    ParseMacAddrErr,
>
    decreases s.len(),
{
    if s.len() == 0 {
        if parts.len() == 6 {
            Err(ParseMacAddrErr::TooManyComponents)
        } else if !component_ok(cur) {
            Err(ParseMacAddrErr::InvalidComponent)
        } else if parts.len() == 5 {
            Ok(mac_from(parts.push(component_val(cur) as u8)))
        } else {
            Err(ParseMacAddrErr::TooFewComponents)
        }
    } else if s[0] == ':' {
        if parts.len() == 6 {
            Err(ParseMacAddrErr::TooManyComponents)
        } else if !component_ok(cur) {
            Err(ParseMacAddrErr::InvalidComponent)
        } else {
            scan_parts(s.drop_first(), Seq::<char>::empty(), parts.push(component_val(cur) as u8))
        }
    } else {
        scan_parts(s.drop_first(), cur.push(s[0]), parts)
    }
}

/// What parsing colon-separated hardware-address text returns.
pub open spec fn parse_mac(s: Seq<char>) -> Result<MacAddr, ParseMacAddrErr> {
    scan_parts(s, Seq::<char>::empty(), Seq::<u8>::empty())
}

/// An IPv4 address as its four octets, most significant first.
#[derive(Clone, Copy, PartialEq, Eq, Debug, Structural)]
pub struct Ipv4Addr(pub u8, pub u8, pub u8, pub u8);

impl Ipv4Addr {
    /// Construct an address from its four octets.
    pub fn new(a: u8, b: u8, c: u8, d: u8) -> (r: Ipv4Addr)
        ensures
            r == Ipv4Addr(a, b, c, d),
    {
        Ipv4Addr(a, b, c, d)
    }
}

/// An IPv6 address as its eight 16-bit segments, most significant first.
#[derive(Clone, Copy, PartialEq, Eq, Debug, Structural)]
pub struct Ipv6Addr(
    pub u16,
    pub u16,
    pub u16,
    pub u16,
    pub u16,
    pub u16,
    pub u16,
    pub u16,
);

impl Ipv6Addr {
    /// Construct an address from its eight segments.
    pub fn new(a: u16, b: u16, c: u16, d: u16, e: u16, f: u16, g: u16, h: u16) -> (r: Ipv6Addr)
        ensures
            r == Ipv6Addr(a, b, c, d, e, f, g, h),
    {
        Ipv6Addr(a, b, c, d, e, f, g, h)
    }
}

/// A MAC address
#[derive(Clone, Copy, PartialEq, Eq, Hash, Debug, Structural)]
pub struct MacAddr(pub u8, pub u8, pub u8, pub u8, pub u8, pub u8);

impl MacAddr {
    /// Construct a new MacAddr
    pub fn new(a: u8, b: u8, c: u8, d: u8, e: u8, f: u8) -> (r: MacAddr)
        ensures
            r == MacAddr(a, b, c, d, e, f),
    {
        MacAddr(a, b, c, d, e, f)
    }

    /// The six octets of the address, in order.
    pub fn to_primitive_values(&self) -> (r: (u8, u8, u8, u8, u8, u8))
        ensures
            r == (self.0, self.1, self.2, self.3, self.4, self.5),
    {
        (self.0, self.1, self.2, self.3, self.4, self.5)
    }

    /// Parse colon-separated text into an address: exactly six components,
    /// each one or two hexadecimal digits of either case. All-or-nothing:
    /// no partial address is returned on failure.
    pub fn from_str(s: &str) -> (r: Result<MacAddr, ParseMacAddrErr>)
        ensures
            r == parse_mac(s@),
    {
        let n = s.unicode_len();
        let mut parts: Vec<u8> = Vec::new();
        let mut val: u8 = 0;
        let mut clen: usize = 0;
        let mut all_hex: bool = true;
        let ghost mut cur: Seq<char> = Seq::<char>::empty();
        let mut i: usize = 0;
        proof {
            assert(s@.skip(0) =~= s@);
        }
        while i < n
            invariant
                i <= n,
                n == s@.len(),
                parts@.len() <= 6,
                parse_mac(s@) == scan_parts(s@.skip(i as int), cur, parts@),
                clen == cur.len(),
                clen <= i,
                all_hex == (forall|j: int| 0 <= j < cur.len() ==> is_hex_digit(cur[j])),
                clen == 0 ==> val == 0,
                all_hex && 1 <= clen <= 2 ==> val == component_val(cur),
                val <= 0xFF,
            decreases n - i,
        {
            let c = s.get_char(i);
            proof {
                assert(s@.skip(i as int)[0] == s@[i as int]);
                assert(s@.skip(i as int).drop_first() =~= s@.skip(i as int + 1));
            }
            if c == ':' {
                if parts.len() == 6 {
                    return Err(ParseMacAddrErr::TooManyComponents);
                }
                if !(all_hex && 1 <= clen && clen <= 2) {
                    return Err(ParseMacAddrErr::InvalidComponent);
                }
                parts.push(val);
                val = 0;
                clen = 0;
                all_hex = true;
                proof {
                    cur = Seq::<char>::empty();
                }
            } else {
                match hex_digit_value(c) {
                    Some(d) => {
                        if all_hex && clen < 2 {
                            val = val * 16 + d;
                        }
                    },
                    None => {
                        all_hex = false;
                    },
                }
                clen = clen + 1;
                proof {
                    let prev = cur;
                    cur = cur.push(c);
                    assert(forall|j: int| 0 <= j < prev.len() ==> cur[j] == prev[j]);
                    assert(cur[cur.len() - 1] == c);
                }
            }
            i = i + 1;
        }
        if parts.len() == 6 {
            return Err(ParseMacAddrErr::TooManyComponents);
        }
        if !(all_hex && 1 <= clen && clen <= 2) {
            return Err(ParseMacAddrErr::InvalidComponent);
        }
        if parts.len() == 5 {
            Ok(MacAddr(parts[0], parts[1], parts[2], parts[3], parts[4], val))
        } else {
            Err(ParseMacAddrErr::TooFewComponents)
        }
    }

    /// Render the address as six lowercase two-digit hexadecimal groups
    /// separated by colons, zero-padded, never uppercase.
    pub fn to_text(&self) -> (s: String)
        ensures
            s@ == mac_text(*self),
    {
        let mut out = String::new();
        out.append(hex_char_str(self.0 / 16));
        out.append(hex_char_str(self.0 % 16));
        out.append(":");
        out.append(hex_char_str(self.1 / 16));
        out.append(hex_char_str(self.1 % 16));
        out.append(":");
        out.append(hex_char_str(self.2 / 16));
        out.append(hex_char_str(self.2 % 16));
        out.append(":");
        out.append(hex_char_str(self.3 / 16));
        out.append(hex_char_str(self.3 % 16));
        out.append(":");
        out.append(hex_char_str(self.4 / 16));
        out.append(hex_char_str(self.4 % 16));
        out.append(":");
        out.append(hex_char_str(self.5 / 16));
        out.append(hex_char_str(self.5 % 16));
        proof {
            reveal_strlit(":");
            assert(out@ =~= mac_text(*self));
        }
        out
    }
}

/// The lowercase character of a hexadecimal digit value.
pub open spec fn hex_digit_char(v: int) -> char {
    if v == 0 {
        '0'
    } else if v == 1 {
        '1'
    } else if v == 2 {
        '2'
    } else if v == 3 {
        '3'
    } else if v == 4 {
        '4'
    } else if v == 5 {
        '5'
    } else if v == 6 {
        '6'
    } else if v == 7 {
        '7'
    } else if v == 8 {
        '8'
    } else if v == 9 {
        '9'
    } else if v == 10 {
        'a'
    } else if v == 11 {
        'b'
    } else if v == 12 {
        'c'
    } else if v == 13 {
        'd'
    } else if v == 14 {
        'e'
    } else {
        'f'
    }
}

/// A byte as two lowercase hexadecimal digits, zero-padded.
pub open spec fn byte_text(b: u8) -> Seq<char> {
    seq![hex_digit_char(b as int / 16), hex_digit_char(b as int % 16)]
}

/// The display form of an address: six lowercase two-digit groups separated
/// by colons.
pub open spec fn mac_text(m: MacAddr) -> Seq<char> {
    byte_text(m.0) + seq![':'] + byte_text(m.1) + seq![':'] + byte_text(m.2) + seq![':']
        + byte_text(m.3) + seq![':'] + byte_text(m.4) + seq![':'] + byte_text(m.5)
}

/// Well-formed address text: seventeen characters, a hexadecimal digit at
/// every position but the third of each group of three, a colon there.
pub open spec fn valid_mac_text(s: Seq<char>) -> bool {
    &&& s.len() == 17
    &&& forall|i: int| 0 <= i < 17 && i % 3 != 2 ==> is_hex_digit(#[trigger] s[i])
    &&& forall|i: int| 0 <= i < 17 && i % 3 == 2 ==> #[trigger] s[i] == ':'
}

/// Well-formed address text with every digit lowercase: exactly the form
/// the display side produces.
pub open spec fn canonical_mac_text(s: Seq<char>) -> bool {
    valid_mac_text(s) && forall|i: int|
        0 <= i < 17 ==> !(65 <= (#[trigger] s[i]) as u32 <= 70)
}

/// The byte value of the `k`-th two-digit group of well-formed text.
pub open spec fn comp_val_at(s: Seq<char>, k: int) -> int {
    hex_value(s[3 * k]) * 16 + hex_value(s[3 * k + 1])
}

/// The address well-formed text denotes.
pub open spec fn text_mac(s: Seq<char>) -> MacAddr {
    MacAddr(
        comp_val_at(s, 0) as u8,
        comp_val_at(s, 1) as u8,
        comp_val_at(s, 2) as u8,
        comp_val_at(s, 3) as u8,
        comp_val_at(s, 4) as u8,
        comp_val_at(s, 5) as u8,
    )
}

/// Scanning well-formed text from the start of its `k`-th group, with the
/// earlier group values already gathered, succeeds with the denoted
/// address.
proof fn lemma_scan_valid_from(s: Seq<char>, k: int, parts: Seq<u8>)
    requires
        valid_mac_text(s),
        0 <= k <= 5,
        parts.len() == k,
        forall|j: int| 0 <= j < k ==> #[trigger] parts[j] == comp_val_at(s, j) as u8,
    ensures
        scan_parts(s.skip(3 * k), Seq::<char>::empty(), parts) == Ok::<MacAddr, ParseMacAddrErr>(text_mac(s)),
    decreases 5 - k,
{
    let t = s.skip(3 * k);
    let c1 = s[3 * k];
    let c2 = s[3 * k + 1];
    assert(is_hex_digit(c1) && is_hex_digit(c2));
    assert(c1 != ':' && c2 != ':') by {
        assert(':' as u32 == 58);
    }
    let t1 = s.skip(3 * k + 1);
    let t2 = s.skip(3 * k + 2);
    assert(t.len() == 17 - 3 * k && t1.len() == 16 - 3 * k && t2.len() == 15 - 3 * k);
    assert(t[0] == c1 && t1[0] == c2);
    assert(t.drop_first() =~= t1);
    assert(t1.drop_first() =~= t2);
    let cur = Seq::<char>::empty().push(c1).push(c2);
    assert(scan_parts(t, Seq::<char>::empty(), parts) == scan_parts(
        t1,
        Seq::<char>::empty().push(c1),
        parts,
    ));
    assert(scan_parts(t1, Seq::<char>::empty().push(c1), parts) == scan_parts(t2, cur, parts));
    assert(component_ok(cur) && component_val(cur) == comp_val_at(s, k)) by {
        assert(cur[0] == c1 && cur[1] == c2);
    }
    assert(0 <= comp_val_at(s, k) <= 255);
    let parts2 = parts.push(comp_val_at(s, k) as u8);
    if k == 5 {
        assert(s.skip(3 * k + 2).len() == 0);
        assert(scan_parts(s.skip(3 * k + 2), cur, parts) == Ok::<MacAddr, ParseMacAddrErr>(mac_from(parts2)));
        assert(mac_from(parts2) == text_mac(s));
    } else {
        let c3 = s[3 * k + 2];
        assert(c3 == ':');
        assert(s.skip(3 * k + 2).drop_first() =~= s.skip(3 * (k + 1)));
        assert(scan_parts(s.skip(3 * k + 2), cur, parts) == scan_parts(
            s.skip(3 * (k + 1)),
            Seq::<char>::empty(),
            parts2,
        ));
        lemma_scan_valid_from(s, k + 1, parts2);
    }
}

/// Parsing any well-formed address text, either case, succeeds with the
/// denoted address.
pub proof fn lemma_parse_valid_text(s: Seq<char>)
    requires
        valid_mac_text(s),
    ensures
        parse_mac(s) == Ok::<MacAddr, ParseMacAddrErr>(text_mac(s)),
{
    assert(s.skip(0) =~= s);
    lemma_scan_valid_from(s, 0, Seq::<u8>::empty());
}

/// A lowercase hexadecimal digit is the character of its own value.
proof fn lemma_hex_char_of_value(c: char)
    requires
        is_hex_digit(c),
        !(65 <= c as u32 <= 70),
    ensures
        hex_digit_char(hex_value(c)) == c,
{
    vstd::utf8::char_u32_cast(c, c as u32);
    vstd::utf8::char_u32_cast('0', '0' as u32);
    vstd::utf8::char_u32_cast('1', '1' as u32);
    vstd::utf8::char_u32_cast('2', '2' as u32);
    vstd::utf8::char_u32_cast('3', '3' as u32);
    vstd::utf8::char_u32_cast('4', '4' as u32);
    vstd::utf8::char_u32_cast('5', '5' as u32);
    vstd::utf8::char_u32_cast('6', '6' as u32);
    vstd::utf8::char_u32_cast('7', '7' as u32);
    vstd::utf8::char_u32_cast('8', '8' as u32);
    vstd::utf8::char_u32_cast('9', '9' as u32);
    vstd::utf8::char_u32_cast('a', 'a' as u32);
    vstd::utf8::char_u32_cast('b', 'b' as u32);
    vstd::utf8::char_u32_cast('c', 'c' as u32);
    vstd::utf8::char_u32_cast('d', 'd' as u32);
    vstd::utf8::char_u32_cast('e', 'e' as u32);
    vstd::utf8::char_u32_cast('f', 'f' as u32);
}

/// Two lowercase digits render back to themselves from the byte they
/// denote.
proof fn lemma_byte_text_of_pair(c1: char, c2: char)
    requires
        is_hex_digit(c1),
        is_hex_digit(c2),
        !(65 <= c1 as u32 <= 70),
        !(65 <= c2 as u32 <= 70),
    ensures
        byte_text((hex_value(c1) * 16 + hex_value(c2)) as u8) == seq![c1, c2],
{
    let v = hex_value(c1) * 16 + hex_value(c2);
    vstd::arithmetic::div_mod::lemma_fundamental_div_mod_converse(
        v,
        16,
        hex_value(c1),
        hex_value(c2),
    );
    lemma_hex_char_of_value(c1);
    lemma_hex_char_of_value(c2);
    assert(byte_text(v as u8) =~= seq![c1, c2]);
}

/// For every lowercase well-formed text, parsing succeeds and formatting
/// the parsed address reproduces the text exactly.
pub proof fn lemma_format_parse_round_trip(s: Seq<char>)
    requires
        canonical_mac_text(s),
    ensures
        parse_mac(s) is Ok,
        mac_text(parse_mac(s)->Ok_0) == s,
{
    lemma_parse_valid_text(s);
    let m = text_mac(s);
    lemma_byte_text_of_pair(s[0], s[1]);
    lemma_byte_text_of_pair(s[3], s[4]);
    lemma_byte_text_of_pair(s[6], s[7]);
    lemma_byte_text_of_pair(s[9], s[10]);
    lemma_byte_text_of_pair(s[12], s[13]);
    lemma_byte_text_of_pair(s[15], s[16]);
    assert(mac_text(m) =~= s);
}

/// The character of a digit value is a lowercase hexadecimal digit denoting
/// that value.
proof fn lemma_hex_digit_char_props(v: int)
    requires
        0 <= v <= 15,
    ensures
        is_hex_digit(hex_digit_char(v)),
        !(65 <= hex_digit_char(v) as u32 <= 70),
        hex_value(hex_digit_char(v)) == v,
{
}

/// Formatting any address yields lowercase well-formed text, and parsing it
/// back returns the same address.
pub proof fn lemma_parse_of_format(m: MacAddr)
    ensures
        canonical_mac_text(mac_text(m)),
        parse_mac(mac_text(m)) == Ok::<MacAddr, ParseMacAddrErr>(m),
{
    let t = mac_text(m);
    lemma_hex_digit_char_props(m.0 as int / 16);
    lemma_hex_digit_char_props(m.0 as int % 16);
    lemma_hex_digit_char_props(m.1 as int / 16);
    lemma_hex_digit_char_props(m.1 as int % 16);
    lemma_hex_digit_char_props(m.2 as int / 16);
    lemma_hex_digit_char_props(m.2 as int % 16);
    lemma_hex_digit_char_props(m.3 as int / 16);
    lemma_hex_digit_char_props(m.3 as int % 16);
    lemma_hex_digit_char_props(m.4 as int / 16);
    lemma_hex_digit_char_props(m.4 as int % 16);
    lemma_hex_digit_char_props(m.5 as int / 16);
    lemma_hex_digit_char_props(m.5 as int % 16);
    assert(':' as u32 == 58);
    assert(canonical_mac_text(t));
    lemma_parse_valid_text(t);
    assert(text_mac(t) == m);
}

/// Uppercase hexadecimal digits mapped to lowercase, all else unchanged.
pub open spec fn lower_hex_char(c: char) -> char {
    if c == 'A' {
        'a'
    } else if c == 'B' {
        'b'
    } else if c == 'C' {
        'c'
    } else if c == 'D' {
        'd'
    } else if c == 'E' {
        'e'
    } else if c == 'F' {
        'f'
    } else {
        c
    }
}

/// The text with every uppercase digit lowered.
pub open spec fn lower_hex_text(s: Seq<char>) -> Seq<char> {
    Seq::new(s.len(), |i: int| lower_hex_char(s[i]))
}

/// Parsing is case-insensitive: well-formed text and its lowercase form
/// parse to the same address, and the lowercase form is canonical.
pub proof fn lemma_parse_case_insensitive(s: Seq<char>)
    requires
        valid_mac_text(s),
    ensures
        canonical_mac_text(lower_hex_text(s)),
        parse_mac(lower_hex_text(s)) == parse_mac(s),
{
    let t = lower_hex_text(s);
    assert forall|i: int| 0 <= i < 17 && i % 3 != 2 implies is_hex_digit(#[trigger] t[i]) && !(65
        <= t[i] as u32 <= 70) && hex_value(t[i]) == hex_value(s[i]) by {
        assert(is_hex_digit(s[i]));
        assert(t[i] == lower_hex_char(s[i]));
    }
    assert forall|i: int| 0 <= i < 17 && i % 3 == 2 implies #[trigger] t[i] == ':' by {
        assert(s[i] == ':');
        assert(t[i] == lower_hex_char(':'));
        assert(':' as u32 == 58);
    }
    assert(valid_mac_text(t));
    assert forall|i: int| 0 <= i < 17 implies !(65 <= (#[trigger] t[i]) as u32 <= 70) by {
        if i % 3 == 2 {
            assert(t[i] == ':');
            assert(':' as u32 == 58);
        }
    }
    lemma_parse_valid_text(s);
    lemma_parse_valid_text(t);
    assert(text_mac(t) == text_mac(s)) by {
        assert(hex_value(t[0]) == hex_value(s[0]) && hex_value(t[1]) == hex_value(s[1]));
        assert(hex_value(t[3]) == hex_value(s[3]) && hex_value(t[4]) == hex_value(s[4]));
        assert(hex_value(t[6]) == hex_value(s[6]) && hex_value(t[7]) == hex_value(s[7]));
        assert(hex_value(t[9]) == hex_value(s[9]) && hex_value(t[10]) == hex_value(s[10]));
        assert(hex_value(t[12]) == hex_value(s[12]) && hex_value(t[13]) == hex_value(s[13]));
        assert(hex_value(t[15]) == hex_value(s[15]) && hex_value(t[16]) == hex_value(s[16]));
    }
}

/// The one-character text of a hexadecimal digit value.
fn hex_char_str(v: u8) -> (r: &'static str)
    requires
        v <= 15,
    ensures
        r@ == seq![hex_digit_char(v as int)],
{
    let r: &'static str = match v {
        0 => "0",
        1 => "1",
        2 => "2",
        3 => "3",
        4 => "4",
        5 => "5",
        6 => "6",
        7 => "7",
        8 => "8",
        9 => "9",
        10 => "a",
        11 => "b",
        12 => "c",
        13 => "d",
        14 => "e",
        _ => "f",
    };
    proof {
        reveal_strlit("0");
        reveal_strlit("1");
        reveal_strlit("2");
        reveal_strlit("3");
        reveal_strlit("4");
        reveal_strlit("5");
        reveal_strlit("6");
        reveal_strlit("7");
        reveal_strlit("8");
        reveal_strlit("9");
        reveal_strlit("a");
        reveal_strlit("b");
        reveal_strlit("c");
        reveal_strlit("d");
        reveal_strlit("e");
        reveal_strlit("f");
        assert(r@ =~= seq![hex_digit_char(v as int)]);
    }
    r
}

/// The value of a hexadecimal digit character, `None` for any other
/// character.
fn hex_digit_value(c: char) -> (r: Option<u8>)
    ensures
        r is Some <==> is_hex_digit(c),
        r is Some ==> r->0 == hex_value(c),
{
    let u = c as u32;
    if 48 <= u && u <= 57 {
        Some((u - 48) as u8)
    } else if 97 <= u && u <= 102 {
        Some((u - 87) as u8)
    } else if 65 <= u && u <= 70 {
        Some((u - 55) as u8)
    } else {
        None
    }
}

/// Represents an error which occurred whilst parsing a MAC address
#[derive(Copy, Debug, PartialEq, Eq, Clone, Structural)]
pub enum ParseMacAddrErr {
    /// The MAC address has too many components, eg. 00:11:22:33:44:55:66
    TooManyComponents,
    /// The MAC address has too few components, eg. 00:11
    TooFewComponents,
    /// One of the components contains an invalid value, eg. 00:GG:22:33:44:55
    InvalidComponent,
}

} // verus!
