use vstd::prelude::*;

use vstd::string::StringSliceAdditionalSpecFns;

use crate::text::{ascii_chars, ascii_to_string};

verus! {

/// Longest callsign that fits in the six callsign bytes of an address.
pub const MAX_CALLSIGN_LEN: usize = 6;

/// Largest secondary station identifier.
pub const MAX_SSID: u8 = 15;

/// `b` is an ASCII digit or upper-case ASCII letter.
pub open spec fn is_upper_alnum(b: u8) -> bool {
    (0x30 <= b <= 0x39) || (0x41 <= b <= 0x5A)
}

/// `b` is an ASCII digit or ASCII letter of either case.
pub open spec fn is_alnum(b: u8) -> bool {
    is_upper_alnum(b) || (0x61 <= b <= 0x7A)
}

pub open spec fn is_digit(b: u8) -> bool {
    0x30 <= b <= 0x39
}

/// The upper-case form of an ASCII byte.
pub open spec fn upper(b: u8) -> u8 {
    if 0x61 <= b <= 0x7A {
        (b - 32) as u8
    } else {
        b
    }
}

pub open spec fn to_upper(s: Seq<u8>) -> Seq<u8> {
    s.map_values(|b: u8| upper(b))
}

/// One to six upper-case letters or digits.
pub open spec fn valid_callsign(cs: Seq<u8>) -> bool {
    &&& 1 <= cs.len() <= MAX_CALLSIGN_LEN
    &&& forall|i: int| 0 <= i < cs.len() ==> is_upper_alnum(#[trigger] cs[i])
}

/// A station address as a value: callsign bytes and SSID.
pub struct AddressModel {
    pub callsign: Seq<u8>,
    pub ssid: u8,
}

impl AddressModel {
    pub open spec fn wf(self) -> bool {
        valid_callsign(self.callsign) && self.ssid <= MAX_SSID
    }
}

/// A callsign with its secondary station identifier (SSID), e.g. `N0CALL-1`.
/// A well-formed address has a callsign of one to six upper-case letters or
/// digits and an SSID from 0 to 15.
#[derive(Clone, Debug, PartialEq, Eq)]
pub struct Address {
    pub callsign: Vec<u8>,
    pub ssid: u8,
}

impl View for Address {
    type V = AddressModel;

    open spec fn view(&self) -> AddressModel {
        AddressModel { callsign: self.callsign@, ssid: self.ssid }
    }
}

/// Why a text did not parse as an address.
#[derive(Clone, Copy, Debug, PartialEq, Eq)]
pub enum AddressFormatError {
    /// No `-` separates callsign and SSID.
    MissingSsid,
    /// Nothing stands before the `-`.
    EmptyCallsign,
    /// More than six characters stand before the `-`.
    CallsignTooLong,
    /// The callsign holds something other than ASCII letters and digits.
    InvalidCharacter,
    /// The SSID is empty, not decimal digits, or above 15.
    InvalidSsid,
}

/// Why seven wire bytes did not decode as an address.
#[derive(Clone, Copy, Debug, PartialEq, Eq)]
pub enum AddressDecodeError {
    /// The input is not exactly seven bytes.
    WrongLength,
    /// Once shifted back and stripped of trailing spaces, the callsign is not
    /// one to six upper-case letters or digits.
    InvalidCallsign,
}

// ---------------------------------------------------------------------------
// Text form
// ---------------------------------------------------------------------------

/// Index of the first `-` in `s` at or after `i`, or -1 if there is none.
pub open spec fn dash_from(s: Seq<u8>, i: int) -> int
    decreases s.len() - i,
{
    if i < 0 || i >= s.len() {
        -1
    } else if s[i] == 0x2D {
        i
    } else {
        dash_from(s, i + 1)
    }
}

/// The number that a run of decimal digits stands for.
pub open spec fn digits_value(s: Seq<u8>) -> nat
    decreases s.len(),
{
    if s.len() == 0 {
        0
    } else {
        digits_value(s.drop_last()) * 10 + (s.last() - 0x30) as nat
    }
}

pub open spec fn all_digits(s: Seq<u8>) -> bool {
    forall|i: int| 0 <= i < s.len() ==> is_digit(#[trigger] s[i])
}

pub open spec fn all_alnum(s: Seq<u8>) -> bool {
    forall|i: int| 0 <= i < s.len() ==> is_alnum(#[trigger] s[i])
}

/// What the text `s` (as bytes) parses to: a callsign, a `-`, and a decimal
/// SSID. Lower-case letters in the callsign are taken as upper case.
pub open spec fn parse_spec(s: Seq<u8>) -> Result<AddressModel, AddressFormatError> {
    let d = dash_from(s, 0);
    if d < 0 {
        Err(AddressFormatError::MissingSsid)
    } else {
        let cs = s.subrange(0, d);
        let ss = s.subrange(d + 1, s.len() as int);
        if cs.len() == 0 {
            Err(AddressFormatError::EmptyCallsign)
        } else if cs.len() > MAX_CALLSIGN_LEN {
            Err(AddressFormatError::CallsignTooLong)
        } else if !all_alnum(cs) {
            Err(AddressFormatError::InvalidCharacter)
        } else if ss.len() == 0 || !all_digits(ss) || digits_value(ss) > MAX_SSID {
            Err(AddressFormatError::InvalidSsid)
        } else {
            Ok(AddressModel { callsign: to_upper(cs), ssid: digits_value(ss) as u8 })
        }
    }
}

/// The decimal digits of an SSID.
pub open spec fn ssid_text(ssid: u8) -> Seq<u8> {
    if ssid < 10 {
        seq![(ssid + 0x30) as u8]
    } else {
        seq![0x31u8, (ssid - 10 + 0x30) as u8]
    }
}

/// The text form `CALL-SSID` as bytes; the SSID is always written, 0 included.
pub open spec fn format_spec(a: AddressModel) -> Seq<u8> {
    a.callsign + seq![0x2Du8] + ssid_text(a.ssid)
}

// ---------------------------------------------------------------------------
// Wire form
// ---------------------------------------------------------------------------

/// The SSID byte: bits 1-4 hold the SSID, bits 5 and 6 are set, bit 0 marks
/// the last address of the address field and bit 7 carries the
/// command/response (or has-been-repeated) flag. The fields do not overlap,
/// so the sum is the bitwise or `(ssid << 1) | 0x60 | last | flag`.
pub open spec fn ssid_byte(ssid: u8, is_last: bool, flag: bool) -> u8 {
    (ssid * 2 + 0x60 + (if is_last { 1u8 } else { 0u8 }) + (if flag { 0x80u8 } else { 0u8 })) as u8
}

/// Seven bytes: the callsign shifted left by one bit and padded with shifted
/// spaces (0x40) to six bytes, then the SSID byte.
pub open spec fn encode_address_spec(a: AddressModel, is_last: bool, flag: bool) -> Seq<u8> {
    Seq::new(
        6,
        |i: int|
            if i < a.callsign.len() {
                (a.callsign[i] * 2) as u8
            } else {
                0x40u8
            },
    ).push(ssid_byte(a.ssid, is_last, flag))
}

/// `s` without its trailing spaces.
pub open spec fn trim_spaces(s: Seq<u8>) -> Seq<u8>
    decreases s.len(),
{
    if s.len() > 0 && s.last() == 0x20 {
        trim_spaces(s.drop_last())
    } else {
        s
    }
}

/// The six callsign bytes of an encoded address, shifted right by one bit.
pub open spec fn unshifted(b: Seq<u8>) -> Seq<u8> {
    Seq::new(6, |i: int| (b[i] / 2) as u8)
}

/// What seven wire bytes decode to, if anything.
pub open spec fn decode_address_spec(b: Seq<u8>) -> Option<AddressModel> {
    let cs = trim_spaces(unshifted(b));
    if b.len() == 7 && valid_callsign(cs) {
        Some(AddressModel { callsign: cs, ssid: ((b[6] / 2) % 16) as u8 })
    } else {
        None
    }
}

/// Bit 0 of the SSID byte: this address ends the address field.
pub open spec fn ends_address_field(b: Seq<u8>) -> bool {
    b[6] % 2 == 1
}

/// Bit 7 of the SSID byte.
pub open spec fn high_flag(b: Seq<u8>) -> bool {
    b[6] >= 0x80
}

// ---------------------------------------------------------------------------
// Lemmas
// ---------------------------------------------------------------------------

proof fn lemma_digits_value_prefix(s: Seq<u8>, j: int)
    requires
        0 <= j <= s.len(),
        all_digits(s),
    ensures
        digits_value(s.subrange(0, j)) <= digits_value(s),
    decreases s.len(),
{
    if j < s.len() {
        assert(s.drop_last().subrange(0, j) =~= s.subrange(0, j));
        lemma_digits_value_prefix(s.drop_last(), j);
    } else {
        assert(s.subrange(0, j) =~= s);
    }
}

proof fn lemma_trim_padded(cs: Seq<u8>, k: int)
    requires
        0 <= k,
        cs.len() == 0 || cs.last() != 0x20,
    ensures
        trim_spaces(cs + Seq::new(k as nat, |i: int| 0x20u8)) == cs,
    decreases k,
{
    let p = cs + Seq::new(k as nat, |i: int| 0x20u8);
    if k == 0 {
        assert(p =~= cs);
    } else {
        assert(p.drop_last() =~= cs + Seq::new((k - 1) as nat, |i: int| 0x20u8));
        lemma_trim_padded(cs, k - 1);
    }
}

proof fn lemma_ssid_byte(ssid: u8, is_last: bool, flag: bool)
    requires
        ssid <= 15,
    ensures
        (ssid_byte(ssid, is_last, flag) / 2) % 16 == ssid,
        (ssid_byte(ssid, is_last, flag) % 2 == 1) == is_last,
        (ssid_byte(ssid, is_last, flag) >= 0x80) == flag,
{
    let l: int = if is_last { 1 } else { 0 };
    let f: int = if flag { 0x80 } else { 0 };
    let b: int = ssid * 2 + 0x60 + l + f;
    assert(ssid_byte(ssid, is_last, flag) == b);
    assert(b / 2 == ssid + 0x30 + f / 2);
    assert((ssid + 0x30 + f / 2) % 16 == ssid);
}

/// An encoded address carries its end-of-field mark and flag in bit 0 and
/// bit 7 of its SSID byte.
pub proof fn lemma_encode_address_bits(a: AddressModel, is_last: bool, flag: bool)
    requires
        a.wf(),
    ensures
        encode_address_spec(a, is_last, flag).len() == 7,
        ends_address_field(encode_address_spec(a, is_last, flag)) == is_last,
        high_flag(encode_address_spec(a, is_last, flag)) == flag,
{
    lemma_ssid_byte(a.ssid, is_last, flag);
}

/// In an encoded address only the end-of-field mark sets bit 0 of a byte,
/// and the first byte is never zero.
pub proof fn lemma_encoded_address_parity(a: AddressModel, is_last: bool, flag: bool, off: int)
    requires
        a.wf(),
        0 <= off < 7,
    ensures
        (encode_address_spec(a, is_last, flag)[off] % 2 == 1) == (off == 6 && is_last),
        encode_address_spec(a, is_last, flag)[0] != 0,
{
    lemma_encode_address_bits(a, is_last, flag);
    assert(is_upper_alnum(a.callsign[0]));
    if off < 6 && off < a.callsign.len() {
        assert(is_upper_alnum(a.callsign[off]));
    }
}

/// Decoding the seven bytes that encode a well-formed address gives that
/// address back, whatever the end-of-field mark and flag.
pub proof fn lemma_address_round_trip(a: AddressModel, is_last: bool, flag: bool)
    requires
        a.wf(),
    ensures
        decode_address_spec(encode_address_spec(a, is_last, flag)) == Some(a),
{
    let e = encode_address_spec(a, is_last, flag);
    let n = a.callsign.len() as int;
    let pad = Seq::new((6 - n) as nat, |i: int| 0x20u8);
    assert forall|i: int| 0 <= i < 6 implies unshifted(e)[i] == (a.callsign + pad)[i] by {
        if i < n {
            assert(is_upper_alnum(a.callsign[i]));
        }
    }
    assert(unshifted(e) =~= a.callsign + pad);
    assert(is_upper_alnum(a.callsign[n - 1]));
    lemma_trim_padded(a.callsign, 6 - n);
    lemma_ssid_byte(a.ssid, is_last, flag);
}

proof fn lemma_ssid_text(ssid: u8)
    requires
        ssid <= 15,
    ensures
        ssid_text(ssid).len() > 0,
        all_digits(ssid_text(ssid)),
        digits_value(ssid_text(ssid)) == ssid,
{
    let t = ssid_text(ssid);
    if ssid < 10 {
        assert(t.drop_last() =~= Seq::<u8>::empty());
        assert(digits_value(t.drop_last()) == 0);
    } else {
        assert(t.drop_last() =~= seq![0x31u8]);
        assert(t.drop_last().drop_last() =~= Seq::<u8>::empty());
        assert(digits_value(t.drop_last().drop_last()) == 0);
        assert(digits_value(t.drop_last()) == 1);
    }
}

/// Parsing the text form of a well-formed address gives that address.
pub proof fn lemma_parse_format(a: AddressModel)
    requires
        a.wf(),
    ensures
        parse_spec(format_spec(a)) == Ok::<AddressModel, AddressFormatError>(a),
{
    let s = format_spec(a);
    let n = a.callsign.len() as int;
    assert forall|i: int| 0 <= i <= n implies dash_from(s, i) == n by {
        lemma_dash_from_callsign(a, i);
    }
    assert(s.subrange(0, n) =~= a.callsign);
    assert(s.subrange(n + 1, s.len() as int) =~= ssid_text(a.ssid));
    lemma_ssid_text(a.ssid);
    assert forall|i: int| 0 <= i < n implies is_alnum(#[trigger] a.callsign[i]) by {
        assert(is_upper_alnum(a.callsign[i]));
    }
    assert forall|i: int| 0 <= i < n implies #[trigger] to_upper(a.callsign)[i] == a.callsign[i] by {
        assert(is_upper_alnum(a.callsign[i]));
    }
    assert(to_upper(a.callsign) =~= a.callsign);
}

proof fn lemma_dash_from_callsign(a: AddressModel, i: int)
    requires
        a.wf(),
        0 <= i <= a.callsign.len(),
    ensures
        dash_from(format_spec(a), i) == a.callsign.len(),
    decreases a.callsign.len() - i,
{
    let s = format_spec(a);
    if i < a.callsign.len() {
        assert(s[i] == a.callsign[i]);
        assert(is_upper_alnum(a.callsign[i]));
        lemma_dash_from_callsign(a, i + 1);
    } else {
        assert(s[i] == 0x2D);
    }
}

/// A successful parse yields a well-formed address.
pub proof fn lemma_parse_wf(s: Seq<u8>)
    requires
        parse_spec(s) is Ok,
    ensures
        parse_spec(s)->Ok_0.wf(),
{
    let d = dash_from(s, 0);
    let cs = s.subrange(0, d);
    assert forall|i: int| 0 <= i < cs.len() implies is_upper_alnum(#[trigger] to_upper(cs)[i]) by {
        assert(is_alnum(cs[i]));
    }
}

/// Text that parses, formatted again and parsed again, gives the same address.
pub proof fn lemma_parse_format_parse(s: Seq<u8>)
    requires
        parse_spec(s) is Ok,
    ensures
        parse_spec(format_spec(parse_spec(s)->Ok_0)) == parse_spec(s),
{
    lemma_parse_wf(s);
    lemma_parse_format(parse_spec(s)->Ok_0);
}

// ---------------------------------------------------------------------------
// Executable code
// ---------------------------------------------------------------------------

impl Address {
    pub open spec fn wf(&self) -> bool {
        self@.wf()
    }

    /// Parses `CALL-SSID`. Lower-case letters are taken as upper case.
    pub fn parse(text: &str) -> (r: Result<Address, AddressFormatError>)
        ensures
            match parse_spec(text.spec_bytes()) {
                Ok(m) => r is Ok && r->Ok_0@ == m,
                Err(e) => r is Err && r->Err_0 == e,
            },
            r is Ok ==> r->Ok_0.wf(),
    {
        let b = text.as_bytes();
        let len = b.len();
        let mut d: usize = 0;
        while d < len && b[d] != 0x2D
            invariant
                b@ == text.spec_bytes(),
                len == b@.len(),
                0 <= d <= len,
                dash_from(b@, 0) == dash_from(b@, d as int),
            decreases len - d,
        {
            d = d + 1;
        }
        if d == len {
            return Err(AddressFormatError::MissingSsid);
        }
        if d == 0 {
            return Err(AddressFormatError::EmptyCallsign);
        }
        if d > MAX_CALLSIGN_LEN {
            return Err(AddressFormatError::CallsignTooLong);
        }
        assert(dash_from(b@, 0) == d);
        let ghost cs = b@.subrange(0, d as int);
        let mut callsign: Vec<u8> = Vec::new();
        let mut i: usize = 0;
        while i < d
            invariant
                b@ == text.spec_bytes(),
                dash_from(b@, 0) == d,
                0 < d <= MAX_CALLSIGN_LEN,
                cs == b@.subrange(0, d as int),
                d < len == b@.len(),
                0 <= i <= d,
                callsign@ =~= to_upper(cs.subrange(0, i as int)),
                all_alnum(cs.subrange(0, i as int)),
            decreases d - i,
        {
            let c = b[i];
            if !((0x30 <= c && c <= 0x39) || (0x41 <= c && c <= 0x5A) || (0x61 <= c && c <= 0x7A)) {
                assert(!is_alnum(cs[i as int]));
                return Err(AddressFormatError::InvalidCharacter);
            }
            if 0x61 <= c && c <= 0x7A {
                callsign.push(c - 32);
            } else {
                callsign.push(c);
            }
            assert(cs.subrange(0, i + 1) =~= cs.subrange(0, i as int).push(c));
            i = i + 1;
        }
        assert(cs.subrange(0, d as int) =~= cs);
        let ghost ss = b@.subrange(d + 1, len as int);
        if d + 1 == len {
            return Err(AddressFormatError::InvalidSsid);
        }
        let mut v: u8 = 0;
        let mut k: usize = d + 1;
        while k < len
            invariant
                b@ == text.spec_bytes(),
                dash_from(b@, 0) == d,
                0 < d <= MAX_CALLSIGN_LEN,
                all_alnum(b@.subrange(0, d as int)),
                ss == b@.subrange(d + 1, len as int),
                d < len == b@.len(),
                d + 1 <= k <= len,
                v <= MAX_SSID,
                all_digits(ss.subrange(0, k - d - 1)),
                v == digits_value(ss.subrange(0, k - d - 1)),
            decreases len - k,
        {
            let c = b[k];
            assert(ss[k - d - 1] == c);
            if !(0x30 <= c && c <= 0x39) {
                assert(!is_digit(ss[k - d - 1]));
                return Err(AddressFormatError::InvalidSsid);
            }
            let ghost pre = ss.subrange(0, k - d - 1);
            let ghost next = ss.subrange(0, k - d);
            assert(next.drop_last() =~= pre);
            assert(next =~= pre.push(c));
            let w: u8 = v * 10 + (c - 0x30);
            assert(digits_value(next) == w);
            if w > MAX_SSID {
                proof {
                    if all_digits(ss) {
                        lemma_digits_value_prefix(ss, k - d);
                    }
                }
                return Err(AddressFormatError::InvalidSsid);
            }
            v = w;
            k = k + 1;
        }
        assert(ss.subrange(0, k - d - 1) =~= ss);
        let r = Address { callsign, ssid: v };
        proof {
            lemma_parse_wf(b@);
        }
        Ok(r)
    }

    /// The text form `CALL-SSID` as ASCII bytes.
    pub fn format_bytes(&self) -> (r: Vec<u8>)
        requires
            self.wf(),
        ensures
            r@ == format_spec(self@),
    {
        let mut out: Vec<u8> = Vec::new();
        let mut i: usize = 0;
        while i < self.callsign.len()
            invariant
                0 <= i <= self.callsign@.len(),
                out@ =~= self.callsign@.subrange(0, i as int),
            decreases self.callsign@.len() - i,
        {
            out.push(self.callsign[i]);
            i = i + 1;
        }
        out.push(0x2D);
        if self.ssid < 10 {
            out.push(self.ssid + 0x30);
        } else {
            out.push(0x31);
            out.push(self.ssid - 10 + 0x30);
        }
        assert(out@ =~= format_spec(self@));
        out
    }

    /// The text form `CALL-SSID`; the SSID is always written, 0 included.
    pub fn format(&self) -> (r: String)
        requires
            self.wf(),
        ensures
            r@ == ascii_chars(format_spec(self@)),
    {
        let b = self.format_bytes();
        assert forall|i: int| 0 <= i < b@.len() implies b@[i] < 0x80 by {
            if i < self.callsign@.len() {
                assert(is_upper_alnum(self.callsign@[i]));
            }
        }
        ascii_to_string(b)
    }

    /// The seven wire bytes of this address. `is_last` sets bit 0 of the SSID
    /// byte (last address of the address field); `flag` sets bit 7 (the
    /// command/response bit, or has-been-repeated for a digipeater).
    pub fn encode(&self, is_last: bool, flag: bool) -> (r: Vec<u8>)
        requires
            self.wf(),
        ensures
            r@ == encode_address_spec(self@, is_last, flag),
    {
        let n = self.callsign.len();
        let mut out: Vec<u8> = Vec::new();
        let mut i: usize = 0;
        while i < 6
            invariant
                self.wf(),
                n == self.callsign@.len(),
                0 <= i <= 6,
                out@.len() == i,
                forall|j: int|
                    0 <= j < i ==> out@[j] == (if j < n {
                        (self.callsign@[j] * 2) as u8
                    } else {
                        0x40u8
                    }),
            decreases 6 - i,
        {
            if i < n {
                assert(is_upper_alnum(self.callsign@[i as int]));
                out.push(self.callsign[i] * 2);
            } else {
                out.push(0x40);
            }
            i = i + 1;
        }
        let last: u8 = if is_last { 1 } else { 0 };
        let high: u8 = if flag { 0x80 } else { 0 };
        out.push(self.ssid * 2 + 0x60 + last + high);
        assert(out@ =~= encode_address_spec(self@, is_last, flag));
        out
    }

    /// Decodes exactly seven wire bytes.
    pub fn decode(bytes: &[u8]) -> (r: Result<Address, AddressDecodeError>)
        ensures
            bytes@.len() != 7 ==> r == Err::<Address, _>(AddressDecodeError::WrongLength),
            bytes@.len() == 7 ==> match decode_address_spec(bytes@) {
                Some(m) => r is Ok && r->Ok_0@ == m,
                None => r == Err::<Address, _>(AddressDecodeError::InvalidCallsign),
            },
    {
        if bytes.len() != 7 {
            return Err(AddressDecodeError::WrongLength);
        }
        match decode_address_at(bytes, 0) {
            Some(a) => {
                assert(bytes@.subrange(0, 7) =~= bytes@);
                Ok(a)
            },
            None => {
                assert(bytes@.subrange(0, 7) =~= bytes@);
                Err(AddressDecodeError::InvalidCallsign)
            },
        }
    }
}

/// Decodes the seven bytes of `buf` that start at `start`.
pub(crate) fn decode_address_at(buf: &[u8], start: usize) -> (r: Option<Address>)
    requires
        start + 7 <= buf.len(),
    ensures
        r is Some == decode_address_spec(buf@.subrange(start as int, start + 7)) is Some,
        r is Some ==> r->0@ == decode_address_spec(buf@.subrange(start as int, start + 7))->0,
{
    let ghost w = buf@.subrange(start as int, start + 7);
    let ghost u = unshifted(w);
    let mut s: Vec<u8> = Vec::new();
    let mut i: usize = 0;
    while i < 6
        invariant
            w == buf@.subrange(start as int, start + 7),
            u == unshifted(w),
            start + 7 <= buf.len(),
            0 <= i <= 6,
            s@ =~= u.subrange(0, i as int),
        decreases 6 - i,
    {
        s.push(buf[start + i] / 2);
        i = i + 1;
    }
    assert(s@ =~= u);
    let mut n: usize = 6;
    while n > 0 && s[n - 1] == 0x20
        invariant
            w == buf@.subrange(start as int, start + 7),
            u == unshifted(w),
            start + 7 <= buf.len(),
            s@ == u,
            u.len() == 6,
            0 <= n <= 6,
            trim_spaces(u.subrange(0, n as int)) == trim_spaces(u),
        decreases n,
    {
        assert(u.subrange(0, n as int).drop_last() =~= u.subrange(0, n - 1));
        n = n - 1;
    }
    let ghost cs = u.subrange(0, n as int);
    assert(trim_spaces(cs) == cs);
    if n == 0 {
        return None;
    }
    let mut callsign: Vec<u8> = Vec::new();
    let mut j: usize = 0;
    while j < n
        invariant
            w == buf@.subrange(start as int, start + 7),
            u == unshifted(w),
            start + 7 <= buf.len(),
            trim_spaces(u) == cs,
            s@ == u,
            u.len() == 6,
            cs == u.subrange(0, n as int),
            0 < n <= 6,
            0 <= j <= n,
            callsign@ =~= cs.subrange(0, j as int),
            forall|k: int| 0 <= k < j ==> is_upper_alnum(#[trigger] cs[k]),
        decreases n - j,
    {
        let c = s[j];
        if !((0x30 <= c && c <= 0x39) || (0x41 <= c && c <= 0x5A)) {
            assert(!is_upper_alnum(cs[j as int]));
            return None;
        }
        callsign.push(c);
        j = j + 1;
    }
    assert(callsign@ =~= cs);
    let ssid = (buf[start + 6] / 2) % 16;
    Some(Address { callsign, ssid })
}

} // verus!
