//! The bridge wire protocol: one JSON object per line. Inbound lines carry
//! input bytes, a resize, or a signal for the hosted session; outbound lines
//! carry output chunks tagged with sequence numbers and one final exit
//! report. The grammar accepted here is a JSON object with string and
//! non-negative integer values: members in any order, each key at most once,
//! no unknown keys, the usual whitespace between tokens, and the short
//! string escapes (Unicode escapes are not accepted; the payloads this
//! protocol carries are ASCII).

use vstd::prelude::*;

verus! {

/// An inbound control message.
#[derive(Debug, PartialEq, Eq)]
pub enum ToPty {
    /// Bytes for the session's input, still in their base64 transport form.
    Input { data: Vec<u8> },
    /// New terminal geometry.
    Resize { cols: u16, rows: u16 },
    /// A named signal for the hosted process.
    Signal { sig: Vec<u8> },
}

/// The mathematical image of a `ToPty`.
#[verifier::ext_equal]
pub enum ToPtyV {
    Input { data: Seq<u8> },
    Resize { cols: u16, rows: u16 },
    Signal { sig: Seq<u8> },
}

impl View for ToPty {
    type V = ToPtyV;

    open spec fn view(&self) -> ToPtyV {
        match self {
            ToPty::Input { data } => ToPtyV::Input { data: data@ },
            ToPty::Resize { cols, rows } => ToPtyV::Resize { cols: *cols, rows: *rows },
            ToPty::Signal { sig } => ToPtyV::Signal { sig: sig@ },
        }
    }
}

/// JSON whitespace.
pub open spec fn is_ws(b: u8) -> bool {
    b == 0x20 || b == 0x09 || b == 0x0D || b == 0x0A
}

/// An ASCII decimal digit.
pub open spec fn is_digit(b: u8) -> bool {
    0x30 <= b && b <= 0x39
}

/// The first position at or after `i` that does not hold whitespace.
pub open spec fn skip_ws_v(s: Seq<u8>, i: int) -> int
    decreases s.len() - i,
{
    if i < 0 || i >= s.len() {
        i
    } else if is_ws(s[i]) {
        skip_ws_v(s, i + 1)
    } else {
        i
    }
}

/// What one escape letter stands for, if it is one of the accepted short
/// escapes.
pub open spec fn esc_byte_v(b: u8) -> Option<u8> {
    if b == '"' as u8 {
        Some(0x22u8)
    } else if b == '\\' as u8 {
        Some(0x5Cu8)
    } else if b == '/' as u8 {
        Some(0x2Fu8)
    } else if b == 'b' as u8 {
        Some(0x08u8)
    } else if b == 'f' as u8 {
        Some(0x0Cu8)
    } else if b == 'n' as u8 {
        Some(0x0Au8)
    } else if b == 'r' as u8 {
        Some(0x0Du8)
    } else if b == 't' as u8 {
        Some(0x09u8)
    } else {
        None
    }
}

/// The body of a JSON string from position `i` (just after the opening
/// quote) with `acc` already read: ends at an unescaped quote; a short
/// escape contributes its byte; a raw control byte, an unknown escape or a
/// missing closing quote is an error. Returns the content and the position
/// after the closing quote.
pub open spec fn str_body_v(s: Seq<u8>, i: int, acc: Seq<u8>) -> Option<(Seq<u8>, int)>
    decreases s.len() - i,
{
    if i < 0 || i >= s.len() {
        None
    } else if s[i] == 0x22 {
        Some((acc, i + 1))
    } else if s[i] == 0x5C {
        if i + 1 >= s.len() {
            None
        } else {
            match esc_byte_v(s[i + 1]) {
                Some(b) => str_body_v(s, i + 2, acc.push(b)),
                None => None,
            }
        }
    } else if s[i] < 0x20 {
        None
    } else {
        str_body_v(s, i + 1, acc.push(s[i]))
    }
}

/// A whole JSON string at position `i`: an opening quote, then its body.
pub open spec fn parse_string_v(s: Seq<u8>, i: int) -> Option<(Seq<u8>, int)> {
    if 0 <= i && i < s.len() && s[i] == 0x22 {
        str_body_v(s, i + 1, Seq::empty())
    } else {
        None
    }
}

/// The remaining digits of a non-negative integer from position `i`, with
/// `acc` already read: ends before the first non-digit; a value that would
/// not fit in 64 bits is an error.
pub open spec fn num_body_v(s: Seq<u8>, i: int, acc: u64) -> Option<(u64, int)>
    decreases s.len() - i,
{
    if i < 0 || i >= s.len() {
        Some((acc, if i < 0 { i } else { s.len() as int }))
    } else if !is_digit(s[i]) {
        Some((acc, i))
    } else {
        let d = (s[i] - 0x30) as u64;
        if acc <= (u64::MAX - d) / 10 {
            num_body_v(s, i + 1, (acc * 10 + d) as u64)
        } else {
            None
        }
    }
}

/// A non-negative integer at position `i`: one or more decimal digits.
pub open spec fn parse_num_v(s: Seq<u8>, i: int) -> Option<(u64, int)> {
    if 0 <= i && i < s.len() && is_digit(s[i]) {
        num_body_v(s, i + 1, (s[i] - 0x30) as u64)
    } else {
        None
    }
}

/// The members collected so far from an inbound object: each key appears at
/// most once.
pub struct Fields {
    pub t: Option<Vec<u8>>,
    pub data: Option<Vec<u8>>,
    pub cols: Option<u64>,
    pub rows: Option<u64>,
    pub sig: Option<Vec<u8>>,
}

/// The mathematical image of `Fields`.
#[verifier::ext_equal]
pub struct FieldsV {
    pub t: Option<Seq<u8>>,
    pub data: Option<Seq<u8>>,
    pub cols: Option<u64>,
    pub rows: Option<u64>,
    pub sig: Option<Seq<u8>>,
}

impl View for Fields {
    type V = FieldsV;

    open spec fn view(&self) -> FieldsV {
        FieldsV {
            t: match self.t {
                Some(ref v) => Some(v@),
                None => None,
            },
            data: match self.data {
                Some(ref v) => Some(v@),
                None => None,
            },
            cols: self.cols,
            rows: self.rows,
            sig: match self.sig {
                Some(ref v) => Some(v@),
                None => None,
            },
        }
    }
}

/// No members yet.
pub open spec fn empty_fields() -> FieldsV {
    FieldsV { t: None, data: None, cols: None, rows: None, sig: None }
}

pub open spec fn key_t() -> Seq<u8> {
    seq!['t' as u8]
}

pub open spec fn key_data() -> Seq<u8> {
    seq!['d' as u8, 'a' as u8, 't' as u8, 'a' as u8]
}

pub open spec fn key_cols() -> Seq<u8> {
    seq!['c' as u8, 'o' as u8, 'l' as u8, 's' as u8]
}

pub open spec fn key_rows() -> Seq<u8> {
    seq!['r' as u8, 'o' as u8, 'w' as u8, 's' as u8]
}

pub open spec fn key_sig() -> Seq<u8> {
    seq!['s' as u8, 'i' as u8, 'g' as u8]
}

/// One `"key": value` member at position `i`: the key must be one of the
/// protocol's keys, not yet seen; `t`, `data` and `sig` take strings, `cols`
/// and `rows` take non-negative integers. Returns the extended members and
/// the position after the value.
pub open spec fn member_v(s: Seq<u8>, i: int, f: FieldsV) -> Option<(FieldsV, int)> {
    let i1 = skip_ws_v(s, i);
    match parse_string_v(s, i1) {
        None => None,
        Some((key, i2)) => {
            let i3 = skip_ws_v(s, i2);
            if !(0 <= i3 && i3 < s.len() && s[i3] == ':' as u8) {
                None
            } else {
                let i4 = skip_ws_v(s, i3 + 1);
                if key == key_t() {
                    if f.t is Some {
                        None
                    } else {
                        match parse_string_v(s, i4) {
                            Some((v, j)) => Some((FieldsV { t: Some(v), ..f }, j)),
                            None => None,
                        }
                    }
                } else if key == key_data() {
                    if f.data is Some {
                        None
                    } else {
                        match parse_string_v(s, i4) {
                            Some((v, j)) => Some((FieldsV { data: Some(v), ..f }, j)),
                            None => None,
                        }
                    }
                } else if key == key_cols() {
                    if f.cols is Some {
                        None
                    } else {
                        match parse_num_v(s, i4) {
                            Some((v, j)) => Some((FieldsV { cols: Some(v), ..f }, j)),
                            None => None,
                        }
                    }
                } else if key == key_rows() {
                    if f.rows is Some {
                        None
                    } else {
                        match parse_num_v(s, i4) {
                            Some((v, j)) => Some((FieldsV { rows: Some(v), ..f }, j)),
                            None => None,
                        }
                    }
                } else if key == key_sig() {
                    if f.sig is Some {
                        None
                    } else {
                        match parse_string_v(s, i4) {
                            Some((v, j)) => Some((FieldsV { sig: Some(v), ..f }, j)),
                            None => None,
                        }
                    }
                } else {
                    None
                }
            }
        },
    }
}

/// The members of an object from position `i` up to and including the
/// closing brace. Five distinct keys exist, so five members are the most a
/// well-formed object can have; the fuel of 6 lets a sixth member be read
/// and rejected as a duplicate or unknown key rather than cut the grammar
/// short.
pub open spec fn members_v(s: Seq<u8>, i: int, f: FieldsV, fuel: nat) -> Option<(FieldsV, int)>
    decreases fuel,
{
    if fuel == 0 {
        None
    } else {
        match member_v(s, i, f) {
            None => None,
            Some((f2, j)) => {
                let j1 = skip_ws_v(s, j);
                if 0 <= j1 && j1 < s.len() && s[j1] == ',' as u8 {
                    members_v(s, j1 + 1, f2, (fuel - 1) as nat)
                } else if 0 <= j1 && j1 < s.len() && s[j1] == '}' as u8 {
                    Some((f2, j1 + 1))
                } else {
                    None
                }
            },
        }
    }
}

/// A whole inbound line as an object: optional whitespace, a brace-enclosed
/// member list (possibly empty), optional whitespace, end of line.
pub open spec fn parse_fields_v(s: Seq<u8>) -> Option<FieldsV> {
    let i0 = skip_ws_v(s, 0);
    if !(0 <= i0 && i0 < s.len() && s[i0] == '{' as u8) {
        None
    } else {
        let i1 = skip_ws_v(s, i0 + 1);
        if 0 <= i1 && i1 < s.len() && s[i1] == '}' as u8 {
            if skip_ws_v(s, i1 + 1) == s.len() {
                Some(empty_fields())
            } else {
                None
            }
        } else {
            match members_v(s, i0 + 1, empty_fields(), 6) {
                None => None,
                Some((f, j)) => {
                    if skip_ws_v(s, j) == s.len() {
                        Some(f)
                    } else {
                        None
                    }
                },
            }
        }
    }
}

pub open spec fn tag_input() -> Seq<u8> {
    seq!['i' as u8]
}

pub open spec fn tag_resize() -> Seq<u8> {
    seq!['r' as u8]
}

pub open spec fn tag_signal() -> Seq<u8> {
    seq!['s' as u8]
}

/// The message a completed member set stands for: the tag picks the
/// variant, exactly the variant's fields must be present, and geometry must
/// fit in 16 bits.
pub open spec fn msg_of_fields_v(f: FieldsV) -> Option<ToPtyV> {
    match f.t {
        None => None,
        Some(tag) => {
            if tag == tag_input() {
                match f.data {
                    Some(d) => {
                        if f.cols is None && f.rows is None && f.sig is None {
                            Some(ToPtyV::Input { data: d })
                        } else {
                            None
                        }
                    },
                    None => None,
                }
            } else if tag == tag_resize() {
                match (f.cols, f.rows) {
                    (Some(c), Some(r)) => {
                        if f.data is None && f.sig is None && c <= 0xFFFF && r <= 0xFFFF {
                            Some(ToPtyV::Resize { cols: c as u16, rows: r as u16 })
                        } else {
                            None
                        }
                    },
                    _ => None,
                }
            } else if tag == tag_signal() {
                match f.sig {
                    Some(sg) => {
                        if f.data is None && f.cols is None && f.rows is None {
                            Some(ToPtyV::Signal { sig: sg })
                        } else {
                            None
                        }
                    },
                    None => None,
                }
            } else {
                None
            }
        },
    }
}

/// What an inbound line means, if anything.
pub open spec fn parse_msg_v(s: Seq<u8>) -> Option<ToPtyV> {
    match parse_fields_v(s) {
        None => None,
        Some(f) => msg_of_fields_v(f),
    }
}

/// Whether two byte slices hold the same bytes.
pub fn bytes_eq(a: &[u8], b: &[u8]) -> (r: bool)
    ensures
        r == (a@ == b@),
{
    if a.len() != b.len() {
        proof {
            assert(a@ != b@) by {
                if a@ == b@ {
                    assert(a@.len() == b@.len());
                }
            }
        }
        return false;
    }
    let n = a.len();
    let mut i: usize = 0;
    while i < n
        invariant
            n == a@.len() && n == b@.len(),
            i <= n,
            forall|k: int| 0 <= k < i ==> a@[k] == b@[k],
        decreases n - i,
    {
        if a[i] != b[i] {
            return false;
        }
        i = i + 1;
    }
    proof {
        assert(a@ =~= b@);
    }
    true
}

/// Executable counterpart of `skip_ws_v`.
fn skip_ws(s: &[u8], i: usize) -> (j: usize)
    requires
        i <= s@.len(),
    ensures
        j == skip_ws_v(s@, i as int),
        i <= j <= s@.len(),
{
    let n = s.len();
    let mut j = i;
    while j < n && (s[j] == 0x20 || s[j] == 0x09 || s[j] == 0x0D || s[j] == 0x0A)
        invariant
            i <= j <= n,
            n == s@.len(),
            skip_ws_v(s@, i as int) == skip_ws_v(s@, j as int),
        decreases n - j,
    {
        proof {
            assert(skip_ws_v(s@, j as int) == skip_ws_v(s@, j as int + 1));
        }
        j = j + 1;
    }
    j
}

/// Executable counterpart of `str_body_v` starting with an empty
/// accumulator.
fn parse_str_body(s: &[u8], start: usize) -> (r: Option<(Vec<u8>, usize)>)
    requires
        start <= s@.len(),
    ensures
        match r {
            Some((v, j)) => str_body_v(s@, start as int, Seq::empty()) == Some((v@, j as int))
                && j <= s@.len(),
            None => str_body_v(s@, start as int, Seq::empty()) is None,
        },
{
    let n = s.len();
    let mut i = start;
    let mut acc: Vec<u8> = Vec::new();
    loop
        invariant
            start <= i <= n,
            n == s@.len(),
            str_body_v(s@, start as int, Seq::empty()) == str_body_v(s@, i as int, acc@),
        decreases n - i,
    {
        if i >= n {
            return None;
        }
        let b = s[i];
        if b == 0x22 {
            return Some((acc, i + 1));
        } else if b == 0x5C {
            if i + 1 >= n {
                return None;
            }
            let e = s[i + 1];
            let dec: u8 = if e == 0x22 {
                0x22
            } else if e == 0x5C {
                0x5C
            } else if e == 0x2F {
                0x2F
            } else if e == 0x62 {
                0x08
            } else if e == 0x66 {
                0x0C
            } else if e == 0x6E {
                0x0A
            } else if e == 0x72 {
                0x0D
            } else if e == 0x74 {
                0x09
            } else {
                return None;
            };
            proof {
                assert(esc_byte_v(e) == Some(dec));
            }
            acc.push(dec);
            i = i + 2;
        } else if b < 0x20 {
            return None;
        } else {
            acc.push(b);
            i = i + 1;
        }
    }
}

/// Executable counterpart of `parse_string_v`.
fn parse_string(s: &[u8], i: usize) -> (r: Option<(Vec<u8>, usize)>)
    requires
        i <= s@.len(),
    ensures
        match r {
            Some((v, j)) => parse_string_v(s@, i as int) == Some((v@, j as int)) && j <= s@.len(),
            None => parse_string_v(s@, i as int) is None,
        },
{
    if i < s.len() && s[i] == 0x22 {
        parse_str_body(s, i + 1)
    } else {
        None
    }
}

/// Executable counterpart of `parse_num_v`.
fn parse_num(s: &[u8], i: usize) -> (r: Option<(u64, usize)>)
    requires
        i <= s@.len(),
    ensures
        match r {
            Some((v, j)) => parse_num_v(s@, i as int) == Some((v, j as int)) && j <= s@.len(),
            None => parse_num_v(s@, i as int) is None,
        },
{
    let n = s.len();
    if !(i < n && 0x30 <= s[i] && s[i] <= 0x39) {
        return None;
    }
    let mut acc: u64 = (s[i] - 0x30) as u64;
    let mut j = i + 1;
    loop
        invariant
            i < j <= n,
            n == s@.len(),
            parse_num_v(s@, i as int) == num_body_v(s@, j as int, acc),
        decreases n - j,
    {
        if j >= n {
            return Some((acc, j));
        }
        let b = s[j];
        if !(0x30 <= b && b <= 0x39) {
            return Some((acc, j));
        }
        let d = (b - 0x30) as u64;
        if acc > (u64::MAX - d) / 10 {
            return None;
        }
        acc = acc * 10 + d;
        j = j + 1;
    }
}

/// Executable counterpart of `member_v`.
fn parse_member(s: &[u8], i: usize, f: Fields) -> (r: Option<(Fields, usize)>)
    requires
        i <= s@.len(),
    ensures
        match r {
            Some((f2, j)) => member_v(s@, i as int, f@) == Some((f2@, j as int)) && j <= s@.len(),
            None => member_v(s@, i as int, f@) is None,
        },
{
    let i1 = skip_ws(s, i);
    let (key, i2) = match parse_string(s, i1) {
        Some(kj) => kj,
        None => {
            return None;
        },
    };
    let i3 = skip_ws(s, i2);
    if !(i3 < s.len() && s[i3] == 0x3A) {
        return None;
    }
    let i4 = skip_ws(s, i3 + 1);
    let kt: bool = key.len() == 1 && key[0] == 0x74;
    proof {
        assert(kt == (key@ == key_t())) by {
            if key@.len() == 1 && key@[0] == 0x74 {
                assert(key@ =~= key_t());
            }
        }
    }
    if kt {
        if f.t.is_some() {
            return None;
        }
        match parse_string(s, i4) {
            Some((v, j)) => {
                let f2 = Fields { t: Some(v), ..f };
                proof {
                    assert(f2@ =~= (FieldsV { t: Some(f2@.t->0), ..f@ }));
                }
                return Some((f2, j));
            },
            None => {
                return None;
            },
        }
    }
    let kd: bool = key.len() == 4 && key[0] == 0x64 && key[1] == 0x61 && key[2] == 0x74 && key[3]
        == 0x61;
    proof {
        assert(kd == (key@ == key_data())) by {
            if key@.len() == 4 && key@[0] == 0x64 && key@[1] == 0x61 && key@[2] == 0x74 && key@[3]
                == 0x61 {
                assert(key@ =~= key_data());
            }
        }
    }
    if kd {
        if f.data.is_some() {
            return None;
        }
        match parse_string(s, i4) {
            Some((v, j)) => {
                return Some((Fields { data: Some(v), ..f }, j));
            },
            None => {
                return None;
            },
        }
    }
    let kc: bool = key.len() == 4 && key[0] == 0x63 && key[1] == 0x6F && key[2] == 0x6C && key[3]
        == 0x73;
    proof {
        assert(kc == (key@ == key_cols())) by {
            if key@.len() == 4 && key@[0] == 0x63 && key@[1] == 0x6F && key@[2] == 0x6C && key@[3]
                == 0x73 {
                assert(key@ =~= key_cols());
            }
        }
    }
    if kc {
        if f.cols.is_some() {
            return None;
        }
        match parse_num(s, i4) {
            Some((v, j)) => {
                return Some((Fields { cols: Some(v), ..f }, j));
            },
            None => {
                return None;
            },
        }
    }
    let kr: bool = key.len() == 4 && key[0] == 0x72 && key[1] == 0x6F && key[2] == 0x77 && key[3]
        == 0x73;
    proof {
        assert(kr == (key@ == key_rows())) by {
            if key@.len() == 4 && key@[0] == 0x72 && key@[1] == 0x6F && key@[2] == 0x77 && key@[3]
                == 0x73 {
                assert(key@ =~= key_rows());
            }
        }
    }
    if kr {
        if f.rows.is_some() {
            return None;
        }
        match parse_num(s, i4) {
            Some((v, j)) => {
                return Some((Fields { rows: Some(v), ..f }, j));
            },
            None => {
                return None;
            },
        }
    }
    let ks: bool = key.len() == 3 && key[0] == 0x73 && key[1] == 0x69 && key[2] == 0x67;
    proof {
        assert(ks == (key@ == key_sig())) by {
            if key@.len() == 3 && key@[0] == 0x73 && key@[1] == 0x69 && key@[2] == 0x67 {
                assert(key@ =~= key_sig());
            }
        }
    }
    if ks {
        if f.sig.is_some() {
            return None;
        }
        match parse_string(s, i4) {
            Some((v, j)) => {
                return Some((Fields { sig: Some(v), ..f }, j));
            },
            None => {
                return None;
            },
        }
    }
    None
}

/// Executable counterpart of `members_v`.
fn parse_members(s: &[u8], i: usize, f: Fields, fuel: u8) -> (r: Option<(Fields, usize)>)
    requires
        i <= s@.len(),
    ensures
        match r {
            Some((f2, j)) => members_v(s@, i as int, f@, fuel as nat) == Some((f2@, j as int))
                && j <= s@.len(),
            None => members_v(s@, i as int, f@, fuel as nat) is None,
        },
    decreases fuel,
{
    if fuel == 0 {
        return None;
    }
    let (f2, j) = match parse_member(s, i, f) {
        Some(fj) => fj,
        None => {
            return None;
        },
    };
    let j1 = skip_ws(s, j);
    if j1 < s.len() && s[j1] == 0x2C {
        parse_members(s, j1 + 1, f2, fuel - 1)
    } else if j1 < s.len() && s[j1] == 0x7D {
        Some((f2, j1 + 1))
    } else {
        None
    }
}

/// Parse one inbound line, as `parse_msg_v` states: `Some` exactly on the
/// lines the grammar accepts, returning the message they encode.
pub fn parse_to_pty(line: &[u8]) -> (r: Option<ToPty>)
    ensures
        match r {
            Some(m) => parse_msg_v(line@) == Some(m@),
            None => parse_msg_v(line@) is None,
        },
{
    let i0 = skip_ws(line, 0);
    if !(i0 < line.len() && line[i0] == 0x7B) {
        return None;
    }
    let i1 = skip_ws(line, i0 + 1);
    let f: Fields = if i1 < line.len() && line[i1] == 0x7D {
        if skip_ws(line, i1 + 1) == line.len() {
            Fields { t: None, data: None, cols: None, rows: None, sig: None }
        } else {
            return None;
        }
    } else {
        let empty = Fields { t: None, data: None, cols: None, rows: None, sig: None };
        proof {
            assert(empty@ =~= empty_fields());
        }
        match parse_members(line, i0 + 1, empty, 6) {
            Some((f, j)) => {
                if skip_ws(line, j) == line.len() {
                    f
                } else {
                    return None;
                }
            },
            None => {
                return None;
            },
        }
    };
    proof {
        assert(parse_fields_v(line@) == Some(f@));
    }
    msg_of_fields(f)
}

/// Executable counterpart of `msg_of_fields_v`.
fn msg_of_fields(f: Fields) -> (r: Option<ToPty>)
    ensures
        match r {
            Some(m) => msg_of_fields_v(f@) == Some(m@),
            None => msg_of_fields_v(f@) is None,
        },
{
    let Fields { t, data, cols, rows, sig } = f;
    let tag = match t {
        Some(tag) => tag,
        None => {
            return None;
        },
    };
    if tag.len() == 1 && tag[0] == 0x69 {
        proof {
            assert(tag@ =~= tag_input());
        }
        match (data, cols, rows, sig) {
            (Some(d), None, None, None) => Some(ToPty::Input { data: d }),
            _ => None,
        }
    } else if tag.len() == 1 && tag[0] == 0x72 {
        proof {
            assert(tag@ =~= tag_resize());
            assert(tag@ != tag_input());
        }
        match (data, cols, rows, sig) {
            (None, Some(c), Some(r), None) => {
                if c <= 0xFFFF && r <= 0xFFFF {
                    Some(ToPty::Resize { cols: c as u16, rows: r as u16 })
                } else {
                    None
                }
            },
            _ => None,
        }
    } else if tag.len() == 1 && tag[0] == 0x73 {
        proof {
            assert(tag@ =~= tag_signal());
            assert(tag@ != tag_input());
            assert(tag@ != tag_resize());
        }
        match (data, cols, rows, sig) {
            (None, None, None, Some(sg)) => Some(ToPty::Signal { sig: sg }),
            _ => None,
        }
    } else {
        proof {
            assert(tag@ != tag_input() && tag@ != tag_resize() && tag@ != tag_signal()) by {
                if tag@ == tag_input() || tag@ == tag_resize() || tag@ == tag_signal() {
                    assert(tag@.len() == 1);
                }
            }
        }
        None
    }
}

/// The decimal digits of `n`, most significant first.
pub open spec fn dec_v(n: nat) -> Seq<u8>
    decreases n,
{
    if n < 10 {
        seq![(0x30 + n) as u8]
    } else {
        dec_v(n / 10).push((0x30 + n % 10) as u8)
    }
}

/// Append the decimal digits of `n`.
fn push_dec(out: &mut Vec<u8>, n: u64)
    ensures
        final(out)@ == old(out)@ + dec_v(n as nat),
    decreases n,
{
    if n >= 10 {
        push_dec(out, n / 10);
    }
    out.push(0x30 + (n % 10) as u8);
    proof {
        if n < 10 {
            assert(out@ =~= old(out)@ + dec_v(n as nat));
        } else {
            assert(out@ =~= old(out)@ + dec_v(n as nat));
        }
    }
}

/// The hexadecimal digit for a value below 16, lower case.
pub open spec fn hex_digit_v(n: u8) -> u8 {
    if n < 10 {
        (0x30 + n) as u8
    } else {
        (0x57 + n) as u8
    }
}

/// How one byte appears inside a rendered JSON string: quote and backslash
/// get a backslash, the common control characters their short escapes,
/// other control bytes a four-digit escape, and everything else stands for
/// itself.
pub open spec fn esc_enc_v(b: u8) -> Seq<u8> {
    if b == 0x22 {
        seq![0x5Cu8, 0x22u8]
    } else if b == 0x5C {
        seq![0x5Cu8, 0x5Cu8]
    } else if b == 0x08 {
        seq![0x5Cu8, 'b' as u8]
    } else if b == 0x09 {
        seq![0x5Cu8, 't' as u8]
    } else if b == 0x0A {
        seq![0x5Cu8, 'n' as u8]
    } else if b == 0x0C {
        seq![0x5Cu8, 'f' as u8]
    } else if b == 0x0D {
        seq![0x5Cu8, 'r' as u8]
    } else if b < 0x20 {
        seq!['\\' as u8, 'u' as u8, '0' as u8, '0' as u8, hex_digit_v(b / 16), hex_digit_v(b % 16)]
    } else {
        seq![b]
    }
}

/// A byte sequence as it appears inside a rendered JSON string.
pub open spec fn json_escaped_v(s: Seq<u8>) -> Seq<u8>
    decreases s.len(),
{
    if s.len() == 0 {
        Seq::empty()
    } else {
        esc_enc_v(s[0]) + json_escaped_v(s.drop_first())
    }
}

/// Escaping a sequence one byte longer appends that byte's escape.
proof fn lemma_escaped_snoc(s: Seq<u8>, b: u8)
    ensures
        json_escaped_v(s.push(b)) == json_escaped_v(s) + esc_enc_v(b),
    decreases s.len(),
{
    if s.len() == 0 {
        assert(s.push(b)[0] == b);
        assert(s.push(b).drop_first() =~= Seq::<u8>::empty());
        assert(json_escaped_v(Seq::<u8>::empty()) == Seq::<u8>::empty());
        assert(json_escaped_v(s) == Seq::<u8>::empty());
        assert(json_escaped_v(s.push(b)) =~= json_escaped_v(s) + esc_enc_v(b));
    } else {
        assert(s.push(b)[0] == s[0]);
        assert(s.push(b).drop_first() =~= s.drop_first().push(b));
        lemma_escaped_snoc(s.drop_first(), b);
        assert(json_escaped_v(s.push(b)) == esc_enc_v(s[0]) + (json_escaped_v(s.drop_first())
            + esc_enc_v(b)));
        assert(esc_enc_v(s[0]) + (json_escaped_v(s.drop_first()) + esc_enc_v(b)) =~= (esc_enc_v(
            s[0],
        ) + json_escaped_v(s.drop_first())) + esc_enc_v(b));
    }
}

/// Append `s` with JSON string escaping applied.
fn push_escaped(out: &mut Vec<u8>, s: &[u8])
    ensures
        final(out)@ == old(out)@ + json_escaped_v(s@),
{
    let n = s.len();
    let mut i: usize = 0;
    proof {
        assert(s@.subrange(0, 0) =~= Seq::<u8>::empty());
        assert(out@ =~= out@ + json_escaped_v(s@.subrange(0, 0)));
    }
    while i < n
        invariant
            i <= n,
            n == s@.len(),
            out@ == old(out)@ + json_escaped_v(s@.subrange(0, i as int)),
        decreases n - i,
    {
        let b = s[i];
        if b == 0x22 {
            out.push(0x5C);
            out.push(0x22);
        } else if b == 0x5C {
            out.push(0x5C);
            out.push(0x5C);
        } else if b == 0x08 {
            out.push(0x5C);
            out.push(0x62);
        } else if b == 0x09 {
            out.push(0x5C);
            out.push(0x74);
        } else if b == 0x0A {
            out.push(0x5C);
            out.push(0x6E);
        } else if b == 0x0C {
            out.push(0x5C);
            out.push(0x66);
        } else if b == 0x0D {
            out.push(0x5C);
            out.push(0x72);
        } else if b < 0x20 {
            out.push(0x5C);
            out.push(0x75);
            out.push(0x30);
            out.push(0x30);
            out.push(if b / 16 < 10 {
                0x30 + b / 16
            } else {
                0x57 + b / 16
            });
            out.push(if b % 16 < 10 {
                0x30 + b % 16
            } else {
                0x57 + b % 16
            });
        } else {
            out.push(b);
        }
        proof {
            lemma_escaped_snoc(s@.subrange(0, i as int), b);
            assert(s@.subrange(0, i as int + 1) =~= s@.subrange(0, i as int).push(b));
            assert(out@ =~= old(out)@ + json_escaped_v(s@.subrange(0, i as int + 1)));
        }
        i = i + 1;
    }
    proof {
        assert(s@.subrange(0, n as int) =~= s@);
    }
}

/// `{"t":"o","data":"`
pub open spec fn output_head() -> Seq<u8> {
    seq![
        '{' as u8, '"' as u8, 't' as u8, '"' as u8, ':' as u8, '"' as u8, 'o' as u8, '"' as u8,
        ',' as u8, '"' as u8, 'd' as u8, 'a' as u8, 't' as u8, 'a' as u8, '"' as u8, ':' as u8,
        '"' as u8,
    ]
}

/// `","seq":`
pub open spec fn output_mid() -> Seq<u8> {
    seq!['"' as u8, ',' as u8, '"' as u8, 's' as u8, 'e' as u8, 'q' as u8, '"' as u8, ':' as u8]
}

/// An outbound output line: the transport form `data` (which carries no
/// byte that JSON requires escaped) and its sequence number.
pub open spec fn output_line_v(data: Seq<u8>, n: nat) -> Seq<u8> {
    output_head() + data + output_mid() + dec_v(n) + seq!['}' as u8]
}

/// `{"t":"x","code":`
pub open spec fn exit_head() -> Seq<u8> {
    seq![
        '{' as u8, '"' as u8, 't' as u8, '"' as u8, ':' as u8, '"' as u8, 'x' as u8, '"' as u8,
        ',' as u8, '"' as u8, 'c' as u8, 'o' as u8, 'd' as u8, 'e' as u8, '"' as u8, ':' as u8,
    ]
}

/// `,"signal":"`
pub open spec fn exit_sig() -> Seq<u8> {
    seq![
        ',' as u8, '"' as u8, 's' as u8, 'i' as u8, 'g' as u8, 'n' as u8, 'a' as u8, 'l' as u8,
        '"' as u8, ':' as u8, '"' as u8,
    ]
}

/// An outbound exit line: the exit code and, when the child was ended by a
/// signal, that signal's name (escaped); the name is omitted otherwise.
pub open spec fn exit_line_v(code: nat, signal: Option<Seq<u8>>) -> Seq<u8> {
    exit_head() + dec_v(code) + (match signal {
        Some(sg) => exit_sig() + json_escaped_v(sg) + seq!['"' as u8],
        None => Seq::<u8>::empty(),
    }) + seq!['}' as u8]
}

/// Render one output line, as `output_line_v` states.
pub fn render_output_line(data: &[u8], n: u64) -> (line: Vec<u8>)
    ensures
        line@ == output_line_v(data@, n as nat),
{
    let mut out: Vec<u8> = Vec::new();
    out.push(0x7B);
    out.push(0x22);
    out.push(0x74);
    out.push(0x22);
    out.push(0x3A);
    out.push(0x22);
    out.push(0x6F);
    out.push(0x22);
    out.push(0x2C);
    out.push(0x22);
    out.push(0x64);
    out.push(0x61);
    out.push(0x74);
    out.push(0x61);
    out.push(0x22);
    out.push(0x3A);
    out.push(0x22);
    proof {
        assert(out@ =~= output_head());
    }
    out.extend_from_slice(data);
    out.push(0x22);
    out.push(0x2C);
    out.push(0x22);
    out.push(0x73);
    out.push(0x65);
    out.push(0x71);
    out.push(0x22);
    out.push(0x3A);
    proof {
        assert(out@ =~= output_head() + data@ + output_mid());
    }
    push_dec(&mut out, n);
    out.push(0x7D);
    proof {
        assert(out@ =~= output_line_v(data@, n as nat));
    }
    out
}

/// Render one exit line, as `exit_line_v` states.
pub fn render_exit_line(code: u64, signal: Option<&Vec<u8>>) -> (line: Vec<u8>)
    ensures
        line@ == exit_line_v(
            code as nat,
            match signal {
                Some(sg) => Some(sg@),
                None => None,
            },
        ),
{
    let mut out: Vec<u8> = Vec::new();
    out.push(0x7B);
    out.push(0x22);
    out.push(0x74);
    out.push(0x22);
    out.push(0x3A);
    out.push(0x22);
    out.push(0x78);
    out.push(0x22);
    out.push(0x2C);
    out.push(0x22);
    out.push(0x63);
    out.push(0x6F);
    out.push(0x64);
    out.push(0x65);
    out.push(0x22);
    out.push(0x3A);
    proof {
        assert(out@ =~= exit_head());
    }
    push_dec(&mut out, code);
    if let Some(sg) = signal {
        out.push(0x2C);
        out.push(0x22);
        out.push(0x73);
        out.push(0x69);
        out.push(0x67);
        out.push(0x6E);
        out.push(0x61);
        out.push(0x6C);
        out.push(0x22);
        out.push(0x3A);
        out.push(0x22);
        proof {
            assert(out@ =~= exit_head() + dec_v(code as nat) + exit_sig());
        }
        push_escaped(&mut out, sg.as_slice());
        out.push(0x22);
    }
    out.push(0x7D);
    proof {
        assert(out@ =~= exit_line_v(
            code as nat,
            match signal {
                Some(sg) => Some(sg@),
                None => None,
            },
        ));
    }
    out
}

/// Whether a line is blank: nothing but whitespace.
pub open spec fn is_blank_v(s: Seq<u8>) -> bool {
    forall|i: int| 0 <= i < s.len() ==> is_ws(#[trigger] s[i])
}

/// Whether a line holds only whitespace, as `is_blank_v` states.
pub fn is_blank(line: &[u8]) -> (r: bool)
    ensures
        r == is_blank_v(line@),
{
    let n = line.len();
    let mut i: usize = 0;
    while i < n
        invariant
            i <= n,
            n == line@.len(),
            forall|k: int| 0 <= k < i ==> is_ws(#[trigger] line@[k]),
        decreases n - i,
    {
        let b = line[i];
        if !(b == 0x20 || b == 0x09 || b == 0x0D || b == 0x0A) {
            return false;
        }
        i = i + 1;
    }
    true
}

} // verus!
