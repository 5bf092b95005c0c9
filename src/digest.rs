//! The `Authorization: Digest ...` header and the MD5 challenge-response value.
use vstd::prelude::*;
use vstd::utf8::encode_utf8;
use crate::text::{chars_of, collect_range, find_char, push_char, range_eq, strip_range};
use crate::text::{index_of, trim, trim_quotes};

verus! {

/// Number of fields that a Digest header carries.
pub const FIELD_COUNT: usize = 9;

/// Position of a field name in the view of an [`Authorization`], or -1 for a name
/// that is ignored.
pub open spec fn field_index(k: Seq<char>) -> int {
    if k == seq!['u', 's', 'e', 'r', 'n', 'a', 'm', 'e'] {
        0
    } else if k == seq!['r', 'e', 'a', 'l', 'm'] {
        1
    } else if k == seq!['n', 'o', 'n', 'c', 'e'] {
        2
    } else if k == seq!['u', 'r', 'i'] {
        3
    } else if k == seq!['q', 'o', 'p'] {
        4
    } else if k == seq!['n', 'c'] {
        5
    } else if k == seq!['c', 'n', 'o', 'n', 'c', 'e'] {
        6
    } else if k == seq!['r', 'e', 's', 'p', 'o', 'n', 's', 'e'] {
        7
    } else if k == seq!['o', 'p', 'a', 'q', 'u', 'e'] {
        8
    } else {
        -1
    }
}

/// Why a header could not be read, in the model of the parser.
pub enum HeaderFault {
    NotDigest,
    InvalidPart(Seq<char>),
}

/// Every field empty.
pub open spec fn empty_fields() -> Seq<Seq<char>> {
    Seq::new(FIELD_COUNT as nat, |i: int| Seq::<char>::empty())
}

/// One comma-separated part `key=value`: the part is trimmed, split at its first
/// `=`, the value loses its surrounding whitespace, then its surrounding quotes; a key
/// that names no field leaves the fields as they were.
pub open spec fn apply_part(fields: Seq<Seq<char>>, part: Seq<char>) -> Result<
    Seq<Seq<char>>,
    HeaderFault,
> {
    let c = trim(part);
    let e = index_of(c, '=');
    if e < 0 {
        Err(HeaderFault::InvalidPart(c))
    } else {
        let i = field_index(c.take(e));
        if i < 0 {
            Ok(fields)
        } else {
            Ok(fields.update(i, trim_quotes(trim(c.skip(e + 1)))))
        }
    }
}

/// The parts of `rest`, separated by commas, applied from left to right; the first
/// part without `=` stops the reading.
pub open spec fn parse_parts(rest: Seq<char>, fields: Seq<Seq<char>>) -> Result<
    Seq<Seq<char>>,
    HeaderFault,
>
    decreases rest.len(),
{
    let j = index_of(rest, ',');
    let more = 0 <= j < rest.len();
    let part = if more {
        rest.take(j)
    } else {
        rest
    };
    match apply_part(fields, part) {
        Err(e) => Err(e),
        Ok(f) => if more {
            parse_parts(rest.skip(j + 1), f)
        } else {
            Ok(f)
        },
    }
}

pub open spec fn digest_mark() -> Seq<char> {
    seq!['D', 'i', 'g', 'e', 's', 't']
}

/// The fields of a header value: it must start with `Digest`; the rest, trimmed, is
/// read by [`parse_parts`] from all fields empty.
pub open spec fn parse_header(s: Seq<char>) -> Result<Seq<Seq<char>>, HeaderFault> {
    if s.len() >= 6 && s.take(6) == digest_mark() {
        parse_parts(trim(s.skip(6)), empty_fields())
    } else {
        Err(HeaderFault::NotDigest)
    }
}

/// The fields of a Digest `Authorization` header.
#[derive(Debug, Default)]
pub struct Authorization {
    pub username: String,
    pub realm: String,
    pub nonce: String,
    pub uri: String,
    pub qop: String,
    pub nc: String,
    pub cnonce: String,
    pub response: String,
    pub opaque: String,
}

impl View for Authorization {
    type V = Seq<Seq<char>>;

    open spec fn view(&self) -> Seq<Seq<char>> {
        seq![
            self.username@,
            self.realm@,
            self.nonce@,
            self.uri@,
            self.qop@,
            self.nc@,
            self.cnonce@,
            self.response@,
            self.opaque@,
        ]
    }
}

/// A header that could not be read.
#[derive(Debug, PartialEq, Eq)]
pub enum HeaderError {
    /// The value does not start with `Digest`.
    NotDigest,
    /// A part holds no `=`; `part` is that part, trimmed.
    InvalidPart { part: String },
}

impl View for HeaderError {
    type V = HeaderFault;

    open spec fn view(&self) -> HeaderFault {
        match self {
            HeaderError::NotDigest => HeaderFault::NotDigest,
            HeaderError::InvalidPart { part } => HeaderFault::InvalidPart(part@),
        }
    }
}

pub open spec fn parsed_view(r: Result<Authorization, HeaderError>) -> Result<
    Seq<Seq<char>>,
    HeaderFault,
> {
    match r {
        Ok(a) => Ok(a@),
        Err(e) => Err(e@),
    }
}

impl HeaderError {
    /// The text that tells a client what was wrong.
    pub fn message(&self) -> (r: String)
        ensures
            self is NotDigest ==> r@ == "only support digest authorization"@,
            self matches HeaderError::InvalidPart { part } ==> r@
                == "invalid part of authorization: "@ + part@,
    {
        match self {
            HeaderError::NotDigest => String::from_str("only support digest authorization"),
            HeaderError::InvalidPart { part } => {
                let mut r = String::from_str("invalid part of authorization: ");
                r.append(part.as_str());
                r
            },
        }
    }
}

impl Authorization {
    /// All fields empty.
    pub fn empty() -> (r: Authorization)
        ensures
            r@ == empty_fields(),
    {
        let r = Authorization {
            username: String::new(),
            realm: String::new(),
            nonce: String::new(),
            uri: String::new(),
            qop: String::new(),
            nc: String::new(),
            cnonce: String::new(),
            response: String::new(),
            opaque: String::new(),
        };
        assert(r@ =~= empty_fields());
        r
    }

    fn set_field(&mut self, i: usize, v: String)
        requires
            i < FIELD_COUNT,
        ensures
            final(self)@ == old(self)@.update(i as int, v@),
    {
        let ghost before = self@;
        match i {
            0 => self.username = v,
            1 => self.realm = v,
            2 => self.nonce = v,
            3 => self.uri = v,
            4 => self.qop = v,
            5 => self.nc = v,
            6 => self.cnonce = v,
            7 => self.response = v,
            _ => self.opaque = v,
        }
        assert(self@ =~= before.update(i as int, v@));
    }

    /// Reads a header value of the form `Digest key="value", key=value, ...`.
    pub fn from_header(auth: &str) -> (r: Result<Authorization, HeaderError>)
        ensures
            parsed_view(r) == parse_header(auth@),
    {
        let chars = chars_of(auth);
        let n = chars.len();
        if n < 6 || !range_eq(&chars, 0, 6, &['D', 'i', 'g', 'e', 's', 't']) {
            proof {
                if n >= 6 {
                    assert(chars@.take(6) =~= chars@.subrange(0, 6));
                    assert(['D', 'i', 'g', 'e', 's', 't']@ =~= digest_mark());
                }
            }
            return Err(HeaderError::NotDigest);
        }
        assert(chars@.take(6) =~= chars@.subrange(0, 6));
        assert(['D', 'i', 'g', 'e', 's', 't']@ =~= digest_mark());
        assert(chars@.skip(6) =~= chars@.subrange(6, n as int));
        let (lo, hi) = strip_range(&chars, 6, n, None);
        let mut result = Authorization::empty();
        let mut start = lo;
        loop
            invariant
                lo <= start <= hi <= n == chars@.len(),
                chars@ == auth@,
                parse_header(auth@) == parse_parts(chars@.subrange(start as int, hi as int), result@),
            decreases hi - start,
        {
            let ghost rest = chars@.subrange(start as int, hi as int);
            let ghost before = result@;
            let j = find_char(&chars, start, hi, ',');
            let ghost part = chars@.subrange(start as int, j as int);
            assert(j < hi ==> rest.take(j - start) =~= part);
            assert(j == hi ==> rest =~= part);
            let (a, b) = strip_range(&chars, start, j, None);
            let e = find_char(&chars, a, b, '=');
            if e == b {
                return Err(HeaderError::InvalidPart { part: collect_range(&chars, a, b) });
            }
            let ghost c = chars@.subrange(a as int, b as int);
            assert(c.take(e - a) =~= chars@.subrange(a as int, e as int));
            assert(c.skip(e - a + 1) =~= chars@.subrange(e + 1, b as int));
            let (wa, wb) = strip_range(&chars, e + 1, b, None);
            let (va, vb) = strip_range(&chars, wa, wb, Some('"'));
            let idx = field_of(&chars, a, e);
            if idx < FIELD_COUNT {
                let v = collect_range(&chars, va, vb);
                result.set_field(idx, v);
            }
            if j == hi {
                return Ok(result);
            }
            assert(rest.skip(j - start + 1) =~= chars@.subrange(j + 1, hi as int));
            start = j + 1;
        }
    }
}

/// Index of the field that `chars[lo..hi]` names, or `FIELD_COUNT` for a name that
/// is ignored.
fn field_of(chars: &Vec<char>, lo: usize, hi: usize) -> (r: usize)
    requires
        lo <= hi <= chars@.len(),
    ensures
        r <= FIELD_COUNT,
        r < FIELD_COUNT ==> r == field_index(chars@.subrange(lo as int, hi as int)),
        r == FIELD_COUNT ==> field_index(chars@.subrange(lo as int, hi as int)) < 0,
{
    let ghost k = chars@.subrange(lo as int, hi as int);
    assert(['u', 's', 'e', 'r', 'n', 'a', 'm', 'e']@ =~= seq!['u', 's', 'e', 'r', 'n', 'a', 'm', 'e']);
    if range_eq(chars, lo, hi, &['u', 's', 'e', 'r', 'n', 'a', 'm', 'e']) {
        return 0;
    }
    assert(['r', 'e', 'a', 'l', 'm']@ =~= seq!['r', 'e', 'a', 'l', 'm']);
    if range_eq(chars, lo, hi, &['r', 'e', 'a', 'l', 'm']) {
        return 1;
    }
    assert(['n', 'o', 'n', 'c', 'e']@ =~= seq!['n', 'o', 'n', 'c', 'e']);
    if range_eq(chars, lo, hi, &['n', 'o', 'n', 'c', 'e']) {
        return 2;
    }
    assert(['u', 'r', 'i']@ =~= seq!['u', 'r', 'i']);
    if range_eq(chars, lo, hi, &['u', 'r', 'i']) {
        return 3;
    }
    assert(['q', 'o', 'p']@ =~= seq!['q', 'o', 'p']);
    if range_eq(chars, lo, hi, &['q', 'o', 'p']) {
        return 4;
    }
    assert(['n', 'c']@ =~= seq!['n', 'c']);
    if range_eq(chars, lo, hi, &['n', 'c']) {
        return 5;
    }
    assert(['c', 'n', 'o', 'n', 'c', 'e']@ =~= seq!['c', 'n', 'o', 'n', 'c', 'e']);
    if range_eq(chars, lo, hi, &['c', 'n', 'o', 'n', 'c', 'e']) {
        return 6;
    }
    assert(['r', 'e', 's', 'p', 'o', 'n', 's', 'e']@ =~= seq!['r', 'e', 's', 'p', 'o', 'n', 's', 'e']);
    if range_eq(chars, lo, hi, &['r', 'e', 's', 'p', 'o', 'n', 's', 'e']) {
        return 7;
    }
    assert(['o', 'p', 'a', 'q', 'u', 'e']@ =~= seq!['o', 'p', 'a', 'q', 'u', 'e']);
    if range_eq(chars, lo, hi, &['o', 'p', 'a', 'q', 'u', 'e']) {
        return 8;
    }
    FIELD_COUNT
}

/// The MD5 digest of a byte string.
pub uninterp spec fn md5_of(data: Seq<u8>) -> Seq<u8>;

/// Relies on `md5::compute`: the 16-byte MD5 digest of `data`, which depends on the
/// bytes alone.
#[verifier::external_body]
fn md5_digest(data: &[u8]) -> (r: [u8; 16])
    ensures
        r@ == md5_of(data@),
{
    md5::compute(data).0
}

/// Lower-case hexadecimal digit of a value below 16.
pub open spec fn hex_digit(n: int) -> char {
    seq!['0', '1', '2', '3', '4', '5', '6', '7', '8', '9', 'a', 'b', 'c', 'd', 'e', 'f'][n]
}

/// Two lower-case hex digits for each byte, the high one first.
pub open spec fn hex_of(b: Seq<u8>) -> Seq<char> {
    Seq::new(
        2 * b.len(),
        |i: int|
            if i % 2 == 0 {
                hex_digit(b[i / 2] as int / 16)
            } else {
                hex_digit(b[i / 2] as int % 16)
            },
    )
}

fn hex_digit_exec(n: u8) -> (r: char)
    requires
        n < 16,
    ensures
        r == hex_digit(n as int),
{
    match n {
        0 => '0',
        1 => '1',
        2 => '2',
        3 => '3',
        4 => '4',
        5 => '5',
        6 => '6',
        7 => '7',
        8 => '8',
        9 => '9',
        10 => 'a',
        11 => 'b',
        12 => 'c',
        13 => 'd',
        14 => 'e',
        _ => 'f',
    }
}

/// Renders bytes as lower-case hex, two digits for each byte.
pub fn to_hex(b: &[u8]) -> (r: String)
    ensures
        r@ == hex_of(b@),
{
    let mut r = String::new();
    let mut k: usize = 0;
    while k < b.len()
        invariant
            0 <= k <= b@.len(),
            r@ =~= hex_of(b@.take(k as int)),
        decreases b@.len() - k,
    {
        let ghost before = r@;
        let x = b[k];
        push_char(&mut r, hex_digit_exec(x / 16));
        push_char(&mut r, hex_digit_exec(x % 16));
        assert(r@ =~= hex_of(b@.take(k + 1))) by {
            assert forall|i: int| 0 <= i < 2 * k implies #[trigger] hex_of(b@.take(k + 1))[i]
                == before[i] by {
                assert((i / 2) < k) by (nonlinear_arith)
                    requires
                        0 <= i < 2 * k,
                ;
            }
            assert((2 * k) / 2 == k && (2 * k + 1) / 2 == k);
        }
        k = k + 1;
    }
    assert(b@.take(b@.len() as int) =~= b@);
    r
}

/// MD5 of the UTF-8 bytes of `s`, in lower-case hex.
pub open spec fn md5_hex(s: Seq<char>) -> Seq<char> {
    hex_of(md5_of(encode_utf8(s)))
}

/// MD5 of the UTF-8 bytes of `s`, in lower-case hex: 32 digits.
pub fn md5_hex_exec(s: &str) -> (r: String)
    ensures
        r@ == md5_hex(s@),
        r@.len() == 32,
{
    let d = md5_digest(s.as_bytes());
    to_hex(d.as_slice())
}

pub open spec fn colon() -> Seq<char> {
    seq![':']
}

/// The response value that a client must send: with `HA1 = MD5(username:realm:password)`
/// and `HA2 = MD5(method:uri)`, it is `MD5(HA1:nonce:nc:cnonce:qop:HA2)`, each digest
/// in lower-case hex.
pub open spec fn response_of(
    username: Seq<char>,
    realm: Seq<char>,
    password: Seq<char>,
    method: Seq<char>,
    uri: Seq<char>,
    nonce: Seq<char>,
    nc: Seq<char>,
    cnonce: Seq<char>,
    qop: Seq<char>,
) -> Seq<char> {
    let ha1 = md5_hex(username + colon() + realm + colon() + password);
    let ha2 = md5_hex(method + colon() + uri);
    md5_hex(
        ha1 + colon() + nonce + colon() + nc + colon() + cnonce + colon() + qop + colon() + ha2,
    )
}

/// Computes the Digest response value for the given credentials and challenge.
pub fn digest_response(
    username: &str,
    realm: &str,
    password: &str,
    method: &str,
    uri: &str,
    nonce: &str,
    nc: &str,
    cnonce: &str,
    qop: &str,
) -> (r: String)
    ensures
        r@ == response_of(username@, realm@, password@, method@, uri@, nonce@, nc@, cnonce@, qop@),
        r@.len() == 32,
{
    proof {
        reveal_strlit(":");
    }
    let mut a = String::from_str(username);
    a.append(":");
    a.append(realm);
    a.append(":");
    a.append(password);
    let ha1 = md5_hex_exec(a.as_str());
    let mut b = String::from_str(method);
    b.append(":");
    b.append(uri);
    let ha2 = md5_hex_exec(b.as_str());
    let mut c = ha1;
    c.append(":");
    c.append(nonce);
    c.append(":");
    c.append(nc);
    c.append(":");
    c.append(cnonce);
    c.append(":");
    c.append(qop);
    c.append(":");
    c.append(ha2.as_str());
    assert(":"@ =~= colon());
    md5_hex_exec(c.as_str())
}

} // verus!
