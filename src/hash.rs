//! An incremental SHA-256 digest object with text output.
use vstd::prelude::*;

verus! {

/// The SHA-256 digest of a byte string.
pub uninterp spec fn sha256_of(data: Seq<u8>) -> Seq<u8>;

/// Relies on `sha2::Sha256` through `Digest::digest`: the 32-byte SHA-256
/// digest of the bytes, which depends on them alone.
#[verifier::external_body]
fn sha256(data: &Vec<u8>) -> (r: Vec<u8>)
    ensures
        r@ == sha256_of(data@),
        r@.len() == 32,
{
    <sha2::Sha256 as sha2::Digest>::digest(data.as_slice()).to_vec()
}

/// Why a digest could not be produced.
#[derive(PartialEq, Eq, Structural, Clone, Copy, Debug)]
pub enum HashError {
    /// The digest was already taken and the object not initialized since.
    NoHasherAvailable,
    /// The output mode is neither `hex` nor `binary`.
    UnknownMode,
}

/// The lower-case hexadecimal digit of `d`.
pub open spec fn hex_digit(d: nat) -> char {
    seq!['0', '1', '2', '3', '4', '5', '6', '7', '8', '9', 'a', 'b', 'c', 'd', 'e', 'f'][d as int]
}

/// Two lower-case hexadecimal digits per byte.
pub open spec fn hex_of(b: Seq<u8>) -> Seq<char>
    decreases b.len(),
{
    if b.len() == 0 {
        Seq::empty()
    } else {
        hex_of(b.drop_last()) + seq![hex_digit(b.last() as nat / 16), hex_digit(b.last() as nat % 16)]
    }
}

/// A byte in decimal, without leading zeros.
pub open spec fn decimal(n: u8) -> Seq<char> {
    if n < 10 {
        seq![hex_digit(n as nat)]
    } else if n < 100 {
        seq![hex_digit(n as nat / 10), hex_digit(n as nat % 10)]
    } else {
        seq![hex_digit(n as nat / 100), hex_digit((n as nat / 10) % 10), hex_digit(n as nat % 10)]
    }
}

/// The bytes in decimal, separated by a comma and a space.
pub open spec fn decimal_list(b: Seq<u8>) -> Seq<char>
    decreases b.len(),
{
    if b.len() == 0 {
        Seq::empty()
    } else if b.len() == 1 {
        decimal(b[0])
    } else {
        decimal_list(b.drop_last()) + seq![',', ' '] + decimal(b.last())
    }
}

/// The bytes written as a list: `[1, 2, 255]`.
pub open spec fn byte_list(b: Seq<u8>) -> Seq<char> {
    seq!['['] + decimal_list(b) + seq![']']
}

/// Appends the digit `d` to `s`.
fn push_digit(s: &mut String, d: u8)
    requires
        d < 16,
    ensures
        final(s)@ == old(s)@ + seq![hex_digit(d as nat)],
{
    let table = "0123456789abcdef";
    proof {
        reveal_strlit("0123456789abcdef");
    }
    let digit = table.substring_char(d as usize, d as usize + 1);
    assert(digit@ =~= seq![hex_digit(d as nat)]);
    s.append(digit);
}

/// Hexadecimal text of a byte string.
pub fn to_hex(b: &Vec<u8>) -> (r: String)
    ensures
        r@ == hex_of(b@),
{
    let mut r = String::new();
    let mut i: usize = 0;
    while i < b.len()
        invariant
            i <= b.len(),
            r@ == hex_of(b@.subrange(0, i as int)),
        decreases b.len() - i,
    {
        let x = b[i];
        push_digit(&mut r, x / 16);
        push_digit(&mut r, x % 16);
        proof {
            let pre = b@.subrange(0, i + 1);
            assert(pre.drop_last() =~= b@.subrange(0, i as int));
        }
        i += 1;
    }
    assert(b@.subrange(0, b.len() as int) =~= b@);
    r
}

fn push_decimal(s: &mut String, n: u8)
    ensures
        final(s)@ == old(s)@ + decimal(n),
{
    if n < 10 {
        push_digit(s, n);
        assert(final(s)@ =~= old(s)@ + decimal(n));
    } else if n < 100 {
        push_digit(s, n / 10);
        push_digit(s, n % 10);
        assert(final(s)@ =~= old(s)@ + decimal(n));
    } else {
        push_digit(s, n / 100);
        push_digit(s, (n / 10) % 10);
        push_digit(s, n % 10);
        assert(final(s)@ =~= old(s)@ + decimal(n));
    }
}

/// A byte string written as a bracketed list of decimals.
pub fn to_byte_list(b: &Vec<u8>) -> (r: String)
    ensures
        r@ == byte_list(b@),
{
    let mut r = String::new();
    proof {
        reveal_strlit("[");
        reveal_strlit("]");
        reveal_strlit(", ");
    }
    r.append("[");
    let mut i: usize = 0;
    while i < b.len()
        invariant
            i <= b.len(),
            r@ == seq!['['] + decimal_list(b@.subrange(0, i as int)),
        decreases b.len() - i,
    {
        let ghost before = r@;
        if i > 0 {
            r.append(", ");
        }
        push_decimal(&mut r, b[i]);
        proof {
            let pre = b@.subrange(0, i + 1);
            assert(pre.drop_last() =~= b@.subrange(0, i as int));
            if i == 0 {
                assert(b@.subrange(0, 0).len() == 0);
                assert(pre.len() == 1 && pre[0] == b@[0]);
                assert(before =~= seq!['[']);
                assert(decimal_list(pre) == decimal(pre[0]));
                assert(r@ == before + decimal(b@[0]));
                assert(r@ == seq!['['] + decimal_list(pre));
            } else {
                reveal_strlit(", ");
                assert(", "@ =~= seq![',', ' ']);
                assert(pre.last() == b@[i as int]);
                assert(decimal_list(pre) == decimal_list(b@.subrange(0, i as int)) + seq![',', ' ']
                    + decimal(b@[i as int]));
                assert(r@ =~= seq!['['] + decimal_list(pre));
            }
        }
        i += 1;
    }
    r.append("]");
    assert(b@.subrange(0, b.len() as int) =~= b@);
    assert(r@ =~= byte_list(b@));
    r
}

/// Tells whether two strings hold the same characters.
fn same_text(a: &str, b: &str) -> (r: bool)
    ensures
        r == (a@ == b@),
{
    let n = a.unicode_len();
    if n != b.unicode_len() {
        return false;
    }
    let mut i: usize = 0;
    while i < n
        invariant
            i <= n,
            n == a@.len(),
            n == b@.len(),
            forall|j: int| 0 <= j < i ==> a@[j] == b@[j],
        decreases n - i,
    {
        if a.get_char(i) != b.get_char(i) {
            return false;
        }
        i += 1;
    }
    assert(a@ =~= b@);
    true
}

/// A SHA-256 digest object: bytes are fed in, and the digest is taken once.
pub struct CreateSha256 {
    pending: Option<Vec<u8>>,
}

impl View for CreateSha256 {
    /// The bytes fed in since the last initialization, or `None` once the
    /// digest has been taken.
    type V = Option<Seq<u8>>;

    closed spec fn view(&self) -> Option<Seq<u8>> {
        match self.pending {
            Some(v) => Some(v@),
            None => None,
        }
    }
}

impl CreateSha256 {
    /// A digest object with nothing fed in.
    pub fn new() -> (r: Self)
        ensures
            r@ == Some(Seq::<u8>::empty()),
    {
        CreateSha256 { pending: Some(Vec::new()) }
    }

    /// Starts over with nothing fed in, also after the digest was taken.
    pub fn init(&mut self)
        ensures
            final(self)@ == Some(Seq::<u8>::empty()),
    {
        self.pending = Some(Vec::new());
    }

    /// Feeds bytes in; does nothing once the digest has been taken.
    pub fn update(&mut self, data: &[u8])
        ensures
            final(self)@ == match old(self)@ {
                Some(d) => Some(d + data@),
                None => None,
            },
    {
        match &mut self.pending {
            Some(v) => {
                let mut i: usize = 0;
                let ghost start = v@;
                while i < data.len()
                    invariant
                        i <= data@.len(),
                        v@ == start + data@.subrange(0, i as int),
                    decreases data@.len() - i,
                {
                    v.push(data[i]);
                    i += 1;
                    assert(v@ =~= start + data@.subrange(0, i as int));
                }
                assert(data@.subrange(0, data@.len() as int) =~= data@);
            },
            None => {},
        }
    }

    /// Takes the digest of the bytes fed in: `hex` gives lower-case
    /// hexadecimal, `binary` the bytes as a list of decimals. Another mode
    /// fails and leaves the object as it was; after the digest was taken,
    /// every call fails until the object is initialized again.
    pub fn digest(&mut self, mode: &str) -> (r: Result<String, HashError>)
        ensures
            match old(self)@ {
                None => r == Err::<String, HashError>(HashError::NoHasherAvailable) && final(self)@
                    == old(self)@,
                Some(d) => if mode@ == "hex"@ {
                    final(self)@ is None && r is Ok && r->Ok_0@ == hex_of(sha256_of(d))
                } else if mode@ == "binary"@ {
                    final(self)@ is None && r is Ok && r->Ok_0@ == byte_list(sha256_of(d))
                } else {
                    r == Err::<String, HashError>(HashError::UnknownMode) && final(self)@
                        == old(self)@
                },
            },
    {
        if self.pending.is_none() {
            return Err(HashError::NoHasherAvailable);
        }
        let hex = same_text(mode, "hex");
        let binary = same_text(mode, "binary");
        if !hex && !binary {
            return Err(HashError::UnknownMode);
        }
        let data = self.pending.take().unwrap();
        let sum = sha256(&data);
        if hex {
            Ok(to_hex(&sum))
        } else {
            Ok(to_byte_list(&sum))
        }
    }
}

} // verus!
