//! Content fingerprints: SHA-256 over a byte stream, written as lowercase hex.
//!
//! The fingerprint is the only test of equality between two copies of a file.
//! A stream is absorbed piece by piece, so a caller can hash a file of any
//! size through a bounded buffer.

use crate::error::SyncError;
use vstd::prelude::*;
use vstd::slice::slice_subrange;

verus! {

/// The running state of a SHA-256 computation, a `sha2::Sha256`. Nothing of
/// it is visible but what `absorbed` names.
#[verifier::external_body]
pub struct HashState {
    inner: sha2::Sha256,
}

/// The bytes that a hash state has absorbed so far, in order.
pub uninterp spec fn absorbed(state: HashState) -> Seq<u8>;

/// The SHA-256 digest of a byte sequence.
pub uninterp spec fn sha256(data: Seq<u8>) -> Seq<u8>;

/// `sha2::Digest::new` for `sha2::Sha256`: a fresh state that has absorbed
/// nothing.
#[verifier::external_body]
fn hash_new() -> (state: HashState)
    ensures
        absorbed(state) == Seq::<u8>::empty(),
{
    HashState { inner: <sha2::Sha256 as sha2::Digest>::new() }
}

/// `sha2::Digest::update` for `sha2::Sha256`: the state absorbs `data` after what it already
/// holds; how the input is cut into calls makes no difference.
#[verifier::external_body]
fn hash_update(state: &mut HashState, data: &[u8])
    ensures
        absorbed(*final(state)) == absorbed(*old(state)) + data@,
{
    sha2::Digest::update(&mut state.inner, data)
}

/// `sha2::Digest::finalize` for `sha2::Sha256`: the SHA-256 digest of everything absorbed, which
/// is 32 bytes long.
#[verifier::external_body]
fn hash_finalize(state: HashState) -> (out: Vec<u8>)
    ensures
        out@ == sha256(absorbed(state)),
        out@.len() == 32,
{
    sha2::Digest::finalize(state.inner).to_vec()
}

/// The largest piece that `calculate_sha256` absorbs at once.
pub const BLOCK_SIZE: usize = 4096;

/// The lowercase hexadecimal digit for a value below sixteen.
pub open spec fn hex_digit(n: int) -> char {
    if n == 0 {
        '0'
    } else if n == 1 {
        '1'
    } else if n == 2 {
        '2'
    } else if n == 3 {
        '3'
    } else if n == 4 {
        '4'
    } else if n == 5 {
        '5'
    } else if n == 6 {
        '6'
    } else if n == 7 {
        '7'
    } else if n == 8 {
        '8'
    } else if n == 9 {
        '9'
    } else if n == 10 {
        'a'
    } else if n == 11 {
        'b'
    } else if n == 12 {
        'c'
    } else if n == 13 {
        'd'
    } else if n == 14 {
        'e'
    } else {
        'f'
    }
}

/// Whether `c` is a lowercase hexadecimal digit.
pub open spec fn is_hex_digit(c: char) -> bool {
    exists|n: int| 0 <= n < 16 && c == #[trigger] hex_digit(n)
}

/// Two digits for each byte, the high half first.
pub open spec fn to_hex(bytes: Seq<u8>) -> Seq<char>
    decreases bytes.len(),
{
    if bytes.len() == 0 {
        Seq::empty()
    } else {
        to_hex(bytes.drop_last()).push(hex_digit(bytes.last() as int / 16)).push(
            hex_digit(bytes.last() as int % 16),
        )
    }
}

/// The fingerprint of a file with the given content.
pub open spec fn fingerprint_of(content: Seq<u8>) -> Seq<char> {
    to_hex(sha256(content))
}

/// Hexadecimal text is twice as long as the bytes it stands for and holds
/// lowercase hexadecimal digits only.
pub proof fn lemma_to_hex_shape(bytes: Seq<u8>)
    ensures
        to_hex(bytes).len() == 2 * bytes.len(),
        forall|i: int| 0 <= i < to_hex(bytes).len() ==> is_hex_digit(#[trigger] to_hex(bytes)[i]),
    decreases bytes.len(),
{
    if bytes.len() > 0 {
        lemma_to_hex_shape(bytes.drop_last());
        let hi = bytes.last() as int / 16;
        let lo = bytes.last() as int % 16;
        assert(is_hex_digit(hex_digit(hi)));
        assert(is_hex_digit(hex_digit(lo)));
    }
}

/// The digit for `n`, as text.
fn hex_text(n: u8) -> (digit: &'static str)
    requires
        n < 16,
    ensures
        digit@ == seq![hex_digit(n as int)],
{
    proof {
        reveal_strlit("0");
        reveal_strlit("1");
        reveal_strlit("2");
        reveal_strlit("3");
        reveal_strlit("4");
        reveal_strlit("5");
        reveal_strlit("6");
        reveal_strlit("7");
        reveal_strlit("8");
        reveal_strlit("9");
        reveal_strlit("a");
        reveal_strlit("b");
        reveal_strlit("c");
        reveal_strlit("d");
        reveal_strlit("e");
        reveal_strlit("f");
    }
    let digit = match n {
        0 => "0",
        1 => "1",
        2 => "2",
        3 => "3",
        4 => "4",
        5 => "5",
        6 => "6",
        7 => "7",
        8 => "8",
        9 => "9",
        10 => "a",
        11 => "b",
        12 => "c",
        13 => "d",
        14 => "e",
        _ => "f",
    };
    assert(digit@ =~= seq![hex_digit(n as int)]);
    digit
}

/// Writes bytes as lowercase hexadecimal text.
pub fn hex_encode(bytes: &[u8]) -> (text: String)
    ensures
        text@ == to_hex(bytes@),
{
    let mut text = String::new();
    let n = bytes.len();
    let mut i: usize = 0;
    assert(bytes@.take(0) =~= Seq::<u8>::empty());
    while i < n
        invariant
            i <= n,
            n == bytes@.len(),
            text@ == to_hex(bytes@.take(i as int)),
        decreases n - i,
    {
        let b = bytes[i];
        proof {
            assert(bytes@.take(i + 1).drop_last() =~= bytes@.take(i as int));
            assert(bytes@.take(i + 1).last() == b);
        }
        let ghost before = text@;
        text.append(hex_text(b / 16));
        text.append(hex_text(b % 16));
        assert(text@ =~= before.push(hex_digit(b as int / 16)).push(hex_digit(b as int % 16)));
        i += 1;
    }
    assert(bytes@.take(n as int) =~= bytes@);
    text
}

/// A fingerprint in the making: what has been absorbed determines it.
pub struct Fingerprinter {
    state: HashState,
}

/// A fingerprint after one more read of its stream.
pub enum Fed {
    /// The read gave bytes, and the stream goes on.
    Going(Fingerprinter),
    /// The stream is over: it ended and has a fingerprint, or a read failed.
    Done(Result<String, SyncError>),
}

impl View for Fingerprinter {
    type V = Seq<u8>;

    closed spec fn view(&self) -> Seq<u8> {
        absorbed(self.state)
    }
}

impl Fingerprinter {
    /// Starts a fingerprint of the empty stream.
    pub fn new() -> (fresh: Fingerprinter)
        ensures
            fresh@ == Seq::<u8>::empty(),
    {
        Fingerprinter { state: hash_new() }
    }

    /// Absorbs the next piece of the stream.
    pub fn update(&mut self, chunk: &[u8])
        ensures
            final(self)@ == old(self)@ + chunk@,
    {
        hash_update(&mut self.state, chunk);
    }

    /// Takes what one read of the stream gave. Bytes are absorbed; a read
    /// that gave no bytes is the end of the stream and yields the
    /// fingerprint; a read that failed ends the fingerprint with a read
    /// error that carries the system's words. A failure is never taken for
    /// the end of the stream.
    pub fn feed(self, read: Result<&[u8], String>) -> (fed: Fed)
        ensures
            match read {
                Ok(bytes) => if bytes@.len() == 0 {
                    fed matches Fed::Done(Ok(digest)) && digest@ == fingerprint_of(self@)
                        && digest@.len() == 64
                } else {
                    fed matches Fed::Going(next) && next@ == self@ + bytes@
                },
                Err(detail) => fed matches Fed::Done(Err(SyncError::ReadError(words))) && words@
                    == detail@,
            },
    {
        match read {
            Ok(bytes) => {
                if bytes.len() == 0 {
                    Fed::Done(Ok(self.finish()))
                } else {
                    let mut next = self;
                    next.update(bytes);
                    Fed::Going(next)
                }
            },
            Err(detail) => Fed::Done(Err(SyncError::ReadError(detail))),
        }
    }

    /// The fingerprint of everything absorbed: 64 lowercase hexadecimal
    /// digits.
    pub fn finish(self) -> (digest: String)
        ensures
            digest@ == fingerprint_of(self@),
            digest@.len() == 64,
            forall|i: int| 0 <= i < 64 ==> is_hex_digit(#[trigger] digest@[i]),
    {
        let raw = hash_finalize(self.state);
        proof {
            lemma_to_hex_shape(raw@);
        }
        hex_encode(raw.as_slice())
    }
}

/// The fingerprint of `content`, absorbed in blocks of at most `BLOCK_SIZE`
/// bytes.
pub fn calculate_sha256(content: &[u8]) -> (digest: String)
    ensures
        digest@ == fingerprint_of(content@),
        digest@.len() == 64,
        forall|i: int| 0 <= i < 64 ==> is_hex_digit(#[trigger] digest@[i]),
{
    let mut printer = Fingerprinter::new();
    let n = content.len();
    let mut pos: usize = 0;
    assert(content@.take(0) =~= Seq::<u8>::empty());
    while pos < n
        invariant
            pos <= n,
            n == content@.len(),
            printer@ == content@.take(pos as int),
        decreases n - pos,
    {
        let end = if n - pos > BLOCK_SIZE {
            pos + BLOCK_SIZE
        } else {
            n
        };
        let block = slice_subrange(content, pos, end);
        printer.update(block);
        assert(content@.take(pos as int) + content@.subrange(pos as int, end as int)
            =~= content@.take(end as int));
        pos = end;
    }
    assert(content@.take(n as int) =~= content@);
    printer.finish()
}

/// Fingerprinting is deterministic: streams that hold the same bytes have
/// the same fingerprint, however each of them is cut into pieces.
pub proof fn law_fingerprint_depends_on_bytes_alone(
    first: Seq<Seq<u8>>,
    second: Seq<Seq<u8>>,
)
    requires
        first.flatten() == second.flatten(),
    ensures
        fingerprint_of(first.flatten()) == fingerprint_of(second.flatten()),
{
}

} // verus!
