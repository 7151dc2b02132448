//! Streaming content digests.
//!
//! A hash session absorbs a file's bytes chunk by chunk and renders the
//! 256-bit digest as lowercase hex.  The chunk schedule is adaptive:
//! reads start at one mebibyte and double after each chunk, capped at
//! eight mebibytes.  The digest is a function of the absorbed bytes
//! alone — never of how they were chunked.

use vstd::prelude::*;
use crate::strutil::push_char;

verus! {

/// First read size of the adaptive schedule: one mebibyte.
pub const INITIAL_CHUNK_SIZE: usize = 1048576;

/// Ceiling of the adaptive schedule: eight mebibytes.
pub const MAX_CHUNK_SIZE: usize = 8388608;

/// Incremental 256-bit digest state.  Verus sees it only through
/// [`absorbed`] and the trusted operations below.
#[verifier::external_body]
pub struct DigestState {
    inner: sha2::Sha256,
}

/// The bytes a digest state has absorbed so far.
pub uninterp spec fn absorbed(st: DigestState) -> Seq<u8>;

/// The 256-bit digest of a byte sequence: a function of the bytes
/// alone, the same in every process and on every machine.
pub uninterp spec fn sha256_of(bytes: Seq<u8>) -> Seq<u8>;

/// Relies on sha2::Sha256::new: a fresh hasher has absorbed nothing.
#[verifier::external_body]
pub fn digest_new() -> (r: DigestState)
    ensures
        absorbed(r) == Seq::<u8>::empty(),
{
    DigestState { inner: <sha2::Sha256 as sha2::Digest>::new() }
}

/// Relies on sha2::Sha256::update: absorbing appends the data to the
/// bytes already fed.
#[verifier::external_body]
pub fn digest_update(st: &mut DigestState, data: &[u8])
    ensures
        absorbed(*final(st)) == absorbed(*old(st)) + data@,
{
    sha2::Digest::update(&mut st.inner, data);
}

/// Relies on sha2::Sha256::finalize: the digest of the absorbed bytes,
/// 32 bytes long.
#[verifier::external_body]
pub fn digest_finish(st: DigestState) -> (r: Vec<u8>)
    ensures
        r@ == sha256_of(absorbed(st)),
        r@.len() == 32,
{
    sha2::Digest::finalize(st.inner).to_vec()
}

/// One lowercase hex digit.
pub open spec fn hex_digit(d: int) -> char {
    if d == 0 {
        '0'
    } else if d == 1 {
        '1'
    } else if d == 2 {
        '2'
    } else if d == 3 {
        '3'
    } else if d == 4 {
        '4'
    } else if d == 5 {
        '5'
    } else if d == 6 {
        '6'
    } else if d == 7 {
        '7'
    } else if d == 8 {
        '8'
    } else if d == 9 {
        '9'
    } else if d == 10 {
        'a'
    } else if d == 11 {
        'b'
    } else if d == 12 {
        'c'
    } else if d == 13 {
        'd'
    } else if d == 14 {
        'e'
    } else {
        'f'
    }
}

/// The lowercase hex rendering of a byte sequence, two digits per byte.
pub open spec fn hex_of(data: Seq<u8>) -> Seq<char>
    decreases data.len(),
{
    if data.len() == 0 {
        Seq::empty()
    } else {
        seq![hex_digit(data.first() as int / 16), hex_digit(data.first() as int % 16)] + hex_of(
            data.drop_first(),
        )
    }
}

/// A lowercase hex digit character.
pub open spec fn is_lower_hex_digit(c: char) -> bool {
    ('0' <= c && c <= '9') || ('a' <= c && c <= 'f')
}

/// A hex rendering is twice as long as its input and holds lowercase
/// hex digits only.
pub proof fn lemma_hex_of_shape(data: Seq<u8>)
    ensures
        hex_of(data).len() == 2 * data.len(),
        forall|i: int| 0 <= i < hex_of(data).len() ==> is_lower_hex_digit(#[trigger] hex_of(data)[i]),
    decreases data.len(),
{
    if data.len() > 0 {
        lemma_hex_of_shape(data.drop_first());
    }
}

fn hex_digit_exec(d: u8) -> (r: char)
    requires
        d < 16,
    ensures
        r == hex_digit(d as int),
{
    match d {
        0u8 => '0',
        1u8 => '1',
        2u8 => '2',
        3u8 => '3',
        4u8 => '4',
        5u8 => '5',
        6u8 => '6',
        7u8 => '7',
        8u8 => '8',
        9u8 => '9',
        10u8 => 'a',
        11u8 => 'b',
        12u8 => 'c',
        13u8 => 'd',
        14u8 => 'e',
        _ => 'f',
    }
}

/// Renders bytes as lowercase hex.
pub fn to_hex_lower(data: &[u8]) -> (r: String)
    ensures
        r@ == hex_of(data@),
{
    let n = data.len();
    let mut r = String::new();
    let mut i: usize = 0;
    proof {
        assert(data@.skip(0) =~= data@);
    }
    while i < n
        invariant
            n == data@.len(),
            i <= n,
            hex_of(data@) =~= r@ + hex_of(data@.skip(i as int)),
        decreases n - i,
    {
        let b = data[i];
        push_char(&mut r, hex_digit_exec(b / 16));
        push_char(&mut r, hex_digit_exec(b % 16));
        proof {
            assert(data@.skip(i as int).drop_first() =~= data@.skip(i + 1 as int));
            assert(data@.skip(i as int).first() == data@[i as int]);
        }
        i = i + 1;
    }
    proof {
        assert(data@.skip(n as int) =~= Seq::<u8>::empty());
        assert(r@ =~= hex_of(data@));
    }
    r
}

/// The read size that follows `c` in the adaptive schedule: doubled
/// until the ceiling, then held there.
pub open spec fn advanced_chunk(c: int) -> int {
    if c < MAX_CHUNK_SIZE {
        if 2 * c < MAX_CHUNK_SIZE {
            2 * c
        } else {
            MAX_CHUNK_SIZE as int
        }
    } else {
        c
    }
}

/// A streaming hash computation with the adaptive chunk schedule.
pub struct HashSession {
    st: DigestState,
    next_chunk: usize,
}

impl HashSession {
    /// The bytes fed so far.
    pub closed spec fn fed(&self) -> Seq<u8> {
        absorbed(self.st)
    }

    /// The size the next read should have.
    pub closed spec fn chunk_spec(&self) -> int {
        self.next_chunk as int
    }

    /// A fresh session: nothing fed, reads starting at one mebibyte.
    pub fn new() -> (r: HashSession)
        ensures
            r.fed() == Seq::<u8>::empty(),
            r.chunk_spec() == INITIAL_CHUNK_SIZE,
    {
        HashSession { st: digest_new(), next_chunk: INITIAL_CHUNK_SIZE }
    }

    /// How many bytes the caller should read next.
    pub fn chunk_size(&self) -> (r: usize)
        ensures
            r == self.chunk_spec(),
    {
        self.next_chunk
    }

    /// Absorbs one chunk and advances the schedule.
    pub fn feed(&mut self, data: &[u8])
        ensures
            final(self).fed() == old(self).fed() + data@,
            final(self).chunk_spec() == advanced_chunk(old(self).chunk_spec()),
    {
        digest_update(&mut self.st, data);
        if self.next_chunk < MAX_CHUNK_SIZE {
            if self.next_chunk <= MAX_CHUNK_SIZE / 2 {
                self.next_chunk = self.next_chunk * 2;
            } else {
                self.next_chunk = MAX_CHUNK_SIZE;
            }
        }
    }

    /// The digest of everything fed, as 64 lowercase hex characters.
    pub fn finish(self) -> (r: String)
        ensures
            r@ == hex_of(sha256_of(self.fed())),
            r@.len() == 64,
            forall|i: int| 0 <= i < r@.len() ==> is_lower_hex_digit(#[trigger] r@[i]),
    {
        let ghost content = self.fed();
        let digest = digest_finish(self.st);
        let r = to_hex_lower(digest.as_slice());
        proof {
            lemma_hex_of_shape(sha256_of(content));
        }
        r
    }
}

/// The chunks of a read schedule, in order, as one byte sequence.
pub open spec fn flatten_bytes(chunks: Seq<Seq<u8>>) -> Seq<u8>
    decreases chunks.len(),
{
    if chunks.len() == 0 {
        Seq::empty()
    } else {
        flatten_bytes(chunks.drop_last()) + chunks.last()
    }
}

/// Hashes content handed over as a list of chunks.
pub fn hash_chunks(chunks: &Vec<Vec<u8>>) -> (r: String)
    ensures
        r@ == hex_of(sha256_of(flatten_bytes(chunks.deep_view()))),
        r@.len() == 64,
{
    let ghost cdv = chunks.deep_view();
    let mut session = HashSession::new();
    let mut i: usize = 0;
    proof {
        assert(flatten_bytes(cdv.take(0)) =~= Seq::<u8>::empty());
        assert(session.fed() =~= flatten_bytes(cdv.take(0)));
    }
    while i < chunks.len()
        invariant
            cdv == chunks.deep_view(),
            cdv.len() == chunks@.len(),
            i <= chunks@.len(),
            session.fed() == flatten_bytes(cdv.take(i as int)),
        decreases chunks@.len() - i,
    {
        proof {
            assert(cdv.take(i + 1 as int).drop_last() =~= cdv.take(i as int));
            assert(cdv.take(i + 1 as int).last() == cdv[i as int]);
            assert(cdv[i as int] == chunks@[i as int]@);
        }
        session.feed(chunks[i].as_slice());
        i = i + 1;
    }
    proof {
        assert(cdv.take(chunks@.len() as int) =~= cdv);
    }
    session.finish()
}

/// Hash determinism: the digest string depends on the content alone,
/// never on the chunk schedule that delivered it.  Two reads of the same
/// bytes under different buffer-size sequences render the same
/// 64-character string.
pub proof fn lemma_hash_chunking_independent(c1: Seq<Seq<u8>>, c2: Seq<Seq<u8>>)
    requires
        flatten_bytes(c1) == flatten_bytes(c2),
    ensures
        hex_of(sha256_of(flatten_bytes(c1))) == hex_of(sha256_of(flatten_bytes(c2))),
{
}

} // verus!
