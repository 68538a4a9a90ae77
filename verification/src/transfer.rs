//! Messages between two connected terminals: texts, and files sent in checksummed chunks.
//!
//! A file goes over the stream as a sequence of frames, one per chunk read from the file:
//! the lowercase hexadecimal SHA-1 digest of the chunk (40 ASCII bytes), then the chunk.
//! After the last chunk comes the hexadecimal SHA-1 digest of the whole file.  The sender
//! and the receiver below are state machines: their caller reads and writes the file and
//! the stream, and hands each chunk to them.

use vstd::prelude::*;
use vstd::utf8::{decode_utf8, encode_utf8, valid_utf8};
use crate::digest::{
    lower_hex, sha1_digest, sha1_finalize, sha1_input, sha1_new, sha1_of, sha1_update,
    to_lower_hex, Sha1Hasher,
};

verus! {

/// The size of the chunks a file is read and sent in, and the most bytes of text read at once.
pub const CHUNK_SIZE: usize = 8192;

/// The length of the hexadecimal form of a SHA-1 digest.
pub const DIGEST_HEX_LEN: usize = 40;

#[verifier::external_type_specification]
#[verifier::external_body]
pub struct ExPathBuf(std::path::PathBuf);

/// What a user asks to send.
pub enum Message {
    Text(String),
    Path(std::path::PathBuf),
}

/// A file that was sent or received.
pub struct File {
    pub size: u64,
    pub path: std::path::PathBuf,
}

/// What is shown to the user about a message that was sent or received.
pub enum MessageState {
    Text(String),
    File(File),
}

/// The kind of message that the first byte of an incoming message announces.
#[derive(Clone, Copy, Debug, PartialEq, Eq, Structural)]
pub enum MessageKind {
    Text,
    File,
}

/// The kind announced by the first byte of an incoming message: 0 for a text, anything else
/// for a file.
pub fn message_kind(tag: u8) -> (k: MessageKind)
    ensures
        k == (if tag == 0 {
            MessageKind::Text
        } else {
            MessageKind::File
        }),
{
    if tag == 0 {
        MessageKind::Text
    } else {
        MessageKind::File
    }
}

/// The bytes written for a text: its UTF-8 encoding.
pub fn text_payload(text: &str) -> (bytes: Vec<u8>)
    ensures
        bytes@ == encode_utf8(text@),
{
    vstd::slice::slice_to_vec(text.as_bytes())
}

/// What sending a message starts with.
pub enum Outgoing {
    /// Write these bytes; the message is then shown as this text.
    Text(Vec<u8>, String),
    /// Send the file at this path in chunks.
    File(std::path::PathBuf),
}

/// How a message is sent: a text as its UTF-8 bytes, a path as a file transfer.
pub fn outgoing(message: Message) -> (o: Outgoing)
    ensures
        match message {
            Message::Text(s) => o matches Outgoing::Text(bytes, shown) && bytes@ == encode_utf8(
                s@,
            ) && shown == s,
            Message::Path(p) => o == Outgoing::File(p),
        },
{
    match message {
        Message::Text(s) => {
            let bytes = text_payload(s.as_str());
            Outgoing::Text(bytes, s)
        },
        Message::Path(p) => Outgoing::File(p),
    }
}

/// What `String::from_utf8_lossy` makes of `bytes`.
pub uninterp spec fn utf8_lossy(bytes: Seq<u8>) -> Seq<char>;

/// `String::from_utf8_lossy` of std, made an owned `String`: the text that `bytes` encode,
/// with U+FFFD in place of each invalid sequence.  Of valid UTF-8 it is the decoded text, as
/// std documents; what it is of other input is left to the name.
#[verifier::external_body]
fn from_utf8_lossy(bytes: &[u8]) -> (s: String)
    ensures
        s@ == utf8_lossy(bytes@),
        valid_utf8(bytes@) ==> s@ == decode_utf8(bytes@),
{
    String::from_utf8_lossy(bytes).into_owned()
}

/// The text held by the first `len` bytes of `buf`, invalid UTF-8 replaced.
pub fn decode_text(buf: &[u8], len: usize) -> (text: String)
    requires
        len <= buf@.len(),
    ensures
        text@ == utf8_lossy(buf@.take(len as int)),
        valid_utf8(buf@.take(len as int)) ==> text@ == decode_utf8(buf@.take(len as int)),
{
    let bytes = vstd::slice::slice_subrange(buf, 0, len);
    assert(bytes@ =~= buf@.take(len as int));
    from_utf8_lossy(bytes)
}

/// Text survives its encoding: the UTF-8 encoding of a text is valid UTF-8 and decodes to the
/// same text, so `decode_text` of the bytes `text_payload` makes gives the text back.
pub proof fn law_text_round_trip(text: Seq<char>)
    ensures
        valid_utf8(encode_utf8(text)),
        decode_utf8(encode_utf8(text)) == text,
{
    vstd::utf8::encode_utf8_valid_utf8(text);
    vstd::utf8::encode_utf8_decode_utf8(text);
}

/// The frame that carries one chunk: the hexadecimal digest of the chunk, then the chunk.
pub open spec fn chunk_frame(chunk: Seq<u8>) -> Seq<u8> {
    lower_hex(sha1_digest(chunk)) + chunk
}

/// The frame that carries `chunk`.
pub fn frame_chunk(chunk: &[u8]) -> (frame: Vec<u8>)
    ensures
        frame@ == chunk_frame(chunk@),
        frame@.len() == DIGEST_HEX_LEN + chunk@.len(),
        frame@.take(DIGEST_HEX_LEN as int) == lower_hex(sha1_digest(chunk@)),
        frame@.skip(DIGEST_HEX_LEN as int) == chunk@,
{
    let digest = sha1_of(chunk);
    let mut frame = to_lower_hex(digest.as_slice());
    let ghost head = frame@;
    let mut i: usize = 0;
    while i < chunk.len()
        invariant
            i <= chunk@.len(),
            head.len() == DIGEST_HEX_LEN,
            frame@ == head + chunk@.take(i as int),
        decreases chunk@.len() - i,
    {
        frame.push(chunk[i]);
        assert(chunk@.take(i + 1) =~= chunk@.take(i as int).push(chunk@[i as int]));
        i = i + 1;
    }
    assert(chunk@.take(chunk@.len() as int) =~= chunk@);
    assert(frame@.take(DIGEST_HEX_LEN as int) =~= head);
    assert(frame@.skip(DIGEST_HEX_LEN as int) =~= chunk@);
    frame
}

/// The per-mille progress figure reported for a chunk of `len` bytes of a file of `size`
/// bytes.
pub open spec fn chunk_per_mille(len: nat, size: u64) -> int {
    ((len * 1000) as int) / ((size as usize) as int)
}

/// The sending side of one file transfer.
pub struct FileSender {
    size: u64,
    sent: usize,
    hasher: Sha1Hasher,
    chunks: Ghost<Seq<Seq<u8>>>,
}

impl FileSender {
    /// The size of the file, as its metadata gave it.
    pub closed spec fn size(self) -> u64 {
        self.size
    }

    /// The chunks sent so far.
    pub closed spec fn chunks(self) -> Seq<Seq<u8>> {
        self.chunks@
    }

    /// The bytes of the file sent so far.
    pub open spec fn sent_bytes(self) -> Seq<u8> {
        self.chunks().flatten()
    }

    pub closed spec fn wf(self) -> bool {
        &&& sha1_input(self.hasher) == self.chunks@.flatten()
        &&& self.sent as int == self.chunks@.flatten().len()
    }

    /// The sender of a file of `size` bytes, before its first chunk.
    pub fn new(size: u64) -> (s: FileSender)
        ensures
            s.wf(),
            s.size() == size,
            s.chunks() == Seq::<Seq<u8>>::empty(),
    {
        let s = FileSender { size, sent: 0, hasher: sha1_new(), chunks: Ghost(Seq::empty()) };
        assert(s.chunks@.flatten() =~= Seq::<u8>::empty());
        s
    }

    /// The number of bytes of the file sent so far.
    pub fn sent(&self) -> (n: usize)
        requires
            self.wf(),
        ensures
            n == self.sent_bytes().len(),
    {
        self.sent
    }

    /// Records that `chunk` was sent, and returns the per-mille figure that the progress
    /// report gives for it.
    pub fn record_chunk(&mut self, chunk: &[u8]) -> (per_mille: usize)
        requires
            old(self).wf(),
            chunk@.len() <= CHUNK_SIZE,
            old(self).sent_bytes().len() + chunk@.len() <= usize::MAX,
            (old(self).size() as usize) != 0,
        ensures
            final(self).wf(),
            final(self).size() == old(self).size(),
            final(self).chunks() == old(self).chunks().push(chunk@),
            per_mille == chunk_per_mille(chunk@.len(), old(self).size()),
            old(self).size() <= usize::MAX ==> per_mille == ((chunk@.len() * 1000) as int) / (old(
                self,
            ).size() as int),
            old(self).size() <= usize::MAX && chunk@.len() <= old(self).size() ==> per_mille
                <= 1000,
    {
        proof {
            old(self).chunks@.lemma_flatten_push(chunk@);
            if old(self).size() <= usize::MAX {
                law_per_mille_is_share_of_size(chunk@.len(), old(self).size());
            }
        }
        sha1_update(&mut self.hasher, chunk);
        self.sent = self.sent + chunk.len();
        self.chunks = Ghost(self.chunks@.push(chunk@));
        chunk.len() * 1000 / (self.size as usize)
    }

    /// The trailer that follows the last frame: the hexadecimal digest of the whole file.
    pub fn finish(self) -> (trailer: Vec<u8>)
        requires
            self.wf(),
        ensures
            trailer@ == lower_hex(sha1_digest(self.sent_bytes())),
            trailer@.len() == DIGEST_HEX_LEN,
    {
        let digest = sha1_finalize(self.hasher);
        to_lower_hex(digest.as_slice())
    }
}

/// What the receiver reports of an accepted chunk.
pub struct ChunkProgress {
    /// The per-mille progress figure.
    pub per_mille: usize,
    /// Whether this was the last chunk: it is shorter than `CHUNK_SIZE`.
    pub last: bool,
}

/// The receiving side of one file transfer.
pub struct FileReceiver {
    size: u64,
    received: usize,
    hasher: Sha1Hasher,
    chunks: Ghost<Seq<Seq<u8>>>,
}

impl FileReceiver {
    pub closed spec fn size(self) -> u64 {
        self.size
    }

    /// The chunks accepted so far.
    pub closed spec fn chunks(self) -> Seq<Seq<u8>> {
        self.chunks@
    }

    /// The bytes of the file accepted so far.
    pub open spec fn received_bytes(self) -> Seq<u8> {
        self.chunks().flatten()
    }

    pub closed spec fn wf(self) -> bool {
        &&& sha1_input(self.hasher) == self.chunks@.flatten()
        &&& self.received as int == self.chunks@.flatten().len()
    }

    /// The receiver of a file announced as `size` bytes long, before its first chunk.
    pub fn new(size: u64) -> (r: FileReceiver)
        ensures
            r.wf(),
            r.size() == size,
            r.chunks() == Seq::<Seq<u8>>::empty(),
    {
        let r = FileReceiver {
            size,
            received: 0,
            hasher: sha1_new(),
            chunks: Ghost(Seq::empty()),
        };
        assert(r.chunks@.flatten() =~= Seq::<u8>::empty());
        r
    }

    /// The number of bytes of the file accepted so far.
    pub fn received(&self) -> (n: usize)
        requires
            self.wf(),
        ensures
            n == self.received_bytes().len(),
    {
        self.received
    }

    /// Whether the checksum field read before a chunk holds the SHA-1 digest of the chunk.
    /// The field is compared byte for byte with the raw 20-byte digest, so a field of any
    /// other length (such as the 40-byte hexadecimal field of a frame) never matches.
    pub fn chunk_matches(field: &[u8], chunk: &[u8]) -> (b: bool)
        ensures
            b == (field@ == sha1_digest(chunk@)),
            field@.len() != 20 ==> !b,
    {
        let digest = sha1_of(chunk);
        slices_equal(field, digest.as_slice())
    }

    /// Records that `chunk` was accepted, and reports the progress figure and whether it was
    /// the last chunk.
    pub fn accept_chunk(&mut self, chunk: &[u8]) -> (p: ChunkProgress)
        requires
            old(self).wf(),
            chunk@.len() <= CHUNK_SIZE,
            old(self).received_bytes().len() + chunk@.len() <= usize::MAX,
            (old(self).size() as usize) != 0,
        ensures
            final(self).wf(),
            final(self).size() == old(self).size(),
            final(self).chunks() == old(self).chunks().push(chunk@),
            p.per_mille == chunk_per_mille(chunk@.len(), old(self).size()),
            old(self).size() <= usize::MAX ==> p.per_mille == ((chunk@.len() * 1000) as int) / (old(
                self,
            ).size() as int),
            old(self).size() <= usize::MAX && chunk@.len() <= old(self).size() ==> p.per_mille
                <= 1000,
            p.last == (chunk@.len() < CHUNK_SIZE),
    {
        proof {
            old(self).chunks@.lemma_flatten_push(chunk@);
            if old(self).size() <= usize::MAX {
                law_per_mille_is_share_of_size(chunk@.len(), old(self).size());
            }
        }
        sha1_update(&mut self.hasher, chunk);
        self.received = self.received + chunk.len();
        self.chunks = Ghost(self.chunks@.push(chunk@));
        ChunkProgress {
            per_mille: chunk.len() * 1000 / (self.size as usize),
            last: chunk.len() < CHUNK_SIZE,
        }
    }

    /// Whether the trailer read after the last chunk holds the SHA-1 digest of the whole file.
    /// As for chunks, the trailer is compared with the raw 20-byte digest.
    pub fn file_matches(self, trailer: &[u8]) -> (b: bool)
        requires
            self.wf(),
        ensures
            b == (trailer@ == sha1_digest(self.received_bytes())),
            trailer@.len() != 20 ==> !b,
    {
        let digest = sha1_finalize(self.hasher);
        slices_equal(trailer, digest.as_slice())
    }
}

/// Whether two byte slices are equal.
fn slices_equal(a: &[u8], b: &[u8]) -> (eq: bool)
    ensures
        eq == (a@ == b@),
{
    if a.len() != b.len() {
        return false;
    }
    let mut i: usize = 0;
    while i < a.len()
        invariant
            i <= a@.len(),
            a@.len() == b@.len(),
            forall|k: int| 0 <= k < i ==> a@[k] == b@[k],
        decreases a@.len() - i,
    {
        if a[i] != b[i] {
            return false;
        }
        i = i + 1;
    }
    assert(a@ =~= b@);
    true
}

/// A frame is the lowercase hexadecimal digest of the whole chunk followed by the whole
/// chunk: its head is as long as the hexadecimal digest and its tail is the chunk.
pub proof fn law_frame_carries_whole_chunk(chunk: Seq<u8>)
    ensures
        chunk_frame(chunk).len() == 2 * sha1_digest(chunk).len() + chunk.len(),
        chunk_frame(chunk).take((2 * sha1_digest(chunk).len()) as int) == lower_hex(sha1_digest(chunk)),
        chunk_frame(chunk).skip((2 * sha1_digest(chunk).len()) as int) == chunk,
{
    let h = lower_hex(sha1_digest(chunk));
    assert(chunk_frame(chunk).take((2 * sha1_digest(chunk).len()) as int) =~= h);
    assert(chunk_frame(chunk).skip((2 * sha1_digest(chunk).len()) as int) =~= chunk);
}

/// For a file size that fits the platform's `usize`, the progress figure of a chunk is the
/// chunk's share of the file in thousandths, rounded down, and at most 1000 for a chunk no
/// longer than the file.
pub proof fn law_per_mille_is_share_of_size(len: nat, size: u64)
    requires
        0 < size <= usize::MAX,
    ensures
        chunk_per_mille(len, size) == ((len * 1000) as int) / (size as int),
        chunk_per_mille(len, size) * (size as int) <= len * 1000,
        len * 1000 < (chunk_per_mille(len, size) + 1) * (size as int),
        len <= size ==> chunk_per_mille(len, size) <= 1000,
{
    assert((size as usize) as int == size as int);
    lemma_share_bounds(len as int, size as int);
}

proof fn lemma_share_bounds(len: int, size: int)
    requires
        0 < size,
        0 <= len,
    ensures
        (len * 1000) / size * size <= len * 1000 < ((len * 1000) / size + 1) * size,
        len <= size ==> (len * 1000) / size <= 1000,
{
    vstd::arithmetic::div_mod::lemma_fundamental_div_mod(len * 1000, size);
    vstd::arithmetic::div_mod::lemma_mod_bound(len * 1000, size);
    assert((len * 1000) / size * size == size * ((len * 1000) / size)) by (nonlinear_arith);
    assert(((len * 1000) / size + 1) * size == size * ((len * 1000) / size) + size)
        by (nonlinear_arith);
    if len <= size {
        assert(len * 1000 <= size * 1000) by (nonlinear_arith)
            requires
                len <= size,
                0 < size,
        ;
        vstd::arithmetic::div_mod::lemma_div_is_ordered(len * 1000, size * 1000, size);
        vstd::arithmetic::div_mod::lemma_div_multiples_vanish(1000, size);
        assert(size * 1000 == 1000 * size) by (nonlinear_arith);
    }
}

} // verus!
