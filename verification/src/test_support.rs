//! Fixtures: file entries, minimal FLAC files byte by byte, and a window in
//! which log records are kept.

use crate::client::{FileInfo, FileView};
use std::collections::HashMap;
use vstd::prelude::*;
use vstd::string::*;
use vstd::utf8::encode_utf8;

verus! {

broadcast use vstd::std_specs::hash::group_hash_axioms;

// ---------------------------------------------------------------------------
// File entries
// ---------------------------------------------------------------------------

/// A file entry with the given bit rate attribute and size.
pub fn make_file(name: &str, bitrate: u32, size: u64) -> (r: FileInfo)
    ensures
        r@ == (FileView { name: name@, size, attribs: map![0u32 => bitrate] }),
{
    let mut attribs: HashMap<u32, u32> = HashMap::new();
    attribs.insert(0, bitrate);
    proof {
        assert(attribs@ =~= map![0u32 => bitrate]);
    }
    FileInfo { name: name.to_owned(), size, attribs }
}

// ---------------------------------------------------------------------------
// Bytes of numbers
// ---------------------------------------------------------------------------

/// A number below 2^32 in four bytes, the highest first.
pub open spec fn big_endian(n: nat) -> Seq<u8> {
    seq![
        (n / 0x100_0000 % 256) as u8,
        (n / 0x1_0000 % 256) as u8,
        (n / 0x100 % 256) as u8,
        (n % 256) as u8,
    ]
}

/// A number below 2^32 in four bytes, the lowest first.
pub open spec fn little_endian(n: nat) -> Seq<u8> {
    seq![
        (n % 256) as u8,
        (n / 0x100 % 256) as u8,
        (n / 0x1_0000 % 256) as u8,
        (n / 0x100_0000 % 256) as u8,
    ]
}

/// Appends a number in four bytes, the highest first.
fn push_big_endian(out: &mut Vec<u8>, n: u32)
    ensures
        final(out)@ == old(out)@ + big_endian(n as nat),
{
    out.push((n / 0x100_0000 % 256) as u8);
    out.push((n / 0x1_0000 % 256) as u8);
    out.push((n / 0x100 % 256) as u8);
    out.push((n % 256) as u8);
    proof {
        assert(out@ =~= old(out)@ + big_endian(n as nat));
    }
}

/// Appends a number in four bytes, the lowest first.
fn push_little_endian(out: &mut Vec<u8>, n: u32)
    ensures
        final(out)@ == old(out)@ + little_endian(n as nat),
{
    out.push((n % 256) as u8);
    out.push((n / 0x100 % 256) as u8);
    out.push((n / 0x1_0000 % 256) as u8);
    out.push((n / 0x100_0000 % 256) as u8);
    proof {
        assert(out@ =~= old(out)@ + little_endian(n as nat));
    }
}

/// Appends `count` zero bytes.
fn push_zeros(out: &mut Vec<u8>, count: usize)
    ensures
        final(out)@ == old(out)@ + zeros(count as nat),
{
    let ghost start = out@;
    let mut i: usize = 0;
    proof {
        assert(start + zeros(0) =~= start);
    }
    while i < count
        invariant
            i <= count,
            out@ == start + zeros(i as nat),
        decreases count - i,
    {
        out.push(0);
        i += 1;
        proof {
            assert(start + zeros(i as nat) =~= (start + zeros((i - 1) as nat)).push(0));
        }
    }
}

/// `count` zero bytes.
pub open spec fn zeros(count: nat) -> Seq<u8> {
    Seq::new(count, |i: int| 0u8)
}

/// Appends the bytes of a slice.
fn push_bytes(out: &mut Vec<u8>, bytes: &[u8])
    ensures
        final(out)@ == old(out)@ + bytes@,
{
    let ghost start = out@;
    let mut i: usize = 0;
    proof {
        assert(start + bytes@.take(0) =~= start);
    }
    while i < bytes.len()
        invariant
            i <= bytes@.len(),
            out@ == start + bytes@.take(i as int),
        decreases bytes@.len() - i,
    {
        out.push(bytes[i]);
        i += 1;
        proof {
            assert(start + bytes@.take(i as int) =~= (start + bytes@.take(i - 1)).push(
                bytes@[i - 1],
            ));
        }
    }
    proof {
        assert(bytes@.take(i as int) =~= bytes@);
    }
}

// ---------------------------------------------------------------------------
// FLAC
// ---------------------------------------------------------------------------

/// The sample rate of every fixture.
pub const SAMPLE_RATE: u32 = 44_100;

/// The type of a Vorbis comment block.
pub const VORBIS_COMMENT_BLOCK: u8 = 4;

/// The marker at the start of a FLAC file.
pub open spec fn flac_marker() -> Seq<u8> {
    seq![0x66, 0x4c, 0x61, 0x43]
}

/// The sample rate in twenty bits, the channels less one in three, the bits
/// per sample less one in five, and the top four bits of the sample count.
pub open spec fn packed_format(bits_per_sample: nat) -> nat {
    (SAMPLE_RATE as nat * 0x1000 + 0x200 + (bits_per_sample - 1) * 0x10) as nat
}

/// The thirty-four bytes that describe stereo audio of the given depth:
/// block sizes, frame sizes, format, sample count, checksum.
pub open spec fn streaminfo_bytes(bits_per_sample: nat) -> Seq<u8> {
    seq![0x10, 0x00, 0x10, 0x00] + zeros(6) + big_endian(packed_format(bits_per_sample))
        + big_endian(SAMPLE_RATE as nat) + zeros(16)
}

/// The description of stereo audio of the given depth.
pub fn streaminfo(bits_per_sample: u32) -> (r: Vec<u8>)
    requires
        4 <= bits_per_sample <= 32,
    ensures
        r@ == streaminfo_bytes(bits_per_sample as nat),
        r@.len() == 34,
{
    let mut bytes: Vec<u8> = Vec::new();
    bytes.push(0x10);
    bytes.push(0x00);
    bytes.push(0x10);
    bytes.push(0x00);
    proof {
        assert(bytes@ =~= seq![0x10, 0x00, 0x10, 0x00]);
    }
    push_zeros(&mut bytes, 6);
    let packed: u32 = SAMPLE_RATE * 0x1000 + 0x200 + (bits_per_sample - 1) * 0x10;
    push_big_endian(&mut bytes, packed);
    push_big_endian(&mut bytes, SAMPLE_RATE);
    push_zeros(&mut bytes, 16);
    bytes
}

/// A FLAC file that ends behind the description of its audio.
pub open spec fn bare_flac(bits_per_sample: nat) -> Seq<u8> {
    flac_marker() + seq![0x80, 0x00, 0x00, 0x22] + streaminfo_bytes(bits_per_sample)
}

/// A FLAC file without audio frames: the marker, a block header and the
/// description of the audio.
pub fn streaminfo_only_flac(bits_per_sample: u32) -> (r: Vec<u8>)
    requires
        4 <= bits_per_sample <= 32,
    ensures
        r@ == bare_flac(bits_per_sample as nat),
        r@.len() == 42,
{
    let mut bytes: Vec<u8> = Vec::new();
    push_header(&mut bytes, 0x80);
    let info: Vec<u8> = streaminfo(bits_per_sample);
    push_bytes(&mut bytes, info.as_slice());
    bytes
}

/// Appends the marker and the header of the first block.
fn push_header(out: &mut Vec<u8>, first: u8)
    requires
        old(out)@.len() == 0,
    ensures
        final(out)@ == flac_marker() + seq![first, 0x00, 0x00, 0x22],
{
    out.push(0x66);
    out.push(0x4c);
    out.push(0x61);
    out.push(0x43);
    out.push(first);
    out.push(0x00);
    out.push(0x00);
    out.push(0x22);
    proof {
        assert(out@ =~= flac_marker() + seq![first, 0x00, 0x00, 0x22]);
    }
}

/// Comments, each with its length in front.
pub open spec fn comment_bytes(comments: Seq<String>) -> Seq<u8>
    decreases comments.len(),
{
    if comments.len() == 0 {
        seq![]
    } else {
        let last = encode_utf8(comments.last()@);
        comment_bytes(comments.drop_last()) + little_endian(last.len()) + last
    }
}

/// The contents of a comment block: the vendor, the number of comments and
/// the comments.
pub open spec fn comment_payload(comments: Seq<String>) -> Seq<u8> {
    let vendor = encode_utf8("seakarr test fixture"@);
    little_endian(vendor.len()) + vendor + little_endian(comments.len()) + comment_bytes(comments)
}

/// The last block of a file, with comments in it.
pub open spec fn comment_block(comments: Seq<String>) -> Seq<u8> {
    let payload = comment_payload(comments);
    seq![0x84] + big_endian(payload.len()).skip(1) + payload
}

proof fn lemma_comments_grow(comments: Seq<String>, n: int)
    requires
        0 <= n <= comments.len(),
    ensures
        comment_bytes(comments.take(n)).len() <= comment_bytes(comments).len(),
    decreases comments.len() - n,
{
    if n < comments.len() {
        lemma_comments_grow(comments, n + 1);
        assert(comments.take(n + 1).drop_last() =~= comments.take(n));
    } else {
        assert(comments.take(n) =~= comments);
    }
}

/// Appends a Vorbis comment block, which has to be the last block. The length
/// of a block has twenty-four bits.
pub fn write_vorbis_comment_block(out: &mut Vec<u8>, comments: &Vec<String>)
    requires
        comment_payload(comments@).len() < 0x100_0000,
        comments@.len() < 0x100_0000,
    ensures
        final(out)@ == old(out)@ + comment_block(comments@),
{
    let ghost start = out@;
    let vendor: &[u8] = "seakarr test fixture".as_bytes();
    let mut payload: Vec<u8> = Vec::new();
    let ghost name = encode_utf8("seakarr test fixture"@);
    push_little_endian(&mut payload, vendor.len() as u32);
    proof {
        assert(payload@ =~= little_endian(name.len()));
    }
    push_bytes(&mut payload, vendor);
    push_little_endian(&mut payload, comments.len() as u32);
    let ghost head = payload@;
    let mut i: usize = 0;
    proof {
        assert(comments@.take(0) =~= Seq::empty());
        assert(head + comment_bytes(comments@.take(0)) =~= head);
    }
    while i < comments.len()
        invariant
            i <= comments@.len(),
            comment_payload(comments@).len() < 0x100_0000,
            payload@ == head + comment_bytes(comments@.take(i as int)),
        decreases comments@.len() - i,
    {
        let bytes: &[u8] = comments[i].as_str().as_bytes();
        proof {
            assert(comments@.take(i + 1).drop_last() =~= comments@.take(i as int));
            assert(comments@.take(i + 1).last() == comments@[i as int]);
            lemma_comments_grow(comments@, i + 1);
        }
        push_little_endian(&mut payload, bytes.len() as u32);
        push_bytes(&mut payload, bytes);
        i += 1;
        proof {
            assert(payload@ =~= head + comment_bytes(comments@.take(i as int)));
        }
    }
    proof {
        assert(comments@.take(i as int) =~= comments@);
        assert(payload@ =~= comment_payload(comments@));
    }
    let length: u32 = payload.len() as u32;
    out.push(0x80 + VORBIS_COMMENT_BLOCK);
    out.push((length / 0x1_0000 % 256) as u8);
    out.push((length / 0x100 % 256) as u8);
    out.push((length % 256) as u8);
    proof {
        assert(out@ =~= start + (seq![0x84u8] + big_endian(length as nat).skip(1)));
    }
    push_bytes(out, payload.as_slice());
    proof {
        assert(out@ =~= start + comment_block(comments@));
    }
}

/// A FLAC file without audio frames that carries comments.
pub fn commented_flac(comments: &Vec<String>) -> (r: Vec<u8>)
    requires
        comment_payload(comments@).len() < 0x100_0000,
        comments@.len() < 0x100_0000,
    ensures
        r@ == flac_marker() + seq![0x00, 0x00, 0x00, 0x22] + streaminfo_bytes(16) + comment_block(
            comments@,
        ),
{
    let mut bytes: Vec<u8> = Vec::new();
    push_header(&mut bytes, 0x00);
    let info: Vec<u8> = streaminfo(16);
    push_bytes(&mut bytes, info.as_slice());
    write_vorbis_comment_block(&mut bytes, comments);
    bytes
}

// ---------------------------------------------------------------------------
// Log records
// ---------------------------------------------------------------------------

/// A window in which log records are kept.
#[derive(Debug)]
pub struct LogCapture {
    buffer: String,
}

impl LogCapture {
    /// The records kept so far, one after the other.
    pub closed spec fn kept(&self) -> Seq<char> {
        self.buffer@
    }

    /// Opens a window, with nothing in it.
    pub fn start() -> (r: Self)
        ensures
            r.kept() == Seq::<char>::empty(),
    {
        LogCapture { buffer: String::new() }
    }

    /// Keeps a record.
    pub fn record(&mut self, text: &str)
        ensures
            final(self).kept() == old(self).kept() + text@,
    {
        self.buffer.append(text);
    }

    /// Every record written since the window opened.
    pub fn text(&self) -> (r: String)
        ensures
            r@ == self.kept(),
    {
        self.buffer.clone()
    }
}

// ---------------------------------------------------------------------------
// Laws
// ---------------------------------------------------------------------------

/// The number that four bytes stand for, the highest first.
pub open spec fn read_big_endian(b: Seq<u8>) -> nat {
    (b[0] as nat * 0x100_0000 + b[1] as nat * 0x1_0000 + b[2] as nat * 0x100 + b[3] as nat) as nat
}

/// A number below 2^32 is read back from its bytes, and the two orders of the
/// bytes are the reverse of each other.
pub proof fn law_numbers_are_read_back(n: nat)
    requires
        n < 0x1_0000_0000,
    ensures
        read_big_endian(big_endian(n)) == n,
        big_endian(n).len() == 4,
        little_endian(n) == big_endian(n).reverse(),
{
    assert(n / 0x1_0000 == (n / 0x100) / 0x100) by (nonlinear_arith);
    assert(n / 0x100_0000 == (n / 0x1_0000) / 0x100) by (nonlinear_arith);
    assert(n / 0x100_0000 < 256) by (nonlinear_arith)
        requires
            n < 0x1_0000_0000,
    ;
    assert(little_endian(n) =~= big_endian(n).reverse());
}

/// The packed format holds the sample rate, two channels and the depth.
pub proof fn law_formats_are_read_back(bits_per_sample: nat)
    requires
        4 <= bits_per_sample <= 32,
    ensures
        packed_format(bits_per_sample) / 0x1000 == SAMPLE_RATE,
        packed_format(bits_per_sample) / 0x200 % 8 + 1 == 2,
        packed_format(bits_per_sample) / 0x10 % 32 + 1 == bits_per_sample,
        packed_format(bits_per_sample) % 0x10 == 0,
        packed_format(bits_per_sample) < 0x1_0000_0000,
{
}

/// A file without frames begins with the marker, and the header of its one
/// block gives the length of what follows.
pub proof fn law_bare_files_hold_one_block(bits_per_sample: nat)
    requires
        4 <= bits_per_sample <= 32,
    ensures
        bare_flac(bits_per_sample).take(4) == seq![0x66u8, 0x4c, 0x61, 0x43],
        bare_flac(bits_per_sample)[4] == 0x80,
        bare_flac(bits_per_sample).len() == 8 + bare_flac(bits_per_sample)[7],
        bare_flac(bits_per_sample)[5] == 0 && bare_flac(bits_per_sample)[6] == 0,
        read_big_endian(bare_flac(bits_per_sample).subrange(18, 22)) == packed_format(
            bits_per_sample,
        ),
{
    let file = bare_flac(bits_per_sample);
    assert(file.take(4) =~= seq![0x66u8, 0x4c, 0x61, 0x43]);
    law_formats_are_read_back(bits_per_sample);
    law_numbers_are_read_back(packed_format(bits_per_sample));
    assert(file.subrange(18, 22) =~= big_endian(packed_format(bits_per_sample)));
}

/// Comments follow one another, each behind its length; the block that holds
/// them is the last and gives the length of its payload.
pub proof fn law_comments_follow_their_lengths(comments: Seq<String>, one: String)
    requires
        comment_payload(comments).len() < 0x100_0000,
    ensures
        comment_bytes(comments.push(one)) == comment_bytes(comments) + little_endian(
            encode_utf8(one@).len(),
        ) + encode_utf8(one@),
        comment_bytes(seq![]) == Seq::<u8>::empty(),
        comment_block(comments)[0] == 0x84,
        comment_block(comments).len() == 4 + comment_payload(comments).len(),
        read_big_endian(seq![0u8] + comment_block(comments).subrange(1, 4)) == comment_payload(
            comments,
        ).len(),
        comment_block(comments).skip(4) == comment_payload(comments),
{
    assert(comments.push(one).drop_last() =~= comments);
    let n = comment_payload(comments).len();
    let block = comment_block(comments);
    law_numbers_are_read_back(n);
    assert(n / 0x100_0000 == 0) by (nonlinear_arith)
        requires
            n < 0x100_0000,
    ;
    assert(seq![0u8] + block.subrange(1, 4) =~= big_endian(n));
    assert(block.skip(4) =~= comment_payload(comments));
}

} // verus!
