//! The binary glTF container: a 12-byte header, a chunk of JSON metadata
//! and a chunk of binary data, all little-endian.

use vstd::prelude::*;
use vstd::string::StringSliceAdditionalSpecFns;
use crate::error::TerrainError;

verus! {

/// The four characters `glTF`, read as a little-endian word.
pub const MAGIC: u32 = 0x4654_6C67;

/// The version of the container format.
pub const VERSION: u32 = 2;

/// The tag of the metadata chunk: the characters `JSON`.
pub const JSON_CHUNK: u32 = 0x4E4F_534A;

/// The tag of the binary chunk: the characters `BIN` and a zero byte.
pub const BIN_CHUNK: u32 = 0x004E_4942;

/// The byte that pads the metadata: a space.
pub const SPACE: u8 = 0x20;

/// The most words that a buffer view can span with its length in bytes
/// still below 2 to the 32.
pub const MAX_WORDS: usize = 0x3FFF_FFFF;

/// The four bytes of a word, lowest first.
pub open spec fn le_bytes(v: u32) -> Seq<u8> {
    seq![
        (v % 256) as u8,
        (v / 256 % 256) as u8,
        (v / 65536 % 256) as u8,
        (v / 16777216) as u8,
    ]
}

/// The word that four bytes from `at` on spell, lowest first.
pub open spec fn word_at(bytes: Seq<u8>, at: int) -> int {
    bytes[at] + 256 * bytes[at + 1] + 65536 * bytes[at + 2] + 16777216 * bytes[at + 3]
}

/// The words one after the other, four bytes each.
pub open spec fn packed(words: Seq<u32>) -> Seq<u8> {
    Seq::new(4 * words.len(), |i: int| le_bytes(words[i / 4])[i % 4])
}

/// The `count` words that are packed from `at` on.
pub open spec fn unpacked(bytes: Seq<u8>, at: int, count: nat) -> Seq<u32> {
    Seq::new(count, |k: int| word_at(bytes, at + 4 * k) as u32)
}

/// How many bytes bring a length up to the next multiple of four.
pub open spec fn padding(len: nat) -> nat {
    ((4 - len % 4) % 4) as nat
}

/// The body, filled up to the next multiple of four bytes.
pub open spec fn padded(body: Seq<u8>, fill: u8) -> Seq<u8> {
    body + Seq::new(padding(body.len()), |i: int| fill)
}

/// The decimal digits of `n`, as ASCII.
pub open spec fn decimal(n: nat) -> Seq<u8>
    decreases n,
{
    if n < 10 {
        seq![(48 + n) as u8]
    } else {
        decimal(n / 10).push((48 + n % 10) as u8)
    }
}

/// The metadata of a mesh with `vertex_words` words of positions and
/// `index_words` indices: one buffer; a view of the positions from byte 0
/// and a view of the indices behind it; an accessor that reads the first
/// view as triples of 32-bit floats and one that reads the second as
/// unsigned 32-bit integers; one mesh of one triangle list, in one node of
/// one scene. The keys of each object stand in alphabetic order, with
/// nothing between the tokens.
#[verifier::opaque]
pub open spec fn metadata(vertex_words: nat, index_words: nat) -> Seq<u8> {
    let positions_len = 4 * vertex_words;
    let indices_len = 4 * index_words;
    "{\"accessors\":[{\"bufferView\":0,\"componentType\":5126,\"count\":".spec_bytes()
        + decimal(vertex_words / 3)
        + ",\"type\":\"VEC3\"},{\"bufferView\":1,\"componentType\":5125,\"count\":".spec_bytes()
        + decimal(index_words)
        + ",\"type\":\"SCALAR\"}],\"asset\":{\"version\":\"2.0\"},\"bufferViews\":[{\"buffer\":0,\"byteLength\":".spec_bytes()
        + decimal(positions_len)
        + ",\"byteOffset\":0,\"target\":34962},{\"buffer\":0,\"byteLength\":".spec_bytes()
        + decimal(indices_len)
        + ",\"byteOffset\":".spec_bytes()
        + decimal(positions_len)
        + ",\"target\":34963}],\"buffers\":[{\"byteLength\":".spec_bytes()
        + decimal(positions_len + indices_len)
        + "}],\"meshes\":[{\"primitives\":[{\"attributes\":{\"POSITION\":0},\"indices\":1,\"mode\":4}]}],\"nodes\":[{\"mesh\":0}],\"scene\":0,\"scenes\":[{\"nodes\":[0]}]}".spec_bytes()
}

/// The padded metadata chunk's body.
pub open spec fn json_body(vertex_words: nat, index_words: nat) -> Seq<u8> {
    padded(metadata(vertex_words, index_words), SPACE)
}

/// The padded binary chunk's body: the positions, then the indices.
pub open spec fn bin_body(positions: Seq<u32>, indices: Seq<u32>) -> Seq<u8> {
    padded(packed(positions) + packed(indices), 0)
}

/// The length of the whole container: the header, and for each chunk its
/// length, its tag and its padded body.
pub open spec fn container_len(vertex_words: nat, index_words: nat) -> nat {
    let json_len = metadata(vertex_words, index_words).len();
    let bin_len = 4 * vertex_words + 4 * index_words;
    12 + 8 + json_len + padding(json_len) + 8 + bin_len + padding(bin_len)
}

/// Whether the container of such a mesh can say its own length in 32 bits.
pub open spec fn fits(vertex_words: nat, index_words: nat) -> bool {
    container_len(vertex_words, index_words) <= u32::MAX
}

/// A chunk: the length of its body, its tag, its body.
pub open spec fn chunk(tag: u32, body: Seq<u8>) -> Seq<u8> {
    le_bytes(body.len() as u32) + le_bytes(tag) + body
}

/// The container of a mesh.
pub open spec fn container(positions: Seq<u32>, indices: Seq<u32>) -> Seq<u8> {
    le_bytes(MAGIC) + le_bytes(VERSION) + le_bytes(
        container_len(positions.len(), indices.len()) as u32,
    ) + chunk(JSON_CHUNK, json_body(positions.len(), indices.len())) + chunk(
        BIN_CHUNK,
        bin_body(positions, indices),
    )
}

/// Where the binary chunk's body starts in a container.
pub open spec fn bin_start(bytes: Seq<u8>) -> int {
    12 + 8 + word_at(bytes, 12) + 8
}

/// A word that is packed into a sequence can be read back where it stands.
proof fn lemma_word_in_place(bytes: Seq<u8>, at: int, v: u32)
    requires
        0 <= at,
        at + 4 <= bytes.len(),
        bytes.subrange(at, at + 4) == le_bytes(v),
    ensures
        word_at(bytes, at) == v,
{
    let part = bytes.subrange(at, at + 4);
    assert(part[0] == bytes[at]);
    assert(part[1] == bytes[at + 1]);
    assert(part[2] == bytes[at + 2]);
    assert(part[3] == bytes[at + 3]);
}

/// A length and its padding make a multiple of four, with at most three
/// bytes of padding.
pub proof fn lemma_padding(len: nat)
    ensures
        padding(len) < 4,
        (len + padding(len)) % 4 == 0,
        len % 4 == 0 ==> padding(len) == 0,
{
}

/// A number below ten thousand million has at most ten digits.
proof fn lemma_decimal_len(n: nat)
    requires
        n < 10_000_000_000,
    ensures
        1 <= decimal(n).len() <= 10,
{
    reveal_with_fuel(decimal, 11);
}

/// The metadata is short: its fixed text has 457 bytes, and each of its six
/// numbers has at most ten digits when both views stay below 2 to the 32
/// bytes.
pub proof fn lemma_metadata_len(vertex_words: nat, index_words: nat)
    requires
        vertex_words <= MAX_WORDS,
        index_words <= MAX_WORDS,
    ensures
        463 <= metadata(vertex_words, index_words).len() <= 517,
{
    reveal(metadata);
    let a = "{\"accessors\":[{\"bufferView\":0,\"componentType\":5126,\"count\":";
    let b = ",\"type\":\"VEC3\"},{\"bufferView\":1,\"componentType\":5125,\"count\":";
    let c = ",\"type\":\"SCALAR\"}],\"asset\":{\"version\":\"2.0\"},\"bufferViews\":[{\"buffer\":0,\"byteLength\":";
    let d = ",\"byteOffset\":0,\"target\":34962},{\"buffer\":0,\"byteLength\":";
    let e = ",\"byteOffset\":";
    let f = ",\"target\":34963}],\"buffers\":[{\"byteLength\":";
    let g = "}],\"meshes\":[{\"primitives\":[{\"attributes\":{\"POSITION\":0},\"indices\":1,\"mode\":4}]}],\"nodes\":[{\"mesh\":0}],\"scene\":0,\"scenes\":[{\"nodes\":[0]}]}";
    assert(a.spec_bytes().len() == 59) by {
        reveal_strlit("{\"accessors\":[{\"bufferView\":0,\"componentType\":5126,\"count\":");
        assert(vstd::string::is_ascii(a));
        vstd::string::is_ascii_spec_bytes(a);
    }
    assert(b.spec_bytes().len() == 61) by {
        reveal_strlit(",\"type\":\"VEC3\"},{\"bufferView\":1,\"componentType\":5125,\"count\":");
        assert(vstd::string::is_ascii(b));
        vstd::string::is_ascii_spec_bytes(b);
    }
    assert(c.spec_bytes().len() == 85) by {
        reveal_strlit(",\"type\":\"SCALAR\"}],\"asset\":{\"version\":\"2.0\"},\"bufferViews\":[{\"buffer\":0,\"byteLength\":");
        assert(vstd::string::is_ascii(c));
        vstd::string::is_ascii_spec_bytes(c);
    }
    assert(d.spec_bytes().len() == 57) by {
        reveal_strlit(",\"byteOffset\":0,\"target\":34962},{\"buffer\":0,\"byteLength\":");
        assert(vstd::string::is_ascii(d));
        vstd::string::is_ascii_spec_bytes(d);
    }
    assert(e.spec_bytes().len() == 14) by {
        reveal_strlit(",\"byteOffset\":");
        assert(vstd::string::is_ascii(e));
        vstd::string::is_ascii_spec_bytes(e);
    }
    assert(f.spec_bytes().len() == 43) by {
        reveal_strlit(",\"target\":34963}],\"buffers\":[{\"byteLength\":");
        assert(vstd::string::is_ascii(f));
        vstd::string::is_ascii_spec_bytes(f);
    }
    assert(g.spec_bytes().len() == 138) by {
        reveal_strlit("}],\"meshes\":[{\"primitives\":[{\"attributes\":{\"POSITION\":0},\"indices\":1,\"mode\":4}]}],\"nodes\":[{\"mesh\":0}],\"scene\":0,\"scenes\":[{\"nodes\":[0]}]}");
        assert(vstd::string::is_ascii(g));
        vstd::string::is_ascii_spec_bytes(g);
    }
    lemma_decimal_len(vertex_words / 3);
    lemma_decimal_len(index_words);
    lemma_decimal_len(4 * vertex_words);
    lemma_decimal_len(4 * index_words);
    lemma_decimal_len(4 * vertex_words + 4 * index_words);
}

/// A mesh whose two views together stay 548 bytes below 2 to the 32 has a
/// container that fits: 28 bytes frame the chunks, the metadata has at most
/// 517 bytes and at most 3 of padding, and the binary chunk needs none.
pub proof fn lemma_small_mesh_fits(vertex_words: nat, index_words: nat)
    requires
        4 * vertex_words + 4 * index_words + 548 <= u32::MAX,
    ensures
        fits(vertex_words, index_words),
{
    lemma_metadata_len(vertex_words, index_words);
}

/// The empty mesh has a container.
pub proof fn lemma_empty_mesh_fits()
    ensures
        fits(0, 0),
{
    lemma_small_mesh_fits(0, 0);
}

/// A header and two chunks, one after the other: where each part stands.
proof fn lemma_frame(total: u32, json: Seq<u8>, bin: Seq<u8>)
    ensures
        ({
            let c = le_bytes(MAGIC) + le_bytes(VERSION) + le_bytes(total) + chunk(
                JSON_CHUNK,
                json,
            ) + chunk(BIN_CHUNK, bin);
            let n = json.len() as int;
            &&& c.len() == 12 + 8 + n + 8 + bin.len()
            &&& c.subrange(0, 4) == le_bytes(MAGIC)
            &&& c.subrange(4, 8) == le_bytes(VERSION)
            &&& c.subrange(8, 12) == le_bytes(total)
            &&& c.subrange(12, 16) == le_bytes(json.len() as u32)
            &&& c.subrange(16, 20) == le_bytes(JSON_CHUNK)
            &&& c.subrange(20, 20 + n) == json
            &&& c.subrange(20 + n, 24 + n) == le_bytes(bin.len() as u32)
            &&& c.subrange(24 + n, 28 + n) == le_bytes(BIN_CHUNK)
            &&& c.subrange(28 + n, c.len() as int) == bin
        }),
{
    let head = le_bytes(MAGIC) + le_bytes(VERSION) + le_bytes(total);
    let first = chunk(JSON_CHUNK, json);
    let second = chunk(BIN_CHUNK, bin);
    let c = head + first + second;
    let n = json.len() as int;
    assert(head.len() == 12);
    assert(first.len() == 8 + n);
    assert(second.len() == 8 + bin.len());
    assert(c.subrange(0, 12) =~= head);
    assert(c.subrange(12, 20 + n) =~= first);
    assert(c.subrange(20 + n, c.len() as int) =~= second);
    assert(c.subrange(0, 4) =~= head.subrange(0, 4));
    assert(c.subrange(4, 8) =~= head.subrange(4, 8));
    assert(c.subrange(8, 12) =~= head.subrange(8, 12));
    assert(head.subrange(0, 4) =~= le_bytes(MAGIC));
    assert(head.subrange(4, 8) =~= le_bytes(VERSION));
    assert(head.subrange(8, 12) =~= le_bytes(total));
    assert(c.subrange(12, 16) =~= first.subrange(0, 4));
    assert(c.subrange(16, 20) =~= first.subrange(4, 8));
    assert(c.subrange(20, 20 + n) =~= first.subrange(8, 8 + n));
    assert(first.subrange(0, 4) =~= le_bytes(json.len() as u32));
    assert(first.subrange(4, 8) =~= le_bytes(JSON_CHUNK));
    assert(first.subrange(8, 8 + n) =~= json);
    assert(c.subrange(20 + n, 24 + n) =~= second.subrange(0, 4));
    assert(c.subrange(24 + n, 28 + n) =~= second.subrange(4, 8));
    assert(c.subrange(28 + n, c.len() as int) =~= second.subrange(8, 8 + bin.len() as int));
    assert(second.subrange(0, 4) =~= le_bytes(bin.len() as u32));
    assert(second.subrange(4, 8) =~= le_bytes(BIN_CHUNK));
    assert(second.subrange(8, 8 + bin.len() as int) =~= bin);
}

/// The bodies of the two chunks: each is a multiple of four bytes long,
/// and the binary one needs no padding.
proof fn lemma_bodies(positions: Seq<u32>, indices: Seq<u32>)
    ensures
        ({
            let json = json_body(positions.len(), indices.len());
            let bin = bin_body(positions, indices);
            let meta_len = metadata(positions.len(), indices.len()).len();
            &&& json.len() == meta_len + padding(meta_len)
            &&& json.len() % 4 == 0
            &&& bin.len() == 4 * positions.len() + 4 * indices.len()
            &&& bin == packed(positions) + packed(indices)
            &&& container_len(positions.len(), indices.len()) == 12 + 8 + json.len() + 8
                + bin.len()
        }),
{
    let meta_len = metadata(positions.len(), indices.len()).len();
    let words = packed(positions) + packed(indices);
    lemma_padding(meta_len);
    lemma_padding(words.len());
    assert(words.len() == 4 * positions.len() + 4 * indices.len());
    assert(padding(words.len()) == 0);
    assert(bin_body(positions, indices) =~= words);
}

/// The parts of a container and where they stand: the header in the first
/// 12 bytes, then the metadata chunk, then the binary chunk, each chunk with
/// a body of a multiple of four bytes.
pub proof fn lemma_container_layout(positions: Seq<u32>, indices: Seq<u32>)
    requires
        fits(positions.len(), indices.len()),
    ensures
        ({
            let c = container(positions, indices);
            let json = json_body(positions.len(), indices.len());
            let bin = bin_body(positions, indices);
            &&& c.len() == container_len(positions.len(), indices.len())
            &&& c.len() == 12 + 8 + json.len() + 8 + bin.len()
            &&& json.len() % 4 == 0
            &&& bin.len() == 4 * positions.len() + 4 * indices.len()
            &&& c.subrange(0, 4) == le_bytes(MAGIC)
            &&& c.subrange(4, 8) == le_bytes(VERSION)
            &&& c.subrange(8, 12) == le_bytes(c.len() as u32)
            &&& c.subrange(12, 16) == le_bytes(json.len() as u32)
            &&& c.subrange(16, 20) == le_bytes(JSON_CHUNK)
            &&& c.subrange(20, 20 + json.len() as int) == json
            &&& c.subrange(20 + json.len() as int, 24 + json.len() as int) == le_bytes(
                bin.len() as u32,
            )
            &&& c.subrange(24 + json.len() as int, 28 + json.len() as int) == le_bytes(BIN_CHUNK)
            &&& c.subrange(28 + json.len() as int, c.len() as int) == bin
            &&& bin == packed(positions) + packed(indices)
        }),
{
    let total = container_len(positions.len(), indices.len()) as u32;
    let json = json_body(positions.len(), indices.len());
    let bin = bin_body(positions, indices);
    lemma_bodies(positions, indices);
    lemma_frame(total, json, bin);
}

/// A container starts with the magic word and the version, and the third
/// word of its header is its own length in bytes.
pub proof fn lemma_container_header(positions: Seq<u32>, indices: Seq<u32>)
    requires
        fits(positions.len(), indices.len()),
    ensures
        ({
            let c = container(positions, indices);
            &&& c.len() >= 12
            &&& word_at(c, 0) == MAGIC
            &&& word_at(c, 4) == VERSION
            &&& word_at(c, 8) == c.len()
        }),
{
    let c = container(positions, indices);
    lemma_container_layout(positions, indices);
    lemma_word_in_place(c, 0, MAGIC);
    lemma_word_in_place(c, 4, VERSION);
    lemma_word_in_place(c, 8, c.len() as u32);
}

/// Words that are packed can be read back: those of the first sequence
/// from the start, those of the second behind them.
proof fn lemma_unpack(bytes: Seq<u8>, at: int, first: Seq<u32>, second: Seq<u32>)
    requires
        0 <= at,
        at + 4 * first.len() + 4 * second.len() <= bytes.len(),
        bytes.subrange(at, at + 4 * first.len() + 4 * second.len()) == packed(first) + packed(
            second,
        ),
    ensures
        unpacked(bytes, at, first.len()) == first,
        unpacked(bytes, at + 4 * first.len(), second.len()) == second,
{
    let body = packed(first) + packed(second);
    let n = 4 * first.len();
    assert forall|k: int| 0 <= k < first.len() implies word_at(bytes, at + 4 * k) == first[k] by {
        assert forall|r: int| 0 <= r < 4 implies bytes[at + 4 * k + r] == le_bytes(first[k])[r] by {
            assert(body[4 * k + r] == bytes[at + 4 * k + r]);
            assert(body[4 * k + r] == packed(first)[4 * k + r]);
            assert((4 * k + r) / 4 == k && (4 * k + r) % 4 == r);
        }
        assert(bytes[at + 4 * k + 0] == le_bytes(first[k])[0]);
        assert(bytes[at + 4 * k + 1] == le_bytes(first[k])[1]);
        assert(bytes[at + 4 * k + 2] == le_bytes(first[k])[2]);
        assert(bytes[at + 4 * k + 3] == le_bytes(first[k])[3]);
    }
    assert forall|k: int| 0 <= k < second.len() implies word_at(bytes, at + n + 4 * k)
        == second[k] by {
        assert forall|r: int| 0 <= r < 4 implies bytes[at + n + 4 * k + r] == le_bytes(
            second[k],
        )[r] by {
            assert(body[n + 4 * k + r] == bytes[at + n + 4 * k + r]);
            assert(body[n + 4 * k + r] == packed(second)[4 * k + r]);
            assert((4 * k + r) / 4 == k && (4 * k + r) % 4 == r);
        }
        assert(bytes[at + n + 4 * k + 0] == le_bytes(second[k])[0]);
        assert(bytes[at + n + 4 * k + 1] == le_bytes(second[k])[1]);
        assert(bytes[at + n + 4 * k + 2] == le_bytes(second[k])[2]);
        assert(bytes[at + n + 4 * k + 3] == le_bytes(second[k])[3]);
    }
    assert(unpacked(bytes, at, first.len()) =~= first);
    assert(unpacked(bytes, at + n, second.len()) =~= second);
}

/// Packing loses nothing. In a container the two chunks carry their tags
/// and the lengths of their bodies; the metadata chunk holds the metadata
/// and then spaces only; and reading the binary chunk as the metadata
/// declares it, the positions from byte 0 of the chunk's body and the
/// indices from the byte behind them, gives the mesh back.
pub proof fn lemma_container_round_trip(positions: Seq<u32>, indices: Seq<u32>)
    requires
        fits(positions.len(), indices.len()),
    ensures
        ({
            let c = container(positions, indices);
            let meta = metadata(positions.len(), indices.len());
            let json_len = word_at(c, 12);
            &&& json_len == meta.len() + padding(meta.len())
            &&& word_at(c, 16) == JSON_CHUNK
            &&& c.subrange(20, 20 + meta.len() as int) == meta
            &&& forall|i: int| 20 + meta.len() as int <= i < 20 + json_len ==> c[i] == SPACE
            &&& word_at(c, 20 + json_len) == 4 * positions.len() + 4 * indices.len()
            &&& word_at(c, 24 + json_len) == BIN_CHUNK
            &&& bin_start(c) == 28 + json_len
            &&& c.len() == bin_start(c) + 4 * positions.len() + 4 * indices.len()
            &&& unpacked(c, bin_start(c), positions.len()) == positions
            &&& unpacked(c, bin_start(c) + 4 * positions.len(), indices.len()) == indices
        }),
{
    let c = container(positions, indices);
    let meta = metadata(positions.len(), indices.len());
    let json = json_body(positions.len(), indices.len());
    let bin = bin_body(positions, indices);
    lemma_container_layout(positions, indices);
    lemma_word_in_place(c, 12, json.len() as u32);
    lemma_word_in_place(c, 16, JSON_CHUNK);
    lemma_word_in_place(c, 20 + json.len() as int, bin.len() as u32);
    lemma_word_in_place(c, 24 + json.len() as int, BIN_CHUNK);
    let body = c.subrange(20, 20 + json.len() as int);
    assert(c.subrange(20, 20 + meta.len() as int) =~= meta) by {
        assert forall|i: int| 0 <= i < meta.len() implies c[20 + i] == meta[i] by {
            assert(body[i] == c[20 + i]);
        }
    }
    assert forall|i: int| 20 + meta.len() as int <= i < 20 + json.len() as int implies c[i] == SPACE by {
        assert(body[i - 20] == c[i]);
    }
    lemma_unpack(c, 28 + json.len() as int, positions, indices);
}

/// Appends the four bytes of a word.
fn push_word(out: &mut Vec<u8>, v: u32)
    ensures
        final(out)@ == old(out)@ + le_bytes(v),
{
    out.push((v % 256) as u8);
    out.push((v / 256 % 256) as u8);
    out.push((v / 65536 % 256) as u8);
    out.push((v / 16777216) as u8);
    assert(out@ =~= old(out)@ + le_bytes(v));
}

/// Appends bytes as they are.
fn push_bytes(out: &mut Vec<u8>, bytes: &[u8])
    ensures
        final(out)@ == old(out)@ + bytes@,
{
    let mut i: usize = 0;
    while i < bytes.len()
        invariant
            i <= bytes@.len(),
            out@ == old(out)@ + bytes@.subrange(0, i as int),
        decreases bytes.len() - i,
    {
        out.push(bytes[i]);
        i = i + 1;
        assert(out@ =~= old(out)@ + bytes@.subrange(0, i as int));
    }
    assert(bytes@.subrange(0, i as int) =~= bytes@);
}

/// Appends the bytes of a text.
fn push_text(out: &mut Vec<u8>, text: &str)
    ensures
        final(out)@ == old(out)@ + text.spec_bytes(),
{
    push_bytes(out, text.as_bytes());
}

/// Appends the decimal digits of a number.
fn push_decimal(out: &mut Vec<u8>, n: u64)
    ensures
        final(out)@ == old(out)@ + decimal(n as nat),
    decreases n,
{
    if n >= 10 {
        push_decimal(out, n / 10);
    }
    out.push((48 + n % 10) as u8);
    assert(out@ =~= old(out)@ + decimal(n as nat));
}

/// Appends `count` times the byte `fill`.
fn push_fill(out: &mut Vec<u8>, fill: u8, count: usize)
    ensures
        final(out)@ == old(out)@ + Seq::new(count as nat, |i: int| fill),
{
    let mut i: usize = 0;
    while i < count
        invariant
            i <= count,
            out@ == old(out)@ + Seq::new(i as nat, |j: int| fill),
        decreases count - i,
    {
        out.push(fill);
        i = i + 1;
        assert(out@ =~= old(out)@ + Seq::new(i as nat, |j: int| fill));
    }
}

/// Appends the words, four bytes each.
fn push_words(out: &mut Vec<u8>, words: &[u32])
    ensures
        final(out)@ == old(out)@ + packed(words@),
{
    let mut i: usize = 0;
    assert(out@ =~= old(out)@ + packed(words@.subrange(0, 0)));
    while i < words.len()
        invariant
            i <= words@.len(),
            out@ == old(out)@ + packed(words@.subrange(0, i as int)),
        decreases words.len() - i,
    {
        let ghost before = out@;
        push_word(out, words[i]);
        i = i + 1;
        assert(out@ =~= old(out)@ + packed(words@.subrange(0, i as int))) by {
            let now = packed(words@.subrange(0, i as int));
            let then = packed(words@.subrange(0, i - 1));
            assert(now =~= then + le_bytes(words@[i - 1]));
        }
    }
    assert(words@.subrange(0, i as int) =~= words@);
}

/// How many bytes bring `len` up to the next multiple of four.
fn pad_len(len: u64) -> (pad: usize)
    ensures
        pad == padding(len as nat),
{
    ((4 - len % 4) % 4) as usize
}

/// Writes the metadata of a mesh with so many words of positions and so
/// many indices.
pub fn write_metadata(vertex_words: usize, index_words: usize) -> (json: Vec<u8>)
    requires
        vertex_words <= MAX_WORDS,
        index_words <= MAX_WORDS,
    ensures
        json@ == metadata(vertex_words as nat, index_words as nat),
{
    let positions_len: u64 = 4 * (vertex_words as u64);
    let indices_len: u64 = 4 * (index_words as u64);
    let mut json: Vec<u8> = Vec::new();
    push_text(&mut json, "{\"accessors\":[{\"bufferView\":0,\"componentType\":5126,\"count\":");
    push_decimal(&mut json, (vertex_words / 3) as u64);
    push_text(&mut json, ",\"type\":\"VEC3\"},{\"bufferView\":1,\"componentType\":5125,\"count\":");
    push_decimal(&mut json, index_words as u64);
    push_text(
        &mut json,
        ",\"type\":\"SCALAR\"}],\"asset\":{\"version\":\"2.0\"},\"bufferViews\":[{\"buffer\":0,\"byteLength\":",
    );
    push_decimal(&mut json, positions_len);
    push_text(&mut json, ",\"byteOffset\":0,\"target\":34962},{\"buffer\":0,\"byteLength\":");
    push_decimal(&mut json, indices_len);
    push_text(&mut json, ",\"byteOffset\":");
    push_decimal(&mut json, positions_len);
    push_text(&mut json, ",\"target\":34963}],\"buffers\":[{\"byteLength\":");
    push_decimal(&mut json, positions_len + indices_len);
    push_text(
        &mut json,
        "}],\"meshes\":[{\"primitives\":[{\"attributes\":{\"POSITION\":0},\"indices\":1,\"mode\":4}]}],\"nodes\":[{\"mesh\":0}],\"scene\":0,\"scenes\":[{\"nodes\":[0]}]}",
    );
    assert(json@ =~= metadata(vertex_words as nat, index_words as nat)) by {
        reveal(metadata);
    }
    json
}

/// Appends a chunk whose body is `body`, filled up with `fill`.
fn push_chunk(out: &mut Vec<u8>, tag: u32, body: &[u8], fill: u8)
    requires
        body@.len() <= MAX_WORDS,
    ensures
        final(out)@ == old(out)@ + chunk(tag, padded(body@, fill)),
{
    let pad = pad_len(body.len() as u64);
    push_word(out, (body.len() as u64 + pad as u64) as u32);
    push_word(out, tag);
    push_bytes(out, body);
    push_fill(out, fill, pad);
    assert(out@ =~= old(out)@ + chunk(tag, padded(body@, fill)));
}

/// Appends the binary chunk of a mesh.
fn push_bin_chunk(out: &mut Vec<u8>, positions: &[u32], indices: &[u32])
    requires
        positions@.len() <= MAX_WORDS,
        indices@.len() <= MAX_WORDS,
        4 * positions@.len() + 4 * indices@.len() + 3 <= u32::MAX,
    ensures
        final(out)@ == old(out)@ + chunk(BIN_CHUNK, bin_body(positions@, indices@)),
{
    let buffer_length: u64 = 4 * (positions.len() as u64) + 4 * (indices.len() as u64);
    let pad = pad_len(buffer_length);
    push_word(out, (buffer_length + pad as u64) as u32);
    push_word(out, BIN_CHUNK);
    push_words(out, positions);
    push_words(out, indices);
    push_fill(out, 0, pad);
    assert(out@ =~= old(out)@ + chunk(BIN_CHUNK, bin_body(positions@, indices@)));
}

/// Packs a mesh whose container fits.
pub(crate) fn pack(positions: &[u32], indices: &[u32], json: &[u8]) -> (bytes: Vec<u8>)
    requires
        positions@.len() <= MAX_WORDS,
        indices@.len() <= MAX_WORDS,
        json@ == metadata(positions@.len(), indices@.len()),
        fits(positions@.len(), indices@.len()),
    ensures
        bytes@ == container(positions@, indices@),
{
    proof {
        lemma_metadata_len(positions@.len(), indices@.len());
    }
    let json_len: u64 = json.len() as u64;
    let buffer_length: u64 = 4 * (positions.len() as u64) + 4 * (indices.len() as u64);
    let total_length: u64 = 12 + 8 + json_len + pad_len(json_len) as u64 + 8 + buffer_length
        + pad_len(buffer_length) as u64;
    let mut glb: Vec<u8> = Vec::new();
    push_word(&mut glb, MAGIC);
    push_word(&mut glb, VERSION);
    push_word(&mut glb, total_length as u32);
    push_chunk(&mut glb, JSON_CHUNK, json, SPACE);
    push_bin_chunk(&mut glb, positions, indices);
    assert(glb@ =~= container(positions@, indices@));
    glb
}

/// Packs a mesh into a container, or refuses a mesh whose container would
/// be too long to say its own length in 32 bits.
pub fn build_glb(positions: &[u32], indices: &[u32]) -> (r: Result<Vec<u8>, TerrainError>)
    ensures
        match r {
            Ok(bytes) => fits(positions@.len(), indices@.len()) && bytes@ == container(
                positions@,
                indices@,
            ),
            Err(e) => !fits(positions@.len(), indices@.len()) && e
                == TerrainError::InvalidParameter,
        },
{
    if positions.len() > MAX_WORDS || indices.len() > MAX_WORDS {
        return Err(TerrainError::InvalidParameter);
    }
    let json = write_metadata(positions.len(), indices.len());
    proof {
        lemma_metadata_len(positions@.len(), indices@.len());
    }
    let json_len: u64 = json.len() as u64;
    let buffer_length: u64 = 4 * (positions.len() as u64) + 4 * (indices.len() as u64);
    let total_length: u64 = 12 + 8 + json_len + pad_len(json_len) as u64 + 8 + buffer_length
        + pad_len(buffer_length) as u64;
    if total_length > u32::MAX as u64 {
        return Err(TerrainError::InvalidParameter);
    }
    Ok(pack(positions, indices, json.as_slice()))
}

} // verus!
