//! Building a `.flat` container from the compiled plugins of several targets.

use crate::format::{
    ENTRY_SIZE, Entry, EntryModel, HEADER_SIZE, VERSION, bad_at, encode_triple, first_bad, header_bytes,
    header_of, header_upto, lemma_header_len, lemma_header_roundtrip, magic, models, triple_ok,
    triples_ok, write_header,
};
use vstd::bytes::spec_u16_to_le_bytes;
use crate::pack_error::{PackError, PackFault};
use std::io::Error as IoError;
use vstd::prelude::*;
use vstd::string::StringSliceAdditionalSpecFns;
use vstd::utf8::*;

verus! {

/// The zstd level that plugins are compressed with.
pub const LEVEL: i32 = 3;

/// One bit step of the reflected CRC-32 (IEEE) register, polynomial
/// `0xEDB88320`.
pub open spec fn crc_bit(r: u32) -> u32 {
    if r & 1 == 1 {
        (r >> 1u32) ^ 0xEDB8_8320u32
    } else {
        r >> 1u32
    }
}

/// The register after feeding it byte `b`, least significant bit first.
pub open spec fn crc_byte(r: u32, b: u8) -> u32 {
    crc_bit(crc_bit(crc_bit(crc_bit(crc_bit(crc_bit(crc_bit(crc_bit(r ^ (b as u32)))))))))
}

/// The register after feeding it `data`, starting from all ones.
pub open spec fn crc_register(data: Seq<u8>) -> u32
    decreases data.len(),
{
    if data.len() == 0 {
        0xFFFF_FFFFu32
    } else {
        crc_byte(crc_register(data.drop_last()), data.last())
    }
}

/// The CRC-32 (IEEE) checksum of `data`: the final register, inverted.
pub open spec fn crc32(data: Seq<u8>) -> u32 {
    crc_register(data) ^ 0xFFFF_FFFFu32
}


/// The zstd frame that `zstd` produces for `data` at compression `level`.
pub uninterp spec fn zstd_frame(data: Seq<u8>, level: i32) -> Seq<u8>;

/// Calls `crc32fast::hash`, which computes the CRC-32 (IEEE) checksum of the
/// bytes: [`crc32`] of them.
#[verifier::external_body]
fn checksum(data: &[u8]) -> (sum: u32)
    ensures
        sum == crc32(data@),
{
    crc32fast::hash(data)
}

/// Calls `zstd::encode_all` on the bytes; a result it returns is named
/// [`zstd_frame`] of the bytes and level. It may fail with an I/O error, and
/// nothing is stated of when.
#[verifier::external_body]
fn compress(data: &[u8], level: i32) -> (res: Result<Vec<u8>, IoError>)
    ensures
        res matches Ok(frame) ==> frame@ == zstd_frame(data@, level),
{
    zstd::encode_all(data, level)
}

/// What packing demands of the requested triples before it reads any
/// plugin: none may be missing, each must be storable, and none may repeat.
/// The first triple, in order, that cannot be stored or repeats an earlier one
/// decides the error.
pub open spec fn triples_check(triples: Seq<Seq<char>>, i: nat) -> Result<(), PackFault>
    decreases triples.len() - i,
{
    if i >= triples.len() {
        Ok(())
    } else if !triple_ok(encode_utf8(triples[i as int])) {
        Err(PackFault::InvalidTriple)
    } else if exists|j: int| 0 <= j < i && triples[j] == triples[i as int] {
        Err(PackFault::DuplicateTriple(triples[i as int]))
    } else {
        triples_check(triples, i + 1)
    }
}

pub open spec fn adds_check(triples: Seq<Seq<char>>) -> Result<(), PackFault> {
    if triples.len() == 0 {
        Err(PackFault::Empty)
    } else {
        triples_check(triples, 0)
    }
}

/// Checking from `m` goes straight on to `j` when every triple in between
/// can be stored and differs from all before it.
proof fn lemma_check_skip(ts: Seq<Seq<char>>, m: nat, j: nat)
    requires
        m <= j <= ts.len(),
        forall|k: int|
            m <= k < j ==> triple_ok(encode_utf8(#[trigger] ts[k])) && forall|l: int|
                0 <= l < k ==> ts[l] != ts[k],
    ensures
        triples_check(ts, m) == triples_check(ts, j),
    decreases j - m,
{
    if m < j {
        assert(triple_ok(encode_utf8(ts[m as int])));
        assert(!exists|l: int| 0 <= l < m && ts[l] == ts[m as int]);
        lemma_check_skip(ts, m + 1, j);
    }
}

/// Checking from `m` passes only when every triple from `m` on can be stored
/// and differs from all before it.
proof fn lemma_check_passed(ts: Seq<Seq<char>>, m: nat)
    requires
        triples_check(ts, m) is Ok,
    ensures
        forall|k: int|
            m <= k < ts.len() ==> triple_ok(encode_utf8(#[trigger] ts[k])) && forall|l: int|
                0 <= l < k ==> ts[l] != ts[k],
    decreases ts.len() - m,
{
    if m < ts.len() {
        lemma_check_passed(ts, m + 1);
        assert forall|l: int| 0 <= l < m implies ts[l] != ts[m as int] by {
            if ts[l] == ts[m as int] {
                assert(exists|l2: int| 0 <= l2 < m && ts[l2] == ts[m as int]);
            }
        }
    }
}

/// A pack request passes the check exactly when it names at least one
/// triple, every triple can be stored, and no two triples are equal.
pub proof fn lemma_adds_accepted(ts: Seq<Seq<char>>)
    ensures
        adds_check(ts) is Ok <==> {
            &&& ts.len() > 0
            &&& forall|k: int| 0 <= k < ts.len() ==> triple_ok(encode_utf8(#[trigger] ts[k]))
            &&& forall|i: int, j: int| 0 <= i < j < ts.len() ==> ts[i] != ts[j]
        },
        ts.len() == 0 ==> adds_check(ts) == Err::<(), PackFault>(PackFault::Empty),
{
    if ts.len() > 0 {
        if adds_check(ts) is Ok {
            lemma_check_passed(ts, 0);
            assert forall|i: int, j: int| 0 <= i < j < ts.len() implies ts[i] != ts[j] by {
                assert(triple_ok(encode_utf8(ts[j])));
            }
        }
        if (forall|k: int| 0 <= k < ts.len() ==> triple_ok(encode_utf8(#[trigger] ts[k])))
            && (forall|i: int, j: int| 0 <= i < j < ts.len() ==> ts[i] != ts[j]) {
            lemma_check_skip(ts, 0, ts.len());
        }
    }
}

/// A triple that repeats an earlier one, when every triple before it can be
/// stored and none of them repeats, makes the check fail with
/// `DuplicateTriple` of that triple, whichever earlier triple it repeats.
pub proof fn lemma_adds_duplicate(ts: Seq<Seq<char>>, i: int, j: int)
    requires
        0 <= i < j < ts.len(),
        ts[i] == ts[j],
        triple_ok(encode_utf8(ts[j])),
        forall|k: int|
            0 <= k < j ==> triple_ok(encode_utf8(#[trigger] ts[k])) && forall|l: int|
                0 <= l < k ==> ts[l] != ts[k],
    ensures
        adds_check(ts) == Err::<(), PackFault>(PackFault::DuplicateTriple(ts[j])),
{
    lemma_check_skip(ts, 0, j as nat);
    assert(exists|l: int| 0 <= l < j && ts[l] == ts[j]);
}

/// A triple that cannot be stored, when every triple before it can be stored
/// and none of them repeats, makes the check fail with `InvalidTriple`.
pub proof fn lemma_adds_invalid(ts: Seq<Seq<char>>, j: int)
    requires
        0 <= j < ts.len(),
        !triple_ok(encode_utf8(ts[j])),
        forall|k: int|
            0 <= k < j ==> triple_ok(encode_utf8(#[trigger] ts[k])) && forall|l: int|
                0 <= l < k ==> ts[l] != ts[k],
    ensures
        adds_check(ts) == Err::<(), PackFault>(PackFault::InvalidTriple),
{
    lemma_check_skip(ts, 0, j as nat);
}

pub open spec fn views(strings: Seq<String>) -> Seq<Seq<char>> {
    strings.map_values(|s: String| s@)
}

/// Checks the triples of a pack request, in the order they were given.
///
/// It passes exactly when there is at least one triple, every triple can be
/// stored and no two are equal; a triple that repeats any earlier one, with
/// nothing wrong before it, is reported as `DuplicateTriple`.
pub fn check_adds(triples: &[String]) -> (res: Result<(), PackError>)
    ensures
        match res {
            Ok(()) => adds_check(views(triples@)) == Ok::<(), PackFault>(()),
            Err(e) => adds_check(views(triples@)) == Err::<(), PackFault>(e.fault()),
        },
        res is Ok <==> {
            &&& triples@.len() > 0
            &&& forall|k: int|
                0 <= k < triples@.len() ==> triple_ok(encode_utf8(#[trigger] triples@[k]@))
            &&& forall|i: int, j: int|
                0 <= i < j < triples@.len() ==> #[trigger] triples@[i]@ != #[trigger] triples@[j]@
        },
        forall|i: int, j: int|
            #![trigger triples@[i], triples@[j]]
            0 <= i < j < triples@.len() && triples@[i]@ == triples@[j]@ && triple_ok(
                encode_utf8(triples@[j]@),
            ) && (forall|k: int|
                0 <= k < j ==> triple_ok(encode_utf8(#[trigger] triples@[k]@)) && forall|l: int|
                    0 <= l < k ==> triples@[l]@ != triples@[k]@) ==> (res matches Err(
                PackError::DuplicateTriple(t),
            ) && t@ == triples@[j]@),
{
    let res = check_in_order(triples);
    proof {
        let ts = views(triples@);
        assert forall|k: int| 0 <= k < triples@.len() implies ts[k] == triples@[k]@ by {}
        lemma_adds_accepted(ts);
        let clean = triples@.len() > 0 && (forall|k: int|
            0 <= k < triples@.len() ==> triple_ok(encode_utf8(#[trigger] triples@[k]@))) && (
        forall|i: int, j: int|
            0 <= i < j < triples@.len() ==> #[trigger] triples@[i]@ != #[trigger] triples@[j]@);
        if res is Ok {
            assert forall|k: int| 0 <= k < triples@.len() implies triple_ok(
                encode_utf8(#[trigger] triples@[k]@),
            ) by {
                assert(ts[k] == triples@[k]@);
            }
            assert forall|i: int, j: int| 0 <= i < j < triples@.len() implies #[trigger] triples@[i]@
                != #[trigger] triples@[j]@ by {
                assert(ts[i] == triples@[i]@);
                assert(ts[j] == triples@[j]@);
            }
        }
        if clean {
            assert forall|k: int| 0 <= k < ts.len() implies triple_ok(encode_utf8(#[trigger] ts[k])) by {
                assert(ts[k] == triples@[k]@);
            }
            assert forall|i: int, j: int| 0 <= i < j < ts.len() implies ts[i] != ts[j] by {
                assert(ts[i] == triples@[i]@);
                assert(ts[j] == triples@[j]@);
            }
        }
        assert forall|i: int, j: int|
            #![trigger triples@[i], triples@[j]]
            0 <= i < j < triples@.len() && triples@[i]@ == triples@[j]@ && triple_ok(
                encode_utf8(triples@[j]@),
            ) && (forall|k: int|
                0 <= k < j ==> triple_ok(encode_utf8(#[trigger] triples@[k]@)) && forall|l: int|
                    0 <= l < k ==> triples@[l]@ != triples@[k]@) implies (res matches Err(
            PackError::DuplicateTriple(t),
        ) && t@ == triples@[j]@) by {
            assert forall|k: int|
                0 <= k < j implies triple_ok(encode_utf8(#[trigger] ts[k])) && forall|l: int|
                0 <= l < k ==> ts[l] != ts[k] by {
                assert(ts[k] == triples@[k]@);
                assert forall|l: int| 0 <= l < k implies ts[l] != ts[k] by {
                    assert(ts[l] == triples@[l]@);
                }
            }
            lemma_adds_duplicate(ts, i, j);
        }
    }
    res
}

/// The check of [`check_adds`], triple by triple.
fn check_in_order(triples: &[String]) -> (res: Result<(), PackError>)
    ensures
        match res {
            Ok(()) => adds_check(views(triples@)) == Ok::<(), PackFault>(()),
            Err(e) => adds_check(views(triples@)) == Err::<(), PackFault>(e.fault()),
        },
{
    let ghost ts = views(triples@);
    if triples.len() == 0 {
        return Err(PackError::Empty);
    }
    let mut i: usize = 0;
    while i < triples.len()
        invariant
            ts == views(triples@),
            ts.len() == triples@.len(),
            i <= triples.len(),
            triples_check(ts, i as nat) == triples_check(ts, 0),
        decreases triples.len() - i,
    {
        let triple = &triples[i];
        match encode_triple(triple.as_str()) {
            Ok(_) => {},
            Err(e) => {
                return Err(e);
            },
        }
        let mut j: usize = 0;
        while j < i
            invariant
                ts == views(triples@),
                ts.len() == triples@.len(),
                j <= i < triples.len(),
                triple == &triples@[i as int],
                triples_check(ts, i as nat) == triples_check(ts, 0),
                triple_ok(encode_utf8(ts[i as int])),
                forall|k: int| 0 <= k < j ==> ts[k] != ts[i as int],
            decreases i - j,
        {
            assert(ts[j as int] == triples@[j as int]@);
            assert(ts[i as int] == triples@[i as int]@);
            if triples[j] == *triple {
                assert(ts[j as int] == ts[i as int]);
                return Err(PackError::DuplicateTriple(triple.clone()));
            }
            j = j + 1;
        }
        i = i + 1;
    }
    Ok(())
}

/// One plugin waiting to be written: its header entry and its compressed bytes.
pub struct Blob {
    pub entry: Entry,
    pub compressed: Vec<u8>,
}

/// Collects compressed plugins and lays them out in a container.
pub struct Packer {
    blobs: Vec<Blob>,
}

/// The plain content of a pending plugin: its entry and compressed bytes.
pub type BlobModel = (EntryModel, Seq<u8>);

/// The compressed bytes of `blobs`, one after the other.
pub open spec fn blobs_bytes(blobs: Seq<BlobModel>) -> Seq<u8>
    decreases blobs.len(),
{
    if blobs.len() == 0 {
        Seq::empty()
    } else {
        blobs_bytes(blobs.drop_last()) + blobs.last().1
    }
}

/// Where the first compressed plugin starts: right after a header of `n` entries.
pub open spec fn data_start(n: nat) -> nat {
    (HEADER_SIZE + ENTRY_SIZE * n) as nat
}

/// The entries of `blobs` with their offsets filled in: each plugin follows
/// the header and the plugins before it.
pub open spec fn placed(blobs: Seq<BlobModel>) -> Seq<EntryModel> {
    Seq::new(
        blobs.len(),
        |i: int|
            EntryModel {
                offset: (data_start(blobs.len()) + blobs_bytes(blobs.take(i)).len()) as u64,
                ..blobs[i].0
            },
    )
}

/// The container that `blobs` make: the header, then the plugins in order.
pub open spec fn container(blobs: Seq<BlobModel>) -> Seq<u8> {
    header_bytes(placed(blobs)) + blobs_bytes(blobs)
}

/// Offsets of a container of `blobs` fit in a `u64`.
pub open spec fn offsets_fit(blobs: Seq<BlobModel>) -> bool {
    data_start(blobs.len()) + blobs_bytes(blobs).len() <= u64::MAX
}

impl Packer {
    pub closed spec fn view(&self) -> Seq<BlobModel> {
        self.blobs@.map_values(|b: Blob| (b.entry@, b.compressed@))
    }

    /// Each pending plugin records the size of its compressed bytes.
    #[verifier::type_invariant]
    spec fn sizes_recorded(self) -> bool {
        sizes_match(self.view())
    }

    /// An empty packer.
    pub fn new() -> (packer: Self)
        ensures
            packer.view() == Seq::<BlobModel>::empty(),
            sizes_match(packer.view()),
    {
        let packer = Packer { blobs: Vec::new() };
        assert(packer.view() =~= Seq::<BlobModel>::empty());
        packer
    }

    /// The number of plugins added so far.
    pub fn len(&self) -> (n: usize)
        ensures
            n == self.view().len(),
    {
        self.blobs.len()
    }

    /// The length of the compressed plugin `i`.
    pub fn compressed_len(&self, i: usize) -> (n: usize)
        requires
            i < self.view().len(),
        ensures
            n == self.view()[i as int].1.len(),
    {
        self.blobs[i].compressed.len()
    }

    /// Checksums and compresses the plugin `raw` of `target_triple` and keeps
    /// it through [`Packer::record`], with offset 0 until the container is
    /// laid out.
    pub fn add(&mut self, target_triple: String, raw: &[u8]) -> (res: Result<(), PackError>)
        ensures
            match res {
                Ok(()) => final(self).view() == old(self).view().push(
                    (
                        EntryModel {
                            triple: target_triple@,
                            offset: 0,
                            compressed_size: zstd_frame(raw@, LEVEL).len() as u64,
                            uncompressed_size: raw@.len() as u64,
                            checksum: crc32(raw@),
                        },
                        zstd_frame(raw@, LEVEL),
                    ),
                ),
                Err(e) => e is Io && final(self).view() == old(self).view(),
            },
            sizes_match(final(self).view()),
    {
        proof {
            use_type_invariant(&*self);
        }
        let checksum = checksum(raw);
        let compressed = match compress(raw, LEVEL) {
            Ok(frame) => frame,
            Err(e) => {
                return Err(PackError::Io(e));
            },
        };
        self.record(target_triple, raw, checksum, compressed);
        Ok(())
    }

    /// Keeps the plugin `raw` of `target_triple`, given its checksum and its
    /// compressed frame, with offset 0 until the container is laid out.
    pub fn record(&mut self, target_triple: String, raw: &[u8], checksum: u32, frame: Vec<u8>)
        ensures
            final(self).view() == old(self).view().push(
                (
                    EntryModel {
                        triple: target_triple@,
                        offset: 0,
                        compressed_size: frame@.len() as u64,
                        uncompressed_size: raw@.len() as u64,
                        checksum,
                    },
                    frame@,
                ),
            ),
            sizes_match(final(self).view()),
    {
        proof {
            use_type_invariant(&*self);
        }
        let entry = Entry {
            target_triple,
            offset: 0,
            compressed_size: frame.len() as u64,
            uncompressed_size: raw.len() as u64,
            checksum,
        };
        let ghost before = self.view();
        let mut blobs: Vec<Blob> = Vec::new();
        std::mem::swap(&mut blobs, &mut self.blobs);
        assert(blobs@.map_values(|b: Blob| (b.entry@, b.compressed@)) == before);
        blobs.push(Blob { entry, compressed: frame });
        let ghost after = blobs@.map_values(|b: Blob| (b.entry@, b.compressed@));
        assert(after =~= before.push((blobs@.last().entry@, blobs@.last().compressed@)));
        assert(sizes_match(after));
        std::mem::swap(&mut blobs, &mut self.blobs);
    }

    /// Lays the plugins out after the header and appends the whole container
    /// to `out`.
    ///
    /// The header is written as [`write_header`] writes it, and fails as it
    /// does, leaving in `out` what it wrote before failing; on success exactly
    /// [`container`] of what was added is appended.
    pub fn finish(self, out: &mut Vec<u8>) -> (res: Result<(), PackError>)
        requires
            offsets_fit(self.view()),
        ensures
            match res {
                Ok(()) => {
                    &&& self.view().len() <= u16::MAX
                    &&& triples_ok(placed(self.view()))
                    &&& final(out)@ == old(out)@ + container(self.view())
                },
                Err(e) => {
                    ||| self.view().len() > u16::MAX && e is Invalid && final(out)@ == old(out)@
                        + magic() + spec_u16_to_le_bytes(VERSION)
                    ||| self.view().len() <= u16::MAX && e is InvalidTriple && !triples_ok(
                        placed(self.view()),
                    ) && first_bad(placed(self.view()), bad_at(placed(self.view())))
                        && final(out)@ == old(out)@ + header_upto(
                        placed(self.view()),
                        bad_at(placed(self.view())),
                    )
                },
            },
            sizes_match(self.view()),
    {
        proof {
            use_type_invariant(&self);
        }
        let ghost bs = self.view();
        let n = self.blobs.len();
        let mut offset: u64 = (n as u64) * (ENTRY_SIZE as u64) + (HEADER_SIZE as u64);
        let mut entries: Vec<Entry> = Vec::new();
        for i in 0..n
            invariant
                n == bs.len(),
                bs == self.view(),
                offsets_fit(bs),
                offset == data_start(n as nat) + blobs_bytes(bs.take(i as int)).len(),
                entries@.len() == i,
                models(entries@) == placed(bs).take(i as int),
        {
            let blob = &self.blobs[i];
            assert(bs[i as int] == (blob.entry@, blob.compressed@));
            proof {
                assert(bs.take(i + 1).drop_last() == bs.take(i as int));
                lemma_blobs_bytes_prefix(bs, i + 1);
            }
            let ghost done = models(entries@);
            entries.push(
                Entry {
                    target_triple: blob.entry.target_triple.clone(),
                    offset,
                    compressed_size: blob.entry.compressed_size,
                    uncompressed_size: blob.entry.uncompressed_size,
                    checksum: blob.entry.checksum,
                },
            );
            assert(entries@[i as int]@ == placed(bs)[i as int]);
            assert(models(entries@) =~= placed(bs).take(i + 1));
            offset = offset + blob.compressed.len() as u64;
        }
        assert(placed(bs).take(n as int) =~= placed(bs));
        let ghost start = out@;
        write_header(out, entries.as_slice())?;
        let ghost head = out@;
        assert(head == start + header_bytes(placed(bs)));
        for i in 0..n
            invariant
                n == bs.len(),
                bs == self.view(),
                out@ == head + blobs_bytes(bs.take(i as int)),
        {
            let blob = &self.blobs[i];
            let ghost before = out@;
            let mut k: usize = 0;
            while k < blob.compressed.len()
                invariant
                    out@ == before + blob.compressed@.take(k as int),
                    k <= blob.compressed.len(),
                decreases blob.compressed.len() - k,
            {
                out.push(blob.compressed[k]);
                assert(blob.compressed@.take(k + 1) == blob.compressed@.take(k as int).push(
                    blob.compressed@[k as int],
                ));
                k = k + 1;
            }
            assert(blob.compressed@.take(k as int) == blob.compressed@);
            assert(bs.take(i + 1).drop_last() == bs.take(i as int));
        }
        assert(bs.take(n as int) == bs);
        Ok(())
    }
}

/// Every pending plugin records the size of its compressed bytes.
pub open spec fn sizes_match(blobs: Seq<BlobModel>) -> bool {
    forall|i: int| 0 <= i < blobs.len() ==> #[trigger] blobs[i].0.compressed_size == blobs[i].1.len()
}

/// In a container laid out by [`Packer::finish`], the header reads back as the
/// placed entries, and each entry's offset and compressed size locate exactly
/// its compressed plugin.
pub proof fn lemma_container_layout(blobs: Seq<BlobModel>, i: int)
    requires
        1 <= blobs.len() <= u16::MAX,
        triples_ok(placed(blobs)),
        offsets_fit(blobs),
        sizes_match(blobs),
        0 <= i < blobs.len(),
    ensures
        header_of(container(blobs)) == Ok::<(u16, Seq<EntryModel>), PackFault>(
            (VERSION, placed(blobs)),
        ),
        container(blobs).subrange(
            placed(blobs)[i].offset as int,
            placed(blobs)[i].offset + placed(blobs)[i].compressed_size,
        ) == blobs[i].1,
{
    let es = placed(blobs);
    let data = blobs_bytes(blobs);
    lemma_header_roundtrip(es, data);
    lemma_header_len(es);
    lemma_blobs_bytes_prefix(blobs, i);
    lemma_blobs_bytes_prefix(blobs, i + 1);
    assert(blobs.take(i + 1).drop_last() == blobs.take(i));
    let before = blobs_bytes(blobs.take(i)).len() as int;
    let size = blobs[i].1.len() as int;
    let start = data_start(blobs.len()) as int;
    assert(header_bytes(es).len() == start);
    assert(es[i].offset == start + before);
    assert(es[i].compressed_size == size);
    assert(container(blobs).subrange(start + before, start + before + size) =~= data.subrange(
        before,
        before + size,
    ));
    assert(data.take(before + size).subrange(before, before + size) =~= blobs[i].1);
    assert(data.subrange(before, before + size) =~= data.take(before + size).subrange(
        before,
        before + size,
    ));
}

/// The bytes of a prefix of the plugins fit within the bytes of all of them.
proof fn lemma_blobs_bytes_prefix(blobs: Seq<BlobModel>, k: int)
    requires
        0 <= k <= blobs.len(),
    ensures
        blobs_bytes(blobs.take(k)).len() <= blobs_bytes(blobs).len(),
        blobs_bytes(blobs.take(k)) == blobs_bytes(blobs).take(blobs_bytes(blobs.take(k)).len() as int),
    decreases blobs.len(),
{
    if k == blobs.len() {
        assert(blobs.take(k) =~= blobs);
    } else {
        let init = blobs.drop_last();
        lemma_blobs_bytes_prefix(init, k);
        assert(init.take(k) =~= blobs.take(k));
    }
}

} // verus!
