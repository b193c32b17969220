//! The `.flat` container header: magic, version, entry count and one fixed-size
//! record per packed target.

use crate::pack_error::{PackError, PackFault, unexpected_eof};
use crate::text::utf8_str;
use vstd::bytes::*;
use vstd::prelude::*;
use vstd::string::StringSliceAdditionalSpecFns;
use vstd::utf8::*;

verus! {

pub const VERSION: u16 = 1;

pub const TRIPLE_LEN: usize = 32;

pub const ENTRY_SIZE: usize = 60;

pub const HEADER_SIZE: usize = 8;

/// The four bytes `FLAT` that open every container.
pub open spec fn magic() -> Seq<u8> {
    seq![0x46u8, 0x4cu8, 0x41u8, 0x54u8]
}

/// One packed target as it is recorded in the header.
#[derive(Debug)]
pub struct Entry {
    pub target_triple: String,
    pub offset: u64,
    pub compressed_size: u64,
    pub uncompressed_size: u64,
    pub checksum: u32,
}

/// The plain content of an [`Entry`].
pub struct EntryModel {
    pub triple: Seq<char>,
    pub offset: u64,
    pub compressed_size: u64,
    pub uncompressed_size: u64,
    pub checksum: u32,
}

impl View for Entry {
    type V = EntryModel;

    open spec fn view(&self) -> EntryModel {
        EntryModel {
            triple: self.target_triple@,
            offset: self.offset,
            compressed_size: self.compressed_size,
            uncompressed_size: self.uncompressed_size,
            checksum: self.checksum,
        }
    }
}

/// A parsed container header.
#[derive(Debug)]
pub struct FlatFile {
    pub version: u16,
    pub entries: Vec<Entry>,
}

pub open spec fn models(entries: Seq<Entry>) -> Seq<EntryModel> {
    entries.map_values(|e: Entry| e@)
}

/// `n` zero bytes.
pub open spec fn zeros(n: nat) -> Seq<u8> {
    Seq::new(n, |i: int| 0u8)
}

/// A target triple can be stored when its UTF-8 bytes are non-empty, hold no
/// NUL and leave room for at least one terminating NUL in the 32-byte field.
pub open spec fn triple_ok(bytes: Seq<u8>) -> bool {
    0 < bytes.len() < TRIPLE_LEN && !bytes.contains(0u8)
}

/// The 32-byte field that stores `bytes`: the bytes, then NUL padding.
pub open spec fn padded(bytes: Seq<u8>) -> Seq<u8> {
    bytes + zeros((TRIPLE_LEN - bytes.len()) as nat)
}

/// Index of the first NUL at or after `i`, or the length when there is none.
pub open spec fn nul_from(bytes: Seq<u8>, i: nat) -> nat
    decreases bytes.len() - i,
{
    if i >= bytes.len() {
        bytes.len()
    } else if bytes[i as int] == 0 {
        i
    } else {
        nul_from(bytes, i + 1)
    }
}

/// Index of the first NUL, or the length when there is none.
pub open spec fn nul_end(bytes: Seq<u8>) -> nat {
    nul_from(bytes, 0)
}

/// What a stored 32-byte triple field decodes to. A field without a NUL would
/// hold 32 bytes of triple, more than the 31 that a triple may have.
pub open spec fn triple_text(field: Seq<u8>) -> Result<Seq<char>, PackFault> {
    let end = nul_end(field) as int;
    if end >= TRIPLE_LEN {
        Err(PackFault::InvalidTriple)
    } else if exists|j: int| end <= j < field.len() && field[j] != 0 {
        Err(PackFault::Invalid)
    } else if !valid_utf8(field.take(end)) {
        Err(PackFault::Utf8)
    } else if end == 0 {
        Err(PackFault::InvalidTriple)
    } else {
        Ok(decode_utf8(field.take(end)))
    }
}

/// Stores a target triple in its fixed 32-byte field.
pub fn encode_triple(triple: &str) -> (res: Result<[u8; TRIPLE_LEN], PackError>)
    ensures
        match res {
            Ok(field) => triple_ok(triple.spec_bytes()) && field@ == padded(triple.spec_bytes()),
            Err(e) => !triple_ok(triple.spec_bytes()) && e is InvalidTriple,
        },
{
    let bytes = triple.as_bytes();
    if bytes.len() == 0 || bytes.len() >= TRIPLE_LEN {
        return Err(PackError::InvalidTriple);
    }
    for i in 0..bytes.len()
        invariant
            bytes@ == triple.spec_bytes(),
            forall|j: int| 0 <= j < i ==> bytes@[j] != 0,
    {
        if bytes[i] == 0 {
            assert(bytes@[i as int] == 0u8);
            return Err(PackError::InvalidTriple);
        }
    }
    let mut field = [0u8; TRIPLE_LEN];
    for i in 0..bytes.len()
        invariant
            bytes@ == triple.spec_bytes(),
            bytes@.len() < TRIPLE_LEN,
            field@.len() == TRIPLE_LEN,
            forall|j: int| 0 <= j < i ==> field@[j] == bytes@[j],
            forall|j: int| i <= j < TRIPLE_LEN ==> field@[j] == 0u8,
    {
        field[i] = bytes[i];
    }
    assert(field@ =~= padded(bytes@));
    Ok(field)
}

/// Reads a target triple back from its 32-byte field.
pub fn decode_triple(field: &[u8; TRIPLE_LEN]) -> (res: Result<String, PackError>)
    ensures
        match res {
            Ok(s) => triple_text(field@) == Ok::<Seq<char>, PackFault>(s@),
            Err(e) => triple_text(field@) == Err::<Seq<char>, PackFault>(e.fault()),
        },
{
    let bytes = field.as_slice();
    let mut end: usize = 0;
    while end < TRIPLE_LEN && bytes[end] != 0
        invariant
            bytes@ == field@,
            end <= TRIPLE_LEN,
            nul_from(bytes@, end as nat) == nul_end(bytes@),
        decreases TRIPLE_LEN - end,
    {
        end = end + 1;
    }
    assert(nul_end(bytes@) == end);
    if end == TRIPLE_LEN {
        return Err(PackError::InvalidTriple);
    }
    let mut j: usize = end;
    while j < TRIPLE_LEN
        invariant
            bytes@ == field@,
            end <= j <= TRIPLE_LEN,
            nul_end(bytes@) == end,
            forall|k: int| end <= k < j ==> bytes@[k] == 0,
        decreases TRIPLE_LEN - j,
    {
        if bytes[j] != 0 {
            return Err(PackError::Invalid);
        }
        j = j + 1;
    }
    let text = match utf8_str(&bytes[0..end]) {
        Ok(text) => text,
        Err(e) => {
            return Err(PackError::Utf8(e));
        },
    };
    assert(bytes@.subrange(0, end as int) == bytes@.take(end as int));
    if end == 0 {
        return Err(PackError::InvalidTriple);
    }
    Ok(text.to_owned())
}


/// The 60-byte record of one entry: its triple field, then offset,
/// compressed size and uncompressed size as little-endian `u64`, then the
/// checksum as a little-endian `u32`.
pub open spec fn entry_bytes(e: EntryModel) -> Seq<u8> {
    padded(encode_utf8(e.triple)) + spec_u64_to_le_bytes(e.offset) + spec_u64_to_le_bytes(
        e.compressed_size,
    ) + spec_u64_to_le_bytes(e.uncompressed_size) + spec_u32_to_le_bytes(e.checksum)
}

/// The records of `entries`, one after the other.
pub open spec fn entries_bytes(entries: Seq<EntryModel>) -> Seq<u8>
    decreases entries.len(),
{
    if entries.len() == 0 {
        Seq::empty()
    } else {
        entries_bytes(entries.drop_last()) + entry_bytes(entries.last())
    }
}

/// A whole header: magic, version 1, the entry count as a little-endian
/// `u16`, then the records.
pub open spec fn header_bytes(entries: Seq<EntryModel>) -> Seq<u8> {
    magic() + spec_u16_to_le_bytes(VERSION) + spec_u16_to_le_bytes(entries.len() as u16)
        + entries_bytes(entries)
}

/// Every entry's triple can be stored.
pub open spec fn triples_ok(entries: Seq<EntryModel>) -> bool {
    forall|i: int| 0 <= i < entries.len() ==> triple_ok(#[trigger] encode_utf8(entries[i].triple))
}

/// What one 60-byte record decodes to.
pub open spec fn entry_record(record: Seq<u8>) -> Result<EntryModel, PackFault> {
    match triple_text(record.take(TRIPLE_LEN as int)) {
        Err(f) => Err(f),
        Ok(triple) => Ok(
            EntryModel {
                triple,
                offset: spec_u64_from_le_bytes(record.subrange(32, 40)),
                compressed_size: spec_u64_from_le_bytes(record.subrange(40, 48)),
                uncompressed_size: spec_u64_from_le_bytes(record.subrange(48, 56)),
                checksum: spec_u32_from_le_bytes(record.subrange(56, 60)),
            },
        ),
    }
}

/// Where the record of entry `i` starts.
pub open spec fn record_start(i: nat) -> nat {
    (HEADER_SIZE + ENTRY_SIZE * i) as nat
}

/// The first `count` records of a header, read in order; reading stops at the
/// first record that is cut short or does not decode.
pub open spec fn records(bytes: Seq<u8>, count: nat) -> Result<Seq<EntryModel>, PackFault>
    decreases count,
{
    if count == 0 {
        Ok(Seq::empty())
    } else {
        match records(bytes, (count - 1) as nat) {
            Err(f) => Err(f),
            Ok(done) => {
                let start = record_start((count - 1) as nat) as int;
                if bytes.len() < start + ENTRY_SIZE {
                    Err(PackFault::Io)
                } else {
                    match entry_record(bytes.subrange(start, start + ENTRY_SIZE)) {
                        Err(f) => Err(f),
                        Ok(e) => Ok(done.push(e)),
                    }
                }
            },
        }
    }
}

/// What reading a header from the front of `bytes` gives: the version and the
/// entries, or the first fault met, in the order the fields are read.
pub open spec fn header_of(bytes: Seq<u8>) -> Result<(u16, Seq<EntryModel>), PackFault> {
    if bytes.len() < 4 {
        Err(PackFault::Io)
    } else if bytes.take(4) != magic() {
        Err(PackFault::Invalid)
    } else if bytes.len() < 6 {
        Err(PackFault::Io)
    } else {
        let version = spec_u16_from_le_bytes(bytes.subrange(4, 6));
        if version != VERSION {
            Err(PackFault::UnsupportedVersion(version))
        } else if bytes.len() < 8 {
            Err(PackFault::Io)
        } else {
            let count = spec_u16_from_le_bytes(bytes.subrange(6, 8));
            if count == 0 {
                Err(PackFault::Empty)
            } else {
                match records(bytes, count as nat) {
                    Err(f) => Err(f),
                    Ok(entries) => Ok((version, entries)),
                }
            }
        }
    }
}

/// A header of `entries` is 8 bytes plus 60 per entry.
pub proof fn lemma_header_len(entries: Seq<EntryModel>)
    requires
        triples_ok(entries),
    ensures
        header_bytes(entries).len() == HEADER_SIZE + ENTRY_SIZE * entries.len(),
{
    lemma_auto_spec_u16_to_from_le_bytes();
    assert forall|j: int| 0 <= j < entries.len() implies fits(#[trigger] entries[j]) by {
        assert(triple_ok(encode_utf8(entries[j].triple)));
    }
    lemma_entries_at(entries, 0);
}

/// Once reading the records fails, reading more of them fails the same way.
proof fn lemma_records_stop(bytes: Seq<u8>, k: nat, m: nat)
    requires
        k <= m,
        records(bytes, k) is Err,
    ensures
        records(bytes, m) == records(bytes, k),
    decreases m - k,
{
    if k < m {
        lemma_records_stop(bytes, k, (m - 1) as nat);
    }
}

fn append_all(out: &mut Vec<u8>, mut bytes: Vec<u8>)
    ensures
        final(out)@ == old(out)@ + bytes@,
{
    out.append(&mut bytes);
}

fn append_field(out: &mut Vec<u8>, field: &[u8; TRIPLE_LEN])
    ensures
        final(out)@ == old(out)@ + field@,
{
    let ghost start = out@;
    for i in 0..TRIPLE_LEN
        invariant
            field@.len() == TRIPLE_LEN,
            out@ == start + field@.take(i as int),
    {
        out.push(field[i]);
        assert(field@.take(i + 1) == field@.take(i as int).push(field@[i as int]));
    }
    assert(field@.take(TRIPLE_LEN as int) == field@);
}

/// The triples of the first `k` entries can be stored and that of entry `k`
/// cannot.
pub open spec fn first_bad(entries: Seq<EntryModel>, k: int) -> bool {
    &&& 0 <= k < entries.len()
    &&& !triple_ok(encode_utf8(entries[k].triple))
    &&& forall|j: int| 0 <= j < k ==> triple_ok(#[trigger] encode_utf8(entries[j].triple))
}

/// The first entry whose triple cannot be stored, when there is one.
pub open spec fn bad_at(entries: Seq<EntryModel>) -> int {
    choose|k: int| first_bad(entries, k)
}

/// The header of `entries` as far as record `k`: magic, version, the count of
/// all entries, then the records before `k`.
pub open spec fn header_upto(entries: Seq<EntryModel>, k: int) -> Seq<u8> {
    magic() + spec_u16_to_le_bytes(VERSION) + spec_u16_to_le_bytes(entries.len() as u16)
        + entries_bytes(entries.take(k))
}

/// Appends the header of a container holding `entries` to `out`, field by
/// field.
///
/// Fails with `Invalid`, after the magic and version, when there are more
/// entries than a `u16` counts, and otherwise with `InvalidTriple` at the
/// first entry whose triple cannot be stored, after the records before it.
pub fn write_header(out: &mut Vec<u8>, entries: &[Entry]) -> (res: Result<(), PackError>)
    ensures
        match res {
            Ok(()) => {
                &&& entries@.len() <= u16::MAX
                &&& triples_ok(models(entries@))
                &&& final(out)@ == old(out)@ + header_bytes(models(entries@))
            },
            Err(e) => {
                ||| entries@.len() > u16::MAX && e is Invalid && final(out)@ == old(out)@ + magic()
                    + spec_u16_to_le_bytes(VERSION)
                ||| entries@.len() <= u16::MAX && e is InvalidTriple && !triples_ok(
                    models(entries@),
                ) && first_bad(models(entries@), bad_at(models(entries@))) && final(out)@ == old(
                    out,
                )@ + header_upto(models(entries@), bad_at(models(entries@)))
            },
        },
{
    let ghost all = models(entries@);
    let ghost start = out@;
    out.push(0x46);
    out.push(0x4c);
    out.push(0x41);
    out.push(0x54);
    append_all(out, u16_to_le_bytes(VERSION));
    assert(out@ == start + magic() + spec_u16_to_le_bytes(VERSION));
    if entries.len() > 65535 {
        return Err(PackError::Invalid);
    }
    append_all(out, u16_to_le_bytes(entries.len() as u16));
    assert(out@ == start + header_upto(all, 0));
    for i in 0..entries.len()
        invariant
            all == models(entries@),
            entries@.len() <= u16::MAX,
            start == old(out)@,
            out@ == start + header_upto(all, i as int),
            forall|j: int| 0 <= j < i ==> triple_ok(#[trigger] encode_utf8(all[j].triple)),
    {
        let entry = &entries[i];
        let field = match encode_triple(entry.target_triple.as_str()) {
            Ok(field) => field,
            Err(e) => {
                assert(first_bad(all, i as int));
                proof {
                    // The first entry that cannot be stored is this one.
                    let k = bad_at(all);
                    assert(first_bad(all, k));
                    if k < i {
                        assert(triple_ok(encode_utf8(all[k].triple)));
                    } else if k > i {
                        assert(triple_ok(encode_utf8(all[i as int].triple)));
                    }
                }
                return Err(e);
            },
        };
        let ghost before = out@;
        append_field(out, &field);
        append_all(out, u64_to_le_bytes(entry.offset));
        append_all(out, u64_to_le_bytes(entry.compressed_size));
        append_all(out, u64_to_le_bytes(entry.uncompressed_size));
        append_all(out, u32_to_le_bytes(entry.checksum));
        assert(all.take(i + 1).drop_last() == all.take(i as int));
        assert(out@ == before + entry_bytes(all[i as int]));
        assert(out@ == start + header_upto(all, i + 1));
    }
    assert(all.take(entries.len() as int) == all);
    Ok(())
}

/// Copies the triple field out of a record.
fn triple_field(record: &[u8]) -> (field: [u8; TRIPLE_LEN])
    requires
        record@.len() == ENTRY_SIZE,
    ensures
        field@ == record@.take(TRIPLE_LEN as int),
{
    let mut field = [0u8; TRIPLE_LEN];
    for i in 0..TRIPLE_LEN
        invariant
            record@.len() == ENTRY_SIZE,
            field@.len() == TRIPLE_LEN,
            forall|j: int| 0 <= j < i ==> field@[j] == record@[j],
    {
        field[i] = record[i];
    }
    assert(field@ =~= record@.take(TRIPLE_LEN as int));
    field
}

/// Decodes one 60-byte record.
fn parse_entry(record: &[u8]) -> (res: Result<Entry, PackError>)
    requires
        record@.len() == ENTRY_SIZE,
    ensures
        match res {
            Ok(e) => entry_record(record@) == Ok::<EntryModel, PackFault>(e@),
            Err(e) => entry_record(record@) == Err::<EntryModel, PackFault>(e.fault()),
        },
{
    let field = triple_field(record);
    let offset = u64_from_le_bytes(&record[32..40]);
    let compressed_size = u64_from_le_bytes(&record[40..48]);
    let uncompressed_size = u64_from_le_bytes(&record[48..56]);
    let checksum = u32_from_le_bytes(&record[56..60]);
    let target_triple = decode_triple(&field)?;
    Ok(Entry { target_triple, offset, compressed_size, uncompressed_size, checksum })
}

/// Reads a container header from the front of `bytes`.
///
/// The fields are read in order, and the first one that is cut short or wrong
/// decides the error: a short input gives `Io`, a wrong magic `Invalid`, a
/// version other than 1 `UnsupportedVersion`, a zero count `Empty`, and a bad
/// record the error of its triple. The `Io` error is the one that
/// [`unexpected_eof`] builds; its kind, held inside the opaque standard error
/// value, is not stated.
pub fn read_header(bytes: &[u8]) -> (res: Result<FlatFile, PackError>)
    ensures
        match res {
            Ok(file) => header_of(bytes@) == Ok::<(u16, Seq<EntryModel>), PackFault>(
                (file.version, models(file.entries@)),
            ),
            Err(e) => header_of(bytes@) == Err::<(u16, Seq<EntryModel>), PackFault>(e.fault()),
        },
{
    if bytes.len() < 4 {
        return Err(PackError::Io(unexpected_eof()));
    }
    if !(bytes[0] == 0x46 && bytes[1] == 0x4c && bytes[2] == 0x41 && bytes[3] == 0x54) {
        assert(bytes@.take(4) != magic()) by {
            if bytes@.take(4) == magic() {
                assert(bytes@.take(4)[0] == bytes@[0]);
                assert(bytes@.take(4)[1] == bytes@[1]);
                assert(bytes@.take(4)[2] == bytes@[2]);
                assert(bytes@.take(4)[3] == bytes@[3]);
            }
        }
        return Err(PackError::Invalid);
    }
    assert(bytes@.take(4) =~= magic());
    if bytes.len() < 6 {
        return Err(PackError::Io(unexpected_eof()));
    }
    let version = u16_from_le_bytes(&bytes[4..6]);
    if version != VERSION {
        return Err(PackError::UnsupportedVersion(version));
    }
    if bytes.len() < 8 {
        return Err(PackError::Io(unexpected_eof()));
    }
    let count = u16_from_le_bytes(&bytes[6..8]);
    if count == 0 {
        return Err(PackError::Empty);
    }
    let mut entries: Vec<Entry> = Vec::new();
    assert(models(entries@) =~= Seq::<EntryModel>::empty());
    let mut i: usize = 0;
    while i < count as usize
        invariant
            i <= count,
            version == VERSION,
            header_of(bytes@) == match records(bytes@, count as nat) {
                Err(f) => Err(f),
                Ok(es) => Ok((version, es)),
            },
            records(bytes@, i as nat) == Ok::<Seq<EntryModel>, PackFault>(models(entries@)),
        decreases count - i,
    {
        let start = HEADER_SIZE + ENTRY_SIZE * i;
        if bytes.len() < start + ENTRY_SIZE {
            proof {
                lemma_records_stop(bytes@, (i + 1) as nat, count as nat);
            }
            return Err(PackError::Io(unexpected_eof()));
        }
        let entry = match parse_entry(&bytes[start..start + ENTRY_SIZE]) {
            Ok(entry) => entry,
            Err(e) => {
                proof {
                    lemma_records_stop(bytes@, (i + 1) as nat, count as nat);
                }
                return Err(e);
            },
        };
        let ghost done = models(entries@);
        entries.push(entry);
        assert(models(entries@) == done.push(entry@));
        i = i + 1;
    }
    Ok(FlatFile { version, entries })
}

/// The first NUL at or after `i` is the `k` that the bytes in between lead up to.
proof fn lemma_nul_from(bytes: Seq<u8>, i: nat, k: nat)
    requires
        i <= k <= bytes.len(),
        forall|j: int| i <= j < k ==> bytes[j] != 0,
        k < bytes.len() ==> bytes[k as int] == 0,
    ensures
        nul_from(bytes, i) == k,
    decreases k - i,
{
    if i < k {
        lemma_nul_from(bytes, i + 1, k);
    }
}

/// Before the first NUL there is no NUL, and the first NUL is one.
proof fn lemma_nul_end_facts(bytes: Seq<u8>, i: nat)
    requires
        i <= bytes.len(),
        forall|j: int| 0 <= j < i ==> bytes[j] != 0,
    ensures
        i <= nul_from(bytes, i) <= bytes.len(),
        forall|j: int| 0 <= j < nul_from(bytes, i) ==> bytes[j] != 0,
        nul_from(bytes, i) < bytes.len() ==> bytes[nul_from(bytes, i) as int] == 0,
    decreases bytes.len() - i,
{
    if i < bytes.len() && bytes[i as int] != 0 {
        lemma_nul_end_facts(bytes, i + 1);
    }
}

/// A triple that can be stored reads back unchanged from its field.
pub proof fn lemma_triple_roundtrip(triple: Seq<char>)
    requires
        triple_ok(encode_utf8(triple)),
    ensures
        triple_text(padded(encode_utf8(triple))) == Ok::<Seq<char>, PackFault>(triple),
{
    broadcast use encode_utf8_valid_utf8, encode_utf8_decode_utf8;

    let b = encode_utf8(triple);
    let f = padded(b);
    assert forall|j: int| 0 <= j < b.len() implies f[j] != 0 by {
        assert(f[j] == b[j]);
        if b[j] == 0 {
            assert(b.contains(0u8));
        }
    }
    lemma_nul_from(f, 0, b.len());
    assert(f.take(b.len() as int) =~= b);
}

/// A field that reads back as a triple holds a triple that can be stored, and
/// is exactly the field that the triple is stored in: every stored triple has
/// a single encoding, and decoding then encoding gives the field back.
pub proof fn lemma_triple_canonical(field: Seq<u8>)
    requires
        field.len() == TRIPLE_LEN,
        triple_text(field) is Ok,
    ensures
        triple_ok(encode_utf8(triple_text(field)->Ok_0)),
        padded(encode_utf8(triple_text(field)->Ok_0)) == field,
{
    broadcast use decode_utf8_encode_utf8;

    lemma_nul_end_facts(field, 0);
    let end = nul_end(field) as int;
    let head = field.take(end);
    assert(encode_utf8(decode_utf8(head)) == head);
    assert(!head.contains(0u8)) by {
        if head.contains(0u8) {
            let j = choose|j: int| 0 <= j < head.len() && head[j] == 0u8;
            assert(field[j] == 0);
        }
    }
    assert forall|j: int| end <= j < field.len() implies field[j] == 0 by {
        if field[j] != 0 {
            assert(exists|k: int| end <= k < field.len() && field[k] != 0);
        }
    }
    assert(padded(head) =~= field);
}

/// The triple of `e` fits the 32-byte field.
pub open spec fn fits(e: EntryModel) -> bool {
    encode_utf8(e.triple).len() <= TRIPLE_LEN
}

proof fn lemma_entry_len(e: EntryModel)
    requires
        fits(e),
    ensures
        entry_bytes(e).len() == ENTRY_SIZE,
{
    lemma_auto_spec_u64_to_from_le_bytes();
    lemma_auto_spec_u32_to_from_le_bytes();
}

proof fn lemma_entry_roundtrip(e: EntryModel)
    requires
        triple_ok(encode_utf8(e.triple)),
    ensures
        entry_record(entry_bytes(e)) == Ok::<EntryModel, PackFault>(e),
{
    lemma_auto_spec_u64_to_from_le_bytes();
    lemma_auto_spec_u32_to_from_le_bytes();
    lemma_triple_roundtrip(e.triple);
    let r = entry_bytes(e);
    let f = padded(encode_utf8(e.triple));
    assert(r.take(32) =~= f);
    assert(r.subrange(32, 40) =~= spec_u64_to_le_bytes(e.offset));
    assert(r.subrange(40, 48) =~= spec_u64_to_le_bytes(e.compressed_size));
    assert(r.subrange(48, 56) =~= spec_u64_to_le_bytes(e.uncompressed_size));
    assert(r.subrange(56, 60) =~= spec_u32_to_le_bytes(e.checksum));
}

proof fn lemma_entry_canonical(record: Seq<u8>)
    requires
        record.len() == ENTRY_SIZE,
        entry_record(record) is Ok,
    ensures
        fits(entry_record(record)->Ok_0),
        entry_bytes(entry_record(record)->Ok_0) == record,
{
    lemma_auto_spec_u64_to_from_le_bytes();
    lemma_auto_spec_u32_to_from_le_bytes();
    lemma_triple_canonical(record.take(32));
    let e = entry_record(record)->Ok_0;
    assert(entry_bytes(e) =~= record.take(32) + record.subrange(32, 40) + record.subrange(40, 48)
        + record.subrange(48, 56) + record.subrange(56, 60));
    assert(entry_bytes(e) =~= record);
}

proof fn lemma_entries_at(es: Seq<EntryModel>, i: int)
    requires
        forall|j: int| 0 <= j < es.len() ==> fits(#[trigger] es[j]),
        0 <= i <= es.len(),
    ensures
        entries_bytes(es).len() == ENTRY_SIZE * es.len(),
        i < es.len() ==> entries_bytes(es).subrange(ENTRY_SIZE * i, ENTRY_SIZE * i + ENTRY_SIZE)
            == entry_bytes(es[i]),
        entries_bytes(es.take(i)) == entries_bytes(es).take(ENTRY_SIZE * i),
    decreases es.len(),
{
    if es.len() > 0 {
        let init = es.drop_last();
        lemma_entry_len(es.last());
        if i < es.len() {
            lemma_entries_at(init, i);
        } else {
            lemma_entries_at(init, 0);
        }
        if i == es.len() {
            assert(es.take(i) =~= es);
        } else {
            assert(es.take(i) =~= init.take(i));
        }
        let whole = entries_bytes(es);
        assert(whole == entries_bytes(init) + entry_bytes(es.last()));
        if i < es.len() - 1 {
            assert(whole.subrange(ENTRY_SIZE * i, ENTRY_SIZE * i + ENTRY_SIZE) =~= entries_bytes(
                init,
            ).subrange(ENTRY_SIZE * i, ENTRY_SIZE * i + ENTRY_SIZE));
        } else if i == es.len() - 1 {
            assert(whole.subrange(ENTRY_SIZE * i, ENTRY_SIZE * i + ENTRY_SIZE) =~= entry_bytes(
                es.last(),
            ));
        }
        if i < es.len() {
            assert(whole.take(ENTRY_SIZE * i) =~= entries_bytes(init).take(ENTRY_SIZE * i));
        } else {
            assert(whole.take(ENTRY_SIZE * i) =~= whole);
        }
    } else {
        assert(es.take(i) =~= es);
    }
}

proof fn lemma_records_of(es: Seq<EntryModel>, bytes: Seq<u8>, k: nat)
    requires
        triples_ok(es),
        k <= es.len(),
        bytes.len() >= HEADER_SIZE + entries_bytes(es).len(),
        bytes.subrange(HEADER_SIZE as int, HEADER_SIZE + entries_bytes(es).len()) == entries_bytes(
            es,
        ),
    ensures
        records(bytes, k) == Ok::<Seq<EntryModel>, PackFault>(es.take(k as int)),
    decreases k,
{
    assert forall|j: int| 0 <= j < es.len() implies fits(#[trigger] es[j]) by {
        assert(triple_ok(encode_utf8(es[j].triple)));
    }
    lemma_entries_at(es, 0);
    if k > 0 {
        let i = (k - 1) as int;
        lemma_records_of(es, bytes, (k - 1) as nat);
        lemma_entries_at(es, i);
        let start = HEADER_SIZE + ENTRY_SIZE * i;
        assert(bytes.subrange(start, start + ENTRY_SIZE) =~= entries_bytes(es).subrange(
            ENTRY_SIZE * i,
            ENTRY_SIZE * i + ENTRY_SIZE,
        ));
        assert(triple_ok(encode_utf8(es[i].triple)));
        lemma_entry_roundtrip(es[i]);
        assert(es.take(i).push(es[i]) =~= es.take(k as int));
    } else {
        assert(es.take(0) =~= Seq::<EntryModel>::empty());
    }
}

/// Reading back a header that [`write_header`] produced gives version 1 and the
/// same entries, whatever follows the header in the container.
pub proof fn lemma_header_roundtrip(entries: Seq<EntryModel>, rest: Seq<u8>)
    requires
        1 <= entries.len() <= u16::MAX,
        triples_ok(entries),
    ensures
        header_of(header_bytes(entries) + rest) == Ok::<(u16, Seq<EntryModel>), PackFault>(
            (VERSION, entries),
        ),
{
    lemma_auto_spec_u16_to_from_le_bytes();
    let n = entries.len() as u16;
    let body = entries_bytes(entries);
    let bytes = header_bytes(entries) + rest;
    assert(bytes.take(4) =~= magic());
    assert(bytes.subrange(4, 6) =~= spec_u16_to_le_bytes(VERSION));
    assert(bytes.subrange(6, 8) =~= spec_u16_to_le_bytes(n));
    assert(bytes.subrange(HEADER_SIZE as int, HEADER_SIZE + body.len()) =~= body);
    lemma_records_of(entries, bytes, entries.len());
    assert(entries.take(entries.len() as int) =~= entries);
}

proof fn lemma_records_canonical(bytes: Seq<u8>, k: nat)
    requires
        bytes.len() >= HEADER_SIZE,
        records(bytes, k) is Ok,
    ensures
        records(bytes, k)->Ok_0.len() == k,
        forall|j: int|
            0 <= j < k ==> fits(#[trigger] records(bytes, k)->Ok_0[j]),
        bytes.len() >= HEADER_SIZE + ENTRY_SIZE * k,
        bytes.subrange(HEADER_SIZE as int, HEADER_SIZE + ENTRY_SIZE * k) == entries_bytes(
            records(bytes, k)->Ok_0,
        ),
    decreases k,
{
    if k > 0 {
        let i = (k - 1) as nat;
        lemma_records_canonical(bytes, i);
        let done = records(bytes, i)->Ok_0;
        let start = record_start(i) as int;
        let record = bytes.subrange(start, start + ENTRY_SIZE);
        lemma_entry_canonical(record);
        let e = entry_record(record)->Ok_0;
        let es = done.push(e);
        assert(es.drop_last() =~= done);
        assert(bytes.subrange(HEADER_SIZE as int, HEADER_SIZE + ENTRY_SIZE * k) =~= bytes.subrange(
            HEADER_SIZE as int,
            HEADER_SIZE + ENTRY_SIZE * i,
        ) + record);
    } else {
        assert(bytes.subrange(HEADER_SIZE as int, HEADER_SIZE as int) =~= Seq::<u8>::empty());
    }
}

/// A header that reads back is byte for byte the header of what it reads back
/// as: the container header has one encoding per content.
pub proof fn lemma_header_canonical(bytes: Seq<u8>)
    requires
        header_of(bytes) is Ok,
    ensures
        header_of(bytes)->Ok_0.0 == VERSION,
        bytes.len() >= HEADER_SIZE + ENTRY_SIZE * header_of(bytes)->Ok_0.1.len(),
        bytes.take(HEADER_SIZE + ENTRY_SIZE * header_of(bytes)->Ok_0.1.len()) == header_bytes(
            header_of(bytes)->Ok_0.1,
        ),
{
    lemma_auto_spec_u16_to_from_le_bytes();
    let count = spec_u16_from_le_bytes(bytes.subrange(6, 8));
    lemma_records_canonical(bytes, count as nat);
    let es = header_of(bytes)->Ok_0.1;
    let n = HEADER_SIZE + ENTRY_SIZE * es.len();
    assert(es.len() as u16 == count);
    assert(bytes.take(n) =~= bytes.take(4) + bytes.subrange(4, 6) + bytes.subrange(6, 8)
        + bytes.subrange(HEADER_SIZE as int, n));
}

} // verus!
