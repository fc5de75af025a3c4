//! Archives: a name table, a resource table, and resources stored raw or
//! as zlib streams.

use vstd::prelude::*;

use crate::error::{Error, Field};
use crate::reader::{be_u32, fixed_string, prefixed_string, Reader};

verus! {

/// The version tag that every archive begins with.
pub const PAK_VERSION: u32 = 0x00030005;

/// What a zlib stream inflates to when given room for `capacity` bytes:
/// the bytes produced if the stream ended cleanly, `None` otherwise.
pub uninterp spec fn zlib_inflated(compressed: Seq<u8>, capacity: nat) -> Option<Seq<u8>>;

/// Relies on flate2::Decompress::decompress, with a zlib header and
/// FlushDecompress::Finish, into a zeroed buffer of `capacity` bytes: when it
/// reports Status::StreamEnd the buffer is cut to total_out, which cannot
/// exceed the buffer; any other outcome gives `None`.
#[verifier::external_body]
fn inflate(compressed: &[u8], capacity: usize) -> (r: Option<Vec<u8>>)
    ensures
        match r {
            Some(v) => zlib_inflated(compressed@, capacity as nat) == Some(v@) && v@.len() <= capacity,
            None => zlib_inflated(compressed@, capacity as nat) is None,
        },
{
    let mut out = vec![0u8; capacity];
    let mut d = flate2::Decompress::new(true);
    match d.decompress(compressed, &mut out, flate2::FlushDecompress::Finish) {
        Ok(flate2::Status::StreamEnd) => {
            out.truncate(d.total_out() as usize);
            Some(out)
        },
        _ => None,
    }
}

/// An entry of an archive's name table.
pub struct NameTableEntry {
    pub fourcc: String,
    pub file_id: u32,
    pub name: String,
}

/// An entry of an archive's resource table, with the bytes it covers.
pub struct ResourceTableEntry<'a> {
    pub compression: u32,
    pub fourcc: String,
    pub file_id: u32,
    pub offset: u32,
    pub size: u32,
    pub data: &'a [u8],
}

/// An archive: its name index and its resource index.
pub struct Pak<'a> {
    pub name_table: Vec<NameTableEntry>,
    pub resource_table: Vec<ResourceTableEntry<'a>>,
}

/// The bytes that a resource stands for: stored bytes as they are, or a
/// 4-byte size followed by a zlib stream that must inflate to exactly that size.
pub open spec fn resource_bytes(compression: u32, stored: Seq<u8>) -> Result<Seq<u8>, Error> {
    if compression == 0 {
        Ok(stored)
    } else if compression == 1 {
        if stored.len() < 4 {
            Err(Error::Truncated)
        } else {
            let size = be_u32(stored) as nat;
            match zlib_inflated(stored.skip(4), size) {
                Some(v) => if v.len() == size {
                    Ok(v)
                } else {
                    Err(Error::CorruptArchive)
                },
                None => Err(Error::CorruptArchive),
            }
        }
    } else {
        Err(Error::UnexpectedFormat { context: Field::Compression, value: compression })
    }
}

/// The four big-endian bytes of `n`.
pub open spec fn be_bytes(n: u32) -> Seq<u8> {
    seq![(n / 16777216) as u8, ((n / 65536) % 256) as u8, ((n / 256) % 256) as u8, (n % 256) as u8]
}

/// A resource stored raw gives back its bytes unchanged, and one stored as
/// its size followed by a zlib stream that inflates to its bytes gives back
/// exactly those bytes.
pub proof fn lemma_resource_round_trip(content: Seq<u8>, stream: Seq<u8>)
    requires
        content.len() <= u32::MAX,
        zlib_inflated(stream, content.len()) == Some(content),
    ensures
        resource_bytes(0, content) == Ok::<Seq<u8>, Error>(content),
        resource_bytes(1, be_bytes(content.len() as u32) + stream) == Ok::<Seq<u8>, Error>(content),
{
    let n = content.len() as u32;
    let stored = be_bytes(n) + stream;
    assert(stored.skip(4) =~= stream);
    let b0 = n / 16777216;
    let b1 = (n / 65536) % 256;
    let b2 = (n / 256) % 256;
    let b3 = n % 256;
    assert(b0 * 16777216 + b1 * 65536 + b2 * 256 + b3 == n) by (nonlinear_arith)
        requires b0 == n / 16777216, b1 == (n / 65536) % 256, b2 == (n / 256) % 256, b3 == n % 256;
    assert(be_u32(stored) == n);
}

/// Where name-table entry `i` of archive `s` starts: each entry is a 4-byte
/// type tag, a 4-byte id, a 4-byte name length and the name.
pub open spec fn name_entry_at(s: Seq<u8>, i: nat) -> int
    decreases i,
{
    if i == 0 {
        12
    } else {
        let p = name_entry_at(s, (i - 1) as nat);
        p + 12 + be_u32(s.skip(p + 8))
    }
}

/// Where the resource table of archive `s` starts: its count, then 20-byte entries.
pub open spec fn resource_table_at(s: Seq<u8>) -> int {
    name_entry_at(s, be_u32(s.skip(8)) as nat)
}

/// Resource entry `e` holds the five words stored at `at`, and the bytes its
/// offset and size name.
pub open spec fn resource_entry_read(s: Seq<u8>, at: int, e: ResourceTableEntry) -> bool {
    &&& e.compression == be_u32(s.skip(at))
    &&& e.file_id == be_u32(s.skip(at + 8))
    &&& e.size == be_u32(s.skip(at + 12))
    &&& e.offset == be_u32(s.skip(at + 16))
    &&& fixed_string(s.skip(at + 4), 4) == Ok::<Seq<char>, Error>(e.fourcc@)
    &&& e.offset + e.size <= s.len()
    &&& e.data@ == s.subrange(e.offset as int, e.offset + e.size)
}

/// Name entry `e` holds the id and the ASCII name stored at `at`.
pub open spec fn name_entry_read(s: Seq<u8>, at: int, e: NameTableEntry) -> bool {
    &&& e.file_id == be_u32(s.skip(at + 4))
    &&& fixed_string(s.skip(at), 4) == Ok::<Seq<char>, Error>(e.fourcc@)
    &&& e.name@ == crate::reader::ascii_chars(s.skip(at + 12).take(be_u32(s.skip(at + 8)) as int))
}

/// The name table from position `p` on, with `c` entries left: where it
/// ends, or why it cannot be read.
pub open spec fn names_from(s: Seq<u8>, p: int, c: nat) -> Result<int, Error>
    decreases c,
{
    if c == 0 {
        Ok(p)
    } else if p < 0 || p > s.len() {
        Err(Error::Truncated)
    } else {
        match fixed_string(s.skip(p), 4) {
            Err(e) => Err(e),
            Ok(_) => if s.len() < p + 8 {
                Err(Error::Truncated)
            } else {
                match prefixed_string(s.skip(p + 8)) {
                    Err(e) => Err(e),
                    Ok((_, k)) => names_from(s, p + 8 + k, (c - 1) as nat),
                }
            },
        }
    }
}

/// The resource table from position `p` on, with `c` entries left: whether
/// every entry and the bytes it names fit.
pub open spec fn resources_from(s: Seq<u8>, p: int, c: nat) -> Result<(), Error>
    decreases c,
{
    if c == 0 {
        Ok(())
    } else if p < 0 || s.len() < p + 4 {
        Err(Error::Truncated)
    } else {
        match fixed_string(s.skip(p + 4), 4) {
            Err(e) => Err(e),
            Ok(_) => if s.len() < p + 20 {
                Err(Error::Truncated)
            } else if be_u32(s.skip(p + 16)) + be_u32(s.skip(p + 12)) > s.len() {
                Err(Error::Truncated)
            } else {
                resources_from(s, p + 20, (c - 1) as nat)
            },
        }
    }
}

/// Whether an archive's header and tables can be read, and if not, why.
pub open spec fn pak_result(s: Seq<u8>) -> Result<(), Error> {
    if s.len() < 4 {
        Err(Error::Truncated)
    } else if be_u32(s) != PAK_VERSION {
        Err(Error::UnexpectedFormat { context: Field::ArchiveVersion, value: be_u32(s) })
    } else if s.len() < 8 {
        Err(Error::Truncated)
    } else if be_u32(s.skip(4)) != 0 {
        Err(Error::UnexpectedFormat { context: Field::ArchiveReserved, value: be_u32(s.skip(4)) })
    } else if s.len() < 12 {
        Err(Error::Truncated)
    } else {
        match names_from(s, 12, be_u32(s.skip(8)) as nat) {
            Err(e) => Err(e),
            Ok(t) => if s.len() < t + 4 {
                Err(Error::Truncated)
            } else {
                resources_from(s, t + 4, be_u32(s.skip(t)) as nat)
            },
        }
    }
}

pub open spec fn tagged(e: ResourceTableEntry, id: u32, tag: Seq<char>) -> bool {
    e.file_id == id && e.fourcc@ == tag
}

/// The index of the first entry with id `id` and type tag `tag`, if any.
pub open spec fn first_tagged(es: Seq<ResourceTableEntry>, id: u32, tag: Seq<char>) -> Option<int> {
    if exists|i: int| 0 <= i < es.len() && tagged(es[i], id, tag) {
        Some(choose|i: int| 0 <= i < es.len() && tagged(es[i], id, tag) && forall|j: int| 0 <= j < i ==> !tagged(es[j], id, tag))
    } else {
        None
    }
}

/// What looking up a resource by id and type tag gives: nothing, or the
/// first such resource's bytes or error.
pub open spec fn lookup(p: &Pak, id: u32, tag: Seq<char>) -> Option<Result<Seq<u8>, Error>> {
    match first_tagged(p.resource_table@, id, tag) {
        None => None,
        Some(i) => Some(resource_bytes(p.resource_table@[i].compression, p.resource_table@[i].data@)),
    }
}

/// The index of the first entry whose id is `id`, if any.
pub open spec fn first_with_id(ids: Seq<u32>, id: u32) -> Option<int> {
    if exists|i: int| 0 <= i < ids.len() && ids[i] == id {
        Some(choose|i: int| 0 <= i < ids.len() && ids[i] == id && forall|j: int| 0 <= j < i ==> ids[j] != id)
    } else {
        None
    }
}

impl NameTableEntry {
    pub fn fourcc(&self) -> (r: &str)
        ensures
            r@ == self.fourcc@,
    {
        self.fourcc.as_str()
    }

    pub fn file_id(&self) -> (r: u32)
        ensures
            r == self.file_id,
    {
        self.file_id
    }

    pub fn name(&self) -> (r: &str)
        ensures
            r@ == self.name@,
    {
        self.name.as_str()
    }

    fn copy(&self) -> (r: NameTableEntry)
        ensures
            r.fourcc@ == self.fourcc@,
            r.file_id == self.file_id,
            r.name@ == self.name@,
    {
        NameTableEntry { fourcc: self.fourcc.clone(), file_id: self.file_id, name: self.name.clone() }
    }
}

impl<'a> ResourceTableEntry<'a> {
    pub fn fourcc(&self) -> (r: &str)
        ensures
            r@ == self.fourcc@,
    {
        self.fourcc.as_str()
    }

    pub fn file_id(&self) -> (r: u32)
        ensures
            r == self.file_id,
    {
        self.file_id
    }

    fn copy(&self) -> (r: ResourceTableEntry<'a>)
        ensures
            r.compression == self.compression,
            r.fourcc@ == self.fourcc@,
            r.file_id == self.file_id,
            r.offset == self.offset,
            r.size == self.size,
            r.data == self.data,
    {
        ResourceTableEntry {
            compression: self.compression,
            fourcc: self.fourcc.clone(),
            file_id: self.file_id,
            offset: self.offset,
            size: self.size,
            data: self.data,
        }
    }

    /// The resource's bytes, inflated if they are stored compressed.
    pub fn data(&self) -> (r: Result<Vec<u8>, Error>)
        ensures
            match resource_bytes(self.compression, self.data@) {
                Ok(b) => r is Ok && r->Ok_0@ == b,
                Err(e) => r is Err && r->Err_0 == e,
            },
    {
        if self.compression == 0 {
            return Ok(vstd::slice::slice_to_vec(self.data));
        }
        if self.compression != 1 {
            return Err(Error::UnexpectedFormat { context: Field::Compression, value: self.compression });
        }
        let mut r = Reader::new(self.data);
        let size = r.read_u32()?;
        let compressed = r.read_to_end();
        match inflate(compressed, size as usize) {
            Some(v) => {
                if v.len() != size as usize {
                    return Err(Error::CorruptArchive);
                }
                Ok(v)
            },
            None => Err(Error::CorruptArchive),
        }
    }
}

impl<'a> Pak<'a> {
    pub open spec fn resource_ids(&self) -> Seq<u32> {
        self.resource_table@.map_values(|e: ResourceTableEntry<'a>| e.file_id)
    }

    pub open spec fn names(&self) -> Seq<Seq<char>> {
        self.name_table@.map_values(|e: NameTableEntry| e.name@)
    }

    /// Parses the archive header and its name and resource tables.
    pub fn new(data: &'a [u8]) -> (r: Result<Pak<'a>, Error>)
        ensures
            data@.len() < 4 ==> (r is Err && r->Err_0 == Error::Truncated),
            data@.len() >= 4 && be_u32(data@) != PAK_VERSION ==> (r is Err && r->Err_0
                == (Error::UnexpectedFormat { context: Field::ArchiveVersion, value: be_u32(data@) })),
            data@.len() >= 8 && be_u32(data@) == PAK_VERSION && be_u32(data@.skip(4)) != 0 ==> (r is Err
                && r->Err_0 == (Error::UnexpectedFormat {
                context: Field::ArchiveReserved,
                value: be_u32(data@.skip(4)),
            })),
            r is Ok ==> (be_u32(data@) == PAK_VERSION && be_u32(data@.skip(4)) == 0),
            match pak_result(data@) {
                Ok(_) => r is Ok,
                Err(e) => r is Err && r->Err_0 == e,
            },
            r is Ok ==> {
                let s = data@;
                let p = r->Ok_0;
                let t = resource_table_at(s);
                &&& p.name_table@.len() == be_u32(s.skip(8))
                &&& forall|i: int| 0 <= i < p.name_table@.len() ==> name_entry_read(s, name_entry_at(s, i as nat), #[trigger] p.name_table@[i])
                &&& p.resource_table@.len() == be_u32(s.skip(t))
                &&& forall|i: int| 0 <= i < p.resource_table@.len() ==> resource_entry_read(s, t + 4 + 20 * i, #[trigger] p.resource_table@[i])
            },
    {
        let mut r = Reader::new(data);
        let version = r.read_u32()?;
        if version != PAK_VERSION {
            return Err(Error::UnexpectedFormat { context: Field::ArchiveVersion, value: version });
        }
        let reserved = r.read_u32()?;
        if reserved != 0 {
            return Err(Error::UnexpectedFormat { context: Field::ArchiveReserved, value: reserved });
        }
        let ghost s = data@;
        assert(s.skip(4).skip(4) =~= s.skip(8));
        let name_count = r.read_u32()?;
        assert(s.skip(8).skip(4) =~= s.skip(12));
        let mut name_table: Vec<NameTableEntry> = Vec::new();
        let mut i: u32 = 0;
        while i < name_count
            invariant
                r.wf(),
                r.data == data,
                s == data@,
                data@.len() >= 12,
                be_u32(data@) == PAK_VERSION,
                be_u32(data@.skip(4)) == 0,
                name_count == be_u32(s.skip(8)),
                i <= name_count,
                name_table@.len() == i,
                0 <= name_entry_at(s, i as nat) <= s.len(),
                r@ == s.skip(name_entry_at(s, i as nat)),
                names_from(s, 12, name_count as nat) == names_from(s, name_entry_at(s, i as nat), (name_count - i) as nat),
                forall|j: int| 0 <= j < i ==> name_entry_read(s, name_entry_at(s, j as nat), #[trigger] name_table@[j]),
            decreases name_count - i,
        {
            let ghost at = name_entry_at(s, i as nat);
            let fourcc = r.read_fixed_capacity_ascii_c_string(4)?;
            assert(s.skip(at).skip(4) =~= s.skip(at + 4));
            let file_id = r.read_u32()?;
            assert(s.skip(at + 4).skip(4) =~= s.skip(at + 8));
            let name = r.read_length_prefixed_string()?;
            proof {
                let n = be_u32(s.skip(at + 8)) as int;
                assert(s.skip(at + 8).skip(4) =~= s.skip(at + 12));
                assert(s.skip(at + 8).skip(4 + n) =~= s.skip(at + 12 + n));
                assert(name_entry_at(s, (i + 1) as nat) == at + 12 + n);
            }
            name_table.push(NameTableEntry { fourcc, file_id, name });
            i = i + 1;
        }
        let ghost t = resource_table_at(s);
        assert(names_from(s, name_entry_at(s, name_count as nat), 0) == Ok::<int, Error>(t));
        let resource_count = r.read_u32()?;
        assert(s.skip(t).skip(4) =~= s.skip(t + 4));
        let mut resource_table: Vec<ResourceTableEntry<'a>> = Vec::new();
        let mut i: u32 = 0;
        while i < resource_count
            invariant
                r.wf(),
                r.data == data,
                s == data@,
                data@.len() >= 12,
                be_u32(data@) == PAK_VERSION,
                be_u32(data@.skip(4)) == 0,
                name_count == be_u32(s.skip(8)),
                name_table@.len() == name_count,
                forall|j: int| 0 <= j < name_count ==> name_entry_read(s, name_entry_at(s, j as nat), #[trigger] name_table@[j]),
                t == resource_table_at(s),
                names_from(s, 12, name_count as nat) == Ok::<int, Error>(t),
                s.len() >= t + 4,
                resources_from(s, t + 4, resource_count as nat) == resources_from(s, t + 4 + 20 * i, (resource_count - i) as nat),
                resource_count == be_u32(s.skip(t)),
                i <= resource_count,
                resource_table@.len() == i,
                0 <= t + 4 + 20 * i <= s.len(),
                r@ == s.skip(t + 4 + 20 * i),
                forall|j: int| 0 <= j < i ==> resource_entry_read(s, t + 4 + 20 * j, #[trigger] resource_table@[j]),
            decreases resource_count - i,
        {
            let ghost at = t + 4 + 20 * i;
            let compression = r.read_u32()?;
            assert(s.skip(at).skip(4) =~= s.skip(at + 4));
            let fourcc = r.read_fixed_capacity_ascii_c_string(4)?;
            assert(s.skip(at + 4).skip(4) =~= s.skip(at + 8));
            let file_id = r.read_u32()?;
            assert(s.skip(at + 8).skip(4) =~= s.skip(at + 12));
            let size = r.read_u32()?;
            assert(s.skip(at + 12).skip(4) =~= s.skip(at + 16));
            let offset = r.read_u32()?;
            assert(s.skip(at + 16).skip(4) =~= s.skip(at + 20));
            if offset as usize > data.len() || size as usize > data.len() - offset as usize {
                return Err(Error::Truncated);
            }
            let bytes = &data[offset as usize..offset as usize + size as usize];
            resource_table.push(ResourceTableEntry { compression, fourcc, file_id, offset, size, data: bytes });
            i = i + 1;
        }
        Ok(Pak { name_table, resource_table })
    }

    /// Copies of the name table's entries, in order.
    pub fn iter_names(&self) -> (r: Vec<NameTableEntry>)
        ensures
            r@.len() == self.name_table@.len(),
            forall|i: int|
                0 <= i < r@.len() ==> (#[trigger] r@[i]).name@ == self.name_table@[i].name@ && r@[i].fourcc@
                    == self.name_table@[i].fourcc@ && r@[i].file_id == self.name_table@[i].file_id,
    {
        let mut out: Vec<NameTableEntry> = Vec::new();
        let mut i: usize = 0;
        while i < self.name_table.len()
            invariant
                i <= self.name_table@.len(),
                out@.len() == i,
                forall|j: int|
                    0 <= j < i ==> (#[trigger] out@[j]).name@ == self.name_table@[j].name@ && out@[j].fourcc@
                        == self.name_table@[j].fourcc@ && out@[j].file_id == self.name_table@[j].file_id,
            decreases self.name_table@.len() - i,
        {
            out.push(self.name_table[i].copy());
            i = i + 1;
        }
        out
    }

    /// Copies of the resource table's entries, in order.
    pub fn iter_resources(&self) -> (r: Vec<ResourceTableEntry<'a>>)
        ensures
            r@.len() == self.resource_table@.len(),
            forall|i: int|
                0 <= i < r@.len() ==> {
                    let a = #[trigger] r@[i];
                    let b = self.resource_table@[i];
                    a.compression == b.compression && a.fourcc@ == b.fourcc@ && a.file_id == b.file_id
                        && a.offset == b.offset && a.size == b.size && a.data == b.data
                },
    {
        let mut out: Vec<ResourceTableEntry<'a>> = Vec::new();
        let mut i: usize = 0;
        while i < self.resource_table.len()
            invariant
                i <= self.resource_table@.len(),
                out@.len() == i,
                forall|j: int|
                    0 <= j < i ==> {
                        let a = #[trigger] out@[j];
                        let b = self.resource_table@[j];
                        a.compression == b.compression && a.fourcc@ == b.fourcc@ && a.file_id == b.file_id
                            && a.offset == b.offset && a.size == b.size && a.data == b.data
                    },
            decreases self.resource_table@.len() - i,
        {
            out.push(self.resource_table[i].copy());
            i = i + 1;
        }
        out
    }

    /// The first name-table entry whose name is `name`.
    pub fn entry(&self, name: &str) -> (r: Option<&NameTableEntry>)
        ensures
            match r {
                Some(e) => exists|i: int|
                    0 <= i < self.name_table@.len() && self.name_table@[i] == *e && e.name@ == name@
                        && forall|j: int| 0 <= j < i ==> (#[trigger] self.name_table@[j]).name@ != name@,
                None => forall|j: int| 0 <= j < self.name_table@.len() ==> (#[trigger] self.name_table@[j]).name@ != name@,
            },
    {
        let target = name.to_owned();
        let mut i: usize = 0;
        while i < self.name_table.len()
            invariant
                i <= self.name_table@.len(),
                target@ == name@,
                forall|j: int| 0 <= j < i ==> (#[trigger] self.name_table@[j]).name@ != name@,
            decreases self.name_table@.len() - i,
        {
            if self.name_table[i].name == target {
                return Some(&self.name_table[i]);
            }
            i = i + 1;
        }
        None
    }

    /// The bytes of the first resource with id `file_id` and type tag
    /// `fourcc`, inflated if stored compressed; `None` when there is none.
    pub fn data_with_fourcc(&self, file_id: u32, fourcc: &str) -> (r: Result<Option<Vec<u8>>, Error>)
        ensures
            match lookup(self, file_id, fourcc@) {
                None => r == Ok::<Option<Vec<u8>>, Error>(None),
                Some(Ok(b)) => r is Ok && r->Ok_0 is Some && r->Ok_0->Some_0@ == b,
                Some(Err(e)) => r is Err && r->Err_0 == e,
            },
    {
        let tag = fourcc.to_owned();
        let mut i: usize = 0;
        while i < self.resource_table.len()
            invariant
                i <= self.resource_table@.len(),
                tag@ == fourcc@,
                forall|j: int| 0 <= j < i ==> !tagged(#[trigger] self.resource_table@[j], file_id, fourcc@),
            decreases self.resource_table@.len() - i,
        {
            let e = &self.resource_table[i];
            if e.file_id == file_id && e.fourcc == tag {
                proof {
                    let es = self.resource_table@;
                    assert(tagged(es[i as int], file_id, fourcc@));
                    let k = first_tagged(es, file_id, fourcc@)->Some_0;
                    if k < i {
                        assert(!tagged(es[k], file_id, fourcc@));
                    }
                    if k > i {
                        assert(!tagged(es[i as int], file_id, fourcc@));
                    }
                }
                let b = e.data()?;
                return Ok(Some(b));
            }
            i = i + 1;
        }
        Ok(None)
    }

    /// The bytes of the first resource with id `file_id`, inflated if stored
    /// compressed; `None` when no resource has that id.
    pub fn data(&self, file_id: u32) -> (r: Result<Option<Vec<u8>>, Error>)
        ensures
            match first_with_id(self.resource_ids(), file_id) {
                None => r == Ok::<Option<Vec<u8>>, Error>(None),
                Some(i) => {
                    let e = self.resource_table@[i];
                    match resource_bytes(e.compression, e.data@) {
                        Ok(b) => r is Ok && r->Ok_0 is Some && r->Ok_0->Some_0@ == b,
                        Err(x) => r is Err && r->Err_0 == x,
                    }
                },
            },
    {
        let mut i: usize = 0;
        while i < self.resource_table.len()
            invariant
                i <= self.resource_table@.len(),
                forall|j: int| 0 <= j < i ==> (#[trigger] self.resource_ids()[j]) != file_id,
            decreases self.resource_table@.len() - i,
        {
            if self.resource_table[i].file_id == file_id {
                proof {
                    let ids = self.resource_ids();
                    assert(ids[i as int] == file_id);
                    let k = first_with_id(ids, file_id)->Some_0;
                    assert(0 <= k < ids.len() && ids[k] == file_id && forall|j: int| 0 <= j < k ==> ids[j] != file_id);
                    if k < i {
                        assert(ids[k] != file_id);
                    }
                    if k > i {
                        assert(ids[i as int] != file_id);
                    }
                }
                let b = self.resource_table[i].data()?;
                return Ok(Some(b));
            }
            i = i + 1;
        }
        Ok(None)
    }
}

} // verus!
