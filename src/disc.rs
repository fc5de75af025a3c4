//! The disc image: header, main executable table and file system.

use vstd::prelude::*;
use vstd::string::StringExecFns;

use crate::error::{Error, Field};
use crate::reader::{be_u32, c_string, fixed_string, Reader};

verus! {

/// The size of a GameCube disc image in bytes.
pub const DISC_SIZE: u32 = 1459978240;

/// The first bytes of a disc: game code, maker code, disc number and version.
pub struct Header {
    pub game_code: String,
    pub maker_code: String,
    pub disc_id: u8,
    pub version: u8,
}

/// The main executable's section table.
pub struct Dol {
    pub section_offsets: Vec<u32>,
    pub section_load_addrs: Vec<u32>,
    pub section_sizes: Vec<u32>,
    pub entry_point: u32,
}

/// A disc image, its header and its file system table.
pub struct Disc<'a> {
    pub data: &'a [u8],
    pub header: Header,
    pub main_executable: Dol,
    pub file_table: &'a [u8],
    pub root_entry_count: u32,
    pub string_table: &'a [u8],
}

/// A file of the disc: its path, with `/` between directory names, and its bytes.
pub struct File<'a> {
    pub path: String,
    pub data: &'a [u8],
}

enum EntryData {
    File { offset: u32, size: u32 },
    Directory { end_index: u32 },
}

struct FileTableEntry {
    name: String,
    data: EntryData,
}

/// Header `h` holds what the first eight bytes of `s` say.
pub open spec fn header_read(s: Seq<u8>, h: Header) -> bool {
    &&& fixed_string(s, 4) == Ok::<Seq<char>, Error>(h.game_code@)
    &&& fixed_string(s.skip(4), 2) == Ok::<Seq<char>, Error>(h.maker_code@)
    &&& h.disc_id == s[6]
    &&& h.version == s[7]
}

/// Whether a disc header can be read, and if not, why.
pub open spec fn header_result(s: Seq<u8>) -> Result<(), Error> {
    if s.len() < 8 {
        Err(Error::Truncated)
    } else {
        match fixed_string(s, 4) {
            Err(e) => Err(e),
            Ok(_) => match fixed_string(s.skip(4), 2) {
                Err(e) => Err(e),
                Ok(_) => Ok(()),
            },
        }
    }
}

impl Header {
    pub const SIZE: u32 = 8;

    pub fn new(data: &[u8]) -> (r: Result<Header, Error>)
        ensures
            data@.len() < 8 ==> r is Err && r->Err_0 == Error::Truncated,
            r is Ok ==> r->Ok_0.disc_id == data@[6] && r->Ok_0.version == data@[7] && r->Ok_0.game_code@.len() <= 4
                && r->Ok_0.maker_code@.len() <= 2,
            match header_result(data@) {
                Ok(_) => r is Ok && header_read(data@, r->Ok_0),
                Err(e) => r is Err && r->Err_0 == e,
            },
    {
        let mut r = Reader::new(data);
        if r.remaining() < 8 {
            return Err(Error::Truncated);
        }
        let game_code = r.read_fixed_capacity_ascii_c_string(4)?;
        let maker_code = r.read_fixed_capacity_ascii_c_string(2)?;
        let disc_id = r.read_u8()?;
        let version = r.read_u8()?;
        assert(data@.skip(4).skip(2) =~= data@.skip(6));
        Ok(Header { game_code, maker_code, disc_id, version })
    }

    pub fn game_code(&self) -> (r: &str)
        ensures
            r@ == self.game_code@,
    {
        self.game_code.as_str()
    }

    pub fn maker_code(&self) -> (r: &str)
        ensures
            r@ == self.maker_code@,
    {
        self.maker_code.as_str()
    }

    pub fn disc_id(&self) -> (r: u8)
        ensures
            r == self.disc_id,
    {
        self.disc_id
    }

    pub fn version(&self) -> (r: u8)
        ensures
            r == self.version,
    {
        self.version
    }
}

/// Accepts only the disc that the extractor knows: game code "GM8E", maker
/// code "01", disc 0, version 0.
pub fn verify_disc(header: &Header) -> (r: Result<(), Error>)
    ensures
        r is Ok <==> header.game_code@ == "GM8E"@ && header.maker_code@ == "01"@ && header.disc_id == 0
            && header.version == 0,
{
    let game = "GM8E".to_owned();
    if !(header.game_code == game) {
        return Err(Error::UnexpectedFormat { context: Field::GameCode, value: 0 });
    }
    let maker = "01".to_owned();
    if !(header.maker_code == maker) {
        return Err(Error::UnexpectedFormat { context: Field::MakerCode, value: 0 });
    }
    if header.disc_id != 0 {
        return Err(Error::UnexpectedFormat { context: Field::DiscId, value: header.disc_id as u32 });
    }
    if header.version != 0 {
        return Err(Error::UnexpectedFormat { context: Field::DiscVersion, value: header.version as u32 });
    }
    Ok(())
}

impl Dol {
    /// Reads eighteen section offsets, load addresses and sizes, two words
    /// that are not kept, and the entry point.
    pub fn read_from(r: &mut Reader) -> (res: Result<Dol, Error>)
        requires
            old(r).wf(),
        ensures
            final(r).wf(),
            final(r).data == old(r).data,
            old(r)@.len() < 228 ==> res is Err && res->Err_0 == Error::Truncated,
            old(r)@.len() >= 228 ==> res is Ok && res->Ok_0.section_offsets@.len() == 18
                && res->Ok_0.section_load_addrs@.len() == 18 && res->Ok_0.section_sizes@.len() == 18
                && res->Ok_0.entry_point == be_u32(old(r)@.skip(224)),
    {
        let ghost s = old(r)@;
        if r.remaining() < 228 {
            return Err(Error::Truncated);
        }
        let section_offsets = r.read_u32_array(18)?;
        let section_load_addrs = r.read_u32_array(18)?;
        let section_sizes = r.read_u32_array(18)?;
        r.skip_bytes(8)?;
        assert(r@ =~= s.skip(224));
        let entry_point = r.read_u32()?;
        Ok(Dol { section_offsets, section_load_addrs, section_sizes, entry_point })
    }
}

/// What a file system entry says: a file's name, offset and size, or a
/// directory's name and the index where its entries end.
pub enum EntryView {
    File { name: Seq<char>, offset: u32, size: u32 },
    Directory { name: Seq<char>, end: u32 },
}

/// The 12-byte file system entry at the start of `e`, its name taken from
/// `strings`; or why it cannot be read.
pub open spec fn entry_at(e: Seq<u8>, strings: Seq<u8>) -> Result<EntryView, Error> {
    let tmp = be_u32(e);
    let flags = tmp / 16777216;
    let off = (tmp % 16777216) as int;
    if e.len() < 4 {
        Err(Error::Truncated)
    } else if off > strings.len() {
        Err(Error::Truncated)
    } else {
        match c_string(strings.skip(off)) {
            Err(x) => Err(x),
            Ok((name, _)) => if flags == 0 {
                if e.len() < 12 {
                    Err(Error::Truncated)
                } else {
                    Ok(EntryView::File { name, offset: be_u32(e.skip(4)), size: be_u32(e.skip(8)) })
                }
            } else if flags == 1 {
                if e.len() < 12 {
                    Err(Error::Truncated)
                } else {
                    Ok(EntryView::Directory { name, end: be_u32(e.skip(8)) })
                }
            } else {
                Err(Error::UnexpectedFormat { context: Field::FileEntryFlags, value: flags })
            },
        }
    }
}

/// The directory names joined, each followed by `/`.
pub open spec fn dir_prefix(dirs: Seq<Seq<char>>) -> Seq<char>
    decreases dirs.len(),
{
    if dirs.len() == 0 {
        Seq::empty()
    } else {
        dir_prefix(dirs.drop_last()) + dirs.last() + seq!['/']
    }
}

/// The files of a file system table, walked from entry `index` on with the
/// directories `dirs` open (each closing before entry `ends[i]`), after the
/// files `acc`: each file's path and bytes, in table order.
pub open spec fn walk(
    t: Seq<u8>,
    strings: Seq<u8>,
    data: Seq<u8>,
    index: nat,
    count: nat,
    dirs: Seq<Seq<char>>,
    ends: Seq<u32>,
    acc: Seq<(Seq<char>, Seq<u8>)>,
) -> Result<Seq<(Seq<char>, Seq<u8>)>, Error>
    decreases count - index,
{
    if index >= count || index == 0 {
        Ok(acc)
    } else {
        let close = ends.len() > 0 && ends.last() == index;
        let dirs1 = if close { dirs.drop_last() } else { dirs };
        let ends1 = if close { ends.drop_last() } else { ends };
        let pos = 12 * (index - 1);
        if pos > t.len() {
            Err(Error::Truncated)
        } else {
            match entry_at(t.skip(pos), strings) {
                Err(e) => Err(e),
                Ok(EntryView::File { name, offset, size }) => if offset + size > data.len() {
                    Err(Error::Truncated)
                } else {
                    walk(
                        t,
                        strings,
                        data,
                        index + 1,
                        count,
                        dirs1,
                        ends1,
                        acc.push((dir_prefix(dirs1) + name, data.subrange(offset as int, offset + size))),
                    )
                },
                Ok(EntryView::Directory { name, end }) => walk(
                    t,
                    strings,
                    data,
                    index + 1,
                    count,
                    dirs1.push(name),
                    ends1.push(end),
                    acc,
                ),
            }
        }
    }
}

/// Walks the file system table like `walk`, but stops at the first file
/// whose path is `target`: its bytes, `None` when no file has that path, or
/// the error of an entry before it.
pub open spec fn find_walk(
    t: Seq<u8>,
    strings: Seq<u8>,
    data: Seq<u8>,
    index: nat,
    count: nat,
    dirs: Seq<Seq<char>>,
    ends: Seq<u32>,
    target: Seq<char>,
) -> Result<Option<Seq<u8>>, Error>
    decreases count - index,
{
    if index >= count || index == 0 {
        Ok(None)
    } else {
        let close = ends.len() > 0 && ends.last() == index;
        let dirs1 = if close { dirs.drop_last() } else { dirs };
        let ends1 = if close { ends.drop_last() } else { ends };
        let pos = 12 * (index - 1);
        if pos > t.len() {
            Err(Error::Truncated)
        } else {
            match entry_at(t.skip(pos), strings) {
                Err(e) => Err(e),
                Ok(EntryView::File { name, offset, size }) => if offset + size > data.len() {
                    Err(Error::Truncated)
                } else if dir_prefix(dirs1) + name == target {
                    Ok(Some(data.subrange(offset as int, offset + size)))
                } else {
                    find_walk(t, strings, data, index + 1, count, dirs1, ends1, target)
                },
                Ok(EntryView::Directory { name, end }) => find_walk(
                    t,
                    strings,
                    data,
                    index + 1,
                    count,
                    dirs1.push(name),
                    ends1.push(end),
                    target,
                ),
            }
        }
    }
}

/// The bytes of the first file of disc `d` whose path is `target`.
pub open spec fn disc_find(d: &Disc, target: Seq<char>) -> Result<Option<Seq<u8>>, Error> {
    if d.file_table@.len() < 12 {
        Err(Error::Truncated)
    } else {
        find_walk(
            d.file_table@.skip(12),
            d.string_table@,
            d.data@,
            1,
            d.root_entry_count as nat,
            Seq::empty(),
            Seq::empty(),
            target,
        )
    }
}

pub open spec fn file_views<'a>(fs: Seq<File<'a>>) -> Seq<(Seq<char>, Seq<u8>)> {
    fs.map_values(|f: File<'a>| (f.path@, f.data@))
}

pub open spec fn string_views(v: Seq<String>) -> Seq<Seq<char>> {
    v.map_values(|x: String| x@)
}

/// The files of disc `d`, or why its file system table cannot be walked.
pub open spec fn disc_files(d: &Disc) -> Result<Seq<(Seq<char>, Seq<u8>)>, Error> {
    if d.file_table@.len() < 12 {
        Err(Error::Truncated)
    } else {
        walk(
            d.file_table@.skip(12),
            d.string_table@,
            d.data@,
            1,
            d.root_entry_count as nat,
            Seq::empty(),
            Seq::empty(),
            Seq::empty(),
        )
    }
}

impl FileTableEntry {
    spec fn view_entry(&self) -> EntryView {
        match self.data {
            EntryData::File { offset, size } => EntryView::File { name: self.name@, offset, size },
            EntryData::Directory { end_index } => EntryView::Directory { name: self.name@, end: end_index },
        }
    }
}

impl FileTableEntry {
    /// Reads a 12-byte file system entry; its name is in the string table.
    fn new(r: &mut Reader, string_table: &[u8]) -> (res: Result<FileTableEntry, Error>)
        requires
            old(r).wf(),
        ensures
            final(r).wf(),
            final(r).data == old(r).data,
            match entry_at(old(r)@, string_table@) {
                Ok(v) => res is Ok && res->Ok_0.view_entry() == v && old(r)@.len() >= 12 && final(r)@ == old(r)@.skip(12),
                Err(e) => res is Err && res->Err_0 == e,
            },
    {
        let ghost s = old(r)@;
        let tmp = r.read_u32()?;
        let flags = tmp / 16777216;
        let name_offset = tmp % 16777216;
        if name_offset as usize > string_table.len() {
            return Err(Error::Truncated);
        }
        let tail = &string_table[name_offset as usize..string_table.len()];
        assert(tail@ =~= string_table@.skip(name_offset as int));
        let mut nr = Reader::new(tail);
        let name = nr.read_ascii_c_string()?;
        let data = if flags == 0 {
            let offset = r.read_u32()?;
            assert(s.skip(4).skip(4) =~= s.skip(8));
            let size = r.read_u32()?;
            assert(s.skip(8).skip(4) =~= s.skip(12));
            EntryData::File { offset, size }
        } else if flags == 1 {
            let _parent = r.read_u32()?;
            assert(s.skip(4).skip(4) =~= s.skip(8));
            let end_index = r.read_u32()?;
            assert(s.skip(8).skip(4) =~= s.skip(12));
            EntryData::Directory { end_index }
        } else {
            return Err(Error::UnexpectedFormat { context: Field::FileEntryFlags, value: flags });
        };
        Ok(FileTableEntry { name, data })
    }
}

impl<'a> File<'a> {
    pub fn path(&self) -> (r: &str)
        ensures
            r@ == self.path@,
    {
        self.path.as_str()
    }

    pub fn data(&self) -> (r: &'a [u8])
        ensures
            r == self.data,
    {
        self.data
    }
}

/// Whether a disc image can be read, and if not, why: the header, the
/// executable's table and the file system table must fit, the table must
/// hold its root entry, and its entries must fit before the string table.
pub open spec fn disc_result(s: Seq<u8>) -> Result<(), Error> {
    let ptr = be_u32(s.skip(0x424)) as int;
    let size = be_u32(s.skip(0x428)) as int;
    let table = s.subrange(ptr, ptr + size);
    if s.len() < 0x42c {
        Err(Error::Truncated)
    } else {
        match header_result(s) {
            Err(e) => Err(e),
            Ok(_) => if s.len() < 0x420 + 228 || ptr + size > s.len() || size < 12 || 12 * be_u32(table.skip(8)) > size {
                Err(Error::Truncated)
            } else {
                Ok(())
            },
        }
    }
}

/// `b` is a contiguous run of the bytes of `d`.
pub open spec fn is_range_of(b: Seq<u8>, d: Seq<u8>) -> bool {
    exists|o: int, n: int| 0 <= o && 0 <= n && o + n <= d.len() && b == #[trigger] d.subrange(o, o + n)
}

/// Bytes `offset .. offset + size` of `data`, or `Truncated` past its end.
fn byte_range<'a>(data: &'a [u8], offset: u32, size: u32) -> (r: Result<&'a [u8], Error>)
    ensures
        match r {
            Ok(b) => offset + size <= data@.len() && b@ == data@.subrange(offset as int, offset + size),
            Err(e) => offset + size > data@.len() && e == Error::Truncated,
        },
{
    if offset as usize > data.len() || size as usize > data.len() - offset as usize {
        return Err(Error::Truncated);
    }
    Ok(&data[offset as usize..offset as usize + size as usize])
}

impl<'a> Disc<'a> {
    pub const HEADER_OFFSET: usize = 0;

    pub const MAIN_EXECUTABLE_OFFSET: usize = 0x420;

    pub const FILE_TABLE_PTR_OFFSET: usize = 0x424;

    pub const FILE_TABLE_SIZE_OFFSET: usize = 0x428;

    pub const ROOT_ENTRY_COUNT_OFFSET: usize = 8;

    pub const FILE_TABLE_ENTRY_SIZE: usize = 12;

    /// Reads the header, the main executable's table and the location of the
    /// file system table.
    pub fn new(data: &'a [u8]) -> (r: Result<Disc<'a>, Error>)
        ensures
            r is Ok ==> header_read(data@, r->Ok_0.header),
            match disc_result(data@) {
                Ok(_) => r is Ok,
                Err(e) => r is Err && r->Err_0 == e,
            },
            r is Ok ==> {
                let d = r->Ok_0;
                let ptr = be_u32(data@.skip(0x424)) as int;
                let size = be_u32(data@.skip(0x428)) as int;
                &&& d.data == data
                &&& ptr + size <= data@.len()
                &&& d.file_table@ == data@.subrange(ptr, ptr + size)
                &&& d.root_entry_count == be_u32(d.file_table@.skip(8))
            },
            data@.len() < 0x42c ==> r is Err && r->Err_0 == Error::Truncated,
    {
        if data.len() < 0x42c {
            return Err(Error::Truncated);
        }
        let header = Header::new(data)?;
        let mut er = Reader::new(&data[0x420..data.len()]);
        let main_executable = Dol::read_from(&mut er)?;
        let ptr = crate::reader::u32_at(data, 0x424);
        let size = crate::reader::u32_at(data, 0x428);
        let file_table = byte_range(data, ptr, size)?;
        if file_table.len() < 12 {
            return Err(Error::Truncated);
        }
        let root_entry_count = crate::reader::u32_at(file_table, 8);
        let strings_at = root_entry_count as u64 * 12;
        if strings_at > file_table.len() as u64 {
            return Err(Error::Truncated);
        }
        let string_table = &file_table[strings_at as usize..file_table.len()];
        Ok(Disc { data, header, main_executable, file_table, root_entry_count, string_table })
    }

    pub fn header(&self) -> (r: &Header)
        ensures
            *r == self.header,
    {
        &self.header
    }

    pub fn main_executable(&self) -> (r: &Dol)
        ensures
            *r == self.main_executable,
    {
        &self.main_executable
    }

    /// Every file of the file system, in table order, each with its full path.
    pub fn iter_files(&self) -> (r: Result<Vec<File<'a>>, Error>)
        ensures
            match disc_files(self) {
                Ok(v) => r is Ok && file_views(r->Ok_0@) == v,
                Err(e) => r is Err && r->Err_0 == e,
            },
            r is Ok ==> forall|i: int| 0 <= i < r->Ok_0@.len() ==> is_range_of((#[trigger] r->Ok_0@[i]).data@, self.data@),
    {
        let mut files: Vec<File<'a>> = Vec::new();
        if self.file_table.len() < 12 {
            return Err(Error::Truncated);
        }
        let table = &self.file_table[12..self.file_table.len()];
        let ghost t = self.file_table@.skip(12);
        assert(table@ =~= t);
        let mut r = Reader::new(table);
        let mut dirs: Vec<String> = Vec::new();
        let mut dir_ends: Vec<u32> = Vec::new();
        let mut index: u32 = 1;
        proof {
            assert(file_views(files@) =~= Seq::<(Seq<char>, Seq<u8>)>::empty());
            assert(string_views(dirs@) =~= Seq::<Seq<char>>::empty());
        }
        while index < self.root_entry_count
            invariant
                r.wf(),
                r.data == table,
                table@ == t,
                t == self.file_table@.skip(12),
                self.file_table@.len() >= 12,
                1 <= index,
                12 * (index - 1) <= t.len(),
                r@ == t.skip(12 * (index - 1)),
                dirs@.len() == dir_ends@.len(),
                forall|i: int| 0 <= i < files@.len() ==> is_range_of((#[trigger] files@[i]).data@, self.data@),
                disc_files(self) == walk(
                    t,
                    self.string_table@,
                    self.data@,
                    index as nat,
                    self.root_entry_count as nat,
                    string_views(dirs@),
                    dir_ends@,
                    file_views(files@),
                ),
            decreases self.root_entry_count - index,
        {
            let ghost dv0 = string_views(dirs@);
            let ghost ev0 = dir_ends@;
            if dir_ends.len() > 0 && dir_ends[dir_ends.len() - 1] == index {
                dirs.pop();
                dir_ends.pop();
                assert(string_views(dirs@) =~= dv0.drop_last());
            }
            let ghost dv = string_views(dirs@);
            let entry = FileTableEntry::new(&mut r, self.string_table)?;
            match entry.data {
                EntryData::File { offset, size } => {
                    let mut path = String::new();
                    let mut k: usize = 0;
                    while k < dirs.len()
                        invariant
                            k <= dirs@.len(),
                            dv == string_views(dirs@),
                            path@ == dir_prefix(dv.take(k as int)),
                        decreases dirs@.len() - k,
                    {
                        let ghost before = path@;
                        path.append(dirs[k].as_str());
                        path.append("/");
                        proof {
                            reveal_strlit("/");
                            assert(dv.take(k + 1).drop_last() =~= dv.take(k as int));
                            assert(dv.take(k + 1).last() == dirs@[k as int]@);
                        }
                        k = k + 1;
                    }
                    assert(dv.take(dv.len() as int) =~= dv);
                    path.append(entry.name.as_str());
                    let bytes = byte_range(self.data, offset, size)?;
                    let ghost fv = file_views(files@);
                    files.push(File { path, data: bytes });
                    assert(file_views(files@) =~= fv.push((dir_prefix(dv) + entry.name@, self.data@.subrange(offset as int, offset + size))));
                    assert(is_range_of(files@.last().data@, self.data@)) by {
                        assert(files@.last().data@ == self.data@.subrange(offset as int, offset as int + size as int));
                    }
                },
                EntryData::Directory { end_index } => {
                    dirs.push(entry.name);
                    dir_ends.push(end_index);
                    assert(string_views(dirs@) =~= dv.push(entry.name@));
                },
            }
            assert(t.skip(12 * (index - 1)).skip(12) =~= t.skip(12 * index));
            index = index + 1;
        }
        Ok(files)
    }

    /// The first file at `path`, if the disc has one; entries after it are
    /// not read.
    pub fn find_file(&self, path: &str) -> (r: Result<Option<File<'a>>, Error>)
        ensures
            match disc_find(self, path@) {
                Err(e) => r is Err && r->Err_0 == e,
                Ok(None) => r matches Ok(None),
                Ok(Some(b)) => r matches Ok(Some(f)) && f.path@ == path@ && f.data@ == b,
            },
    {
        if self.file_table.len() < 12 {
            return Err(Error::Truncated);
        }
        let target = path.to_owned();
        let table = &self.file_table[12..self.file_table.len()];
        let ghost t = self.file_table@.skip(12);
        assert(table@ =~= t);
        let mut r = Reader::new(table);
        let mut dirs: Vec<String> = Vec::new();
        let mut dir_ends: Vec<u32> = Vec::new();
        let mut index: u32 = 1;
        assert(string_views(dirs@) =~= Seq::<Seq<char>>::empty());
        while index < self.root_entry_count
            invariant
                r.wf(),
                r.data == table,
                table@ == t,
                t == self.file_table@.skip(12),
                self.file_table@.len() >= 12,
                target@ == path@,
                1 <= index,
                12 * (index - 1) <= t.len(),
                r@ == t.skip(12 * (index - 1)),
                dirs@.len() == dir_ends@.len(),
                disc_find(self, path@) == find_walk(
                    t,
                    self.string_table@,
                    self.data@,
                    index as nat,
                    self.root_entry_count as nat,
                    string_views(dirs@),
                    dir_ends@,
                    path@,
                ),
            decreases self.root_entry_count - index,
        {
            let ghost dv0 = string_views(dirs@);
            if dir_ends.len() > 0 && dir_ends[dir_ends.len() - 1] == index {
                dirs.pop();
                dir_ends.pop();
                assert(string_views(dirs@) =~= dv0.drop_last());
            }
            let ghost dv = string_views(dirs@);
            let entry = FileTableEntry::new(&mut r, self.string_table)?;
            match entry.data {
                EntryData::File { offset, size } => {
                    let mut p = String::new();
                    let mut k: usize = 0;
                    while k < dirs.len()
                        invariant
                            k <= dirs@.len(),
                            dv == string_views(dirs@),
                            p@ == dir_prefix(dv.take(k as int)),
                        decreases dirs@.len() - k,
                    {
                        p.append(dirs[k].as_str());
                        p.append("/");
                        proof {
                            reveal_strlit("/");
                            assert(dv.take(k + 1).drop_last() =~= dv.take(k as int));
                            assert(dv.take(k + 1).last() == dirs@[k as int]@);
                        }
                        k = k + 1;
                    }
                    assert(dv.take(dv.len() as int) =~= dv);
                    p.append(entry.name.as_str());
                    let bytes = byte_range(self.data, offset, size)?;
                    if p == target {
                        return Ok(Some(File { path: p, data: bytes }));
                    }
                },
                EntryData::Directory { end_index } => {
                    dirs.push(entry.name);
                    dir_ends.push(end_index);
                    assert(string_views(dirs@) =~= dv.push(entry.name@));
                },
            }
            assert(t.skip(12 * (index - 1)).skip(12) =~= t.skip(12 * index));
            index = index + 1;
        }
        Ok(None)
    }
}

} // verus!
