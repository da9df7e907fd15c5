//! PE / CLI metadata reader for MelonLoader mod DLLs.

use vstd::prelude::*;

verus! {

/// Little-endian 16-bit value of the two bytes of `s` at `off`.
pub open spec fn le16(s: Seq<u8>, off: int) -> nat {
    s[off] as nat + 256 * (s[off + 1] as nat)
}

/// Little-endian 32-bit value of the four bytes of `s` at `off`.
pub open spec fn le32(s: Seq<u8>, off: int) -> nat {
    le16(s, off) + 65536 * le16(s, off + 2)
}

/// Little-endian 64-bit value of the eight bytes of `s` at `off`.
pub open spec fn le64(s: Seq<u8>, off: int) -> nat {
    le32(s, off) + 4294967296 * le32(s, off + 4)
}

/// Whether `n` bytes starting at `off` lie inside `s`.
pub open spec fn fits(s: Seq<u8>, off: int, n: int) -> bool {
    0 <= off && off + n <= s.len()
}

pub open spec fn spec_read_u16(s: Seq<u8>, off: int) -> Option<u16> {
    if fits(s, off, 2) { Some(le16(s, off) as u16) } else { None }
}

pub open spec fn spec_read_u32(s: Seq<u8>, off: int) -> Option<u32> {
    if fits(s, off, 4) { Some(le32(s, off) as u32) } else { None }
}

pub open spec fn spec_read_u64(s: Seq<u8>, off: int) -> Option<u64> {
    if fits(s, off, 8) { Some(le64(s, off) as u64) } else { None }
}

/// Reads a little-endian `u16` at `offset`; `None` when it runs past the end.
fn read_u16(data: &[u8], offset: usize) -> (r: Option<u16>)
    ensures
        r == spec_read_u16(data@, offset as int),
{
    if offset > data.len() || data.len() - offset < 2 {
        return None;
    }
    let v: u16 = data[offset] as u16 + (data[offset + 1] as u16) * 256;
    Some(v)
}

/// Reads a little-endian `u32` at `offset`; `None` when it runs past the end.
fn read_u32(data: &[u8], offset: usize) -> (r: Option<u32>)
    ensures
        r == spec_read_u32(data@, offset as int),
{
    if offset > data.len() || data.len() - offset < 4 {
        return None;
    }
    let lo: u32 = data[offset] as u32 + (data[offset + 1] as u32) * 256;
    let hi: u32 = data[offset + 2] as u32 + (data[offset + 3] as u32) * 256;
    Some(lo + hi * 65536)
}

/// Reads a little-endian `u64` at `offset`; `None` when it runs past the end.
fn read_u64(data: &[u8], offset: usize) -> (r: Option<u64>)
    ensures
        r == spec_read_u64(data@, offset as int),
{
    if offset > data.len() || data.len() - offset < 8 {
        return None;
    }
    let lo = read_u32(data, offset).unwrap();
    let hi = read_u32(data, offset + 4).unwrap();
    Some(lo as u64 + (hi as u64) * 4294967296)
}

} // verus!

verus! {

/// Index of the first NUL byte of `s` at or after `i`.
pub open spec fn first_zero(s: Seq<u8>, i: int) -> Option<int>
    decreases s.len() - i,
{
    if i < 0 || i >= s.len() {
        None
    } else if s[i] == 0 {
        Some(i)
    } else {
        first_zero(s, i + 1)
    }
}

/// The bytes of the NUL-terminated string at `off`, without the NUL.
pub open spec fn cstr_bytes(s: Seq<u8>, off: int) -> Option<Seq<u8>> {
    match first_zero(s, off) {
        Some(e) => Some(s.subrange(off, e)),
        None => None,
    }
}

proof fn lemma_first_zero(s: Seq<u8>, i: int)
    ensures
        first_zero(s, i) matches Some(e) ==> i <= e < s.len() && s[e] == 0,
    decreases s.len() - i,
{
    if 0 <= i < s.len() && s[i] != 0 {
        lemma_first_zero(s, i + 1);
    }
}

/// Reads the NUL-terminated string at `offset`, decoding it lossily;
/// `None` when no NUL follows.
fn read_cstr(data: &[u8], offset: usize) -> (r: Option<String>)
    requires
        offset <= data@.len(),
    ensures
        r matches Some(s) ==> cstr_bytes(data@, offset as int) matches Some(b) && s@ == crate::text::utf8_lossy(b),
        r is None <==> cstr_bytes(data@, offset as int) is None,
{
    let mut i = offset;
    while i < data.len()
        invariant
            offset <= i <= data@.len(),
            first_zero(data@, offset as int) == first_zero(data@, i as int),
        decreases data.len() - i,
    {
        if data[i] == 0 {
            let bytes = vstd::slice::slice_subrange(data, offset, i);
            return Some(crate::text::lossy_string(bytes));
        }
        i = i + 1;
    }
    None
}

/// The section-table lookup of an RVA: the first of the `n` sections from
/// index `i` on (stopping at the first header that runs past the data) whose
/// virtual range holds `rva`, mapped to its raw file position.
pub open spec fn section_lookup(s: Seq<u8>, table: int, n: int, i: int, rva: int) -> Option<int>
    decreases n - i,
{
    if i >= n || !fits(s, table + 40 * i, 40) {
        None
    } else {
        let sec = table + 40 * i;
        let virtual_size = le32(s, sec + 8);
        let virtual_address = le32(s, sec + 12);
        let raw_offset = le32(s, sec + 20);
        if virtual_address <= rva < virtual_address + virtual_size {
            Some(raw_offset + (rva - virtual_address))
        } else {
            section_lookup(s, table, n, i + 1, rva)
        }
    }
}

/// File position of an RVA, through the section table of the PE image whose
/// "PE\0\0" signature is at `pe`.
pub open spec fn spec_rva_to_file_offset(s: Seq<u8>, pe: int, rva: int) -> Option<int> {
    let coff = pe + 4;
    if !fits(s, coff, 20) {
        None
    } else {
        section_lookup(s, coff + 20 + le16(s, coff + 16), le16(s, coff + 2) as int, 0, rva)
    }
}

/// Resolves a relative virtual address to a file offset using the section table.
fn rva_to_file_offset(data: &[u8], pe_offset: u64, rva: u32) -> (r: Option<u64>)
    ensures
        r matches Some(o) ==> spec_rva_to_file_offset(data@, pe_offset as int, rva as int) == Some(o as int),
        r is None <==> spec_rva_to_file_offset(data@, pe_offset as int, rva as int) is None,
        r matches Some(o) ==> o < 0x2_0000_0000,
{
    let len = data.len() as u128;
    let coff: u128 = pe_offset as u128 + 4;
    if coff + 20 > len {
        return None;
    }
    let num_sections = read_u16(data, (coff + 2) as usize).unwrap();
    let optional_size = read_u16(data, (coff + 16) as usize).unwrap();
    let table: u128 = coff + 20 + optional_size as u128;
    let mut i: u16 = 0;
    while i < num_sections
        invariant
            len == data@.len(),
            len <= usize::MAX,
            coff == pe_offset + 4,
            num_sections as int == le16(data@, coff + 2),
            optional_size as int == le16(data@, coff + 16),
            table == coff + 20 + optional_size,
            coff + 20 <= len,
            table < 0x1_0000_0000_0000_0000_0000,
            section_lookup(data@, table as int, num_sections as int, 0, rva as int)
                == section_lookup(data@, table as int, num_sections as int, i as int, rva as int),
        decreases num_sections - i,
    {
        let sec: u128 = table + 40 * (i as u128);
        if sec + 40 > len {
            return None;
        }
        let virtual_size = read_u32(data, (sec + 8) as usize).unwrap();
        let virtual_address = read_u32(data, (sec + 12) as usize).unwrap();
        let raw_offset = read_u32(data, (sec + 20) as usize).unwrap();
        if rva >= virtual_address && (rva as u64) < virtual_address as u64 + virtual_size as u64 {
            return Some(raw_offset as u64 + (rva - virtual_address) as u64);
        }
        i = i + 1;
    }
    None
}

} // verus!

verus! {

/// The "PE\0\0" signature of a PE image.
pub open spec fn pe_signature() -> Seq<u8> {
    seq![0x50u8, 0x45u8, 0x00u8, 0x00u8]
}

/// File position of the CLI metadata root of a PE image: the DOS header
/// ("MZ", with the PE header position at 60), the PE signature, the optional
/// header magic (PE32 or PE32+) that places the CLR data directory, the CLR
/// header it points to, and the metadata RVA inside that header.
pub open spec fn spec_find_cli_metadata(s: Seq<u8>) -> Option<int> {
    if s.len() < 64 || s[0] != 0x4D || s[1] != 0x5A {
        None
    } else {
        let pe = le32(s, 60) as int;
        if !fits(s, pe, 4) || s.subrange(pe, pe + 4) != pe_signature() {
            None
        } else {
            let oh = pe + 24;
            let magic = le16(s, oh);
            if !fits(s, oh, 2) || (magic != 0x010B && magic != 0x020B) {
                None
            } else {
                let dir = if magic == 0x010B { oh + 96 + 14 * 8 } else { oh + 112 + 14 * 8 };
                let clr_rva = le32(s, dir) as int;
                if !fits(s, dir, 8) || clr_rva == 0 {
                    None
                } else {
                    match spec_rva_to_file_offset(s, pe, clr_rva) {
                        None => None,
                        Some(clr) => {
                            let meta_rva = le32(s, clr + 8) as int;
                            if !fits(s, clr, 72) || meta_rva == 0 {
                                None
                            } else {
                                spec_rva_to_file_offset(s, pe, meta_rva)
                            }
                        },
                    }
                }
            }
        }
    }
}

/// Finds the file offset of the CLI metadata root in a PE file.
fn find_cli_metadata(data: &[u8]) -> (r: Option<u64>)
    ensures
        r matches Some(o) ==> spec_find_cli_metadata(data@) == Some(o as int),
        r is None <==> spec_find_cli_metadata(data@) is None,
{
    if data.len() < 64 {
        return None;
    }
    if data[0] != 0x4D || data[1] != 0x5A {
        return None;
    }
    let len = data.len() as u64;
    let pe_offset = read_u32(data, 60).unwrap() as u64;
    if pe_offset + 4 > len {
        return None;
    }
    let p = pe_offset as usize;
    if !(data[p] == 0x50 && data[p + 1] == 0x45 && data[p + 2] == 0 && data[p + 3] == 0) {
        proof {
            assert(data@.subrange(p as int, p + 4)[0] == data@[p as int]);
            assert(data@.subrange(p as int, p + 4)[1] == data@[p + 1]);
            assert(data@.subrange(p as int, p + 4)[2] == data@[p + 2]);
            assert(data@.subrange(p as int, p + 4)[3] == data@[p + 3]);
        }
        return None;
    }
    assert(data@.subrange(p as int, p + 4) =~= pe_signature());
    let optional_header_offset = pe_offset + 24;
    if optional_header_offset + 2 > len {
        return None;
    }
    let magic = read_u16(data, optional_header_offset as usize).unwrap();
    let clr_data_dir_offset: u64 = if magic == 0x010B {
        optional_header_offset + 96 + 14 * 8
    } else if magic == 0x020B {
        optional_header_offset + 112 + 14 * 8
    } else {
        return None;
    };
    if clr_data_dir_offset + 8 > len {
        return None;
    }
    let clr_rva = read_u32(data, clr_data_dir_offset as usize).unwrap();
    if clr_rva == 0 {
        return None;
    }
    let clr_file_offset = match rva_to_file_offset(data, pe_offset, clr_rva) {
        Some(o) => o,
        None => return None,
    };
    if clr_file_offset + 72 > len {
        return None;
    }
    let meta_rva = read_u32(data, (clr_file_offset + 8) as usize).unwrap();
    if meta_rva == 0 {
        return None;
    }
    rva_to_file_offset(data, pe_offset, meta_rva)
}

} // verus!

verus! {

/// Where the `#Strings`, `#Blob` and table (`#~` / `#-`) streams lie, as
/// (absolute file position, size), when their headers were seen.
pub struct StreamLocs {
    pub strings: Option<(int, int)>,
    pub blob: Option<(int, int)>,
    pub tables: Option<(int, int)>,
}

/// `x` rounded down to a multiple of four.
pub open spec fn align_down4(x: int) -> int {
    x - x % 4
}

/// Byte length of the UTF-8 encoding of `s`, as `str::len` reports it.
pub open spec fn str_byte_len(s: Seq<char>) -> int {
    (vstd::utf8::encode_utf8(s).len() as usize) as int
}

/// Which stream a header name denotes: 1 for `#Strings`, 2 for `#Blob`,
/// 3 for the table stream (`#~` or `#-`), 0 for any other.
pub open spec fn stream_kind(name: Seq<char>) -> u8 {
    if name == "#Strings"@ {
        1
    } else if name == "#Blob"@ {
        2
    } else if name == "#~"@ || name == "#-"@ {
        3
    } else {
        0
    }
}

/// Walks the stream headers of a metadata root `meta` (found at file position
/// `cli`) from header `k` at position `sh`, recording the last location seen
/// for each stream of interest. `None` when a stream name has no terminator.
pub open spec fn spec_streams(meta: Seq<u8>, cli: int, count: int, k: int, sh: int, acc: StreamLocs) -> Option<StreamLocs>
    decreases count - k,
{
    if k >= count || !fits(meta, sh, 8) {
        Some(acc)
    } else {
        match cstr_bytes(meta, sh + 8) {
            None => None,
            Some(raw) => {
                let name = crate::text::utf8_lossy(raw);
                let next = sh + 8 + align_down4(str_byte_len(name) + 1 + 3);
                let loc = (cli + le32(meta, sh), le32(meta, sh + 4) as int);
                let kind = stream_kind(name);
                let acc2 = if kind == 1 {
                    StreamLocs { strings: Some(loc), ..acc }
                } else if kind == 2 {
                    StreamLocs { blob: Some(loc), ..acc }
                } else if kind == 3 {
                    StreamLocs { tables: Some(loc), ..acc }
                } else {
                    acc
                };
                spec_streams(meta, cli, count, k + 1, next, acc2)
            },
        }
    }
}

/// The row counts of the 64 metadata tables from bit `i` of the valid mask on,
/// read from position `pos` of the table stream (0 for absent tables), and the
/// position just after them. `None` when a count runs past the stream.
pub open spec fn row_counts_from(t: Seq<u8>, mask: u64, i: int, pos: int) -> Option<(Seq<u32>, int)>
    decreases 64 - i,
{
    if i >= 64 {
        Some((Seq::empty(), pos))
    } else if (mask >> (i as u64)) & 1u64 == 1u64 {
        if !fits(t, pos, 4) {
            None
        } else {
            match row_counts_from(t, mask, i + 1, pos + 4) {
                Some((rest, end)) => Some((seq![le32(t, pos) as u32] + rest, end)),
                None => None,
            }
        }
    } else {
        match row_counts_from(t, mask, i + 1, pos) {
            Some((rest, end)) => Some((seq![0u32] + rest, end)),
            None => None,
        }
    }
}

/// The parts of the CLI metadata that the readers use.
pub struct CliMetadata {
    pub strings: Seq<u8>,
    pub blobs: Seq<u8>,
    pub tables: Seq<u8>,
    pub strings_wide: bool,
    pub blob_wide: bool,
    pub guid_wide: bool,
    pub rows: Seq<u32>,
    pub table_data_start: int,
}

/// The CLI metadata of a PE image: the root must lie inside the file; root
/// signature "BSJB", the stream headers, the three streams inside the file, the
/// heap-size flags and the row counts.
pub open spec fn spec_meta_parse(data: Seq<u8>) -> Option<CliMetadata> {
    match spec_find_cli_metadata(data) {
        None => None,
        Some(cli) => if cli > data.len() {
            None
        } else {
            let meta = data.subrange(cli, data.len() as int);
            let streams_base = 16 + align_down4(le32(meta, 12) as int + 3);
            if meta.len() < 20 || le32(meta, 0) != 0x424A5342 || !fits(meta, streams_base, 4) {
                None
            } else {
                let init = StreamLocs { strings: None, blob: None, tables: None };
                match spec_streams(meta, cli, le16(meta, streams_base + 2) as int, 0, streams_base + 4, init) {
                    None => None,
                    Some(locs) => match (locs.strings, locs.blob, locs.tables) {
                        (Some((so, ss)), Some((bo, bs)), Some((to, ts))) => {
                            if so + ss > data.len() || bo + bs > data.len() || to + ts > data.len() {
                                None
                            } else {
                                let tables = data.subrange(to, to + ts);
                                if tables.len() < 24 {
                                    None
                                } else {
                                    let heap = tables[6];
                                    match row_counts_from(tables, le64(tables, 8) as u64, 0, 24) {
                                        None => None,
                                        Some((rows, end)) => Some(CliMetadata {
                                            strings: data.subrange(so, so + ss),
                                            blobs: data.subrange(bo, bo + bs),
                                            tables,
                                            strings_wide: heap & 0x01 != 0,
                                            blob_wide: heap & 0x04 != 0,
                                            guid_wide: heap & 0x02 != 0,
                                            rows,
                                            table_data_start: end,
                                        }),
                                    }
                                }
                            }
                        },
                        _ => None,
                    },
                }
            }
        },
    }
}

} // verus!

verus! {

/// The located metadata streams of a PE image and the table-stream header.
struct MetaContext<'a> {
    strings_data: &'a [u8],
    blobs: &'a [u8],
    tables: &'a [u8],
    strings_wide: bool,
    blob_wide: bool,
    guid_wide: bool,
    row_counts: Vec<u32>,
    table_data_start: usize,
}

impl<'a> MetaContext<'a> {
    spec fn view(&self) -> CliMetadata {
        CliMetadata {
            strings: self.strings_data@,
            blobs: self.blobs@,
            tables: self.tables@,
            strings_wide: self.strings_wide,
            blob_wide: self.blob_wide,
            guid_wide: self.guid_wide,
            rows: self.row_counts@,
            table_data_start: self.table_data_start as int,
        }
    }

    /// Locates the metadata streams and reads the table-stream header.
    fn parse(data: &'a [u8]) -> (r: Option<Self>)
        ensures
            r matches Some(c) ==> spec_meta_parse(data@) == Some(c.view()) && c.row_counts@.len() == 64,
            r is None <==> spec_meta_parse(data@) is None,
    {
        let cli_offset = match find_cli_metadata(data) {
            Some(o) => o,
            None => return None,
        };
        if cli_offset > data.len() as u64 {
            return None;
        }
        let meta = vstd::slice::slice_subrange(data, cli_offset as usize, data.len());
        if meta.len() < 20 {
            return None;
        }
        if read_u32(meta, 0).unwrap() != 0x424A5342 {
            return None;
        }
        let version_len = read_u32(meta, 12).unwrap() as u64;
        let streams_base: u64 = 16 + ((version_len + 3) - (version_len + 3) % 4);
        if streams_base > meta.len() as u64 || (meta.len() as u64) - streams_base < 4 {
            return None;
        }
        let stream_count = read_u16(meta, (streams_base + 2) as usize).unwrap();
        let (strings_loc, blob_loc, tables_loc) = match read_stream_headers(meta, cli_offset, stream_count, streams_base + 4) {
            Some(l) => l,
            None => return None,
        };
        let (strings_off, strings_sz) = match strings_loc { Some(l) => l, None => return None };
        let (blob_off, blob_sz) = match blob_loc { Some(l) => l, None => return None };
        let (tables_off, tables_sz) = match tables_loc { Some(l) => l, None => return None };
        let len = data.len() as u128;
        if strings_off + strings_sz > len || blob_off + blob_sz > len || tables_off + tables_sz > len {
            return None;
        }
        let strings_data = vstd::slice::slice_subrange(data, strings_off as usize, (strings_off + strings_sz) as usize);
        let blobs = vstd::slice::slice_subrange(data, blob_off as usize, (blob_off + blob_sz) as usize);
        let tables = vstd::slice::slice_subrange(data, tables_off as usize, (tables_off + tables_sz) as usize);
        if tables.len() < 24 {
            return None;
        }
        let heap_sizes = tables[6];
        let strings_wide = (heap_sizes & 0x01) != 0;
        let blob_wide = (heap_sizes & 0x04) != 0;
        let guid_wide = (heap_sizes & 0x02) != 0;
        let valid_mask = read_u64(tables, 8).unwrap();
        let (row_counts, table_data_start) = match read_row_counts(tables, valid_mask) {
            Some(r) => r,
            None => return None,
        };
        Some(MetaContext {
            strings_data,
            blobs,
            tables,
            strings_wide,
            blob_wide,
            guid_wide,
            row_counts,
            table_data_start,
        })
    }
}

/// Integer view of an executable stream location.
pub open spec fn loc_view(l: Option<(u128, u128)>) -> Option<(int, int)> {
    match l {
        Some((a, b)) => Some((a as int, b as int)),
        None => None,
    }
}

/// A stream location whose position and size fit the later arithmetic.
pub open spec fn loc_bounded(l: Option<(u128, u128)>) -> bool {
    l matches Some((a, b)) ==> a < 0x2_0000_0000_0000_0000 && b < 0x1_0000_0000
}

/// Which stream a header name denotes (see `stream_kind`).
fn classify_stream(name: &str) -> (k: u8)
    ensures
        k == stream_kind(name@),
{
    if crate::text::str_eq(name, "#Strings") {
        1
    } else if crate::text::str_eq(name, "#Blob") {
        2
    } else if crate::text::str_eq(name, "#~") || crate::text::str_eq(name, "#-") {
        3
    } else {
        0
    }
}

/// Reads `stream_count` stream headers of the metadata root `meta` starting at
/// `first`, returning the last location of each stream of interest.
fn read_stream_headers(meta: &[u8], cli_offset: u64, stream_count: u16, first: u64)
    -> (r: Option<(Option<(u128, u128)>, Option<(u128, u128)>, Option<(u128, u128)>)>)
    ensures
        ({
            let init = StreamLocs { strings: None, blob: None, tables: None };
            let s = spec_streams(meta@, cli_offset as int, stream_count as int, 0, first as int, init);
            match r {
                Some((a, b, c)) => s == Some(StreamLocs { strings: loc_view(a), blob: loc_view(b), tables: loc_view(c) }),
                None => s is None,
            }
        }),
        r matches Some((a, b, c)) ==> loc_bounded(a) && loc_bounded(b) && loc_bounded(c),
{
    let mlen = meta.len();
    let mut sh_off: u128 = first as u128;
    let mut strings_loc: Option<(u128, u128)> = None;
    let mut blob_loc: Option<(u128, u128)> = None;
    let mut tables_loc: Option<(u128, u128)> = None;
    let ghost init = StreamLocs { strings: None, blob: None, tables: None };
    let mut k: u16 = 0;
    while k < stream_count
        invariant
            meta@.len() == mlen,
            init == (StreamLocs { strings: None, blob: None, tables: None }),
            sh_off <= first + 0x10_0000_0000_0000_0000_0000 * (k as int),
            k <= stream_count,
            loc_bounded(strings_loc) && loc_bounded(blob_loc) && loc_bounded(tables_loc),
            spec_streams(meta@, cli_offset as int, stream_count as int, 0, first as int, init) == spec_streams(
                meta@,
                cli_offset as int,
                stream_count as int,
                k as int,
                sh_off as int,
                StreamLocs { strings: loc_view(strings_loc), blob: loc_view(blob_loc), tables: loc_view(tables_loc) },
            ),
        ensures
            spec_streams(meta@, cli_offset as int, stream_count as int, 0, first as int, init) == Some(
                StreamLocs { strings: loc_view(strings_loc), blob: loc_view(blob_loc), tables: loc_view(tables_loc) },
            ),
            loc_bounded(strings_loc) && loc_bounded(blob_loc) && loc_bounded(tables_loc),
        decreases stream_count - k,
    {
        if sh_off + 8 > meta.len() as u128 {
            break;
        }
        let offset = read_u32(meta, sh_off as usize).unwrap();
        let size = read_u32(meta, (sh_off + 4) as usize).unwrap();
        let name = match read_cstr(meta, (sh_off + 8) as usize) {
            Some(n) => n,
            None => {
                assert(fits(meta@, sh_off as int, 8));
                return None;
            },
        };
        let name_len = name.as_str().len() as u128;
        sh_off = sh_off + 8 + ((name_len + 1 + 3) - (name_len + 1 + 3) % 4);
        let loc = (cli_offset as u128 + offset as u128, size as u128);
        let kind = classify_stream(name.as_str());
        if kind == 1 {
            strings_loc = Some(loc);
        } else if kind == 2 {
            blob_loc = Some(loc);
        } else if kind == 3 {
            tables_loc = Some(loc);
        }
        k = k + 1;
    }
    Some((strings_loc, blob_loc, tables_loc))
}

/// Reads the row counts of the tables present in `valid_mask` from the table
/// stream header, returning them (0 for absent tables) and the position of
/// the first table row.
fn read_row_counts(tables: &[u8], valid_mask: u64) -> (r: Option<(Vec<u32>, usize)>)
    requires
        tables@.len() >= 24,
    ensures
        match r {
            Some((rows, end)) => row_counts_from(tables@, valid_mask, 0, 24) == Some((rows@, end as int)) && rows@.len() == 64,
            None => row_counts_from(tables@, valid_mask, 0, 24) is None,
        },
{
    let mut row_counts: Vec<u32> = Vec::new();
    let mut pos: usize = 24;
    let mut i: u64 = 0;
    while i < 64
        invariant
            i <= 64,
            row_counts@.len() == i,
            24 <= pos <= tables@.len(),
            row_counts_from(tables@, valid_mask, 0, 24) == match row_counts_from(tables@, valid_mask, i as int, pos as int) {
                Some((rest, end)) => Some((row_counts@ + rest, end)),
                None => None,
            },
        decreases 64 - i,
    {
        let ghost before = row_counts@;
        if (valid_mask >> i) & 1 == 1 {
            if pos > tables.len() || tables.len() - pos < 4 {
                return None;
            }
            let n = read_u32(tables, pos).unwrap();
            row_counts.push(n);
            pos = pos + 4;
        } else {
            row_counts.push(0);
        }
        proof {
            assert forall|rest: Seq<u32>| #[trigger] (row_counts@ + rest) == before + (seq![row_counts@.last()] + rest) by {
                assert(row_counts@ + rest =~= before + (seq![row_counts@.last()] + rest));
            }
        }
        i = i + 1;
    }
    assert(row_counts@ + Seq::<u32>::empty() =~= row_counts@);
    Some((row_counts, pos))
}

} // verus!

verus! {

/// Row count of table `t` (0 when out of range).
pub open spec fn meta_rows(m: CliMetadata, t: int) -> int {
    if 0 <= t < m.rows.len() {
        m.rows[t] as int
    } else {
        0
    }
}

/// Width of a heap index: 4 bytes for a wide heap, 2 otherwise.
pub open spec fn heap_idx(wide: bool) -> int {
    if wide {
        4
    } else {
        2
    }
}

/// Width of a simple index into table `t`.
pub open spec fn spec_simple_idx(m: CliMetadata, t: int) -> int {
    if meta_rows(m, t) > 0xFFFF {
        4
    } else {
        2
    }
}

/// Width of a coded index over `tables` whose tag leaves `limit` row numbers.
pub open spec fn spec_coded_idx(m: CliMetadata, tables: Seq<usize>, limit: int) -> int {
    if exists|k: int| 0 <= k < tables.len() && meta_rows(m, tables[k] as int) >= limit {
        4
    } else {
        2
    }
}

/// The tables a `HasCustomAttribute` coded index can point into (0x00 to 0x27).
pub open spec fn has_custom_attribute_tables() -> Seq<usize> {
    Seq::new(0x28, |i: int| i as usize)
}

/// Byte size of one row of metadata table `t` (ECMA-335 II.22), 0 for a
/// table this reader does not know.
pub open spec fn spec_row_size(m: CliMetadata, t: int) -> int {
    let s = heap_idx(m.strings_wide);
    let b = heap_idx(m.blob_wide);
    let g = heap_idx(m.guid_wide);
    let type_def_or_ref = spec_coded_idx(m, seq![0x01usize, 0x02, 0x1B], 0x4000);
    let has_ca = spec_coded_idx(m, has_custom_attribute_tables(), 0x800);
    let ca_type = spec_coded_idx(m, seq![0x06usize, 0x0A], 0x2000);
    let has_const = spec_coded_idx(m, seq![0x04usize, 0x08, 0x17], 0x4000);
    let has_field_marshal = spec_coded_idx(m, seq![0x04usize, 0x08, 0x17], 0x4000);
    let has_decl_security = spec_coded_idx(m, seq![0x01usize, 0x02, 0x06, 0x08, 0x10, 0x11, 0x14, 0x17, 0x20, 0x23], 0x4000);
    let member_ref_parent = spec_coded_idx(m, seq![0x00usize, 0x01, 0x02, 0x1A, 0x1B], 0x2000);
    let method_def_or_ref = spec_coded_idx(m, seq![0x06usize, 0x0A], 0x8000);
    let member_forwarded = spec_coded_idx(m, seq![0x04usize, 0x06], 0x8000);
    let has_semantics = spec_coded_idx(m, seq![0x14usize, 0x17], 0x8000);
    let resolution_scope = spec_coded_idx(m, seq![0x00usize, 0x01, 0x1A, 0x23], 0x4000);
    if t == 0x00 { 2 + s + g + g + g }
    else if t == 0x01 { resolution_scope + s + s }
    else if t == 0x02 { 4 + s + s + type_def_or_ref + spec_simple_idx(m, 0x04) + spec_simple_idx(m, 0x06) }
    else if t == 0x03 { spec_simple_idx(m, 0x04) }
    else if t == 0x04 { 2 + s + b }
    else if t == 0x05 { spec_simple_idx(m, 0x06) }
    else if t == 0x06 { 4 + 2 + 2 + s + b + spec_simple_idx(m, 0x08) }
    else if t == 0x07 { spec_simple_idx(m, 0x08) }
    else if t == 0x08 { 2 + 2 + s }
    else if t == 0x09 { spec_simple_idx(m, 0x02) + type_def_or_ref }
    else if t == 0x0A { member_ref_parent + s + b }
    else if t == 0x0B { 2 + has_const + b }
    else if t == 0x0C { has_ca + ca_type + b }
    else if t == 0x0D { has_field_marshal + b }
    else if t == 0x0E { 2 + has_decl_security + b }
    else if t == 0x0F { 2 + 4 + spec_simple_idx(m, 0x02) }
    else if t == 0x10 { 4 + spec_simple_idx(m, 0x04) }
    else if t == 0x11 { b }
    else if t == 0x12 { spec_simple_idx(m, 0x02) + spec_simple_idx(m, 0x14) }
    else if t == 0x13 { spec_simple_idx(m, 0x14) }
    else if t == 0x14 { 2 + s + type_def_or_ref }
    else if t == 0x15 { spec_simple_idx(m, 0x02) + spec_simple_idx(m, 0x17) }
    else if t == 0x16 { spec_simple_idx(m, 0x17) }
    else if t == 0x17 { 2 + s + b }
    else if t == 0x18 { 2 + spec_simple_idx(m, 0x06) + has_semantics }
    else if t == 0x19 { spec_simple_idx(m, 0x02) + method_def_or_ref + method_def_or_ref }
    else if t == 0x1A { s }
    else if t == 0x1B { b }
    else if t == 0x1C { 2 + member_forwarded + s + spec_simple_idx(m, 0x1A) }
    else if t == 0x1D { 4 + spec_simple_idx(m, 0x04) }
    else if t == 0x1E { 8int }
    else if t == 0x1F { 4 }
    else if t == 0x20 { 4 + 2 + 2 + 2 + 2 + 4 + b + s + s }
    else if t == 0x21 { 4 }
    else if t == 0x22 { 12int }
    else if t == 0x23 { 2 + 2 + 2 + 2 + 4 + b + s + s + b }
    else { 0 }
}

impl<'a> MetaContext<'a> {
    /// Width of a `#Strings` heap index.
    fn s_idx(&self) -> (r: usize)
        ensures
            r == heap_idx(self.strings_wide),
    {
        if self.strings_wide { 4 } else { 2 }
    }

    /// Width of a `#Blob` heap index.
    fn b_idx(&self) -> (r: usize)
        ensures
            r == heap_idx(self.blob_wide),
    {
        if self.blob_wide { 4 } else { 2 }
    }

    /// Width of a `#GUID` heap index.
    fn g_idx(&self) -> (r: usize)
        ensures
            r == heap_idx(self.guid_wide),
    {
        if self.guid_wide { 4 } else { 2 }
    }

    /// Row count of table `t` (0 when out of range).
    fn rows(&self, t: usize) -> (r: u32)
        ensures
            r == meta_rows(self.view(), t as int),
    {
        if t < self.row_counts.len() { self.row_counts[t] } else { 0 }
    }

    /// Width of a simple index into table `t`.
    fn simple_idx(&self, table: usize) -> (r: usize)
        ensures
            r == spec_simple_idx(self.view(), table as int),
    {
        if self.rows(table) > 0xFFFF { 4 } else { 2 }
    }

    /// Width of a coded index over `tables`; `limit` is 2 to the power of the
    /// bits the tag leaves for the row number.
    fn coded_idx(&self, tables: &[usize], limit: usize) -> (r: usize)
        ensures
            r == spec_coded_idx(self.view(), tables@, limit as int),
    {
        let mut i: usize = 0;
        while i < tables.len()
            invariant
                i <= tables@.len(),
                forall|k: int| 0 <= k < i ==> meta_rows(self.view(), tables@[k] as int) < limit,
            decreases tables.len() - i,
        {
            if self.rows(tables[i]) as usize >= limit {
                assert(meta_rows(self.view(), tables@[i as int] as int) >= limit);
                return 4;
            }
            i = i + 1;
        }
        2
    }

    /// Byte size of one row of metadata table `t`.
    fn row_size(&self, t: usize) -> (r: usize)
        ensures
            r == spec_row_size(self.view(), t as int),
    {
        let s = self.s_idx();
        let b = self.b_idx();
        let g = self.g_idx();
        let u2: usize = 2;
        let u4: usize = 4;
        let mut all_tables: Vec<usize> = Vec::new();
        let mut k: usize = 0;
        while k < 0x28
            invariant
                k <= 0x28,
                all_tables@.len() == k,
                forall|j: int| 0 <= j < k ==> all_tables@[j] == j,
            decreases 0x28 - k,
        {
            all_tables.push(k);
            k = k + 1;
        }
        assert(all_tables@ =~= has_custom_attribute_tables());
        let t1 = [0x01usize, 0x02, 0x1B];
        assert(t1@ =~= seq![0x01usize, 0x02, 0x1B]);
        let type_deforef = self.coded_idx(&t1, 0x4000);
        let has_ca = self.coded_idx(all_tables.as_slice(), 0x800);
        let ca_type = self.coded_idx(&[0x06, 0x0A], 0x2000);
        let has_const = self.coded_idx(&[0x04, 0x08, 0x17], 0x4000);
        let has_field_m = self.coded_idx(&[0x04, 0x08, 0x17], 0x4000);
        let has_decl = self.coded_idx(&[0x01, 0x02, 0x06, 0x08, 0x10, 0x11, 0x14, 0x17, 0x20, 0x23], 0x4000);
        let member_ref_p = self.coded_idx(&[0x00, 0x01, 0x02, 0x1A, 0x1B], 0x2000);
        let meth_deforef = self.coded_idx(&[0x06, 0x0A], 0x8000);
        let member_fwd = self.coded_idx(&[0x04, 0x06], 0x8000);
        let has_sem = self.coded_idx(&[0x14, 0x17], 0x8000);
        let resolution_sc = self.coded_idx(&[0x00, 0x01, 0x1A, 0x23], 0x4000);
        match t {
            0x00 => u2 + s + g + g + g,
            0x01 => resolution_sc + s + s,
            0x02 => u4 + s + s + type_deforef + self.simple_idx(0x04) + self.simple_idx(0x06),
            0x03 => self.simple_idx(0x04),
            0x04 => u2 + s + b,
            0x05 => self.simple_idx(0x06),
            0x06 => u4 + u2 + u2 + s + b + self.simple_idx(0x08),
            0x07 => self.simple_idx(0x08),
            0x08 => u2 + u2 + s,
            0x09 => self.simple_idx(0x02) + type_deforef,
            0x0A => member_ref_p + s + b,
            0x0B => u2 + has_const + b,
            0x0C => has_ca + ca_type + b,
            0x0D => has_field_m + b,
            0x0E => u2 + has_decl + b,
            0x0F => u2 + u4 + self.simple_idx(0x02),
            0x10 => u4 + self.simple_idx(0x04),
            0x11 => b,
            0x12 => self.simple_idx(0x02) + self.simple_idx(0x14),
            0x13 => self.simple_idx(0x14),
            0x14 => u2 + s + type_deforef,
            0x15 => self.simple_idx(0x02) + self.simple_idx(0x17),
            0x16 => self.simple_idx(0x17),
            0x17 => u2 + s + b,
            0x18 => u2 + self.simple_idx(0x06) + has_sem,
            0x19 => self.simple_idx(0x02) + meth_deforef + meth_deforef,
            0x1A => s,
            0x1B => b,
            0x1C => u2 + member_fwd + s + self.simple_idx(0x1A),
            0x1D => u4 + self.simple_idx(0x04),
            0x1E => u4 + u4,
            0x1F => u4,
            0x20 => u4 + u2 + u2 + u2 + u2 + u4 + b + s + s,
            0x21 => u4,
            0x22 => u4 + u4 + u4,
            0x23 => u2 + u2 + u2 + u2 + u4 + b + s + s + b,
            _ => 0,
        }
    }
}

} // verus!

verus! {

/// The characters of each string, in order.
pub open spec fn strings_view(v: Seq<String>) -> Seq<Seq<char>> {
    v.map_values(|s: String| s@)
}

/// The `#Strings` heap entry named by the string index at `off` of `tb`: its
/// bytes up to the first NUL (or the heap's end), lossily decoded.
pub open spec fn spec_read_string_at(m: CliMetadata, tb: Seq<u8>, off: int) -> Option<Seq<char>> {
    let idx: Option<int> = if m.strings_wide {
        match spec_read_u32(tb, off) {
            Some(v) => Some(v as int),
            None => None,
        }
    } else {
        match spec_read_u16(tb, off) {
            Some(v) => Some(v as int),
            None => None,
        }
    };
    match idx {
        None => None,
        Some(i) => if i >= m.strings.len() {
            None
        } else {
            let end = match first_zero(m.strings, i) {
                Some(e) => e,
                None => m.strings.len() as int,
            };
            Some(crate::text::utf8_lossy(m.strings.subrange(i, end)))
        },
    }
}

/// Total byte size of the rows of tables `0 .. t`.
pub open spec fn bytes_before(m: CliMetadata, t: int) -> int
    decreases t,
{
    if t <= 0 {
        0
    } else {
        bytes_before(m, t - 1) + meta_rows(m, t - 1) * spec_row_size(m, t - 1)
    }
}

/// The non-empty names of AssemblyRef rows `i .. count` (rows of `rs` bytes
/// from position `base` of the table stream, name column at `col`), stopping
/// at the first row whose name index runs past the stream.
pub open spec fn asm_names(m: CliMetadata, base: int, rs: int, col: int, count: int, i: int) -> Seq<Seq<char>>
    decreases count - i,
{
    if i >= count {
        Seq::empty()
    } else {
        let row = base + i * rs;
        if row + col + heap_idx(m.strings_wide) > m.tables.len() {
            Seq::empty()
        } else {
            let rest = asm_names(m, base, rs, col, count, i + 1);
            match spec_read_string_at(m, m.tables, row + col) {
                Some(n) => if n.len() > 0 {
                    seq![n] + rest
                } else {
                    rest
                },
                None => rest,
            }
        }
    }
}

/// Names of the assemblies referenced by the AssemblyRef table (0x23) of a
/// PE image, in row order; empty when the metadata cannot be read.
pub open spec fn spec_assembly_refs(data: Seq<u8>) -> Seq<Seq<char>> {
    match spec_meta_parse(data) {
        None => Seq::empty(),
        Some(m) => {
            let count = meta_rows(m, 0x23);
            if count == 0 {
                Seq::empty()
            } else {
                asm_names(m, m.table_data_start + bytes_before(m, 0x23), spec_row_size(m, 0x23), 12 + heap_idx(m.blob_wide), count, 0)
            }
        },
    }
}

impl<'a> MetaContext<'a> {
    /// Reads a `#Strings` heap index (2 or 4 bytes) at `offset` of
    /// `table_bytes` and returns the heap string it names.
    fn read_string_at(&self, table_bytes: &[u8], offset: usize) -> (r: Option<String>)
        ensures
            match r {
                Some(s) => spec_read_string_at(self.view(), table_bytes@, offset as int) == Some(s@),
                None => spec_read_string_at(self.view(), table_bytes@, offset as int) is None,
            },
    {
        let idx: usize = if self.strings_wide {
            match read_u32(table_bytes, offset) {
                Some(v) => v as usize,
                None => return None,
            }
        } else {
            match read_u16(table_bytes, offset) {
                Some(v) => v as usize,
                None => return None,
            }
        };
        if idx >= self.strings_data.len() {
            return None;
        }
        let mut end = idx;
        while end < self.strings_data.len() && self.strings_data[end] != 0
            invariant
                idx <= end <= self.strings_data@.len(),
                first_zero(self.strings_data@, idx as int) == first_zero(self.strings_data@, end as int),
            decreases self.strings_data.len() - end,
        {
            end = end + 1;
        }
        let bytes = vstd::slice::slice_subrange(self.strings_data, idx, end);
        Some(crate::text::lossy_string(bytes))
    }
}

proof fn lemma_row_size_positive(m: CliMetadata, t: int)
    requires
        0 <= t <= 0x23,
    ensures
        2 <= spec_row_size(m, t) <= 64,
{
}

proof fn lemma_bytes_before_bound(m: CliMetadata, t: int)
    requires
        0 <= t <= 0x23,
    ensures
        0 <= bytes_before(m, t) <= t * 0x40_0000_0000,
    decreases t,
{
    if t > 0 {
        lemma_bytes_before_bound(m, t - 1);
        lemma_row_size_positive(m, t - 1);
        let r = meta_rows(m, t - 1);
        let z = spec_row_size(m, t - 1);
        assert(0 <= r * z <= 0x40_0000_0000) by (nonlinear_arith)
            requires
                0 <= r < 0x1_0000_0000,
                0 <= z <= 64,
        ;
    }
}

/// Reads the names in the AssemblyRef table, skipping empty ones.
fn extract_assembly_refs(data: &[u8]) -> (r: Vec<String>)
    ensures
        strings_view(r@) == spec_assembly_refs(data@),
{
    let ctx = match MetaContext::parse(data) {
        Some(c) => c,
        None => return Vec::new(),
    };
    let ghost m = ctx.view();
    let asmref_count = ctx.rows(0x23) as usize;
    if asmref_count == 0 {
        return Vec::new();
    }
    let mut byte_offset: u128 = ctx.table_data_start as u128;
    let mut t: usize = 0;
    while t < 0x23
        invariant
            t <= 0x23,
            m == ctx.view(),
            byte_offset == m.table_data_start + bytes_before(m, t as int),
            m.table_data_start <= usize::MAX,
        decreases 0x23 - t,
    {
        proof {
            lemma_bytes_before_bound(m, t as int);
            lemma_row_size_positive(m, t as int);
        }
        let rows = ctx.rows(t) as usize;
        if rows > 0 {
            let rs = ctx.row_size(t);
            if rs == 0 {
                return Vec::new();
            }
            assert(0 <= rows * rs <= 0x40_0000_0000) by (nonlinear_arith)
                requires
                    0 <= rows < 0x1_0000_0000,
                    0 <= rs <= 64,
            ;
            byte_offset = byte_offset + (rows as u128) * (rs as u128);
        } else {
            let ghost z = spec_row_size(m, t as int);
            assert(meta_rows(m, t as int) == 0);
            assert(meta_rows(m, t as int) * z == 0) by (nonlinear_arith)
                requires
                    meta_rows(m, t as int) == 0,
            ;
        }
        t = t + 1;
    }
    proof {
        lemma_bytes_before_bound(m, 0x23);
        lemma_row_size_positive(m, 0x23);
    }
    let asmref_row_size = ctx.row_size(0x23);
    if asmref_row_size == 0 {
        return Vec::new();
    }
    let name_col_offset = 12 + ctx.b_idx();
    let s_width = ctx.s_idx();
    let tables_len = ctx.tables.len() as u128;
    let mut deps: Vec<String> = Vec::new();
    let mut i: usize = 0;
    while i < asmref_count
        invariant
            i <= asmref_count,
            m == ctx.view(),
            asmref_count == meta_rows(m, 0x23),
            tables_len == m.tables.len(),
            tables_len <= usize::MAX,
            byte_offset == m.table_data_start + bytes_before(m, 0x23),
            byte_offset <= 0x1_0000_0000_0000_0000 + 0x23 * 0x40_0000_0000,
            2 <= asmref_row_size <= 64,
            asmref_row_size == spec_row_size(m, 0x23),
            name_col_offset == 12 + heap_idx(m.blob_wide),
            s_width == heap_idx(m.strings_wide),
            spec_assembly_refs(data@) == strings_view(deps@) + asm_names(m, byte_offset as int, asmref_row_size as int, name_col_offset as int, asmref_count as int, i as int),
        ensures
            spec_assembly_refs(data@) == strings_view(deps@),
        decreases asmref_count - i,
    {
        assert(0 <= i * asmref_row_size <= 0x40_0000_0000) by (nonlinear_arith)
            requires
                0 <= i < 0x1_0000_0000,
                0 <= asmref_row_size <= 64,
        ;
        let row_off: u128 = byte_offset + (i as u128) * (asmref_row_size as u128);
        if row_off + name_col_offset as u128 + s_width as u128 > tables_len {
            assert(strings_view(deps@) + Seq::<Seq<char>>::empty() =~= strings_view(deps@));
            break;
        }
        let ghost before = deps@;
        let ghost rest = asm_names(m, byte_offset as int, asmref_row_size as int, name_col_offset as int, asmref_count as int, i + 1);
        match ctx.read_string_at(ctx.tables, (row_off + name_col_offset as u128) as usize) {
            Some(name) => {
                if !name.as_str().is_empty() {
                    deps.push(name);
                    assert(strings_view(deps@) =~= strings_view(before) + seq![name@]);
                    assert(strings_view(before) + (seq![name@] + rest) =~= strings_view(deps@) + rest);
                }
            },
            None => {},
        }
        i = i + 1;
    }
    deps
}

} // verus!

verus! {

/// A .NET compressed unsigned integer at `pos` (ECMA-335 II.23.2): one byte
/// below 0x80, two bytes 10xxxxxx, four bytes 110xxxxx; the result is
/// (value, bytes used), or (0, 0) when it is malformed or runs past the end.
pub open spec fn spec_compressed_uint(s: Seq<u8>, pos: int) -> (int, int) {
    if pos < 0 || pos >= s.len() {
        (0, 0)
    } else {
        let b0 = s[pos] as int;
        if b0 < 0x80 {
            (b0, 1)
        } else if b0 < 0xC0 {
            if pos + 1 >= s.len() {
                (0, 0)
            } else {
                ((b0 - 0x80) * 0x100 + s[pos + 1], 2)
            }
        } else if b0 < 0xE0 {
            if pos + 3 >= s.len() {
                (0, 0)
            } else {
                ((b0 - 0xC0) * 0x100_0000 + s[pos + 1] * 0x1_0000 + s[pos + 2] * 0x100 + s[pos + 3], 4)
            }
        } else {
            (0, 0)
        }
    }
}

/// Decodes a .NET compressed unsigned integer; returns (value, bytes used),
/// or (0, 0) on error.
pub fn read_compressed_uint(data: &[u8], pos: usize) -> (r: (usize, usize))
    ensures
        (r.0 as int, r.1 as int) == spec_compressed_uint(data@, pos as int),
{
    if pos >= data.len() {
        return (0, 0);
    }
    let b0 = data[pos] as usize;
    if b0 < 0x80 {
        (b0, 1)
    } else if b0 < 0xC0 {
        if data.len() - pos <= 1 {
            return (0, 0);
        }
        ((b0 - 0x80) * 0x100 + data[pos + 1] as usize, 2)
    } else if b0 < 0xE0 {
        if data.len() - pos <= 3 {
            return (0, 0);
        }
        let b1 = data[pos + 1] as usize;
        let b2 = data[pos + 2] as usize;
        let b3 = data[pos + 3] as usize;
        ((b0 - 0xC0) * 0x100_0000 + b1 * 0x1_0000 + b2 * 0x100 + b3, 4)
    } else {
        (0, 0)
    }
}

/// A length-prefixed string of a custom-attribute blob at `pos`, with the
/// number of bytes it takes; a lone 0xFF is the null string.
pub open spec fn spec_try_read_string(s: Seq<u8>, pos: int) -> Option<(Seq<char>, int)> {
    if pos < 0 || pos >= s.len() {
        None
    } else if s[pos] == 0xFF {
        Some((Seq::empty(), 1))
    } else {
        let (n, p) = spec_compressed_uint(s, pos);
        if p == 0 || pos + p + n > s.len() {
            None
        } else {
            Some((crate::text::utf8_lossy(s.subrange(pos + p, pos + p + n)), p + n))
        }
    }
}

/// Reads a compressed-length-prefixed UTF-8 string; returns the string and
/// the bytes consumed.
fn try_read_string(data: &[u8], pos: usize) -> (r: Option<(String, usize)>)
    ensures
        match r {
            Some((st, k)) => spec_try_read_string(data@, pos as int) == Some((st@, k as int)),
            None => spec_try_read_string(data@, pos as int) is None,
        },
{
    if pos >= data.len() {
        return None;
    }
    if data[pos] == 0xFF {
        return Some((String::new(), 1));
    }
    let (len, prefix) = read_compressed_uint(data, pos);
    if prefix == 0 {
        return None;
    }
    let str_start = pos + prefix;
    if len > data.len() - str_start {
        return None;
    }
    let str_end = str_start + len;
    let s = crate::text::lossy_string(vstd::slice::slice_subrange(data, str_start, str_end));
    Some((s, prefix + len))
}

/// The text fields of a MelonInfo attribute.
pub struct MelonFields {
    pub name: Seq<char>,
    pub version: Seq<char>,
    pub author: Seq<char>,
}

/// Name and version look like a real MelonInfo: a name of 1 to 128 bytes with
/// no control characters, a version of 1 to 32 bytes holding a digit.
pub open spec fn plausible_melon_info(name: Seq<char>, version: Seq<char>) -> bool {
    &&& name.len() > 0
    &&& str_byte_len(name) <= 128
    &&& version.len() > 0
    &&& str_byte_len(version) <= 32
    &&& exists|i: int| 0 <= i < version.len() && '0' <= #[trigger] version[i] <= '9'
    &&& forall|i: int| 0 <= i < name.len() ==> #[trigger] name[i] >= ' ' && name[i] != '\0'
}

/// A custom-attribute value blob read as
/// MelonInfo(Type type, string name, string version, string author):
/// after the two-byte prolog come the type name, then name, version and an
/// optional author, each a length-prefixed string.
pub open spec fn spec_parse_melon_blob(b: Seq<u8>) -> Option<MelonFields> {
    match spec_try_read_string(b, 2) {
        None => None,
        Some((_, k1)) => {
            let p1 = 2 + k1;
            if p1 >= b.len() {
                None
            } else {
                match spec_try_read_string(b, p1) {
                    None => None,
                    Some((name, k2)) => {
                        let p2 = p1 + k2;
                        if p2 >= b.len() {
                            None
                        } else {
                            match spec_try_read_string(b, p2) {
                                None => None,
                                Some((version, k3)) => {
                                    let p3 = p2 + k3;
                                    let author = if p3 < b.len() {
                                        match spec_try_read_string(b, p3) {
                                            Some((a, _)) => a,
                                            None => Seq::empty(),
                                        }
                                    } else {
                                        Seq::empty()
                                    };
                                    if plausible_melon_info(name, version) {
                                        Some(MelonFields { name, version, author })
                                    } else {
                                        None
                                    }
                                },
                            }
                        }
                    },
                }
            }
        },
    }
}

} // verus!

verus! {

/// Name, version and author from a mod's MelonInfo attribute.
#[derive(Debug, Clone)]
pub struct MelonInfo {
    pub name: String,
    pub version: String,
    pub author: String,
}

impl MelonInfo {
    pub open spec fn fields(&self) -> MelonFields {
        MelonFields { name: self.name@, version: self.version@, author: self.author@ }
    }
}

/// Whether `s` holds an ASCII digit.
fn has_ascii_digit(s: &str) -> (r: bool)
    ensures
        r == exists|i: int| 0 <= i < s@.len() && '0' <= #[trigger] s@[i] <= '9',
{
    let cs = crate::text::chars_of(s);
    let mut i: usize = 0;
    while i < cs.len()
        invariant
            cs@ == s@,
            i <= cs.len(),
            forall|j: int| 0 <= j < i ==> !('0' <= #[trigger] s@[j] <= '9'),
        decreases cs.len() - i,
    {
        if cs[i] >= '0' && cs[i] <= '9' {
            assert('0' <= s@[i as int] <= '9');
            return true;
        }
        i = i + 1;
    }
    false
}

/// Whether every character of `s` is at least a space (no control characters).
fn all_printable(s: &str) -> (r: bool)
    ensures
        r == forall|i: int| 0 <= i < s@.len() ==> #[trigger] s@[i] >= ' ' && s@[i] != '\0',
{
    let cs = crate::text::chars_of(s);
    let mut i: usize = 0;
    while i < cs.len()
        invariant
            cs@ == s@,
            i <= cs.len(),
            forall|j: int| 0 <= j < i ==> #[trigger] s@[j] >= ' ' && s@[j] != '\0',
        decreases cs.len() - i,
    {
        if !(cs[i] >= ' ' && cs[i] != '\0') {
            return false;
        }
        i = i + 1;
    }
    true
}

/// Parses a blob as MelonInfo(Type, name, version, author).
fn try_parse_melon_blob(blob: &[u8]) -> (r: Option<MelonInfo>)
    ensures
        match r {
            Some(info) => spec_parse_melon_blob(blob@) == Some(info.fields()),
            None => spec_parse_melon_blob(blob@) is None,
        },
{
    let mut pos: usize = 2;
    let (_, skip) = match try_read_string(blob, pos) {
        Some(x) => x,
        None => return None,
    };
    pos = pos + skip;
    if pos >= blob.len() {
        return None;
    }
    let (name, skip) = match try_read_string(blob, pos) {
        Some(x) => x,
        None => return None,
    };
    pos = pos + skip;
    if pos >= blob.len() {
        return None;
    }
    let (version, skip) = match try_read_string(blob, pos) {
        Some(x) => x,
        None => return None,
    };
    pos = pos + skip;
    let author = if pos < blob.len() {
        match try_read_string(blob, pos) {
            Some((a, _)) => a,
            None => String::new(),
        }
    } else {
        String::new()
    };
    if name.as_str().is_empty() || name.as_str().len() > 128 {
        return None;
    }
    if version.as_str().is_empty() || version.as_str().len() > 32 {
        return None;
    }
    if !has_ascii_digit(version.as_str()) {
        return None;
    }
    if !all_printable(name.as_str()) {
        return None;
    }
    Some(MelonInfo { name, version, author })
}

} // verus!

verus! {

proof fn lemma_compressed_uint_range(s: Seq<u8>, pos: int)
    ensures
        0 <= spec_compressed_uint(s, pos).0,
        0 <= spec_compressed_uint(s, pos).1 <= 4,
{
}

/// Scans the `#Blob` heap from position `i` for the first blob that has the
/// custom-attribute prolog 01 00, is at least six bytes long and reads as a
/// plausible MelonInfo. Entries whose length prefix is zero, malformed or runs
/// past the heap are stepped over one byte at a time; otherwise the scan
/// continues after the blob.
pub open spec fn spec_scan_blobs(b: Seq<u8>, i: int) -> Option<MelonFields>
    decreases b.len() - i,
{
    if i < 0 || i + 4 >= b.len() {
        None
    } else {
        let (n, p) = spec_compressed_uint(b, i);
        if n <= 0 || p <= 0 || i + p + n > b.len() {
            spec_scan_blobs(b, i + 1)
        } else {
            let blob = b.subrange(i + p, i + p + n);
            let hit = if blob.len() >= 6 && blob[0] == 0x01 && blob[1] == 0x00 {
                spec_parse_melon_blob(blob)
            } else {
                None
            };
            match hit {
                Some(f) => Some(f),
                None => spec_scan_blobs(b, i + p + n),
            }
        }
    }
}

/// Scans a `#Blob` heap for a custom-attribute value blob shaped like
/// MelonInfoAttribute(Type, name, version, author).
fn scan_blob_for_melon_info(blobs: &[u8]) -> (r: Option<MelonInfo>)
    ensures
        match r {
            Some(info) => spec_scan_blobs(blobs@, 0) == Some(info.fields()),
            None => spec_scan_blobs(blobs@, 0) is None,
        },
{
    let mut i: usize = 0;
    while i < blobs.len() && blobs.len() - i > 4
        invariant
            i <= blobs@.len(),
            spec_scan_blobs(blobs@, 0) == spec_scan_blobs(blobs@, i as int),
        decreases blobs.len() - i,
    {
        proof {
            lemma_compressed_uint_range(blobs@, i as int);
        }
        let (blob_data_len, prefix_bytes) = read_compressed_uint(blobs, i);
        if blob_data_len == 0 || prefix_bytes == 0 {
            i = i + 1;
            continue;
        }
        let data_start = i + prefix_bytes;
        if blob_data_len > blobs.len() - data_start {
            i = i + 1;
            continue;
        }
        let data_end = data_start + blob_data_len;
        let blob = vstd::slice::slice_subrange(blobs, data_start, data_end);
        if blob.len() >= 6 && blob[0] == 0x01 && blob[1] == 0x00 {
            if let Some(info) = try_parse_melon_blob(blob) {
                return Some(info);
            }
        }
        i = data_end;
    }
    None
}

/// The bytes of "MelonInfo", the attribute name that marks a MelonLoader mod.
pub open spec fn melon_marker() -> Seq<u8> {
    seq![0x4Du8, 0x65, 0x6C, 0x6F, 0x6E, 0x49, 0x6E, 0x66, 0x6F]
}

/// The MelonInfo attribute of a mod DLL: the metadata must be readable and
/// its `#Strings` heap must name "MelonInfo"; the fields are those of the
/// first plausible attribute blob of the `#Blob` heap.
pub open spec fn spec_extract_melon_info(data: Seq<u8>) -> Option<MelonFields> {
    match spec_meta_parse(data) {
        None => None,
        Some(m) => if crate::text::contains_seq(m.strings, melon_marker()) {
            spec_scan_blobs(m.blobs, 0)
        } else {
            None
        },
    }
}

/// Extracts the MelonInfo attribute (name, version, author) from raw DLL bytes.
pub fn extract_melon_info(data: &[u8]) -> (r: Option<MelonInfo>)
    ensures
        match r {
            Some(info) => spec_extract_melon_info(data@) == Some(info.fields()),
            None => spec_extract_melon_info(data@) is None,
        },
{
    let ctx = match MetaContext::parse(data) {
        Some(c) => c,
        None => return None,
    };
    let marker: [u8; 9] = [0x4D, 0x65, 0x6C, 0x6F, 0x6E, 0x49, 0x6E, 0x66, 0x6F];
    assert(marker@ =~= melon_marker());
    let has_melon = crate::text::bytes_contain(ctx.strings_data, &marker);
    if !has_melon {
        return None;
    }
    scan_blob_for_melon_info(ctx.blobs)
}

} // verus!

verus! {

/// Framework, Unity and MelonLoader assemblies that are never mods and are
/// left out of a mod's dependencies.
pub open spec fn skip_assemblies() -> Seq<Seq<char>> {
    seq![
        "mscorlib"@, "netstandard"@, "System"@, "System.Core"@, "System.Xml"@,
        "System.Runtime"@, "System.Collections"@, "System.Linq"@, "System.Text"@,
        "System.IO"@, "System.Reflection"@, "System.Threading"@, "System.Memory"@,
        "System.Buffers"@, "System.Numerics"@, "System.ComponentModel"@,
        "System.Diagnostics"@, "System.Net"@, "System.Security"@,
        "Microsoft"@, "Windows"@,
        "UnityEngine"@, "Unity"@,
        "Assembly-CSharp"@, "Assembly-CSharp-firstpass"@,
        "MelonLoader"@, "0Harmony"@, "Harmony"@, "MonoMod"@,
        "Il2Cppmscorlib"@, "Il2CppSystem"@, "Il2CppInterop"@,
        "Newtonsoft.Json"@, "HarmonyXInterop"@
    ]
}

fn skip_assembly_list() -> (v: Vec<&'static str>)
    ensures
        v@.map_values(|s: &str| s@) == skip_assemblies(),
{
    let v = vec![
        "mscorlib", "netstandard", "System", "System.Core", "System.Xml",
        "System.Runtime", "System.Collections", "System.Linq", "System.Text",
        "System.IO", "System.Reflection", "System.Threading", "System.Memory",
        "System.Buffers", "System.Numerics", "System.ComponentModel",
        "System.Diagnostics", "System.Net", "System.Security",
        "Microsoft", "Windows",
        "UnityEngine", "Unity",
        "Assembly-CSharp", "Assembly-CSharp-firstpass",
        "MelonLoader", "0Harmony", "Harmony", "MonoMod",
        "Il2Cppmscorlib", "Il2CppSystem", "Il2CppInterop",
        "Newtonsoft.Json", "HarmonyXInterop",
    ];
    assert(v@.map_values(|s: &str| s@) =~= skip_assemblies());
    v
}

/// A lowercased assembly name `l` is the lowercased skip entry `s`, or a
/// sub-assembly ("s.") or a qualified name ("s,") of it.
pub open spec fn skip_entry_matches(l: Seq<char>, s: Seq<char>) -> bool {
    l == s || crate::text::starts_with(l, s.push('.')) || crate::text::starts_with(l, s.push(','))
}

/// Whether an assembly is a framework / engine / loader assembly, compared
/// case-insensitively (Unicode lowercase) against the skip list.
pub open spec fn spec_should_skip(name: Seq<char>) -> bool {
    exists|k: int|
        0 <= k < skip_assemblies().len() && skip_entry_matches(
            crate::text::unicode_lowercase(name),
            crate::text::unicode_lowercase(#[trigger] skip_assemblies()[k]),
        )
}

/// Whether `name` is a framework, Unity or MelonLoader assembly.
pub fn should_skip(name: &str) -> (r: bool)
    ensures
        r == spec_should_skip(name@),
{
    let lower = crate::text::chars_of(crate::text::to_lowercase(name).as_str());
    let list = skip_assembly_list();
    let mut k: usize = 0;
    while k < list.len()
        invariant
            k <= list@.len(),
            list@.map_values(|s: &str| s@) == skip_assemblies(),
            lower@ == crate::text::unicode_lowercase(name@),
            forall|j: int| 0 <= j < k ==> !skip_entry_matches(lower@, crate::text::unicode_lowercase(#[trigger] skip_assemblies()[j])),
        decreases list.len() - k,
    {
        let skip_lower = crate::text::to_lowercase(list[k]);
        let s = crate::text::chars_of(skip_lower.as_str());
        assert(s@ == crate::text::unicode_lowercase(skip_assemblies()[k as int]));
        let mut dotted = crate::text::chars_of(skip_lower.as_str());
        dotted.push('.');
        let mut comma = crate::text::chars_of(skip_lower.as_str());
        comma.push(',');
        let same = s.len() == lower.len() && crate::text::chars_match_at(lower.as_slice(), s.as_slice(), 0);
        proof {
            if s.len() == lower.len() {
                if crate::text::occurs_at(lower@, s@, 0) {
                    assert(lower@ =~= lower@.subrange(0, s@.len() as int));
                }
            }
            if lower@ == s@ {
                assert(lower@.subrange(0, s@.len() as int) =~= s@);
            }
        }
        if same || crate::text::chars_match_at(lower.as_slice(), dotted.as_slice(), 0)
            || crate::text::chars_match_at(lower.as_slice(), comma.as_slice(), 0)
        {
            assert(skip_entry_matches(lower@, crate::text::unicode_lowercase(skip_assemblies()[k as int])));
            return true;
        }
        k = k + 1;
    }
    false
}

/// Non-system assembly dependencies of a mod: the names in its AssemblyRef
/// table, in order, without the framework / engine / loader assemblies.
pub fn extract_additional_deps(data: &[u8]) -> (r: Vec<String>)
    ensures
        strings_view(r@) == spec_additional_deps(data@),
{
    let refs = extract_assembly_refs(data);
    let ghost all = strings_view(refs@);
    let ghost pred = |n: Seq<char>| !spec_should_skip(n);
    let mut out: Vec<String> = Vec::new();
    let mut i: usize = 0;
    while i < refs.len()
        invariant
            i <= refs@.len(),
            all == strings_view(refs@),
            pred == (|n: Seq<char>| !spec_should_skip(n)),
            strings_view(out@) == all.take(i as int).filter(pred),
        decreases refs.len() - i,
    {
        let name = refs[i].clone();
        assert(all.take(i + 1).drop_last() =~= all.take(i as int));
        reveal_with_fuel(Seq::filter, 1);
        if !should_skip(name.as_str()) {
            let ghost before = out@;
            out.push(name);
            assert(strings_view(out@) =~= strings_view(before).push(name@));
        }
        i = i + 1;
    }
    assert(all.take(refs@.len() as int) =~= all);
    out
}

} // verus!

verus! {

/// The dependencies reported for a mod: its assembly references that are
/// not framework, engine or loader assemblies, in order.
pub open spec fn spec_additional_deps(data: Seq<u8>) -> Seq<Seq<char>> {
    spec_assembly_refs(data).filter(|n: Seq<char>| !spec_should_skip(n))
}

/// Every dependency reported for a mod is one of the assemblies it
/// references, and none is a framework, engine or loader assembly.
pub proof fn law_deps_are_foreign_refs(data: Seq<u8>)
    ensures
        forall|i: int|
            0 <= i < spec_additional_deps(data).len() ==> !spec_should_skip(#[trigger] spec_additional_deps(data)[i])
                && spec_assembly_refs(data).contains(spec_additional_deps(data)[i]),
{
    let refs = spec_assembly_refs(data);
    let pred = |n: Seq<char>| !spec_should_skip(n);
    assert forall|i: int| 0 <= i < spec_additional_deps(data).len() implies !spec_should_skip(
        #[trigger] spec_additional_deps(data)[i],
    ) && refs.contains(spec_additional_deps(data)[i]) by {
        refs.lemma_filter_pred(pred, i);
        let d = refs.filter(pred)[i];
        assert(refs.filter(pred).contains(d));
        refs.lemma_filter_contains_rev(pred, d);
    }
}

} // verus!

verus! {

/// The CLI metadata root is found only in a PE image: the file starts with
/// "MZ", the "PE\0\0" signature stands where offset 60 points, the optional
/// header's magic is PE32 (0x10B) or PE32+ (0x20B), the CLR entry of the data
/// directory is non-zero, and the root is the file position of the metadata
/// RVA held 8 bytes into the CLR header.
pub proof fn law_cli_metadata_needs_pe_image(s: Seq<u8>)
    ensures
        spec_find_cli_metadata(s) matches Some(o) ==> {
            let pe = le32(s, 60) as int;
            let magic = le16(s, pe + 24);
            let dir = if magic == 0x010B { pe + 24 + 96 + 14 * 8 } else { pe + 24 + 112 + 14 * 8 };
            &&& s.len() >= 64 && s[0] == 0x4D && s[1] == 0x5A
            &&& fits(s, pe, 4) && s.subrange(pe, pe + 4) == pe_signature()
            &&& magic == 0x010B || magic == 0x020B
            &&& le32(s, dir) != 0
            &&& spec_rva_to_file_offset(s, pe, le32(s, dir) as int) matches Some(clr)
                && Some(o) == spec_rva_to_file_offset(s, pe, le32(s, clr + 8) as int)
        },
{
}

/// Section `k` of the section table at `table` lies inside `s` and its
/// virtual range holds `rva`.
pub open spec fn section_holds(s: Seq<u8>, table: int, k: int, rva: int) -> bool {
    let sec = table + 40 * k;
    fits(s, sec, 40) && le32(s, sec + 12) <= rva < le32(s, sec + 12) + le32(s, sec + 8)
}

/// The file position of `rva` through section `k`.
pub open spec fn section_position(s: Seq<u8>, table: int, k: int, rva: int) -> int {
    let sec = table + 40 * k;
    le32(s, sec + 20) + (rva - le32(s, sec + 12))
}

/// Section `k` is the first of sections `i..n` that holds `rva`, every
/// header before it lying inside `s`.
pub open spec fn first_section_hit(s: Seq<u8>, table: int, n: int, i: int, k: int, rva: int) -> bool {
    &&& i <= k < n
    &&& section_holds(s, table, k, rva)
    &&& forall|j: int| i <= j < k ==> fits(s, table + 40 * j, 40) && !#[trigger] section_holds(s, table, j, rva)
}

proof fn lemma_section_lookup(s: Seq<u8>, table: int, n: int, i: int, rva: int)
    ensures
        section_lookup(s, table, n, i, rva) matches Some(o) ==> exists|k: int|
            #[trigger] first_section_hit(s, table, n, i, k, rva) && o == section_position(s, table, k, rva),
        forall|k: int|
            #[trigger] first_section_hit(s, table, n, i, k, rva) ==> section_lookup(s, table, n, i, rva) == Some(
                section_position(s, table, k, rva),
            ),
    decreases n - i,
{
    if i >= n {
    } else if !fits(s, table + 40 * i, 40) {
        assert forall|k: int| !#[trigger] first_section_hit(s, table, n, i, k, rva) by {
            if first_section_hit(s, table, n, i, k, rva) && k > i {
                assert(i <= k < n);
                assert(section_holds(s, table, k, rva));
                assert(i <= i < k);
                let hold_i = section_holds(s, table, i, rva);
                assert(!hold_i);
                assert(fits(s, table + 40 * i, 40));
            }
        }
    } else if section_holds(s, table, i, rva) {
        assert(first_section_hit(s, table, n, i, i, rva));
        assert forall|k: int| #[trigger] first_section_hit(s, table, n, i, k, rva) implies k == i by {
            if k > i {
                assert(!section_holds(s, table, i, rva));
            }
        }
    } else {
        lemma_section_lookup(s, table, n, i + 1, rva);
        if section_lookup(s, table, n, i, rva) is Some {
            let k = choose|k: int| #[trigger] first_section_hit(s, table, n, i + 1, k, rva)
                && section_lookup(s, table, n, i, rva)->0 == section_position(s, table, k, rva);
            assert(first_section_hit(s, table, n, i, k, rva));
        }
        assert forall|k: int| #[trigger] first_section_hit(s, table, n, i, k, rva) implies first_section_hit(
            s,
            table,
            n,
            i + 1,
            k,
            rva,
        ) by {
            assert(k != i);
        }
    }
}

/// An RVA maps through the first section whose virtual range holds it: the
/// result is that section's raw position plus the RVA's distance from the
/// section's virtual address, and there is no result when no section before
/// the first header that runs past the data holds it.
pub proof fn law_rva_first_section(s: Seq<u8>, pe: int, rva: int)
    ensures
        ({
            let coff = pe + 4;
            let table = coff + 20 + le16(s, coff + 16);
            let n = le16(s, coff + 2) as int;
            &&& spec_rva_to_file_offset(s, pe, rva) matches Some(o) ==> fits(s, coff, 20) && exists|k: int|
                #[trigger] first_section_hit(s, table, n, 0, k, rva) && o == section_position(s, table, k, rva)
            &&& forall|k: int|
                fits(s, coff, 20) && #[trigger] first_section_hit(s, table, n, 0, k, rva)
                    ==> spec_rva_to_file_offset(s, pe, rva) == Some(section_position(s, table, k, rva))
        }),
{
    let coff = pe + 4;
    lemma_section_lookup(s, coff + 20 + le16(s, coff + 16), le16(s, coff + 2) as int, 0, rva);
}

/// How many of bits `i..64` of `mask` are set.
pub open spec fn set_bits_from(mask: u64, i: int) -> nat
    decreases 64 - i,
{
    if i >= 64 {
        0
    } else {
        (if (mask >> (i as u64)) & 1u64 == 1u64 { 1nat } else { 0nat }) + set_bits_from(mask, i + 1)
    }
}

proof fn lemma_row_counts(t: Seq<u8>, mask: u64, i: int, pos: int)
    requires
        0 <= i <= 64,
        pos <= t.len(),
    ensures
        row_counts_from(t, mask, i, pos) matches Some((rows, end)) ==> {
            &&& rows.len() == 64 - i
            &&& end == pos + 4 * set_bits_from(mask, i)
            &&& end <= t.len()
            &&& forall|j: int| 0 <= j < rows.len() && (mask >> ((i + j) as u64)) & 1u64 != 1u64 ==> #[trigger] rows[j] == 0
        },
    decreases 64 - i,
{
    if i < 64 {
        let bit = (mask >> (i as u64)) & 1u64 == 1u64;
        let next = if bit { pos + 4 } else { pos };
        if !bit || fits(t, pos, 4) {
            lemma_row_counts(t, mask, i + 1, next);
            if let Some((rest, end)) = row_counts_from(t, mask, i + 1, next) {
                let (rows, _e) = row_counts_from(t, mask, i, pos)->0;
                assert forall|j: int| 0 <= j < rows.len() && (mask >> ((i + j) as u64)) & 1u64 != 1u64 implies #[trigger] rows[j] == 0 by {
                    if j > 0 {
                        assert(rows[j] == rest[j - 1]);
                        assert((i + 1) + (j - 1) == i + j);
                    }
                }
            }
        }
    }
}

/// The table stream's layout as read: the heap-width flags are bits 0
/// (strings), 2 (blobs) and 1 (GUIDs) of byte 6 of the table stream, the 64
/// row counts follow the 24-byte header, four bytes for each table whose bit
/// is set in the valid mask at byte 8 (absent tables count 0 rows), and the
/// table data starts right after them, inside the stream.
pub proof fn law_table_stream_layout(data: Seq<u8>)
    ensures
        spec_meta_parse(data) matches Some(c) ==> {
            let mask = le64(c.tables, 8) as u64;
            &&& c.tables.len() >= 24
            &&& c.strings_wide == (c.tables[6] & 0x01 != 0)
            &&& c.blob_wide == (c.tables[6] & 0x04 != 0)
            &&& c.guid_wide == (c.tables[6] & 0x02 != 0)
            &&& c.rows.len() == 64
            &&& c.table_data_start == 24 + 4 * set_bits_from(mask, 0)
            &&& c.table_data_start <= c.tables.len()
            &&& forall|j: int| 0 <= j < 64 && (mask >> (j as u64)) & 1u64 != 1u64 ==> #[trigger] c.rows[j] == 0
        },
{
    if let Some(c) = spec_meta_parse(data) {
        lemma_row_counts(c.tables, le64(c.tables, 8) as u64, 0, 24);
        let mask = le64(c.tables, 8) as u64;
        assert forall|j: int| 0 <= j < 64 && (mask >> (j as u64)) & 1u64 != 1u64 implies #[trigger] c.rows[j] == 0 by {
            assert(0 + j == j);
        }
    }
}

} // verus!

verus! {

proof fn lemma_scan_blobs_plausible(b: Seq<u8>, i: int)
    ensures
        spec_scan_blobs(b, i) matches Some(f) ==> plausible_melon_info(f.name, f.version),
    decreases b.len() - i,
{
    if !(i < 0 || i + 4 >= b.len()) {
        let (n, p) = spec_compressed_uint(b, i);
        lemma_compressed_uint_range(b, i);
        if n <= 0 || p <= 0 || i + p + n > b.len() {
            lemma_scan_blobs_plausible(b, i + 1);
        } else {
            lemma_scan_blobs_plausible(b, i + p + n);
        }
    }
}

/// A MelonInfo is only reported when it looks like a real one: a name of 1 to
/// 128 bytes without control characters, and a version of 1 to 32 bytes that
/// holds a digit.
pub proof fn law_melon_info_plausible(data: Seq<u8>)
    ensures
        spec_extract_melon_info(data) matches Some(f) ==> plausible_melon_info(f.name, f.version),
{
    if let Some(m) = spec_meta_parse(data) {
        lemma_scan_blobs_plausible(m.blobs, 0);
    }
}

} // verus!

verus! {

/// A short string as a custom-attribute argument: a one-byte length, then its
/// bytes.
pub open spec fn ser_short(s: Seq<u8>) -> Seq<u8> {
    seq![s.len() as u8] + s
}

proof fn lemma_read_short(b: Seq<u8>, pos: int, s: Seq<u8>)
    requires
        s.len() < 0x80,
        0 <= pos,
        pos + 1 + s.len() <= b.len(),
        b.subrange(pos, pos + 1 + s.len()) == ser_short(s),
    ensures
        spec_try_read_string(b, pos) == Some((crate::text::utf8_lossy(s), 1 + s.len() as int)),
{
    assert(b[pos] == ser_short(s)[0]);
    assert(b.subrange(pos + 1, pos + 1 + s.len()) =~= s) by {
        assert forall|i: int| 0 <= i < s.len() implies b.subrange(pos + 1, pos + 1 + s.len())[i] == s[i] by {
            assert(b[pos + 1 + i] == b.subrange(pos, pos + 1 + s.len())[1 + i]);
            assert(ser_short(s)[1 + i] == s[i]);
        }
    }
}

/// The MelonInfo attribute blob `01 00`, then the Type argument `t` and the
/// name, version and author strings, yields the name, version and author
/// (the second, third and fourth strings; the Type argument is skipped),
/// whenever name and version are plausible.
pub proof fn law_melon_blob_fields(t: Seq<u8>, n: Seq<u8>, v: Seq<u8>, a: Seq<u8>)
    requires
        t.len() < 0x80,
        n.len() < 0x80,
        v.len() < 0x80,
        a.len() < 0x80,
        plausible_melon_info(crate::text::utf8_lossy(n), crate::text::utf8_lossy(v)),
    ensures
        spec_parse_melon_blob(seq![0x01u8, 0x00u8] + ser_short(t) + ser_short(n) + ser_short(v) + ser_short(a))
            == Some(MelonFields {
                name: crate::text::utf8_lossy(n),
                version: crate::text::utf8_lossy(v),
                author: crate::text::utf8_lossy(a),
            }),
{
    let head = seq![0x01u8, 0x00u8];
    let b = head + ser_short(t) + ser_short(n) + ser_short(v) + ser_short(a);
    let p0: int = 2;
    let p1: int = p0 + 1 + t.len();
    let p2: int = p1 + 1 + n.len();
    let p3: int = p2 + 1 + v.len();
    assert(b.len() == p3 + 1 + a.len());
    assert(b.subrange(p0, p1) =~= ser_short(t));
    assert(b.subrange(p1, p2) =~= ser_short(n));
    assert(b.subrange(p2, p3) =~= ser_short(v));
    assert(b.subrange(p3, b.len() as int) =~= ser_short(a));
    lemma_read_short(b, p0, t);
    lemma_read_short(b, p1, n);
    lemma_read_short(b, p2, v);
    lemma_read_short(b, p3, a);
}

} // verus!
