//! PE32 images: what an image says of itself, loading it section by
//! section into memory, relocating a loaded image, and finding its HII
//! resource data. goblin parses the headers; scroll reads little-endian
//! values out of the bytes.
use vstd::prelude::*;
use vstd::string::{StrSliceExecFns, StringExecFns};
use scroll::Pread;
use goblin::pe::PE;
use goblin::pe::options::ParseOptions;
use goblin::pe::section_table::SectionTable;
use goblin::pe::optional_header::{OptionalHeader, WindowsFields};

verus! {

/// Why a PE32 image could not be parsed.
#[derive(Debug)]
pub enum PeParseError {
    /// goblin could not parse the image.
    Goblin,
    /// A size in the image is invalid.
    Malformed,
    /// The image is too short for what it says it holds; the offset reached.
    BufferTooShort(usize),
    /// A structure could not be read from the resource section.
    Scroll,
}

/// Errors of working with PE32 images.
#[derive(Debug)]
pub enum Pe32Error {
    /// The image could not be parsed.
    ParseError(PeParseError),
    /// The image has no optional header.
    NoOptionalHeader,
    /// The image could not be loaded into the buffer.
    LoadError,
    /// The loaded image could not be relocated.
    RelocationError,
}

/// What an image says of itself.
#[derive(Debug, PartialEq)]
pub struct Pe32ImageInfo {
    /// Offset of the entry point from the start of the image.
    pub entry_point_offset: usize,
    /// The subsystem (0xB for a boot service driver, ...).
    pub image_type: u16,
    /// The total size of the loaded image.
    pub size_of_image: u32,
    /// The alignment of the sections in memory.
    pub section_alignment: u32,
    /// The file name (`name.efi`), from the debug information.
    pub filename: Option<String>,
}

impl Pe32ImageInfo {
    /// Information with every field zero and no file name.
    pub fn new() -> (r: Self)
        ensures
            r.entry_point_offset == 0,
            r.image_type == 0,
            r.size_of_image == 0,
            r.section_alignment == 0,
            r.filename is None,
    {
        Pe32ImageInfo { entry_point_offset: 0, image_type: 0, size_of_image: 0, section_alignment: 0, filename: None }
    }
}

/// A section of an image, as its section table gives it.
#[derive(Debug, Clone, Copy)]
pub struct PeSection {
    /// The name, padded with NUL bytes.
    pub name: [u8; 8],
    /// Its size in memory.
    pub virtual_size: u32,
    /// Where it goes in memory, from the image base.
    pub virtual_address: u32,
    /// Its size in the file.
    pub size_of_raw_data: u32,
    /// Where it is in the file.
    pub pointer_to_raw_data: u32,
}

/// The fields of the optional header that are read here.
#[derive(Debug, Clone, Copy)]
pub struct PeHeaderFields {
    /// The subsystem.
    pub subsystem: u16,
    /// The size of the loaded image.
    pub size_of_image: u32,
    /// The alignment of sections in memory.
    pub section_alignment: u32,
    /// The size of the headers.
    pub size_of_headers: u32,
    /// The address the image is linked at.
    pub image_base: u64,
    /// Address and size of the base relocation table, where there is one.
    pub base_relocation_table: Option<(u32, u32)>,
}

/// What is read of a parsed image.
#[derive(Debug, Clone)]
pub struct PeSummary {
    /// Offset of the entry point.
    pub entry: usize,
    /// Offset of the PE header, from the DOS header.
    pub pe_pointer: u32,
    /// The optional header, where there is one.
    pub optional_header: Option<PeHeaderFields>,
    /// The file name of the CodeView (PDB 7.0) debug information, where there is one.
    pub pdb_filename: Option<Vec<u8>>,
    /// The sections, in the order of the section table.
    pub sections: Vec<PeSection>,
}

/// A parsed image as the contracts see it.
pub struct PeModel {
    /// Offset of the entry point.
    pub entry: usize,
    /// Offset of the PE header, from the DOS header.
    pub pe_pointer: u32,
    /// The optional header, where there is one.
    pub optional_header: Option<PeHeaderFields>,
    /// The file name of the debug information, where there is one.
    pub pdb_filename: Option<Seq<u8>>,
    /// The sections.
    pub sections: Seq<PeSection>,
}

impl View for PeSummary {
    type V = PeModel;

    open spec fn view(&self) -> PeModel {
        PeModel {
            entry: self.entry,
            pe_pointer: self.pe_pointer,
            optional_header: self.optional_header,
            pdb_filename: match self.pdb_filename {
                Some(v) => Some(v@),
                None => None,
            },
            sections: self.sections@,
        }
    }
}

/// What goblin's `PE::parse_with_opts` reads of an image, with RVAs
/// resolved and the attribute certificates parsed or not as
/// `certificates` says; `None` where it fails.
pub uninterp spec fn goblin_pe_parse(image: Seq<u8>, certificates: bool) -> Option<PeModel>;

/// Parses an image with `goblin::pe::PE::parse_with_opts` (RVAs resolved,
/// attribute certificates parsed where `certificates` is set; with it set
/// this is what `PE::parse` does) and keeps the fields read here; `None`
/// where goblin returns an error (which error is not kept). goblin's result
/// depends on the bytes and the options alone; it is named, not stated.
#[verifier::external_body]
fn parse_pe(image: &[u8], certificates: bool) -> (r: Option<PeSummary>)
    ensures
        r matches Some(p) ==> goblin_pe_parse(image@, certificates) == Some(p@),
        r is None ==> goblin_pe_parse(image@, certificates) is None,
{
    let PE { entry, header, sections, debug_data, .. } =
        PE::parse_with_opts(image, &ParseOptions { resolve_rva: true, parse_attribute_certificates: certificates }).ok()?;
    Some(PeSummary { entry, pe_pointer: header.dos_header.pe_pointer,
        sections: sections.iter().map(|&SectionTable { name, virtual_size, virtual_address, size_of_raw_data, pointer_to_raw_data, .. }|
            PeSection { name, virtual_size, virtual_address, size_of_raw_data, pointer_to_raw_data }).collect(),
        optional_header: header.optional_header.map(|OptionalHeader { windows_fields: WindowsFields { subsystem, size_of_image,
            section_alignment, size_of_headers, image_base, .. }, data_directories: d, .. }| PeHeaderFields { subsystem, size_of_image,
            section_alignment, size_of_headers, image_base, base_relocation_table: d.get_base_relocation_table().map(|t| (t.virtual_address, t.size)) }),
        pdb_filename: debug_data.and_then(|d| d.codeview_pdb70_debug_info).map(|c| c.filename.to_vec()) })
}

/// The four bytes at `off`, low byte first.
pub open spec fn le_u32(s: Seq<u8>, off: int) -> u32 {
    (s[off] + s[off + 1] * 0x100 + s[off + 2] * 0x10000 + s[off + 3] * 0x1000000) as u32
}

/// The two bytes at `off`, low byte first.
pub open spec fn le_u16(s: Seq<u8>, off: int) -> u16 {
    (s[off] + s[off + 1] * 0x100) as u16
}

/// Reads a `u32` with scroll's `Pread::pread_with` in little-endian order:
/// the four bytes at `offset`, low byte first; an error where they do not
/// all lie in `bytes`.
#[verifier::external_body]
fn read_u32_le(bytes: &[u8], offset: usize) -> (r: Option<u32>)
    ensures
        offset + 4 <= bytes@.len() ==> r == Some(le_u32(bytes@, offset as int)),
        offset + 4 > bytes@.len() ==> r is None,
{
    bytes.pread_with::<u32>(offset, scroll::LE).ok()
}

/// Reads a `u16` with scroll's `Pread::pread_with` in little-endian order:
/// the two bytes at `offset`, low byte first; an error where they do not
/// both lie in `bytes`.
#[verifier::external_body]
fn read_u16_le(bytes: &[u8], offset: usize) -> (r: Option<u16>)
    ensures
        offset + 2 <= bytes@.len() ==> r == Some(le_u16(bytes@, offset as int)),
        offset + 2 > bytes@.len() ==> r is None,
{
    bytes.pread_with::<u16>(offset, scroll::LE).ok()
}

/// What `String::from_utf8` makes of the bytes: their text where they are
/// valid UTF-8, else `None`.
pub uninterp spec fn utf8_text(bytes: Seq<u8>) -> Option<Seq<char>>;

/// Calls `String::from_utf8`. Decoding takes pages to state; its result is named.
#[verifier::external_body]
fn utf8_string(bytes: Vec<u8>) -> (r: Option<String>)
    ensures
        r matches Some(s) ==> utf8_text(bytes@) == Some(s@),
        r is None ==> utf8_text(bytes@) is None,
{
    String::from_utf8(bytes).ok()
}

/// The index of the first NUL byte of `s`, or its length.
pub open spec fn first_nul(s: Seq<u8>) -> int
    decreases s.len(),
{
    if s.len() == 0 || s[0] == 0 {
        0
    } else {
        1 + first_nul(s.drop_first())
    }
}

/// A character that separates directories in a path, `/` or `\`.
pub open spec fn is_separator(c: char) -> bool {
    c == '/' || c == '\\'
}

/// The index of the last separator of `s`, or -1.
pub open spec fn last_separator(s: Seq<char>) -> int
    decreases s.len(),
{
    if s.len() == 0 {
        -1
    } else if is_separator(s.last()) {
        s.len() - 1
    } else {
        last_separator(s.drop_last())
    }
}

/// `s` ends with `.pdb`.
pub open spec fn has_pdb_suffix(s: Seq<char>) -> bool {
    s.len() >= 4 && s.subrange(s.len() - 4, s.len() as int) == seq!['.', 'p', 'd', 'b']
}

/// The `.efi` file name that goes with the name of a debug file: without a
/// `.pdb` suffix and without its directories, then `.efi`.
pub open spec fn efi_file_name(name: Seq<char>) -> Seq<char> {
    let t = if has_pdb_suffix(name) {
        name.subrange(0, name.len() - 4)
    } else {
        name
    };
    t.subrange(last_separator(t) + 1, t.len() as int) + seq!['.', 'e', 'f', 'i']
}

/// The text of the debug file name: its bytes up to the first NUL, where
/// they are valid UTF-8.
pub open spec fn pdb_text(raw: Seq<u8>) -> Option<Seq<char>> {
    utf8_text(raw.subrange(0, first_nul(raw)))
}

proof fn lemma_first_nul(s: Seq<u8>, i: int)
    requires
        0 <= i <= s.len(),
        forall|j: int| 0 <= j < i ==> s[j] != 0,
        i < s.len() ==> s[i] == 0,
    ensures
        first_nul(s) == i,
    decreases i,
{
    if i > 0 {
        assert forall|j: int| 0 <= j < i - 1 implies s.drop_first()[j] != 0 by {
            assert(s.drop_first()[j] == s[j + 1]);
        }
        lemma_first_nul(s.drop_first(), i - 1);
    }
}

proof fn lemma_last_separator(s: Seq<char>, i: int)
    requires
        -1 <= i < s.len(),
        forall|j: int| i < j < s.len() ==> !is_separator(s[j]),
        i >= 0 ==> is_separator(s[i]),
    ensures
        last_separator(s) == i,
    decreases s.len(),
{
    if s.len() > 0 && i < s.len() - 1 {
        lemma_last_separator(s.drop_last(), i);
    }
}

/// The `.efi` file name that goes with a debug file name, where the name
/// (up to its first NUL) is valid UTF-8.
fn file_name_of(pdb: &Vec<u8>) -> (r: Option<String>)
    ensures
        match pdb_text(pdb@) {
            Some(t) => r matches Some(f) && f@ == efi_file_name(t),
            None => r is None,
        },
{
    let mut n: usize = 0;
    while n < pdb.len() && pdb[n] != 0
        invariant
            0 <= n <= pdb@.len(),
            forall|j: int| 0 <= j < n ==> pdb@[j] != 0,
        decreases pdb@.len() - n,
    {
        n = n + 1;
    }
    proof {
        lemma_first_nul(pdb@, n as int);
    }
    let mut bytes: Vec<u8> = Vec::new();
    let mut i: usize = 0;
    while i < n
        invariant
            0 <= i <= n,
            n <= pdb@.len(),
            bytes@ == pdb@.subrange(0, i as int),
        decreases n - i,
    {
        bytes.push(pdb[i]);
        assert(bytes@ =~= pdb@.subrange(0, i + 1));
        i = i + 1;
    }
    let name = match utf8_string(bytes) {
        Some(s) => s,
        None => {
            return None;
        },
    };
    let ghost text = name@;
    let chars = name.as_str();
    let total = chars.unicode_len();
    let mut len = total;
    if total >= 4 && chars.get_char(total - 4) == '.' && chars.get_char(total - 3) == 'p' && chars.get_char(total - 2)
        == 'd' && chars.get_char(total - 1) == 'b' {
        len = total - 4;
        assert(text.subrange(total - 4, total as int) =~= seq!['.', 'p', 'd', 'b']);
    } else {
        assert(!has_pdb_suffix(text)) by {
            if total >= 4 {
                let sfx = text.subrange(total - 4, total as int);
                if sfx == seq!['.', 'p', 'd', 'b'] {
                    assert(sfx[0] == text[total - 4] && sfx[1] == text[total - 3]);
                    assert(sfx[2] == text[total - 2] && sfx[3] == text[total - 1]);
                }
            }
        }
    }
    let ghost t = text.subrange(0, len as int);
    assert(t =~= (if has_pdb_suffix(text) {
        text.subrange(0, text.len() - 4)
    } else {
        text
    }));
    let mut k: usize = len;
    while k > 0 && !(chars.get_char(k - 1) == '/' || chars.get_char(k - 1) == '\\')
        invariant
            0 <= k <= len,
            len <= text.len(),
            chars@ == text,
            t == text.subrange(0, len as int),
            forall|j: int| k <= j < len ==> !is_separator(t[j]),
        decreases k,
    {
        k = k - 1;
    }
    proof {
        lemma_last_separator(t, k - 1);
    }
    let base = chars.substring_char(k, len);
    let mut out = String::from_str(base);
    out.append(".efi");
    proof {
        reveal_strlit(".efi");
    }
    assert(out@ =~= efi_file_name(text));
    Some(out)
}

/// The information that `pe32_get_image_info` gives for a parsed image.
pub open spec fn image_info_ok(info: Pe32ImageInfo, p: PeModel) -> bool {
    &&& p.optional_header matches Some(h)
    &&& info.entry_point_offset == p.entry
    &&& info.image_type == h.subsystem
    &&& info.size_of_image == h.size_of_image
    &&& info.section_alignment == h.section_alignment
    &&& match p.pdb_filename {
        Some(raw) => match pdb_text(raw) {
            Some(text) => info.filename matches Some(f) && f@ == efi_file_name(text),
            None => info.filename is None,
        },
        None => info.filename is None,
    }
}

/// What a parsed image says of itself: its entry point, subsystem, size,
/// section alignment and, from its debug information, its file name.
pub fn image_info_from(pe: &PeSummary) -> (r: Result<Pe32ImageInfo, Pe32Error>)
    ensures
        pe@.optional_header is None ==> (r matches Err(Pe32Error::NoOptionalHeader)),
        pe@.optional_header is Some ==> (r matches Ok(info) && image_info_ok(info, pe@)),
{
    let mut pe_info = Pe32ImageInfo::new();
    pe_info.entry_point_offset = pe.entry;
    match pe.optional_header {
        Some(h) => {
            pe_info.image_type = h.subsystem;
            pe_info.size_of_image = h.size_of_image;
            pe_info.section_alignment = h.section_alignment;
        },
        None => {
            return Err(Pe32Error::NoOptionalHeader);
        },
    }
    match &pe.pdb_filename {
        Some(raw) => {
            pe_info.filename = file_name_of(raw);
        },
        None => {},
    }
    Ok(pe_info)
}

/// Parses an image and says what it is: its entry point, subsystem, size,
/// section alignment and, from its debug information, its file name.
pub fn pe32_get_image_info(image: &[u8]) -> (r: Result<Pe32ImageInfo, Pe32Error>)
    ensures
        goblin_pe_parse(image@, true) is None ==> (r matches Err(Pe32Error::ParseError(PeParseError::Goblin))),
        goblin_pe_parse(image@, true) matches Some(p) ==> {
            &&& p.optional_header is None ==> (r matches Err(Pe32Error::NoOptionalHeader))
            &&& p.optional_header is Some ==> (r matches Ok(info) && image_info_ok(info, p))
        },
{
    match parse_pe(image, true) {
        Some(p) => image_info_from(&p),
        None => Err(Pe32Error::ParseError(PeParseError::Goblin)),
    }
}

/// How many bytes of a section are copied: its size in memory, but its size
/// in the file where the former is zero or larger.
pub open spec fn section_size(s: PeSection) -> u32 {
    if s.virtual_size == 0 || s.virtual_size > s.size_of_raw_data {
        s.size_of_raw_data
    } else {
        s.virtual_size
    }
}

/// `buf` with `data` written at `at`.
pub open spec fn splice(buf: Seq<u8>, at: int, data: Seq<u8>) -> Seq<u8> {
    buf.subrange(0, at) + data + buf.subrange(at + data.len(), buf.len() as int)
}

/// `buf` with the section copied into it, or `None` where its source or
/// destination range is not in the image or the buffer.
pub open spec fn load_section(buf: Seq<u8>, image: Seq<u8>, s: PeSection) -> Option<Seq<u8>> {
    let size = section_size(s);
    let ds = s.virtual_address as int;
    let de = vstd::wrapping::u32_specs::wrapping_add(s.virtual_address, size) as int;
    let ss = s.pointer_to_raw_data as int;
    let se = vstd::wrapping::u32_specs::wrapping_add(s.pointer_to_raw_data, size) as int;
    if ds <= de <= buf.len() && ss <= se <= image.len() {
        Some(splice(buf, ds, image.subrange(ss, se)))
    } else {
        None
    }
}

/// The buffer after copying the sections in order, and whether all of them were copied.
pub open spec fn load_sections(buf: Seq<u8>, image: Seq<u8>, secs: Seq<PeSection>) -> (Seq<u8>, bool)
    decreases secs.len(),
{
    if secs.len() == 0 {
        (buf, true)
    } else {
        let (b, ok) = load_sections(buf, image, secs.drop_last());
        if !ok {
            (b, false)
        } else {
            match load_section(b, image, secs.last()) {
                Some(b2) => (b2, true),
                None => (b, false),
            }
        }
    }
}

/// Once a section fails to load, the outcome of the whole list is that failure.
proof fn lemma_load_sections_stuck(buf: Seq<u8>, image: Seq<u8>, secs: Seq<PeSection>, i: int)
    requires
        0 <= i <= secs.len(),
        !load_sections(buf, image, secs.take(i)).1,
    ensures
        load_sections(buf, image, secs) == load_sections(buf, image, secs.take(i)),
    decreases secs.len() - i,
{
    if i < secs.len() {
        assert(secs.take(i + 1).drop_last() =~= secs.take(i));
        lemma_load_sections_stuck(buf, image, secs, i + 1);
    } else {
        assert(secs.take(i) =~= secs);
    }
}

/// A buffer of `n` zero bytes.
pub open spec fn zeros(n: nat) -> Seq<u8> {
    Seq::new(n, |i: int| 0u8)
}

/// Writes `len` bytes of `src` from `from` into `dst` at `at`.
fn copy_bytes(dst: &mut Vec<u8>, at: usize, src: &[u8], from: usize, len: usize)
    requires
        at + len <= old(dst)@.len(),
        from + len <= src@.len(),
    ensures
        final(dst)@ == splice(old(dst)@, at as int, src@.subrange(from as int, from + len)),
{
    let dlen = dst.len();
    let mut i: usize = 0;
    while i < len
        invariant
            0 <= i <= len,
            dlen == dst@.len(),
            src@.len() == src.len(),
            at + len <= dst@.len(),
            from + len <= src@.len(),
            dst@.len() == old(dst)@.len(),
            forall|j: int| 0 <= j < at || at + len <= j < dst@.len() ==> #[trigger] dst@[j] == old(dst)@[j],
            forall|j: int| at <= j < at + i ==> #[trigger] dst@[j] == src@[from + j - at],
            forall|j: int| at + i <= j < at + len ==> #[trigger] dst@[j] == old(dst)@[j],
        decreases len - i,
    {
        dst.set(at + i, src[from + i]);
        i = i + 1;
    }
    assert(dst@ =~= splice(old(dst)@, at as int, src@.subrange(from as int, from + len)));
}

/// What loading a parsed image into a buffer of `n` bytes gives: the
/// buffer, and whether every section was copied; `None` where the image
/// has no optional header.
pub open spec fn loaded(p: PeModel, image: Seq<u8>, n: nat) -> Option<(Seq<u8>, bool)> {
    match p.optional_header {
        None => None,
        Some(h) => if h.size_of_headers > n || h.size_of_headers > image.len() {
            Some((zeros(n), false))
        } else {
            Some(load_sections(splice(zeros(n), 0, image.subrange(0, h.size_of_headers as int)), image, p.sections))
        },
    }
}

/// Loads a parsed image into `loaded_image`: zeroes it, copies the headers,
/// then copies each section to its place in memory.
pub fn load_image_from(pe: &PeSummary, image: &[u8], loaded_image: &mut Vec<u8>) -> (r: Result<(), Pe32Error>)
    ensures
        final(loaded_image)@.len() == old(loaded_image)@.len(),
        match loaded(pe@, image@, old(loaded_image)@.len()) {
            None => (r matches Err(Pe32Error::LoadError)) && final(loaded_image)@ == old(loaded_image)@,
            Some((b, ok)) => {
                &&& final(loaded_image)@ == b
                &&& ok ==> r is Ok
                &&& !ok ==> (r matches Err(Pe32Error::LoadError))
            },
        },
{
    let size_of_headers: usize = match pe.optional_header {
        Some(h) => h.size_of_headers as usize,
        None => {
            return Err(Pe32Error::LoadError);
        },
    };
    let n = loaded_image.len();
    let mut z: usize = 0;
    while z < n
        invariant
            0 <= z <= n,
            n == old(loaded_image)@.len(),
            loaded_image@.len() == n,
            forall|j: int| 0 <= j < z ==> #[trigger] loaded_image@[j] == 0,
        decreases n - z,
    {
        loaded_image.set(z, 0);
        z = z + 1;
    }
    assert(loaded_image@ =~= zeros(n as nat));
    if size_of_headers > n || size_of_headers > image.len() {
        return Err(Pe32Error::LoadError);
    }
    copy_bytes(loaded_image, 0, image, 0, size_of_headers);
    let ghost secs = pe.sections@;
    let ghost headers = loaded_image@;
    let mut i: usize = 0;
    while i < pe.sections.len()
        invariant
            0 <= i <= secs.len(),
            secs == pe.sections@,
            n == old(loaded_image)@.len(),
            pe.optional_header matches Some(h) && h.size_of_headers == size_of_headers,
            size_of_headers <= n && size_of_headers <= image@.len(),
            headers == splice(zeros(n as nat), 0, image@.subrange(0, size_of_headers as int)),
            loaded_image@.len() == n,
            load_sections(headers, image@, secs.take(i as int)) == (loaded_image@, true),
        decreases secs.len() - i,
    {
        let s = pe.sections[i];
        assert(secs.take(i + 1).drop_last() =~= secs.take(i as int));
        let size = if s.virtual_size == 0 || s.virtual_size > s.size_of_raw_data {
            s.size_of_raw_data
        } else {
            s.virtual_size
        };
        let ds = s.virtual_address as usize;
        let de = s.virtual_address.wrapping_add(size) as usize;
        let ss = s.pointer_to_raw_data as usize;
        let se = s.pointer_to_raw_data.wrapping_add(size) as usize;
        if !(ds <= de && de <= loaded_image.len()) || !(ss <= se && se <= image.len()) {
            proof {
                assert(load_sections(headers, image@, secs.take(i + 1)) == (loaded_image@, false));
                lemma_load_sections_stuck(headers, image@, secs, i + 1);
                assert(secs.take(secs.len() as int) =~= secs);
            }
            return Err(Pe32Error::LoadError);
        }
        assert(de - ds == se - ss);
        copy_bytes(loaded_image, ds, image, ss, de - ds);
        i = i + 1;
    }
    assert(secs.take(secs.len() as int) =~= secs);
    Ok(())
}

/// Loads an image into `loaded_image`: zeroes it, copies the headers, then
/// copies each section to its place in memory.
pub fn pe32_load_image(image: &[u8], loaded_image: &mut Vec<u8>) -> (r: Result<(), Pe32Error>)
    ensures
        final(loaded_image)@.len() == old(loaded_image)@.len(),
        goblin_pe_parse(image@, true) is None ==> (r matches Err(Pe32Error::ParseError(PeParseError::Goblin)))
            && final(loaded_image)@ == old(loaded_image)@,
        goblin_pe_parse(image@, true) matches Some(p) ==> match loaded(p, image@, old(loaded_image)@.len()) {
            None => (r matches Err(Pe32Error::LoadError)) && final(loaded_image)@ == old(loaded_image)@,
            Some((b, ok)) => {
                &&& final(loaded_image)@ == b
                &&& ok ==> r is Ok
                &&& !ok ==> (r matches Err(Pe32Error::LoadError))
            },
        },
{
    match parse_pe(image, true) {
        Some(p) => load_image_from(&p, image, loaded_image),
        None => Err(Pe32Error::ParseError(PeParseError::Goblin)),
    }
}

/// A base relocation block: the page it patches, its size in bytes and its
/// type-and-offset entries.
#[derive(Debug, Clone)]
pub struct RelocationBlock {
    /// The page the entries patch, from the image base.
    pub page_rva: u32,
    /// The size of the block, its header included.
    pub block_size: u32,
    /// The entries: the type in the top four bits, the offset in the page below.
    pub relocations: Vec<u16>,
}

/// A relocation block as the contracts see it.
pub open spec fn block_model(b: RelocationBlock) -> (u32, u32, Seq<u16>) {
    (b.page_rva, b.block_size, b.relocations@)
}

/// The entries of a block read from `off` while below `end`, and the offset
/// reached; `None` where an entry does not lie in `data`.
pub open spec fn parse_relocs(data: Seq<u8>, off: int, end: int) -> Option<(Seq<u16>, int)>
    decreases data.len() - off,
{
    if off >= end {
        Some((Seq::empty(), off))
    } else if off + 2 > data.len() {
        None
    } else {
        match parse_relocs(data, off + 2, end) {
            Some((rs, o)) => Some((seq![le_u16(data, off)] + rs, o)),
            None => None,
        }
    }
}

/// The offset `off` rounded up to a multiple of four.
pub open spec fn align4(off: int) -> int {
    (off + 3) / 4 * 4
}

/// The relocation blocks from `off` to the end of `data`; each block
/// starts on a four-byte boundary. `None` where a header or an entry does
/// not lie in `data`.
pub open spec fn parse_blocks(data: Seq<u8>, off: int) -> Option<Seq<(u32, u32, Seq<u16>)>>
    decreases data.len() - off,
{
    if off < 0 || off >= data.len() {
        Some(Seq::empty())
    } else if off + 8 > data.len() {
        None
    } else {
        let page = le_u32(data, off);
        let size = le_u32(data, off + 4);
        match parse_relocs(data, off + 8, off + size) {
            None => None,
            Some((rs, o)) => {
                let next = align4(o);
                if next <= off || next >= data.len() {
                    Some(seq![(page, size, rs)])
                } else {
                    match parse_blocks(data, next) {
                        Some(bs) => Some(seq![(page, size, rs)] + bs),
                        None => None,
                    }
                }
            },
        }
    }
}

/// Parses the base relocation table.
fn parse_relocation_blocks(block: &[u8]) -> (r: Result<Vec<RelocationBlock>, Pe32Error>)
    requires
        block@.len() + 3 <= usize::MAX,
    ensures
        match parse_blocks(block@, 0) {
            Some(bs) => r matches Ok(v) && v@.map_values(|b: RelocationBlock| block_model(b)) == bs,
            None => r matches Err(Pe32Error::RelocationError),
        },
{
    let mut offset: usize = 0;
    let mut blocks: Vec<RelocationBlock> = Vec::new();
    while offset < block.len()
        invariant
            block@.len() == block.len(),
            block@.len() + 3 <= usize::MAX,
            offset <= block@.len(),
            parse_blocks(block@, 0) == match parse_blocks(block@, offset as int) {
                Some(rest) => Some(blocks@.map_values(|b: RelocationBlock| block_model(b)) + rest),
                None => None,
            },
        decreases block@.len() - offset,
    {
        let ghost before = blocks@.map_values(|b: RelocationBlock| block_model(b));
        let ghost start = offset as int;
        let block_start = offset;
        let page_rva = match read_u32_le(block, offset) {
            Some(v) => v,
            None => {
                return Err(Pe32Error::RelocationError);
            },
        };
        let block_size = match read_u32_le(block, offset + 4) {
            Some(v) => v,
            None => {
                return Err(Pe32Error::RelocationError);
            },
        };
        offset = offset + 8;
        let mut relocations: Vec<u16> = Vec::new();
        while ((offset - block_start) as u64) < (block_size as u64)
            invariant
                block@.len() == block.len(),
                block_start + 8 <= offset <= block@.len(),
                block_start == start,
                0 <= start < block@.len(),
                block@.len() + 3 <= usize::MAX,
                block_size == le_u32(block@, start + 4),
                page_rva == le_u32(block@, start),
                before == blocks@.map_values(|b: RelocationBlock| block_model(b)),
                parse_blocks(block@, 0) == match parse_blocks(block@, start) {
                    Some(rest) => Some(before + rest),
                    None => None,
                },
                parse_relocs(block@, start + 8, start + block_size) == match parse_relocs(
                    block@,
                    offset as int,
                    start + block_size,
                ) {
                    Some((rs, o)) => Some((relocations@ + rs, o)),
                    None => None,
                },
            decreases block@.len() - offset,
        {
            let e = match read_u16_le(block, offset) {
                Some(v) => v,
                None => {
                    assert(parse_relocs(block@, offset as int, start + block_size) is None);
                    assert(parse_relocs(block@, start + 8, start + block_size) is None);
                    assert(parse_blocks(block@, start) is None);
                    return Err(Pe32Error::RelocationError);
                },
            };
            let ghost prior = relocations@;
            relocations.push(e);
            proof {
                match parse_relocs(block@, offset + 2, start + block_size) {
                    Some((rs, o)) => {
                        assert(relocations@ + rs =~= prior + (seq![e] + rs));
                    },
                    None => {},
                }
            }
            offset = offset + 2;
        }
        assert(parse_relocs(block@, offset as int, start + block_size) == Some((Seq::<u16>::empty(), offset as int)));
        assert(relocations@ + Seq::<u16>::empty() =~= relocations@);
        let b = RelocationBlock { page_rva, block_size, relocations };
        blocks.push(b);
        assert(blocks@.map_values(|b: RelocationBlock| block_model(b)) =~= before.push((page_rva, block_size, relocations@)));
        let next = (offset + 3) / 4 * 4;
        proof {
            let nx = next as int;
            if nx >= block@.len() {
                assert(blocks@.map_values(|b: RelocationBlock| block_model(b)) + Seq::empty() =~= before + seq![(page_rva, block_size, relocations@)]);
            } else {
                match parse_blocks(block@, nx) {
                    Some(bs) => {
                        assert(blocks@.map_values(|b: RelocationBlock| block_model(b)) + bs =~= before + (seq![(page_rva, block_size, relocations@)] + bs));
                    },
                    None => {},
                }
            }
        }
        offset = next;
        if offset > block.len() {
            offset = block.len();
        }
    }
    assert(blocks@.map_values(|b: RelocationBlock| block_model(b)) + Seq::empty() =~= blocks@.map_values(|b: RelocationBlock| block_model(b)));
    Ok(blocks)
}

/// The eight bytes at `off`, low byte first.
#[verifier::opaque]
pub open spec fn le_u64(s: Seq<u8>, off: int) -> u64 {
    (s[off] + s[off + 1] * 0x100 + s[off + 2] * 0x10000 + s[off + 3] * 0x1000000 + s[off + 4] * 0x100000000
        + s[off + 5] * 0x10000000000 + s[off + 6] * 0x1000000000000 + s[off + 7] * 0x100000000000000) as u64
}

/// The eight bytes of `v`, low byte first.
#[verifier::opaque]
pub open spec fn le_bytes_u64(v: u64) -> Seq<u8> {
    seq![
        (v % 0x100) as u8,
        (v / 0x100 % 0x100) as u8,
        (v / 0x10000 % 0x100) as u8,
        (v / 0x1000000 % 0x100) as u8,
        (v / 0x100000000 % 0x100) as u8,
        (v / 0x10000000000 % 0x100) as u8,
        (v / 0x1000000000000 % 0x100) as u8,
        (v / 0x100000000000000 % 0x100) as u8,
    ]
}

proof fn lemma_le_bytes_len(v: u64)
    ensures
        le_bytes_u64(v).len() == 8,
{
    reveal(le_bytes_u64);
}

/// The entries of the blocks in order, each with the page of its block.
pub open spec fn fixups(bs: Seq<(u32, u32, Seq<u16>)>) -> Seq<(u32, u16)>
    decreases bs.len(),
{
    if bs.len() == 0 {
        Seq::empty()
    } else {
        fixups(bs.drop_last()) + bs.last().2.map_values(|e: u16| (bs.last().0, e))
    }
}

/// The type of a relocation entry.
pub open spec fn fixup_type(e: u16) -> u16 {
    e >> 12u16
}

/// Where a relocation entry patches the image.
pub open spec fn fixup_offset(f: (u32, u16)) -> int {
    f.0 + (f.1 & 0xfffu16)
}

/// Applies one relocation entry: a 64-bit entry (type 0xA) adds `adj` to the
/// eight bytes it points at; an absolute entry (type 0) does nothing.
pub open spec fn apply_fixup(img: Seq<u8>, f: (u32, u16), adj: u64) -> Seq<u8> {
    if fixup_type(f.1) == 0xa {
        let off = fixup_offset(f);
        splice(img, off, le_bytes_u64(vstd::wrapping::u64_specs::wrapping_add(le_u64(img, off), adj)))
    } else {
        img
    }
}

/// Reading back the eight bytes of a value, low byte first, gives the value.
pub proof fn lemma_le_u64_round_trip(v: u64, s: Seq<u8>, off: int)
    requires
        0 <= off,
        off + 8 <= s.len(),
        s.subrange(off, off + 8) == le_bytes_u64(v),
    ensures
        le_u64(s, off) == v,
{
    reveal(le_u64);
    reveal(le_bytes_u64);
    let b = le_bytes_u64(v);
    assert forall|k: int| 0 <= k < 8 implies s[off + k] == #[trigger] b[k] by {
        assert(s.subrange(off, off + 8)[k] == s[off + k]);
    }
    assert(v % 0x100 + (v / 0x100 % 0x100) * 0x100 + (v / 0x10000 % 0x100) * 0x10000 + (v / 0x1000000 % 0x100)
        * 0x1000000 + (v / 0x100000000 % 0x100) * 0x100000000 + (v / 0x10000000000 % 0x100) * 0x10000000000 + (v
        / 0x1000000000000 % 0x100) * 0x1000000000000 + (v / 0x100000000000000 % 0x100) * 0x100000000000000 == v)
        by (bit_vector);
}

/// A 64-bit relocation entry adds the adjustment, wrapping, to the eight
/// bytes it points at and leaves every other byte alone; an absolute entry
/// changes nothing.
pub proof fn lemma_fixup_effect(img: Seq<u8>, f: (u32, u16), adj: u64)
    requires
        fixup_type(f.1) == 0 || (fixup_type(f.1) == 0xa && fixup_offset(f) + 8 <= img.len()),
    ensures
        apply_fixup(img, f, adj).len() == img.len(),
        fixup_type(f.1) == 0 ==> apply_fixup(img, f, adj) == img,
        fixup_type(f.1) == 0xa ==> le_u64(apply_fixup(img, f, adj), fixup_offset(f))
            == vstd::wrapping::u64_specs::wrapping_add(le_u64(img, fixup_offset(f)), adj),
        forall|k: int|
            0 <= k < img.len() && !(fixup_offset(f) <= k < fixup_offset(f) + 8) ==> #[trigger] apply_fixup(
                img,
                f,
                adj,
            )[k] == img[k],
{
    if fixup_type(f.1) == 0xa {
        let off = fixup_offset(f);
        let v = vstd::wrapping::u64_specs::wrapping_add(le_u64(img, off), adj);
        lemma_le_bytes_len(v);
        let out = apply_fixup(img, f, adj);
        assert(out.subrange(off, off + 8) =~= le_bytes_u64(v));
        lemma_le_u64_round_trip(v, out, off);
    }
}

/// Applies the entries in order.
pub open spec fn apply_fixups(img: Seq<u8>, fs: Seq<(u32, u16)>, adj: u64) -> Seq<u8>
    decreases fs.len(),
{
    if fs.len() == 0 {
        img
    } else {
        apply_fixup(apply_fixups(img, fs.drop_last(), adj), fs.last(), adj)
    }
}

/// Every entry is absolute or 64-bit, and each 64-bit one lies in an image of `len` bytes.
pub open spec fn fixups_supported(fs: Seq<(u32, u16)>, len: int) -> bool {
    forall|i: int|
        0 <= i < fs.len() ==> fixup_type(#[trigger] fs[i].1) == 0 || (fixup_type(fs[i].1) == 0xa
            && fixup_offset(fs[i]) + 8 <= len)
}

/// Where the image base lies in the image: after the PE header (at the
/// offset goblin read from the DOS header), that is after the PE
/// signature, the COFF header and the standard fields of the optional
/// header.
pub open spec fn image_base_offset(p: PeModel) -> int {
    p.pe_pointer + 4 + 20 + 24
}

/// How far the image moves.
pub open spec fn adjustment(dest: usize, h: PeHeaderFields) -> u64 {
    vstd::wrapping::u64_specs::wrapping_sub(dest as u64, h.image_base)
}

/// The image with its image base set to `dest`.
pub open spec fn rebased(p: PeModel, dest: usize, image: Seq<u8>) -> Seq<u8> {
    splice(image, image_base_offset(p), le_bytes_u64(dest as u64))
}

/// The relocation blocks of the rebased image, where its table lies in it and parses.
pub open spec fn relocation_blocks(img: Seq<u8>, va: u32, size: u32) -> Option<Seq<(u32, u32, Seq<u16>)>> {
    if va + size > img.len() {
        None
    } else {
        parse_blocks(img.subrange(va as int, va + size), 0)
    }
}

/// Relocating the parsed image to `dest` stops at no failure of the kinds
/// that end the program: its image base lies in it, its relocation table
/// ends below 4 GiB, and every entry is absolute or 64-bit and in the image.
pub open spec fn relocatable_with(p: PeModel, dest: usize, image: Seq<u8>) -> bool {
    &&& image.len() + 3 <= usize::MAX
    &&& p.optional_header matches Some(h) ==> (adjustment(dest, h) == 0 || ({
        &&& image_base_offset(p) <= u32::MAX
        &&& image_base_offset(p) + 8 <= image.len()
        &&& h.base_relocation_table matches Some((va, size)) ==> {
            &&& va + size <= u32::MAX
            &&& relocation_blocks(rebased(p, dest, image), va, size) matches Some(bs) ==> fixups_supported(
                fixups(bs),
                image.len() as int,
            )
        }
    }))
}

/// The image can be relocated to `dest` without a failure of the kinds that
/// stop the program: it parses, and relocating what was parsed is safe.
pub open spec fn relocatable(dest: usize, image: Seq<u8>) -> bool {
    &&& goblin_pe_parse(image, false) matches Some(p)
    &&& relocatable_with(p, dest, image)
}

/// The image after relocating it to `dest` as parsed, and the result.
pub open spec fn relocation_of(p: PeModel, dest: usize, image: Seq<u8>) -> (Seq<u8>, Result<(), Pe32Error>) {
    match p.optional_header {
        None => (image, Err(Pe32Error::RelocationError)),
        Some(h) => if adjustment(dest, h) == 0 {
            (image, Ok(()))
        } else {
            let img1 = rebased(p, dest, image);
            match h.base_relocation_table {
                None => (img1, Ok(())),
                Some((va, size)) => match relocation_blocks(img1, va, size) {
                    None => (img1, Err(Pe32Error::RelocationError)),
                    Some(bs) => (apply_fixups(img1, fixups(bs), adjustment(dest, h)), Ok(())),
                },
            }
        },
    }
}

/// The image after relocating it to `dest`, and the result.
pub open spec fn relocation(dest: usize, image: Seq<u8>) -> (Seq<u8>, Result<(), Pe32Error>) {
    match goblin_pe_parse(image, false) {
        None => (image, Err(Pe32Error::ParseError(PeParseError::Goblin))),
        Some(p) => relocation_of(p, dest, image),
    }
}

/// Writes the eight bytes of `v` at `off`, low byte first.
fn write_u64_le(image: &mut Vec<u8>, off: usize, v: u64)
    requires
        off + 8 <= old(image)@.len(),
    ensures
        final(image)@ == splice(old(image)@, off as int, le_bytes_u64(v)),
        final(image)@.len() == old(image)@.len(),
{
    let _n = image.len();
    proof {
        reveal(le_bytes_u64);
    }
    image.set(off, (v % 0x100) as u8);
    image.set(off + 1, (v / 0x100 % 0x100) as u8);
    image.set(off + 2, (v / 0x10000 % 0x100) as u8);
    image.set(off + 3, (v / 0x1000000 % 0x100) as u8);
    image.set(off + 4, (v / 0x100000000 % 0x100) as u8);
    image.set(off + 5, (v / 0x10000000000 % 0x100) as u8);
    image.set(off + 6, (v / 0x1000000000000 % 0x100) as u8);
    image.set(off + 7, (v / 0x100000000000000 % 0x100) as u8);
    assert(image@ =~= splice(old(image)@, off as int, le_bytes_u64(v)));
}

/// The eight bytes at `off`, low byte first.
fn read_u64_at(image: &Vec<u8>, off: usize) -> (r: u64)
    requires
        off + 8 <= image@.len(),
    ensures
        r == le_u64(image@, off as int),
{
    let _n = image.len();
    proof {
        reveal(le_u64);
    }
    image[off] as u64 + image[off + 1] as u64 * 0x100 + image[off + 2] as u64 * 0x10000 + image[off + 3] as u64
        * 0x1000000 + image[off + 4] as u64 * 0x100000000 + image[off + 5] as u64 * 0x10000000000 + image[off
        + 6] as u64 * 0x1000000000000 + image[off + 7] as u64 * 0x100000000000000
}

/// The bytes of `image` from `start` to `end`.
fn copy_range(image: &Vec<u8>, start: usize, end: usize) -> (r: Vec<u8>)
    requires
        start <= end <= image@.len(),
    ensures
        r@ == image@.subrange(start as int, end as int),
{
    let mut out: Vec<u8> = Vec::new();
    let mut i: usize = start;
    while i < end
        invariant
            start <= i <= end,
            end <= image@.len(),
            out@ == image@.subrange(start as int, i as int),
        decreases end - i,
    {
        out.push(image[i]);
        assert(out@ =~= image@.subrange(start as int, i + 1));
        i = i + 1;
    }
    out
}

/// The entries of the blocks in order, each with the page of its block.
fn collect_fixups(blocks: &Vec<RelocationBlock>) -> (r: Vec<(u32, u16)>)
    ensures
        r@ == fixups(blocks@.map_values(|b: RelocationBlock| block_model(b))),
{
    let ghost bs = blocks@.map_values(|b: RelocationBlock| block_model(b));
    let mut out: Vec<(u32, u16)> = Vec::new();
    let mut i: usize = 0;
    while i < blocks.len()
        invariant
            0 <= i <= blocks@.len(),
            bs == blocks@.map_values(|b: RelocationBlock| block_model(b)),
            out@ == fixups(bs.take(i as int)),
        decreases blocks@.len() - i,
    {
        let page = blocks[i].page_rva;
        let ghost base = out@;
        let mut j: usize = 0;
        while j < blocks[i].relocations.len()
            invariant
                0 <= i < blocks@.len(),
                0 <= j <= blocks@[i as int].relocations@.len(),
                page == blocks@[i as int].page_rva,
                out@ == base + blocks@[i as int].relocations@.take(j as int).map_values(|e: u16| (page, e)),
            decreases blocks@[i as int].relocations@.len() - j,
        {
            let e = blocks[i].relocations[j];
            out.push((page, e));
            assert(blocks@[i as int].relocations@.take(j + 1) =~= blocks@[i as int].relocations@.take(j as int).push(e));
            assert(out@ =~= base + blocks@[i as int].relocations@.take(j + 1).map_values(|e: u16| (page, e)));
            j = j + 1;
        }
        assert(bs.take(i + 1).drop_last() =~= bs.take(i as int));
        assert(bs.take(i + 1).last() == block_model(blocks@[i as int]));
        assert(blocks@[i as int].relocations@.take(blocks@[i as int].relocations@.len() as int) =~= blocks@[i as int].relocations@);
        i = i + 1;
    }
    assert(bs.take(blocks@.len() as int) =~= bs);
    out
}

proof fn lemma_apply_fixups_step(img: Seq<u8>, fs: Seq<(u32, u16)>, k: int, adj: u64)
    requires
        0 <= k < fs.len(),
    ensures
        apply_fixups(img, fs.take(k + 1), adj) == apply_fixup(apply_fixups(img, fs.take(k), adj), fs[k], adj),
{
    assert(fs.take(k + 1).drop_last() =~= fs.take(k));
    assert(fs.take(k + 1).last() == fs[k]);
}

/// Applies the relocation entries in order.
fn apply_fixup_list(image: &mut Vec<u8>, fs: &Vec<(u32, u16)>, adjustment: u64)
    requires
        fixups_supported(fs@, old(image)@.len() as int),
    ensures
        final(image)@ == apply_fixups(old(image)@, fs@, adjustment),
{
    let ghost img1 = image@;
    let n = image.len();
    let mut k: usize = 0;
    while k < fs.len()
        invariant
            0 <= k <= fs@.len(),
            n == img1.len(),
            image@.len() == img1.len(),
            img1 == old(image)@,
            fixups_supported(fs@, img1.len() as int),
            image@ == apply_fixups(img1, fs@.take(k as int), adjustment),
        decreases fs@.len() - k,
    {
        let (page, e) = fs[k];
        proof {
            lemma_apply_fixups_step(img1, fs@, k as int, adjustment);
        }
        assert(fixup_type(fs@[k as int].1) == 0 || (fixup_type(fs@[k as int].1) == 0xa && fixup_offset(
            fs@[k as int],
        ) + 8 <= img1.len()));
        let t = e >> 12u16;
        assert(page == fs@[k as int].0 && e == fs@[k as int].1);
        if t == 0xa {
            let off64 = page as u64 + (e & 0xfffu16) as u64;
            assert(off64 == fixup_offset(fs@[k as int]));
            assert(off64 + 8 <= img1.len());
            let off = off64 as usize;
            let v = read_u64_at(image, off);
            write_u64_le(image, off, v.wrapping_add(adjustment));
        }
        k = k + 1;
    }
    assert(fs@.take(fs@.len() as int) =~= fs@);
}

/// Whether every entry is absolute or 64-bit and lies in an image of `len` bytes.
fn check_fixups(fs: &Vec<(u32, u16)>, len: usize) -> (r: bool)
    ensures
        r == fixups_supported(fs@, len as int),
{
    let mut k: usize = 0;
    while k < fs.len()
        invariant
            0 <= k <= fs@.len(),
            forall|i: int|
                0 <= i < k ==> fixup_type(#[trigger] fs@[i].1) == 0 || (fixup_type(fs@[i].1) == 0xa
                    && fixup_offset(fs@[i]) + 8 <= len),
        decreases fs@.len() - k,
    {
        let (page, e) = fs[k];
        let t = e >> 12u16;
        if t == 0xa {
            let off = page as u64 + (e & 0xfffu16) as u64;
            if off > len as u64 || (len as u64) - off < 8 {
                assert(!(fixup_type(fs@[k as int].1) == 0 || (fixup_type(fs@[k as int].1) == 0xa && fixup_offset(
                    fs@[k as int],
                ) + 8 <= len)));
                return false;
            }
        } else if t != 0 {
            assert(!(fixup_type(fs@[k as int].1) == 0 || (fixup_type(fs@[k as int].1) == 0xa && fixup_offset(
                fs@[k as int],
            ) + 8 <= len)));
            return false;
        }
        k = k + 1;
    }
    true
}

/// Relocates a parsed, loaded image to `destination`: writes the new image
/// base into the optional header and, where the image moves, applies each
/// entry of its base relocation table.
pub fn relocate_image_from(pe: &PeSummary, destination: usize, image: &mut Vec<u8>) -> (r: Result<(), Pe32Error>)
    requires
        relocatable_with(pe@, destination, old(image)@),
    ensures
        (final(image)@, r) == relocation_of(pe@, destination, old(image)@),
{
    let h = match pe.optional_header {
        Some(h) => h,
        None => {
            return Err(Pe32Error::RelocationError);
        },
    };
    let adjustment = (destination as u64).wrapping_sub(h.image_base);
    if adjustment != 0 {
        let base_offset = (pe.pe_pointer + 4 + 20 + 24) as usize;
        write_u64_le(image, base_offset, destination as u64);
        match h.base_relocation_table {
            None => {},
            Some((va, size)) => {
                let end = va + size;
                if end as usize > image.len() {
                    return Err(Pe32Error::RelocationError);
                }
                let data = copy_range(image, va as usize, end as usize);
                let blocks = match parse_relocation_blocks(data.as_slice()) {
                    Ok(b) => b,
                    Err(e) => {
                        return Err(e);
                    },
                };
                let fs = collect_fixups(&blocks);
                apply_fixup_list(image, &fs, adjustment);
            },
        }
    }
    Ok(())
}

/// Relocates a loaded image to `destination`: writes the new image base into
/// the optional header and, where the image moves, applies each entry of its
/// base relocation table.
pub fn pe32_relocate_image(destination: usize, image: &mut Vec<u8>) -> (r: Result<(), Pe32Error>)
    requires
        relocatable(destination, old(image)@),
    ensures
        (final(image)@, r) == relocation(destination, old(image)@),
{
    match parse_pe(image.as_slice(), false) {
        Some(p) => relocate_image_from(&p, destination, image),
        None => Err(Pe32Error::ParseError(PeParseError::Goblin)),
    }
}

/// Whether `relocate_image_from` can be called on the parsed image.
pub fn relocation_supported_by(pe: &PeSummary, destination: usize, image: &Vec<u8>) -> (r: bool)
    ensures
        r == relocatable_with(pe@, destination, image@),
{
    if image.len() > usize::MAX - 3 {
        return false;
    }
    let h = match pe.optional_header {
        Some(h) => h,
        None => {
            return true;
        },
    };
    let adjustment = (destination as u64).wrapping_sub(h.image_base);
    if adjustment == 0 {
        return true;
    }
    proof {
        lemma_le_bytes_len(destination as u64);
    }
    let pe_pointer = pe.pe_pointer;
    if pe_pointer > u32::MAX - 48 {
        return false;
    }
    let base_offset = (pe_pointer + 48) as usize;
    if base_offset > image.len() || image.len() - base_offset < 8 {
        return false;
    }
    match h.base_relocation_table {
        None => true,
        Some((va, size)) => {
            if va > u32::MAX - size {
                return false;
            }
            let end = va + size;
            if end as usize > image.len() {
                return true;
            }
            let mut img1 = copy_range(image, 0, image.len());
            assert(img1@ =~= image@);
            write_u64_le(&mut img1, base_offset, destination as u64);
            let data = copy_range(&img1, va as usize, end as usize);
            let blocks = match parse_relocation_blocks(data.as_slice()) {
                Ok(b) => b,
                Err(_) => {
                    return true;
                },
            };
            let fs = collect_fixups(&blocks);
            check_fixups(&fs, image.len())
        },
    }
}

/// Whether `pe32_relocate_image` can be called on the image: it parses, and
/// relocating it stops at no failure of the kinds that end the program.
pub fn pe32_relocation_supported(destination: usize, image: &Vec<u8>) -> (r: bool)
    ensures
        r == relocatable(destination, image@),
{
    match parse_pe(image.as_slice(), false) {
        Some(p) => relocation_supported_by(&p, destination, image),
        None => false,
    }
}

/// Relocates the image where `pe32_relocation_supported` allows it; `None`
/// (and the image unchanged) where it does not.
pub fn pe32_try_relocate_image(destination: usize, image: &mut Vec<u8>) -> (r: Option<Result<(), Pe32Error>>)
    ensures
        !relocatable(destination, old(image)@) ==> r is None && final(image)@ == old(image)@,
        relocatable(destination, old(image)@) ==> (r matches Some(res) && (final(image)@, res) == relocation(
            destination,
            old(image)@,
        )),
{
    if !pe32_relocation_supported(destination, image) {
        return None;
    }
    Some(pe32_relocate_image(destination, image))
}

/// The size of a resource directory with its entries.
pub open spec fn dir_size(named: u16, ids: u16) -> int {
    16 + 8 * (named + ids)
}

/// The entry counts (named, by id) of the resource directory at `off`, where its 16 bytes lie in `rs`.
pub open spec fn read_dir(rs: Seq<u8>, off: int) -> Option<(u16, u16)> {
    if 0 <= off && off + 16 <= rs.len() {
        Some((le_u16(rs, off + 12), le_u16(rs, off + 14)))
    } else {
        None
    }
}

/// The name and data words of the directory entry at `off`, where its 8 bytes lie in `rs`.
pub open spec fn read_entry(rs: Seq<u8>, off: int) -> Option<(u32, u32)> {
    if 0 <= off && off + 8 <= rs.len() {
        Some((le_u32(rs, off), le_u32(rs, off + 4)))
    } else {
        None
    }
}

/// The length of the directory string at `off`, where its 4 bytes lie in `rs`.
pub open spec fn read_string_len(rs: Seq<u8>, off: int) -> Option<u16> {
    if 0 <= off && off + 4 <= rs.len() {
        Some(le_u16(rs, off))
    } else {
        None
    }
}

/// The offset and size of the data of the data entry at `off`, where its 16 bytes lie in `rs`.
pub open spec fn read_data_entry(rs: Seq<u8>, off: int) -> Option<(u32, u32)> {
    if 0 <= off && off + 16 <= rs.len() {
        Some((le_u32(rs, off), le_u32(rs, off + 4)))
    } else {
        None
    }
}

/// The top bit of a directory entry word.
pub open spec fn high_bit(w: u32) -> bool {
    w >= 0x80000000
}

/// A directory entry word without its top bit.
pub open spec fn low_bits(w: u32) -> int {
    (w % 0x80000000) as int
}

/// The name `HII` as it is compared: the high byte of the length, then the characters.
pub open spec fn hii_name() -> Seq<u8> {
    seq![0x0u8, 0x48u8, 0x0u8, 0x49u8, 0x0u8, 0x49u8]
}

/// A parse error with the offset that was out of reach.
pub open spec fn too_short(off: int) -> Pe32Error {
    Pe32Error::ParseError(PeParseError::BufferTooShort(off as usize))
}

/// A structure that could not be read.
pub open spec fn unreadable() -> Pe32Error {
    Pe32Error::ParseError(PeParseError::Scroll)
}

/// Follows a directory entry to the first entry of the directory it points at.
pub open spec fn descend(rs: Seq<u8>, size: u32, e: (u32, u32)) -> Result<(u32, u32), Pe32Error> {
    let od = low_bits(e.1);
    if od > size {
        Err(too_short(od))
    } else {
        match read_dir(rs, od) {
            None => Err(unreadable()),
            Some((n, i)) => if od + dir_size(n, i) > size {
                Err(too_short(od + dir_size(n, i)))
            } else {
                match read_entry(rs, od + 16) {
                    None => Err(unreadable()),
                    Some(e2) => Ok(e2),
                }
            },
        }
    }
}

/// Looks at one named entry of the root directory: `Ok` where the scan goes
/// on with the next entry, or the outcome.
pub open spec fn scan_step(rs: Seq<u8>, size: u32, e: (u32, u32)) -> Result<(u32, u32), Result<Option<(usize, usize)>, Pe32Error>> {
    if !high_bit(e.0) {
        Ok(e)
    } else {
        let no = low_bits(e.0);
        if no >= size {
            Err(Err(too_short(no)))
        } else {
            match read_string_len(rs, no) {
                None => Err(Err(unreadable())),
                Some(len) => {
                    let ns = no + 1;
                    let ne = ns + vstd::wrapping::u16_specs::wrapping_mul(len, 2);
                    if ne > rs.len() {
                        Err(Err(too_short(ne)))
                    } else if len == 3 && rs.subrange(ns, ne) == hii_name() {
                        let e1 = if high_bit(e.1) {
                            match descend(rs, size, e) {
                                Err(x) => Err(x),
                                Ok(e2) => if high_bit(e2.1) {
                                    descend(rs, size, e2)
                                } else {
                                    Ok(e2)
                                },
                            }
                        } else {
                            Ok(e)
                        };
                        match e1 {
                            Err(x) => Err(Err(x)),
                            Ok(e3) => if high_bit(e3.1) {
                                Ok(e3)
                            } else if e3.1 >= size {
                                Err(Err(too_short(e3.1 as int)))
                            } else {
                                match read_data_entry(rs, e3.1 as int) {
                                    None => Err(Err(unreadable())),
                                    Some((o, sz)) => Err(Ok(Some((o as usize, sz as usize)))),
                                }
                            },
                        }
                    } else {
                        Ok(e)
                    }
                },
            }
        }
    }
}

/// Scans the named entries `k` to `n` of the root directory, entry `k`
/// lying at `16 + 8k`; `None` where none of them decides the outcome.
pub open spec fn scan_entries(rs: Seq<u8>, size: u32, k: int, n: int) -> Option<Result<Option<(usize, usize)>, Pe32Error>>
    decreases n - k,
{
    if k >= n {
        None
    } else {
        match read_entry(rs, 16 + 8 * k) {
            None => Some(Err(unreadable())),
            Some(e) => match scan_step(rs, size, e) {
                Err(out) => Some(out),
                Ok(_) => scan_entries(rs, size, k + 1, n),
            },
        }
    }
}

/// The section is named `.rsrc`.
pub open spec fn is_rsrc(s: PeSection) -> bool {
    s.name@ == seq![0x2eu8, 0x72u8, 0x73u8, 0x72u8, 0x63u8, 0u8, 0u8, 0u8]
}

/// The outcome of looking for the HII resources in a section; `None` where the section does not decide.
pub open spec fn scan_section(image: Seq<u8>, s: PeSection) -> Option<Result<Option<(usize, usize)>, Pe32Error>> {
    if !is_rsrc(s) {
        None
    } else {
        let size = section_size(s);
        let start = s.pointer_to_raw_data as int;
        if start + size > u32::MAX {
            Some(Err(Pe32Error::ParseError(PeParseError::Malformed)))
        } else if start + size > image.len() {
            Some(Err(too_short(size as int)))
        } else {
            let rs = image.subrange(start, start + size);
            match read_dir(rs, 0) {
                None => Some(Err(unreadable())),
                Some((n, i)) => if dir_size(n, i) > size {
                    Some(Err(too_short(dir_size(n, i))))
                } else {
                    match read_entry(rs, 16) {
                        None => Some(Err(unreadable())),
                        Some(_) => scan_entries(rs, size, 0, n as int),
                    }
                },
            }
        }
    }
}

/// The outcome of looking for the HII resources in the sections in order.
pub open spec fn resource_in(image: Seq<u8>, secs: Seq<PeSection>) -> Result<Option<(usize, usize)>, Pe32Error>
    decreases secs.len(),
{
    if secs.len() == 0 {
        Ok(None)
    } else {
        match scan_section(image, secs[0]) {
            Some(r) => r,
            None => resource_in(image, secs.drop_first()),
        }
    }
}

/// Reads the entry counts of the resource directory at `off`.
fn read_dir_at(rs: &[u8], off: u64) -> (r: Option<(u16, u16)>)
    ensures
        r == read_dir(rs@, off as int),
{
    if off > rs.len() as u64 || (rs.len() as u64) - off < 16 {
        return None;
    }
    let o = off as usize;
    let named = read_u16_le(rs, o + 12).unwrap();
    let ids = read_u16_le(rs, o + 14).unwrap();
    Some((named, ids))
}

/// Reads the name and data words of the directory entry at `off`.
fn read_entry_at(rs: &[u8], off: u64) -> (r: Option<(u32, u32)>)
    ensures
        r == read_entry(rs@, off as int),
{
    if off > rs.len() as u64 || (rs.len() as u64) - off < 8 {
        return None;
    }
    let o = off as usize;
    let name = read_u32_le(rs, o).unwrap();
    let data = read_u32_le(rs, o + 4).unwrap();
    Some((name, data))
}

/// Follows a directory entry to the first entry of the directory it points at.
fn descend_at(rs: &[u8], size: u32, e: (u32, u32)) -> (r: Result<(u32, u32), Pe32Error>)
    ensures
        r == descend(rs@, size, e),
{
    let od = e.1 % 0x80000000;
    if od > size {
        return Err(Pe32Error::ParseError(PeParseError::BufferTooShort(od as usize)));
    }
    let (n, i) = match read_dir_at(rs, od as u64) {
        Some(d) => d,
        None => {
            return Err(Pe32Error::ParseError(PeParseError::Scroll));
        },
    };
    let end = od as u64 + 16 + 8 * (n as u64 + i as u64);
    if end > size as u64 {
        return Err(Pe32Error::ParseError(PeParseError::BufferTooShort(end as usize)));
    }
    match read_entry_at(rs, od as u64 + 16) {
        Some(e2) => Ok(e2),
        None => Err(Pe32Error::ParseError(PeParseError::Scroll)),
    }
}

/// One turn of the scan of the named entries.
fn scan_step_at(rs: &[u8], size: u32, e: (u32, u32)) -> (r: Result<(u32, u32), Result<Option<(usize, usize)>, Pe32Error>>)
    requires
        rs@.len() == size,
    ensures
        r == scan_step(rs@, size, e),
{
    if e.0 < 0x80000000 {
        return Ok(e);
    }
    let no = e.0 % 0x80000000;
    if no >= size {
        return Err(Err(Pe32Error::ParseError(PeParseError::BufferTooShort(no as usize))));
    }
    let len = if (rs.len() as u64) - (no as u64) < 4 {
        return Err(Err(Pe32Error::ParseError(PeParseError::Scroll)));
    } else {
        read_u16_le(rs, no as usize).unwrap()
    };
    let ns = no as u64 + 1;
    let ne = ns + len.wrapping_mul(2) as u64;
    if ne > rs.len() as u64 {
        return Err(Err(Pe32Error::ParseError(PeParseError::BufferTooShort(ne as usize))));
    }
    let mut is_hii = false;
    if len == 3 {
        let a = ns as usize;
        is_hii = rs[a] == 0x0 && rs[a + 1] == 0x48 && rs[a + 2] == 0x0 && rs[a + 3] == 0x49 && rs[a + 4] == 0x0
            && rs[a + 5] == 0x49;
        proof {
            let sub = rs@.subrange(ns as int, ne as int);
            if sub == hii_name() {
                assert(sub[0] == rs@[a as int] && sub[1] == rs@[a + 1] && sub[2] == rs@[a + 2]);
                assert(sub[3] == rs@[a + 3] && sub[4] == rs@[a + 4] && sub[5] == rs@[a + 5]);
            }
            if is_hii {
                assert(sub =~= hii_name());
            }
        }
    }
    if !is_hii {
        return Ok(e);
    }
    let mut cur = e;
    if cur.1 >= 0x80000000 {
        cur = match descend_at(rs, size, cur) {
            Ok(e2) => e2,
            Err(x) => {
                return Err(Err(x));
            },
        };
        if cur.1 >= 0x80000000 {
            cur = match descend_at(rs, size, cur) {
                Ok(e2) => e2,
                Err(x) => {
                    return Err(Err(x));
                },
            };
        }
    }
    if cur.1 >= 0x80000000 {
        return Ok(cur);
    }
    if cur.1 >= size {
        return Err(Err(Pe32Error::ParseError(PeParseError::BufferTooShort(cur.1 as usize))));
    }
    let d = cur.1 as usize;
    if rs.len() - d < 16 {
        return Err(Err(Pe32Error::ParseError(PeParseError::Scroll)));
    }
    let offset_to_data = read_u32_le(rs, d).unwrap();
    let data_size = read_u32_le(rs, d + 4).unwrap();
    Err(Ok(Some((offset_to_data as usize, data_size as usize))))
}

/// Scans the named entries of the root directory in turn.
fn scan_named_entries(rs: &[u8], size: u32, n: u16) -> (r: Option<Result<Option<(usize, usize)>, Pe32Error>>)
    requires
        rs@.len() == size,
    ensures
        r == scan_entries(rs@, size, 0, n as int),
{
    let mut k: u16 = 0;
    while k < n
        invariant
            0 <= k <= n,
            rs@.len() == size,
            scan_entries(rs@, size, 0, n as int) == scan_entries(rs@, size, k as int, n as int),
        decreases n - k,
    {
        let entry = match read_entry_at(rs, 16 + 8 * (k as u64)) {
            Some(e) => e,
            None => {
                return Some(Err(Pe32Error::ParseError(PeParseError::Scroll)));
            },
        };
        match scan_step_at(rs, size, entry) {
            Err(out) => {
                return Some(out);
            },
            Ok(_) => {},
        }
        k = k + 1;
    }
    None
}

/// Looks for the HII resources in a section.
fn scan_section_at(image: &[u8], s: PeSection) -> (r: Option<Result<Option<(usize, usize)>, Pe32Error>>)
    ensures
        r == scan_section(image@, s),
{
    let is_rsrc = s.name[0] == 0x2e && s.name[1] == 0x72 && s.name[2] == 0x73 && s.name[3] == 0x72 && s.name[4]
        == 0x63 && s.name[5] == 0 && s.name[6] == 0 && s.name[7] == 0;
    proof {
        if is_rsrc {
            assert(s.name@ =~= seq![0x2eu8, 0x72u8, 0x73u8, 0x72u8, 0x63u8, 0u8, 0u8, 0u8]);
        }
    }
    if !is_rsrc {
        return None;
    }
    let size = if s.virtual_size == 0 || s.virtual_size > s.size_of_raw_data {
        s.size_of_raw_data
    } else {
        s.virtual_size
    };
    let start = s.pointer_to_raw_data;
    let end = match start.checked_add(size) {
        Some(v) => v,
        None => {
            return Some(Err(Pe32Error::ParseError(PeParseError::Malformed)));
        },
    };
    if end as usize > image.len() {
        return Some(Err(Pe32Error::ParseError(PeParseError::BufferTooShort((end - start) as usize))));
    }
    let mut buf: Vec<u8> = Vec::new();
    let mut i: usize = start as usize;
    while i < end as usize
        invariant
            start <= i <= end,
            end <= image@.len(),
            buf@ == image@.subrange(start as int, i as int),
        decreases end - i,
    {
        buf.push(image[i]);
        assert(buf@ =~= image@.subrange(start as int, i + 1));
        i = i + 1;
    }
    let rs = buf.as_slice();
    let (n, ids) = match read_dir_at(rs, 0) {
        Some(d) => d,
        None => {
            return Some(Err(Pe32Error::ParseError(PeParseError::Scroll)));
        },
    };
    let offset = 16 + 8 * (n as u64 + ids as u64);
    if offset > size as u64 {
        return Some(Err(Pe32Error::ParseError(PeParseError::BufferTooShort(offset as usize))));
    }
    match read_entry_at(rs, 16) {
        Some(_) => {},
        None => {
            return Some(Err(Pe32Error::ParseError(PeParseError::Scroll)));
        },
    }
    scan_named_entries(rs, size, n)
}

/// Finds the HII resources of a parsed image: in its `.rsrc` section, the
/// named resource directory entry `HII`, followed through at most two
/// directory levels to its data entry. The offset and size of the data,
/// `None` where no section holds them, or the error met on the way.
pub fn resource_section_from(pe: &PeSummary, image: &[u8]) -> (r: Result<Option<(usize, usize)>, Pe32Error>)
    ensures
        r == resource_in(image@, pe@.sections),
{
    let ghost secs = pe.sections@;
    assert(secs.skip(0) =~= secs);
    let mut i: usize = 0;
    while i < pe.sections.len()
        invariant
            0 <= i <= secs.len(),
            secs == pe.sections@,
            resource_in(image@, secs) == resource_in(image@, secs.skip(i as int)),
        decreases secs.len() - i,
    {
        assert(secs.skip(i as int)[0] == secs[i as int]);
        assert(secs.skip(i as int).drop_first() =~= secs.skip(i + 1));
        match scan_section_at(image, pe.sections[i]) {
            Some(r) => {
                return r;
            },
            None => {},
        }
        i = i + 1;
    }
    assert(secs.skip(secs.len() as int) =~= Seq::<PeSection>::empty());
    Ok(None)
}

/// Finds the HII resources of an image: in its `.rsrc` section, the named
/// resource directory entry `HII`, followed through at most two directory
/// levels to its data entry. The offset and size of the data, `None` where
/// no section holds them, or the error met on the way.
pub fn pe32_load_resource_section(image: &[u8]) -> (r: Result<Option<(usize, usize)>, Pe32Error>)
    ensures
        goblin_pe_parse(image@, true) is None ==> (r matches Err(Pe32Error::ParseError(PeParseError::Goblin))),
        goblin_pe_parse(image@, true) matches Some(p) ==> r == resource_in(image@, p.sections),
{
    match parse_pe(image, true) {
        Some(p) => resource_section_from(&p, image),
        None => Err(Pe32Error::ParseError(PeParseError::Goblin)),
    }
}

} // verus!
