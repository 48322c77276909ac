use uefi_dxe::pe32::{
    image_info_from, load_image_from, pe32_get_image_info, pe32_load_image, pe32_load_resource_section,
    pe32_relocate_image, pe32_relocation_supported, pe32_try_relocate_image, relocate_image_from,
    resource_section_from, Pe32Error, Pe32ImageInfo, PeHeaderFields, PeParseError, PeSection, PeSummary,
};

const IMAGE_BASE: u64 = 0x1_4000_0000;
const POINTED_VALUE: u64 = 0x1_4000_1010;
const PDB_NAME: &[u8] = b"/build/x64/RustFfiTestDxe.pdb\0";

fn put16(b: &mut [u8], off: usize, v: u16) {
    b[off..off + 2].copy_from_slice(&v.to_le_bytes());
}

fn put32(b: &mut [u8], off: usize, v: u32) {
    b[off..off + 4].copy_from_slice(&v.to_le_bytes());
}

fn put64(b: &mut [u8], off: usize, v: u64) {
    b[off..off + 8].copy_from_slice(&v.to_le_bytes());
}

fn get64(b: &[u8], off: usize) -> u64 {
    let mut a = [0u8; 8];
    a.copy_from_slice(&b[off..off + 8]);
    u64::from_le_bytes(a)
}

fn put_section(b: &mut [u8], off: usize, name: &[u8], vs: u32, va: u32, raw: u32, ptr: u32, flags: u32) {
    b[off..off + name.len()].copy_from_slice(name);
    put32(b, off + 8, vs);
    put32(b, off + 12, va);
    put32(b, off + 16, raw);
    put32(b, off + 20, ptr);
    put32(b, off + 36, flags);
}

/// A small PE32+ image: a `.text` section holding one absolute address and
/// the debug information, a `.reloc` section with one 64-bit fixup for that
/// address, and a `.rsrc` section with an `HII` resource.
fn small_pe_image() -> Vec<u8> {
    let mut b = vec![0u8; 0x800];
    b[0] = b'M';
    b[1] = b'Z';
    put32(&mut b, 0x3c, 0x40);
    b[0x40..0x44].copy_from_slice(b"PE\0\0");
    // COFF header.
    put16(&mut b, 0x44, 0x8664);
    put16(&mut b, 0x46, 3);
    put16(&mut b, 0x54, 0xF0);
    put16(&mut b, 0x56, 0x22);
    // Optional header.
    let o = 0x58;
    put16(&mut b, o, 0x20b);
    put32(&mut b, o + 4, 0x200);
    put32(&mut b, o + 16, 0x1000);
    put32(&mut b, o + 20, 0x1000);
    put64(&mut b, o + 24, IMAGE_BASE);
    put32(&mut b, o + 32, 0x1000);
    put32(&mut b, o + 36, 0x200);
    put32(&mut b, o + 56, 0x4000);
    put32(&mut b, o + 60, 0x200);
    put16(&mut b, o + 68, 0x0B);
    put32(&mut b, o + 108, 16);
    // Base relocation table and debug directory.
    put32(&mut b, o + 112 + 40, 0x2000);
    put32(&mut b, o + 112 + 44, 0x0C);
    put32(&mut b, o + 112 + 48, 0x1040);
    put32(&mut b, o + 112 + 52, 28);
    // Section table.
    put_section(&mut b, 0x148, b".text", 0x100, 0x1000, 0x200, 0x200, 0x6000_0020);
    put_section(&mut b, 0x170, b".reloc", 0x0C, 0x2000, 0x200, 0x400, 0x4200_0040);
    put_section(&mut b, 0x198, b".rsrc", 0x200, 0x3000, 0x200, 0x600, 0x4000_0040);
    // .text: an absolute address, then the debug directory and its CodeView record.
    put64(&mut b, 0x200, POINTED_VALUE);
    put32(&mut b, 0x240 + 12, 2);
    put32(&mut b, 0x240 + 16, 24 + PDB_NAME.len() as u32);
    put32(&mut b, 0x240 + 20, 0x1080);
    put32(&mut b, 0x240 + 24, 0x280);
    put32(&mut b, 0x280, 0x5344_5352);
    b[0x298..0x298 + PDB_NAME.len()].copy_from_slice(PDB_NAME);
    // .reloc: one block for the page at 0x1000 with a 64-bit entry and a padding entry.
    put32(&mut b, 0x400, 0x1000);
    put32(&mut b, 0x404, 0x0C);
    put16(&mut b, 0x408, 0xA000);
    put16(&mut b, 0x40A, 0x0000);
    // .rsrc: a root directory with one named entry `HII` pointing at a data entry.
    put16(&mut b, 0x600 + 12, 1);
    put32(&mut b, 0x610, 0x8000_0030);
    put32(&mut b, 0x614, 0x40);
    put16(&mut b, 0x630, 3);
    b[0x632..0x638].copy_from_slice(&[0x48, 0x00, 0x49, 0x00, 0x49, 0x00]);
    put32(&mut b, 0x640, 0x3100);
    put32(&mut b, 0x644, 0x20);
    b
}

fn loaded_small_image() -> Vec<u8> {
    let image = small_pe_image();
    let info = pe32_get_image_info(&image).unwrap();
    let mut loaded = vec![0xAAu8; info.size_of_image as usize];
    pe32_load_image(&image, &mut loaded).unwrap();
    loaded
}

#[test]
fn image_info_of_a_small_image() {
    let image = small_pe_image();
    let info = pe32_get_image_info(&image).unwrap();
    assert_eq!(info.entry_point_offset, 0x1000);
    assert_eq!(info.image_type, 0x0B);
    assert_eq!(info.size_of_image, 0x4000);
    assert_eq!(info.section_alignment, 0x1000);
    assert_eq!(info.filename, Some(String::from("RustFfiTestDxe.efi")));
}

#[test]
fn garbage_is_not_an_image() {
    let garbage = vec![0x11u8; 0x100];
    assert!(matches!(pe32_get_image_info(&garbage), Err(Pe32Error::ParseError(PeParseError::Goblin))));
    let mut buffer = vec![7u8; 0x10];
    assert!(matches!(pe32_load_image(&garbage, &mut buffer), Err(Pe32Error::ParseError(PeParseError::Goblin))));
    assert_eq!(buffer, vec![7u8; 0x10]);
    assert!(matches!(pe32_load_resource_section(&garbage), Err(Pe32Error::ParseError(PeParseError::Goblin))));
    assert!(!pe32_relocation_supported(0x1000, &garbage));
}

#[test]
fn loading_copies_headers_and_sections() {
    let image = small_pe_image();
    let loaded = loaded_small_image();
    assert_eq!(loaded.len(), 0x4000);
    assert_eq!(&loaded[0..0x200], &image[0..0x200]);
    assert!(loaded[0x200..0x1000].iter().all(|b| *b == 0));
    assert_eq!(&loaded[0x1000..0x1100], &image[0x200..0x300]);
    assert!(loaded[0x1100..0x2000].iter().all(|b| *b == 0));
    assert_eq!(&loaded[0x2000..0x200C], &image[0x400..0x40C]);
    assert_eq!(&loaded[0x3000..0x3200], &image[0x600..0x800]);
}

#[test]
fn loaded_image_has_same_image_info_but_no_file_name() {
    let image = small_pe_image();
    let mut info = pe32_get_image_info(&image).unwrap();
    let loaded = loaded_small_image();
    let loaded_info = pe32_get_image_info(&loaded).unwrap();
    // The debug information is not loaded, so the file name is not found.
    info.filename = None;
    assert_eq!(info, loaded_info);
}

#[test]
fn loading_into_a_short_buffer_fails() {
    let image = small_pe_image();
    let mut short = vec![0xAAu8; 0x100];
    assert!(matches!(pe32_load_image(&image, &mut short), Err(Pe32Error::LoadError)));
    assert_eq!(short, vec![0u8; 0x100]);
    let mut too_small_for_sections = vec![0u8; 0x2000];
    assert!(matches!(pe32_load_image(&image, &mut too_small_for_sections), Err(Pe32Error::LoadError)));
}

#[test]
fn relocation_rebases_and_patches_the_fixup() {
    let mut loaded = loaded_small_image();
    let destination: usize = 0x2_0000_0000;
    assert!(pe32_relocation_supported(destination, &loaded));
    pe32_relocate_image(destination, &mut loaded).unwrap();
    assert_eq!(get64(&loaded, 0x70), destination as u64);
    assert_eq!(get64(&loaded, 0x1000), POINTED_VALUE - IMAGE_BASE + destination as u64);
}

#[test]
fn relocating_to_the_image_base_changes_nothing() {
    let mut loaded = loaded_small_image();
    let before = loaded.clone();
    pe32_relocate_image(IMAGE_BASE as usize, &mut loaded).unwrap();
    assert_eq!(loaded, before);
}

#[test]
fn relocating_back_restores_the_image() {
    let mut relocated_image = loaded_small_image();
    pe32_relocate_image(0x04158000, &mut relocated_image).unwrap();
    let mut relocated_image_copy = relocated_image.clone();
    pe32_relocate_image(0x80000415, &mut relocated_image_copy).unwrap();
    assert_ne!(relocated_image, relocated_image_copy);
    pe32_relocate_image(0x04158000, &mut relocated_image_copy).unwrap();
    assert_eq!(relocated_image, relocated_image_copy);
}

#[test]
fn try_relocate_refuses_an_unsupported_fixup() {
    let mut loaded = loaded_small_image();
    // A fixup of type 3 (32-bit) is not supported.
    put16(&mut loaded, 0x2008, 0x3000);
    let before = loaded.clone();
    assert!(!pe32_relocation_supported(0x2_0000_0000, &loaded));
    assert!(pe32_try_relocate_image(0x2_0000_0000, &mut loaded).is_none());
    assert_eq!(loaded, before);
    // Where the image does not move, nothing is read of the table.
    assert!(matches!(pe32_try_relocate_image(IMAGE_BASE as usize, &mut loaded), Some(Ok(()))));
}

#[test]
fn resource_section_finds_the_hii_data() {
    let image = small_pe_image();
    assert_eq!(pe32_load_resource_section(&image).unwrap(), Some((0x3100, 0x20)));
}

#[test]
fn resource_section_without_hii_name_is_none() {
    let mut image = small_pe_image();
    image[0x633] = 0x4A;
    assert_eq!(pe32_load_resource_section(&image).unwrap(), None);
}

#[test]
fn resource_section_with_a_name_past_the_section_is_too_short() {
    let mut image = small_pe_image();
    put32(&mut image, 0x610, 0x8000_0300);
    assert!(matches!(
        pe32_load_resource_section(&image),
        Err(Pe32Error::ParseError(PeParseError::BufferTooShort(0x300)))
    ));
}

fn summary_with(sections: Vec<PeSection>, header: Option<PeHeaderFields>) -> PeSummary {
    PeSummary { entry: 0x1000, pe_pointer: 0x40, optional_header: header, pdb_filename: None, sections }
}

fn header_fields() -> PeHeaderFields {
    PeHeaderFields {
        subsystem: 0x0B,
        size_of_image: 0x4000,
        section_alignment: 0x1000,
        size_of_headers: 0x200,
        image_base: IMAGE_BASE,
        base_relocation_table: Some((0x2000, 0x0C)),
    }
}

#[test]
fn image_info_from_a_summary() {
    let mut pe = summary_with(vec![], Some(header_fields()));
    pe.pdb_filename = Some(b"c:\\out\\Driver.pdb\0junk".to_vec());
    let info = image_info_from(&pe).unwrap();
    let mut expected = Pe32ImageInfo::new();
    expected.entry_point_offset = 0x1000;
    expected.image_type = 0x0B;
    expected.size_of_image = 0x4000;
    expected.section_alignment = 0x1000;
    expected.filename = Some(String::from("Driver.efi"));
    assert_eq!(info, expected);
    let no_header = summary_with(vec![], None);
    assert!(matches!(image_info_from(&no_header), Err(Pe32Error::NoOptionalHeader)));
}

#[test]
fn load_image_from_a_summary_copies_the_smaller_section_size() {
    let image: Vec<u8> = (0..0x40u32).map(|i| i as u8).collect();
    let mut header = header_fields();
    header.size_of_headers = 4;
    let section = PeSection {
        name: *b".data\0\0\0",
        virtual_size: 0x8,
        virtual_address: 0x10,
        size_of_raw_data: 0x20,
        pointer_to_raw_data: 0x20,
    };
    let pe = summary_with(vec![section], Some(header));
    let mut buffer = vec![0xFFu8; 0x20];
    load_image_from(&pe, &image, &mut buffer).unwrap();
    let mut expected = vec![0u8; 0x20];
    expected[0..4].copy_from_slice(&image[0..4]);
    expected[0x10..0x18].copy_from_slice(&image[0x20..0x28]);
    assert_eq!(buffer, expected);
}

#[test]
fn relocate_from_a_summary_without_a_table_only_rebases() {
    let mut loaded = loaded_small_image();
    let mut header = header_fields();
    header.base_relocation_table = None;
    let pe = summary_with(vec![], Some(header));
    relocate_image_from(&pe, 0x3_0000_0000, &mut loaded).unwrap();
    assert_eq!(get64(&loaded, 0x70), 0x3_0000_0000);
    assert_eq!(get64(&loaded, 0x1000), POINTED_VALUE);
}

#[test]
fn resource_from_a_summary_skips_other_sections() {
    let image = small_pe_image();
    let text = PeSection {
        name: *b".text\0\0\0",
        virtual_size: 0x100,
        virtual_address: 0x1000,
        size_of_raw_data: 0x200,
        pointer_to_raw_data: 0x200,
    };
    let rsrc = PeSection {
        name: *b".rsrc\0\0\0",
        virtual_size: 0x200,
        virtual_address: 0x3000,
        size_of_raw_data: 0x200,
        pointer_to_raw_data: 0x600,
    };
    let pe = summary_with(vec![text, rsrc], None);
    assert_eq!(resource_section_from(&pe, &image).unwrap(), Some((0x3100, 0x20)));
    let pe = summary_with(vec![text], None);
    assert_eq!(resource_section_from(&pe, &image).unwrap(), None);
}

#[test]
fn new_image_info_is_empty() {
    let info = Pe32ImageInfo::new();
    assert_eq!(info.entry_point_offset, 0);
    assert_eq!(info.image_type, 0);
    assert_eq!(info.size_of_image, 0);
    assert_eq!(info.section_alignment, 0);
    assert_eq!(info.filename, None);
}

#[test]
fn resource_section_finds_hii_in_a_later_named_entry() {
    let mut image = small_pe_image();
    // Two named entries: the first is named `ABC`, the second `HII`.
    put16(&mut image, 0x600 + 12, 2);
    put32(&mut image, 0x610, 0x8000_0050);
    put32(&mut image, 0x614, 0x40);
    put32(&mut image, 0x618, 0x8000_0030);
    put32(&mut image, 0x61C, 0x40);
    put16(&mut image, 0x650, 3);
    image[0x652..0x658].copy_from_slice(&[0x41, 0x00, 0x42, 0x00, 0x43, 0x00]);
    assert_eq!(pe32_load_resource_section(&image).unwrap(), Some((0x3100, 0x20)));
}

#[test]
fn a_file_name_that_is_not_utf8_gives_no_name() {
    let mut pe = summary_with(vec![], Some(header_fields()));
    pe.pdb_filename = Some(b"c:\\\xff\\Driver.pdb\0".to_vec());
    let info = image_info_from(&pe).unwrap();
    assert_eq!(info.filename, None);
    // Bytes after the first NUL are not read.
    pe.pdb_filename = Some(b"/x/Driver\0\xff".to_vec());
    assert_eq!(image_info_from(&pe).unwrap().filename, Some(String::from("Driver.efi")));
}
