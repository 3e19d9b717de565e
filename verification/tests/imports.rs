use static_malware_analysis::binary::Section;
use static_malware_analysis::entropy::Entropy;
use static_malware_analysis::imports::{parse_imports, read_cstr, rva_to_offset};

fn sec(va: u64, vsize: u64, ptr: u64, rsize: u64) -> Section {
    Section {
        name: "s".into(),
        virtual_addr: va,
        virtual_size: vsize,
        file_offset: ptr,
        file_size: rsize,
        readable: false,
        writable: false,
        executable: false,
        entropy: Entropy::zero(),
    }
}

#[test]
fn rva_maps_into_the_right_section() {
    // Section loads at RVA 0x1000, its bytes are at file offset 0x400.
    let sections = vec![sec(0x1000, 0x500, 0x400, 0x600)];
    assert_eq!(rva_to_offset(&sections, 0x1000), Some(0x400)); // start
    assert_eq!(rva_to_offset(&sections, 0x1100), Some(0x500)); // +0x100
    assert_eq!(rva_to_offset(&sections, 0x9999), None); // outside every section
}

#[test]
fn read_cstr_stops_at_nul() {
    let data = b"kernel32.dll\0garbage";
    assert_eq!(read_cstr(data, 0), "kernel32.dll");
}

// One section mapping RVA 0x1000.. onto file offset 0.., so RVA = offset + 0x1000.
fn flat_section() -> Vec<Section> {
    vec![sec(0x1000, 0x1000, 0, 0x1000)]
}

fn put32(b: &mut [u8], at: usize, v: u32) {
    b[at..at + 4].copy_from_slice(&v.to_le_bytes());
}
fn put64(b: &mut [u8], at: usize, v: u64) {
    b[at..at + 8].copy_from_slice(&v.to_le_bytes());
}

// An import directory with one DLL and two named functions. Names come from
// the INT at `int_rva`; the IAT is at `iat_rva`.
fn import_fixture(is_pe32_plus: bool, int_rva: u32, iat_rva: u32) -> Vec<u8> {
    let mut f = vec![0u8; 0x1000];
    // Descriptor at RVA 0x1000 (offset 0), then a zero terminator.
    put32(&mut f, 0, int_rva); // OriginalFirstThunk
    put32(&mut f, 12, 0x1900); // Name -> offset 0x900
    put32(&mut f, 16, iat_rva); // FirstThunk
    f[0x900..0x90c].copy_from_slice(b"KERNEL32.dll");

    // Thunks in the name table point at IMAGE_IMPORT_BY_NAME entries.
    let names = [(0x1700u32, "VirtualAlloc"), (0x1720u32, "ExitProcess")];
    let int_off = (int_rva - 0x1000) as usize;
    for (i, (rva, name)) in names.iter().enumerate() {
        let hint = (*rva - 0x1000) as usize;
        f[hint + 2..hint + 2 + name.len()].copy_from_slice(name.as_bytes());
        if is_pe32_plus {
            put64(&mut f, int_off + i * 8, *rva as u64);
        } else {
            put32(&mut f, int_off + i * 4, *rva);
        }
    }
    f
}

#[test]
fn iat_slots_come_from_first_thunk_not_the_name_table() {
    // The regression this guards: reading slot addresses from whichever
    // array supplied the names. Names live in the INT (0x1400), but code
    // calls through the IAT (0x1500), so every slot must be based at 0x1500.
    let f = import_fixture(true, 0x1400, 0x1500);
    let imports = parse_imports(&f, &flat_section(), true, 0x1000);

    assert_eq!(imports.len(), 1);
    assert_eq!(imports[0].dll, "KERNEL32.dll");
    let fns = &imports[0].functions;
    assert_eq!(fns.len(), 2);
    assert_eq!(fns[0].name, "VirtualAlloc");
    assert_eq!(fns[0].iat_rva, Some(0x1500));
    assert_eq!(fns[1].name, "ExitProcess");
    assert_eq!(fns[1].iat_rva, Some(0x1508)); // +8: PE32+ entries are 8 bytes
}

#[test]
fn pe32_slots_advance_by_four() {
    let f = import_fixture(false, 0x1400, 0x1500);
    let imports = parse_imports(&f, &flat_section(), false, 0x1000);
    let fns = &imports[0].functions;
    assert_eq!(fns[0].iat_rva, Some(0x1500));
    assert_eq!(fns[1].iat_rva, Some(0x1504));
}

#[test]
fn names_fall_back_to_the_iat_when_there_is_no_name_table() {
    // OriginalFirstThunk == 0: names must be read from the IAT, and the
    // slots still start at FirstThunk.
    let f = import_fixture(true, 0x1500, 0x1500);
    let mut g = f.clone();
    put32(&mut g, 0, 0); // OriginalFirstThunk = 0
    let imports = parse_imports(&g, &flat_section(), true, 0x1000);
    let fns = &imports[0].functions;
    assert_eq!(fns[0].name, "VirtualAlloc");
    assert_eq!(fns[0].iat_rva, Some(0x1500));
}

#[test]
fn ordinal_imports_keep_their_slot_and_number() {
    let mut f = import_fixture(true, 0x1400, 0x1500);
    put64(&mut f, 0x400, 0x8000_0000_0000_0000 | 42); // first INT entry -> ordinal 42
    let imports = parse_imports(&f, &flat_section(), true, 0x1000);
    let first = &imports[0].functions[0];
    assert_eq!(first.name, "#42");
    assert_eq!(first.ordinal, Some(42));
    assert_eq!(first.iat_rva, Some(0x1500));
}
