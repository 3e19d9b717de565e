use static_malware_analysis::binary::Section;
use static_malware_analysis::entropy::Entropy;
use static_malware_analysis::exports::{
    parse_exports, parse_tls_callbacks, ADDRESS_OF_FUNCTIONS, ADDRESS_OF_NAMES,
    ADDRESS_OF_NAME_ORDINALS, NUMBER_OF_FUNCTIONS, NUMBER_OF_NAMES, ORDINAL_BASE,
};

// One section mapping RVA 0x1000.. to file offset 0.., so RVA == offset + 0x1000.
fn one_section() -> Vec<Section> {
    vec![Section {
        name: ".rdata".into(),
        virtual_addr: 0x1000,
        virtual_size: 0x1000,
        file_offset: 0,
        file_size: 0x1000,
        readable: true,
        writable: false,
        executable: false,
        entropy: Entropy::zero(),
    }]
}

fn put32(buf: &mut [u8], at: usize, v: u32) {
    buf[at..at + 4].copy_from_slice(&v.to_le_bytes());
}
fn put16(buf: &mut [u8], at: usize, v: u16) {
    buf[at..at + 2].copy_from_slice(&v.to_le_bytes());
}

// Export directory at RVA 0x1000 (file offset 0) with one named export.
fn export_fixture() -> Vec<u8> {
    let mut f = vec![0u8; 0x1000];
    put32(&mut f, ORDINAL_BASE as usize, 1); // Base = 1
    put32(&mut f, NUMBER_OF_FUNCTIONS as usize, 1);
    put32(&mut f, NUMBER_OF_NAMES as usize, 1);
    put32(&mut f, ADDRESS_OF_FUNCTIONS as usize, 0x1100);
    put32(&mut f, ADDRESS_OF_NAMES as usize, 0x1200);
    put32(&mut f, ADDRESS_OF_NAME_ORDINALS as usize, 0x1300);

    put32(&mut f, 0x100, 0x2500); // function[0] RVA -> real code
    put32(&mut f, 0x200, 0x1400); // name[0] RVA -> the string
    put16(&mut f, 0x300, 0); // nameOrdinal[0] -> function index 0
    f[0x400..0x407].copy_from_slice(b"Install");
    f
}

#[test]
fn parses_a_named_export() {
    let f = export_fixture();
    let ex = parse_exports(&f, &one_section(), 0x1000, 0x400);
    assert_eq!(ex.len(), 1);
    assert_eq!(ex[0].name, "Install");
    assert_eq!(ex[0].rva, 0x2500);
    assert_eq!(ex[0].ordinal, 1);
    assert!(ex[0].forwarder.is_none());
}

#[test]
fn an_rva_inside_the_directory_is_a_forwarder_not_code() {
    let mut f = export_fixture();
    // Point function[0] at a string inside the directory's own range.
    put32(&mut f, 0x100, 0x1500);
    f[0x500..0x519].copy_from_slice(b"NTDLL.RtlAllocateHeap\0\0\0\0"[..0x19].as_ref());

    let ex = parse_exports(&f, &one_section(), 0x1000, 0x600);
    assert_eq!(ex.len(), 1);
    assert_eq!(ex[0].forwarder.as_deref(), Some("NTDLL.RtlAllocateHeap"));
}

#[test]
fn an_absent_export_directory_yields_nothing() {
    assert!(parse_exports(&[0u8; 64], &one_section(), 0, 0).is_empty());
}

#[test]
fn empty_ordinal_slots_are_skipped() {
    let mut f = export_fixture();
    put32(&mut f, NUMBER_OF_FUNCTIONS as usize, 3);
    // function[1] and function[2] stay zero => unused ordinals.
    let ex = parse_exports(&f, &one_section(), 0x1000, 0x400);
    assert_eq!(ex.len(), 1, "only the populated slot is an export");
}

#[test]
fn tls_callbacks_are_read_as_rvas() {
    // TLS directory at RVA 0x1000 (offset 0). AddressOfCallBacks at +24 for
    // PE32+, pointing at VA 0x140001100 => RVA 0x1100 => file offset 0x100.
    let base = 0x140000000u64;
    let mut f = vec![0u8; 0x1000];
    f[24..32].copy_from_slice(&(base + 0x1100).to_le_bytes());
    f[0x100..0x108].copy_from_slice(&(base + 0x2000).to_le_bytes());
    f[0x108..0x110].copy_from_slice(&(base + 0x3000).to_le_bytes());
    // f[0x110..] stays zero => end of the array.

    let cbs = parse_tls_callbacks(&f, &one_section(), true, 0x1000, base);
    assert_eq!(cbs, vec![0x2000, 0x3000]);
}

#[test]
fn an_absent_tls_directory_yields_nothing() {
    assert!(parse_tls_callbacks(&[0u8; 64], &one_section(), true, 0, 0).is_empty());
}
