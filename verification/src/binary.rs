//! The format-neutral model of an executable, and the questions asked of it.
use crate::entropy::{Entropy, FIVE, HIGH_ENTROPY, ONE, SEVEN, SEVEN_AND_A_HALF};
use crate::strings::{StringScan, StringScanModel};
use crate::text::{models, views};
use vstd::prelude::*;

verus! {

#[derive(Debug, Clone, Copy, PartialEq, Eq, Structural)]
pub enum Format {
    Pe,
    Elf,
}

/// The name of a file format.
pub open spec fn format_name(f: Format) -> Seq<char> {
    match f {
        Format::Pe => "PE (Windows)"@,
        Format::Elf => "ELF (Linux/Unix)"@,
    }
}

impl Format {
    pub fn name(&self) -> (r: &'static str)
        ensures
            r@ == format_name(*self),
    {
        match self {
            Format::Pe => "PE (Windows)",
            Format::Elf => "ELF (Linux/Unix)",
        }
    }
}

// ---------------------------------------------------------------------------
// Records
// ---------------------------------------------------------------------------

/// One imported function.
#[derive(Debug, Clone)]
pub struct ImportedFn {
    pub name: String,
    /// The import address table slot into which the loader writes the address
    /// of the function, and through which code calls it. None where it cannot
    /// be placed.
    pub iat_rva: Option<u64>,
    /// Imported by number rather than by name; `name` is then "#42".
    pub ordinal: Option<u16>,
}

pub ghost struct ImportedFnModel {
    pub name: Seq<char>,
    pub iat_rva: Option<u64>,
    pub ordinal: Option<u16>,
}

impl DeepView for ImportedFn {
    type V = ImportedFnModel;

    open spec fn deep_view(&self) -> ImportedFnModel {
        ImportedFnModel { name: self.name@, iat_rva: self.iat_rva, ordinal: self.ordinal }
    }
}

impl ImportedFn {
    /// A function known by name only, with no tracked slot.
    pub fn named(name: &str) -> (r: Self)
        ensures
            r.deep_view() == (ImportedFnModel { name: name@, iat_rva: None, ordinal: None }),
    {
        ImportedFn { name: name.to_string(), iat_rva: None, ordinal: None }
    }
}

/// A library and the functions imported from it.
#[derive(Debug, Clone)]
pub struct Import {
    pub dll: String,
    pub functions: Vec<ImportedFn>,
}

pub ghost struct ImportModel {
    pub dll: Seq<char>,
    pub functions: Seq<ImportedFnModel>,
}

impl DeepView for Import {
    type V = ImportModel;

    open spec fn deep_view(&self) -> ImportModel {
        ImportModel { dll: self.dll@, functions: models(self.functions@) }
    }
}

impl Import {
    /// Just the function names.
    pub fn names(&self) -> (r: Vec<&str>)
        ensures
            r@.len() == self.functions@.len(),
            forall|i: int| 0 <= i < r@.len() ==> (#[trigger] r@[i])@ == self.functions@[i].name@,
    {
        let mut out: Vec<&str> = Vec::new();
        for i in 0..self.functions.len()
            invariant
                out@.len() == i,
                forall|j: int| 0 <= j < i ==> (#[trigger] out@[j])@ == self.functions@[j].name@,
        {
            out.push(self.functions[i].name.as_str());
        }
        out
    }
}

/// A region of the file and its place in the loaded image.
#[derive(Debug, Clone)]
pub struct Section {
    pub name: String,
    pub virtual_addr: u64,
    pub virtual_size: u64,
    pub file_offset: u64,
    pub file_size: u64,
    pub readable: bool,
    pub writable: bool,
    pub executable: bool,
    pub entropy: Entropy,
}

pub ghost struct SectionModel {
    pub name: Seq<char>,
    pub virtual_addr: u64,
    pub virtual_size: u64,
    pub file_offset: u64,
    pub file_size: u64,
    pub readable: bool,
    pub writable: bool,
    pub executable: bool,
    pub entropy: Entropy,
}

impl DeepView for Section {
    type V = SectionModel;

    open spec fn deep_view(&self) -> SectionModel {
        SectionModel {
            name: self.name@,
            virtual_addr: self.virtual_addr,
            virtual_size: self.virtual_size,
            file_offset: self.file_offset,
            file_size: self.file_size,
            readable: self.readable,
            writable: self.writable,
            executable: self.executable,
            entropy: self.entropy,
        }
    }
}

/// A function that this binary offers to others.
#[derive(Debug, Clone)]
pub struct Export {
    pub name: String,
    pub rva: u64,
    pub ordinal: u16,
    /// A forwarded export names a function in another library instead of
    /// pointing at code here.
    pub forwarder: Option<String>,
}

pub ghost struct ExportModel {
    pub name: Seq<char>,
    pub rva: u64,
    pub ordinal: u16,
    pub forwarder: Option<Seq<char>>,
}

/// The characters of a string that may be missing.
pub open spec fn option_view(s: Option<String>) -> Option<Seq<char>> {
    match s {
        Some(t) => Some(t@),
        None => None,
    }
}

impl DeepView for Export {
    type V = ExportModel;

    open spec fn deep_view(&self) -> ExportModel {
        ExportModel {
            name: self.name@,
            rva: self.rva,
            ordinal: self.ordinal,
            forwarder: option_view(self.forwarder),
        }
    }
}

/// Bytes past the end of the last section, which no header describes.
#[derive(Debug, Clone)]
pub struct Overlay {
    pub file_offset: u64,
    pub size: u64,
    pub entropy: Entropy,
}

/// Metadata that only PE files have.
#[derive(Debug, Clone)]
pub struct PeMeta {
    /// COFF TimeDateStamp; 0 means stripped.
    pub timestamp: u32,
    /// Built reproducibly, so that `timestamp` is a content hash, not a date.
    pub reproducible_build: bool,
    pub subsystem: &'static str,
    /// Mitigations opted into at link time: ASLR, DEP, CFG, ...
    pub dll_characteristics: Vec<&'static str>,
    /// A .NET assembly: the native code is a thin loader stub.
    pub is_dotnet: bool,
    /// An Authenticode certificate is present; it is not verified.
    pub signed: bool,
    pub has_resources: bool,
    /// Code that runs before the entry point.
    pub tls_callbacks: Vec<u64>,
}

pub ghost struct PeMetaModel {
    pub timestamp: u32,
    pub reproducible_build: bool,
    pub subsystem: Seq<char>,
    pub dll_characteristics: Seq<Seq<char>>,
    pub is_dotnet: bool,
    pub signed: bool,
    pub has_resources: bool,
    pub tls_callbacks: Seq<u64>,
}

/// The characters of each of a sequence of string slices.
pub open spec fn str_views(s: Seq<&str>) -> Seq<Seq<char>> {
    Seq::new(s.len(), |i: int| s[i]@)
}

impl DeepView for PeMeta {
    type V = PeMetaModel;

    open spec fn deep_view(&self) -> PeMetaModel {
        PeMetaModel {
            timestamp: self.timestamp,
            reproducible_build: self.reproducible_build,
            subsystem: self.subsystem@,
            dll_characteristics: str_views(self.dll_characteristics@),
            is_dotnet: self.is_dotnet,
            signed: self.signed,
            has_resources: self.has_resources,
            tls_callbacks: self.tls_callbacks@,
        }
    }
}

impl Default for PeMeta {
    fn default() -> (r: Self)
        ensures
            r.deep_view() == (PeMetaModel {
                timestamp: 0,
                reproducible_build: false,
                subsystem: ""@,
                dll_characteristics: Seq::empty(),
                is_dotnet: false,
                signed: false,
                has_resources: false,
                tls_callbacks: Seq::empty(),
            }),
    {
        let r = PeMeta {
            timestamp: 0,
            reproducible_build: false,
            subsystem: "",
            dll_characteristics: Vec::new(),
            is_dotnet: false,
            signed: false,
            has_resources: false,
            tls_callbacks: Vec::new(),
        };
        proof {
            assert(str_views(r.dll_characteristics@) =~= Seq::<Seq<char>>::empty());
        }
        r
    }
}

/// An executable, whatever its format.
#[derive(Debug, Clone)]
pub struct Binary {
    pub format: Format,
    pub arch: &'static str,
    pub bits: u8,
    pub kind: &'static str,
    pub attributes: Vec<String>,
    pub entry_point: u64,
    pub image_base: u64,
    pub sections: Vec<Section>,
    pub imports: Vec<Import>,
    pub exports: Vec<Export>,
    pub overlay: Option<Overlay>,
    pub pe_meta: Option<PeMeta>,
    pub strings: StringScan,
}

pub ghost struct BinaryModel {
    pub format: Format,
    pub arch: Seq<char>,
    pub bits: u8,
    pub kind: Seq<char>,
    pub attributes: Seq<Seq<char>>,
    pub entry_point: u64,
    pub image_base: u64,
    pub sections: Seq<SectionModel>,
    pub imports: Seq<ImportModel>,
    pub exports: Seq<ExportModel>,
    pub overlay: Option<Overlay>,
    pub pe_meta: Option<PeMetaModel>,
    pub strings: StringScanModel,
}

pub open spec fn option_meta(m: Option<PeMeta>) -> Option<PeMetaModel> {
    match m {
        Some(p) => Some(p.deep_view()),
        None => None,
    }
}

impl DeepView for Binary {
    type V = BinaryModel;

    open spec fn deep_view(&self) -> BinaryModel {
        BinaryModel {
            format: self.format,
            arch: self.arch@,
            bits: self.bits,
            kind: self.kind@,
            attributes: views(self.attributes@),
            entry_point: self.entry_point,
            image_base: self.image_base,
            sections: models(self.sections@),
            imports: models(self.imports@),
            exports: models(self.exports@),
            overlay: self.overlay,
            pe_meta: option_meta(self.pe_meta),
            strings: self.strings.deep_view(),
        }
    }
}

// ---------------------------------------------------------------------------
// Sections
// ---------------------------------------------------------------------------

pub open spec fn greater(a: int, b: int) -> int {
    if a >= b {
        a
    } else {
        b
    }
}

pub open spec fn lesser(a: int, b: int) -> int {
    if a <= b {
        a
    } else {
        b
    }
}

/// The bytes of a section as it is loaded: its size in memory or on disk,
/// whichever is greater.
pub open spec fn extent(s: SectionModel) -> int {
    greater(s.virtual_size as int, s.file_size as int)
}

/// Does the loaded section hold the virtual address?
pub open spec fn holds_address(s: SectionModel, va: int) -> bool {
    s.virtual_addr <= va < s.virtual_addr + extent(s)
}

/// The first section from index `i` on that holds the address.
pub open spec fn section_index_from(secs: Seq<SectionModel>, va: int, i: int) -> Option<int>
    decreases secs.len() - i,
{
    if i >= secs.len() {
        None
    } else if holds_address(secs[i], va) {
        Some(i)
    } else {
        section_index_from(secs, va, i + 1)
    }
}

/// The first section that holds the address.
pub open spec fn section_holding(secs: Seq<SectionModel>, va: int) -> Option<SectionModel> {
    match section_index_from(secs, va, 0) {
        Some(i) => Some(secs[i]),
        None => None,
    }
}

/// A file offset that the machine can hold as an index.
pub open spec fn as_index(offset: int) -> Option<usize> {
    if offset <= usize::MAX {
        Some(offset as usize)
    } else {
        None
    }
}

/// Where the byte at a virtual address lies in the file: in the first section
/// that holds the address, provided that part of it is on disk.
pub open spec fn file_offset_of(secs: Seq<SectionModel>, va: int) -> Option<usize> {
    match section_holding(secs, va) {
        Some(s) => if va - s.virtual_addr < s.file_size {
            as_index(s.file_offset + (va - s.virtual_addr))
        } else {
            None
        },
        None => None,
    }
}

/// The part of a buffer that starts at `offset` and is `size` long, as far as
/// the buffer reaches.
pub open spec fn clamped(data: Seq<u8>, offset: int, size: int) -> Seq<u8> {
    let start = lesser(offset, data.len() as int);
    data.subrange(start, lesser(start + size, data.len() as int))
}

/// Executable memory of high entropy.
pub open spec fn likely_packed(s: SectionModel) -> bool {
    s.executable && s.entropy.bits() >= HIGH_ENTROPY
}

/// The likely packed ones among the first `n` sections, in order.
pub open spec fn packed_among(secs: Seq<SectionModel>, n: int) -> Seq<SectionModel>
    decreases n,
{
    if n <= 0 {
        Seq::empty()
    } else if likely_packed(secs[n - 1]) {
        packed_among(secs, n - 1).push(secs[n - 1])
    } else {
        packed_among(secs, n - 1)
    }
}

/// The likely packed sections, in order.
pub open spec fn packed(secs: Seq<SectionModel>) -> Seq<SectionModel> {
    packed_among(secs, secs.len() as int)
}

impl Section {
    pub fn is_readable(&self) -> (r: bool)
        ensures
            r == self.readable,
    {
        self.readable
    }

    pub fn is_writable(&self) -> (r: bool)
        ensures
            r == self.writable,
    {
        self.writable
    }

    pub fn is_executable(&self) -> (r: bool)
        ensures
            r == self.executable,
    {
        self.executable
    }

    pub fn is_writable_and_executable(&self) -> (r: bool)
        ensures
            r == (self.writable && self.executable),
    {
        self.writable && self.executable
    }

    pub fn is_high_entropy(&self) -> (r: bool)
        ensures
            r == (self.entropy.bits() >= HIGH_ENTROPY),
    {
        self.entropy.reaches(HIGH_ENTROPY)
    }

    pub fn is_likely_packed(&self) -> (r: bool)
        ensures
            r == likely_packed(self.deep_view()),
    {
        self.executable && self.is_high_entropy()
    }

    /// The bytes of this section that the file holds.
    pub fn on_disk_bytes<'a>(&self, file: &'a [u8]) -> (r: &'a [u8])
        ensures
            r@ == clamped(file@, self.file_offset as int, self.file_size as int),
    {
        clamped_slice(file, self.file_offset, self.file_size)
    }

    /// The size of the loaded section.
    pub fn loaded_size(&self) -> (r: u64)
        ensures
            r == extent(self.deep_view()),
    {
        if self.virtual_size >= self.file_size {
            self.virtual_size
        } else {
            self.file_size
        }
    }
}

/// The part of `data` that starts at `offset` and is `size` long, as far as
/// the data reaches.
pub fn clamped_slice(data: &[u8], offset: u64, size: u64) -> (r: &[u8])
    ensures
        r@ == clamped(data@, offset as int, size as int),
{
    let len = data.len();
    let start: usize = if offset > len as u64 {
        len
    } else {
        offset as usize
    };
    let end: usize = if size > (len - start) as u64 {
        len
    } else {
        start + size as usize
    };
    &data[start..end]
}

/// The first section that holds the address, by its index.
pub fn section_index(sections: &[Section], va: u64) -> (r: Option<usize>)
    ensures
        match r {
            Some(i) => i < sections@.len() && section_index_from(models(sections@), va as int, 0)
                == Some(i as int),
            None => section_index_from(models(sections@), va as int, 0) is None,
        },
{
    for i in 0..sections.len()
        invariant
            section_index_from(models(sections@), va as int, 0) == section_index_from(
                models(sections@),
                va as int,
                i as int,
            ),
    {
        let s = &sections[i];
        proof {
            assert(models(sections@)[i as int] == s.deep_view());
        }
        if va >= s.virtual_addr && va - s.virtual_addr < s.loaded_size() {
            return Some(i);
        }
    }
    None
}

impl Binary {
    /// The sections that are executable and of high entropy.
    pub fn packed_sections(&self) -> (r: Vec<&Section>)
        ensures
            models(r@) == packed(models(self.sections@)),
    {
        let mut out: Vec<&Section> = Vec::new();
        proof {
            assert(models(out@) =~= Seq::<SectionModel>::empty());
        }
        for i in 0..self.sections.len()
            invariant
                models(out@) == packed_among(models(self.sections@), i as int),
        {
            let s = &self.sections[i];
            proof {
                assert(models(self.sections@)[i as int] == s.deep_view());
                crate::text::lemma_models_push(out@, s);
            }
            if s.is_likely_packed() {
                out.push(s);
            }
        }
        out
    }

    /// How many functions are imported, over all libraries.
    pub fn total_imported_functions(&self) -> (r: usize)
        ensures
            r == total_functions(models(self.imports@)),
    {
        let mut total: usize = 0;
        for i in 0..self.imports.len()
            invariant
                total == lesser(
                    functions_among(models(self.imports@), i as int),
                    usize::MAX as int,
                ),
        {
            proof {
                lemma_functions_among_positive(models(self.imports@), i as int);
                assert(models(self.imports@)[i as int].functions.len()
                    == self.imports@[i as int].functions@.len());
            }
            total = total.saturating_add(self.imports[i].functions.len());
        }
        total
    }

    /// The section that holds a virtual address (PE: RVA; ELF: vaddr).
    pub fn section_at(&self, va: u64) -> (r: Option<&Section>)
        ensures
            match r {
                Some(s) => section_holding(models(self.sections@), va as int) == Some(
                    s.deep_view(),
                ),
                None => section_holding(models(self.sections@), va as int) is None,
            },
    {
        match section_index(self.sections.as_slice(), va) {
            Some(i) => Some(&self.sections[i]),
            None => None,
        }
    }

    /// The file offset of a virtual address. None where the address is in no
    /// section, where it lands in the part of a section that has no bytes on
    /// disk, and where the offset is beyond what an index can hold.
    pub fn va_to_file_offset(&self, va: u64) -> (r: Option<usize>)
        ensures
            r == file_offset_of(models(self.sections@), va as int),
    {
        let s = match self.section_at(va) {
            Some(s) => s,
            None => {
                return None;
            },
        };
        proof {
            lemma_section_index(models(self.sections@), va as int, 0);
        }
        let delta = va - s.virtual_addr;
        if delta >= s.file_size {
            return None;
        }
        offset_index(s.file_offset, delta)
    }

    /// Code that runs before the entry point; none for a format without such.
    pub fn tls_callbacks(&self) -> (r: &[u64])
        ensures
            r@ == callbacks_of(option_meta(self.pe_meta)),
    {
        match &self.pe_meta {
            Some(m) => m.tls_callbacks.as_slice(),
            None => {
                let none: &[u64] = &[];
                proof {
                    assert(none@ =~= Seq::<u64>::empty());
                }
                none
            },
        }
    }

    pub fn is_dotnet(&self) -> (r: bool)
        ensures
            r == managed(option_meta(self.pe_meta)),
    {
        match &self.pe_meta {
            Some(m) => m.is_dotnet,
            None => false,
        }
    }
}

/// The TLS callbacks that the metadata lists.
pub open spec fn callbacks_of(m: Option<PeMetaModel>) -> Seq<u64> {
    match m {
        Some(p) => p.tls_callbacks,
        None => Seq::empty(),
    }
}

/// Does the metadata call this a .NET assembly?
pub open spec fn managed(m: Option<PeMetaModel>) -> bool {
    match m {
        Some(p) => p.is_dotnet,
        None => false,
    }
}

/// The sum of a file offset and a distance, as an index.
pub fn offset_index(offset: u64, delta: u64) -> (r: Option<usize>)
    ensures
        r == as_index(offset + delta),
{
    match offset.checked_add(delta) {
        Some(o) => if o > usize::MAX as u64 {
            None
        } else {
            Some(o as usize)
        },
        None => None,
    }
}

/// A section that is found holds the address, and none before it does.
pub proof fn lemma_section_index(secs: Seq<SectionModel>, va: int, i: int)
    requires
        0 <= i,
    ensures
        match section_index_from(secs, va, i) {
            Some(k) => i <= k < secs.len() && holds_address(secs[k], va) && forall|j: int|
                i <= j < k ==> !holds_address(#[trigger] secs[j], va),
            None => forall|j: int|
                i <= j < secs.len() ==> !holds_address(#[trigger] secs[j], va),
        },
    decreases secs.len() - i,
{
    if i < secs.len() && !holds_address(secs[i], va) {
        lemma_section_index(secs, va, i + 1);
    }
}

/// The functions imported from the first `n` libraries.
pub open spec fn functions_among(imports: Seq<ImportModel>, n: int) -> int
    decreases n,
{
    if n <= 0 {
        0
    } else {
        functions_among(imports, n - 1) + imports[n - 1].functions.len()
    }
}

/// The functions imported from all libraries, as far as a machine word counts.
pub open spec fn total_functions(imports: Seq<ImportModel>) -> int {
    lesser(functions_among(imports, imports.len() as int), usize::MAX as int)
}

pub proof fn lemma_functions_among_positive(imports: Seq<ImportModel>, n: int)
    ensures
        functions_among(imports, n) >= 0,
    decreases n,
{
    if n > 0 {
        lemma_functions_among_positive(imports, n - 1);
    }
}

// ---------------------------------------------------------------------------
// The overlay
// ---------------------------------------------------------------------------

/// Where the bytes of a section end in the file, as far as 64 bits count.
pub open spec fn raw_end(s: SectionModel) -> int {
    lesser(s.file_offset + s.file_size, u64::MAX as int)
}

/// The greatest raw end among the first `n` sections that have bytes on disk.
pub open spec fn described_end(secs: Seq<SectionModel>, n: int) -> int
    decreases n,
{
    if n <= 0 {
        0
    } else if secs[n - 1].file_size > 0 {
        greater(described_end(secs, n - 1), raw_end(secs[n - 1]))
    } else {
        described_end(secs, n - 1)
    }
}

/// Where an overlay that starts at `start` ends: at a signature behind it, else
/// at the end of the file.
pub open spec fn overlay_end(len: int, start: int, signature: Option<(u64, u64)>) -> int {
    match signature {
        Some((offset, size)) => if size > 0 && offset >= start {
            lesser(len, offset as int)
        } else {
            len
        },
        None => len,
    }
}

/// The place and size of the bytes that follow the last section and precede the
/// signature.
pub open spec fn overlay_of(
    len: int,
    secs: Seq<SectionModel>,
    signature: Option<(u64, u64)>,
) -> Option<(int, int)> {
    let start = described_end(secs, secs.len() as int);
    let end = overlay_end(len, start, signature);
    if start == 0 || start >= len || start >= end {
        None
    } else {
        Some((start, end - start))
    }
}

/// An overlay whose entropy has not been measured.
pub open spec fn unmeasured_overlay(place: Option<(int, int)>) -> Option<Overlay> {
    match place {
        Some((start, size)) => Some(
            Overlay {
                file_offset: start as u64,
                size: size as u64,
                entropy: Entropy::of_bits(0),
            },
        ),
        None => None,
    }
}

/// Bytes past the end of every section. `signature` is the certificate table's
/// file offset and size: a signature also lies past the last section, and is
/// no overlay. The entropy of the overlay is left at zero until it is measured.
pub fn find_overlay(file: &[u8], sections: &[Section], signature: Option<(u64, u64)>) -> (r: Option<
    Overlay,
>)
    ensures
        r == unmeasured_overlay(overlay_of(file@.len() as int, models(sections@), signature)),
{
    let mut start: u64 = 0;
    for i in 0..sections.len()
        invariant
            start == described_end(models(sections@), i as int),
    {
        let s = &sections[i];
        proof {
            assert(models(sections@)[i as int] == s.deep_view());
        }
        if s.file_size > 0 {
            let end = s.file_offset.saturating_add(s.file_size);
            if end > start {
                start = end;
            }
        }
    }
    let len = file.len() as u64;
    if start == 0 || start >= len {
        return None;
    }
    let mut end: u64 = len;
    if let Some((offset, size)) = signature {
        if size > 0 && offset >= start && offset < end {
            end = offset;
        }
    }
    if start >= end {
        return None;
    }
    Some(Overlay { file_offset: start, size: end - start, entropy: Entropy::zero() })
}

// ---------------------------------------------------------------------------
// Entropy
// ---------------------------------------------------------------------------

/// What an entropy suggests about the bytes.
pub open spec fn entropy_reading(e: Entropy) -> Seq<char> {
    if e.bits() >= SEVEN_AND_A_HALF {
        "packed/encrypted?"@
    } else if e.bits() >= SEVEN {
        "compressed?"@
    } else if e.bits() >= FIVE {
        "code/data"@
    } else if e.bits() >= ONE {
        "structured"@
    } else {
        "uniform/empty"@
    }
}

pub fn entropy_label(entropy: Entropy) -> (r: &'static str)
    ensures
        r@ == entropy_reading(entropy),
{
    if entropy.reaches(SEVEN_AND_A_HALF) {
        "packed/encrypted?"
    } else if entropy.reaches(SEVEN) {
        "compressed?"
    } else if entropy.reaches(FIVE) {
        "code/data"
    } else if entropy.reaches(ONE) {
        "structured"
    } else {
        "uniform/empty"
    }
}

/// The section with another entropy.
pub open spec fn with_entropy(s: SectionModel, e: Entropy) -> SectionModel {
    SectionModel { entropy: e, ..s }
}

impl Binary {
    /// Records the measured entropy of each section, in order, and of the
    /// overlay where there is one. A section without a measurement keeps what
    /// it has.
    pub fn record_entropy(&mut self, sections: &[Entropy], overlay: Entropy)
        ensures
            final(self).deep_view() == (BinaryModel {
                sections: Seq::new(
                    old(self).sections@.len(),
                    |i: int|
                        if i < sections@.len() {
                            with_entropy(old(self).sections@[i].deep_view(), sections@[i])
                        } else {
                            old(self).sections@[i].deep_view()
                        },
                ),
                overlay: match old(self).overlay {
                    Some(o) => Some(Overlay { entropy: overlay, ..o }),
                    None => None,
                },
                ..old(self).deep_view()
            }),
    {
        let ghost was = self.deep_view();
        let n = self.sections.len();
        for i in 0..n
            invariant
                n == self.sections@.len(),
                was == old(self).deep_view(),
                n == old(self).sections@.len(),
                forall|j: int|
                    0 <= j < n ==> (#[trigger] self.sections@[j]).deep_view() == (if j < i && j
                        < sections@.len() {
                        with_entropy(old(self).sections@[j].deep_view(), sections@[j])
                    } else {
                        old(self).sections@[j].deep_view()
                    }),
                self.deep_view() == (BinaryModel { sections: models(self.sections@), ..was }),
        {
            if i < sections.len() {
                self.sections[i].entropy = sections[i];
            }
        }
        if let Some(o) = &self.overlay {
            self.overlay = Some(
                Overlay { file_offset: o.file_offset, size: o.size, entropy: overlay },
            );
        }
        proof {
            assert(models(self.sections@) =~= Seq::new(
                old(self).sections@.len(),
                |i: int|
                    if i < sections@.len() {
                        with_entropy(old(self).sections@[i].deep_view(), sections@[i])
                    } else {
                        old(self).sections@[i].deep_view()
                    },
            ));
        }
    }
}

// ---------------------------------------------------------------------------
// Laws
// ---------------------------------------------------------------------------

/// A file offset that an address maps to lies among the bytes that the file
/// holds of a section that holds the address.
pub proof fn law_mapped_offset_is_on_disk(secs: Seq<SectionModel>, va: int)
    ensures
        file_offset_of(secs, va) matches Some(off) ==> exists|i: int|
            0 <= i < secs.len() && holds_address(#[trigger] secs[i], va) && secs[i].file_offset
                <= off < secs[i].file_offset + secs[i].file_size && off - secs[i].file_offset == va
                - secs[i].virtual_addr,
{
    lemma_section_index(secs, va, 0);
    if let Some(k) = section_index_from(secs, va, 0) {
        assert(holds_address(secs[k], va));
    }
}

proof fn lemma_described_end(secs: Seq<SectionModel>, n: int, i: int)
    requires
        0 <= i < n <= secs.len(),
    ensures
        secs[i].file_size > 0 ==> raw_end(secs[i]) <= described_end(secs, n),
    decreases n,
{
    if i < n - 1 {
        lemma_described_end(secs, n - 1, i);
    }
}

/// An overlay lies in the file, is not empty, starts behind the bytes of every
/// section, and takes in nothing of a signature that follows it.
pub proof fn law_overlay_is_unexplained(
    len: int,
    secs: Seq<SectionModel>,
    signature: Option<(u64, u64)>,
)
    ensures
        overlay_of(len, secs, signature) matches Some((start, size)) ==> {
            &&& 0 < start && 0 < size && start + size <= len
            &&& forall|i: int|
                0 <= i < secs.len() && (#[trigger] secs[i]).file_size > 0 ==> raw_end(secs[i])
                    <= start
            &&& signature matches Some((offset, n)) ==> n == 0 || offset < start || start + size
                <= offset
        },
{
    lemma_ends_not_negative(secs, secs.len() as int);
    assert forall|i: int| 0 <= i < secs.len() && (#[trigger] secs[i]).file_size > 0 implies raw_end(
        secs[i],
    ) <= described_end(secs, secs.len() as int) by {
        lemma_described_end(secs, secs.len() as int, i);
    }
}

proof fn lemma_ends_not_negative(secs: Seq<SectionModel>, n: int)
    ensures
        described_end(secs, n) >= 0,
    decreases n,
{
    if n > 0 {
        lemma_ends_not_negative(secs, n - 1);
    }
}

/// Measuring the entropy of a file changes nothing that an address maps to.
pub proof fn law_entropy_moves_nothing(secs: Seq<SectionModel>, i: int, e: Entropy, va: int)
    requires
        0 <= i < secs.len(),
    ensures
        file_offset_of(secs.update(i, with_entropy(secs[i], e)), va) == file_offset_of(secs, va),
{
    lemma_same_places(secs, i, e, va, 0);
    lemma_section_index(secs, va, 0);
}

proof fn lemma_same_places(secs: Seq<SectionModel>, i: int, e: Entropy, va: int, from: int)
    requires
        0 <= i < secs.len(),
        0 <= from,
    ensures
        section_index_from(secs.update(i, with_entropy(secs[i], e)), va, from)
            == section_index_from(secs, va, from),
    decreases secs.len() - from,
{
    if from < secs.len() {
        lemma_same_places(secs, i, e, va, from + 1);
    }
}

} // verus!
