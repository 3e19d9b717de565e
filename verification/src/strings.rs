//! Printable strings in a buffer, and the indicators of compromise in them.
use crate::search::{
    contains, find, has, has_prefix, begins, is_decimal, is_first_at, is_letter, is_space, number,
    parse_number, space, stands_at,
};
use crate::text::{chars_of, lemma_models_push, lemma_views_push, models, same, sub_string, views};
use vstd::prelude::*;

verus! {

/// What an indicator of compromise is.
#[derive(Debug, Clone, Copy, PartialEq, Eq, Hash, Structural)]
pub enum IocKind {
    Url,
    Ipv4,
    RegistryKey,
    FilePath,
}

/// The name of a kind of indicator.
pub open spec fn kind_name(k: IocKind) -> Seq<char> {
    match k {
        IocKind::Url => "URL"@,
        IocKind::Ipv4 => "IPv4"@,
        IocKind::RegistryKey => "Registry"@,
        IocKind::FilePath => "Path"@,
    }
}

impl IocKind {
    pub fn name(&self) -> (r: &'static str)
        ensures
            r@ == kind_name(*self),
    {
        match self {
            IocKind::Url => "URL",
            IocKind::Ipv4 => "IPv4",
            IocKind::RegistryKey => "Registry",
            IocKind::FilePath => "Path",
        }
    }
}

/// One indicator of compromise.
#[derive(Debug, Clone)]
pub struct Ioc {
    pub kind: IocKind,
    pub value: String,
}

pub ghost struct IocModel {
    pub kind: IocKind,
    pub value: Seq<char>,
}

impl DeepView for Ioc {
    type V = IocModel;

    open spec fn deep_view(&self) -> IocModel {
        IocModel { kind: self.kind, value: self.value@ }
    }
}

/// What a scan for strings found.
#[derive(Debug, Clone)]
pub struct StringScan {
    pub ascii_count: usize,
    pub wide_count: usize,
    pub iocs: Vec<Ioc>,
}

pub ghost struct StringScanModel {
    pub ascii_count: usize,
    pub wide_count: usize,
    pub iocs: Seq<IocModel>,
}

impl DeepView for StringScan {
    type V = StringScanModel;

    open spec fn deep_view(&self) -> StringScanModel {
        StringScanModel {
            ascii_count: self.ascii_count,
            wide_count: self.wide_count,
            iocs: crate::text::models(self.iocs@),
        }
    }
}

impl Default for StringScan {
    fn default() -> (r: Self)
        ensures
            r.ascii_count == 0,
            r.wide_count == 0,
            r.iocs@.len() == 0,
    {
        StringScan { ascii_count: 0, wide_count: 0, iocs: Vec::new() }
    }
}

// ---------------------------------------------------------------------------
// Strings
// ---------------------------------------------------------------------------

/// The least length of a string that is reported.
pub const MIN_STRING: usize = 5;

/// The most indicators that a scan lists.
pub const MAX_IOCS: usize = 500;

/// A printable ASCII character.
pub open spec fn printable(b: u8) -> bool {
    0x20 <= b <= 0x7e
}

fn is_printable(b: u8) -> (r: bool)
    ensures
        r == printable(b),
{
    0x20 <= b && b <= 0x7e
}

/// Where the run of printable bytes at `i` ends.
pub open spec fn run_end(data: Seq<u8>, i: int) -> int
    decreases data.len() - i,
{
    if i < data.len() && printable(data[i]) {
        run_end(data, i + 1)
    } else {
        i
    }
}

/// The bytes from `a` to `b` as characters.
pub open spec fn run_text(data: Seq<u8>, a: int, b: int) -> Seq<char> {
    Seq::new((b - a) as nat, |k: int| data[a + k] as char)
}

pub proof fn lemma_run_end(data: Seq<u8>, i: int)
    requires
        0 <= i <= data.len(),
    ensures
        i <= run_end(data, i) <= data.len(),
        i < data.len() && printable(data[i]) ==> i < run_end(data, i),
        forall|k: int| i <= k < run_end(data, i) ==> printable(#[trigger] data[k]),
        run_end(data, i) < data.len() ==> !printable(data[run_end(data, i)]),
    decreases data.len() - i,
{
    if i < data.len() && printable(data[i]) {
        lemma_run_end(data, i + 1);
    }
}

/// The ASCII strings from `i` on: the longest runs of printable bytes, as far
/// as they have `min` bytes.
pub open spec fn ascii_from(data: Seq<u8>, min: int, i: int) -> Seq<Seq<char>>
    decreases data.len() - i,
    when 0 <= i
{
    if i >= data.len() {
        Seq::empty()
    } else if printable(data[i]) {
        proof {
            lemma_run_end(data, i);
        }
        let e = run_end(data, i);
        if e - i >= min {
            seq![run_text(data, i, e)] + ascii_from(data, min, e)
        } else {
            ascii_from(data, min, e)
        }
    } else {
        ascii_from(data, min, i + 1)
    }
}

/// A printable character of two bytes, the upper of which is zero.
pub open spec fn wide_char(data: Seq<u8>, i: int) -> bool {
    i + 1 < data.len() && printable(data[i]) && data[i + 1] == 0
}

/// Where the run of two-byte characters at `i` ends.
pub open spec fn wide_end(data: Seq<u8>, i: int) -> int
    decreases data.len() - i,
{
    if wide_char(data, i) {
        wide_end(data, i + 2)
    } else {
        i
    }
}

/// The characters of two bytes from `a` to `b`.
pub open spec fn wide_text(data: Seq<u8>, a: int, b: int) -> Seq<char> {
    Seq::new(((b - a) / 2) as nat, |k: int| data[a + 2 * k] as char)
}

pub proof fn lemma_wide_end(data: Seq<u8>, i: int)
    requires
        0 <= i <= data.len(),
    ensures
        i <= wide_end(data, i) <= data.len(),
        (wide_end(data, i) - i) % 2 == 0,
        wide_char(data, i) ==> i < wide_end(data, i),
        forall|k: int|
            0 <= k < (wide_end(data, i) - i) / 2 ==> printable(#[trigger] data[i + 2 * k]),
    decreases data.len() - i,
{
    if wide_char(data, i) {
        lemma_wide_end(data, i + 2);
        assert forall|k: int| 0 <= k < (wide_end(data, i) - i) / 2 implies printable(
            #[trigger] data[i + 2 * k],
        ) by {
            if k > 0 {
                assert(data[i + 2 * k] == data[(i + 2) + 2 * (k - 1)]);
            }
        }
    }
}

/// The UTF-16LE strings from `i` on: runs of printable two-byte characters, as
/// far as they have `min` characters.
pub open spec fn wide_from(data: Seq<u8>, min: int, i: int) -> Seq<Seq<char>>
    decreases data.len() - i,
    when 0 <= i
{
    if i + 1 >= data.len() {
        Seq::empty()
    } else if wide_char(data, i) {
        proof {
            lemma_wide_end(data, i);
        }
        let e = wide_end(data, i);
        if (e - i) / 2 >= min {
            seq![wide_text(data, i, e)] + wide_from(data, min, e)
        } else {
            wide_from(data, min, e)
        }
    } else {
        wide_from(data, min, i + 1)
    }
}

/// The ASCII strings of a buffer.
pub open spec fn ascii_strings(data: Seq<u8>, min: int) -> Seq<Seq<char>> {
    ascii_from(data, min, 0)
}

/// The UTF-16LE strings of a buffer.
pub open spec fn wide_strings(data: Seq<u8>, min: int) -> Seq<Seq<char>> {
    wide_from(data, min, 0)
}

// ---------------------------------------------------------------------------
// Indicators
// ---------------------------------------------------------------------------

/// Where a URL ends: at white space, a quote, an angle bracket or a closing
/// parenthesis.
pub open spec fn ends_url(c: char) -> bool {
    is_space(c) || c == '"' || c == '\'' || c == '<' || c == '>' || c == ')'
}

pub open spec fn url_end(s: Seq<char>, i: int) -> int
    decreases s.len() - i,
{
    if i < s.len() && !ends_url(s[i]) {
        url_end(s, i + 1)
    } else {
        i
    }
}

/// The URL at the first place where the scheme stands.
pub open spec fn url_with(s: Seq<char>, scheme: Seq<char>) -> Option<Seq<char>> {
    if contains(s, scheme) {
        let at = choose|k: int| is_first_at(s, scheme, k);
        Some(s.subrange(at, url_end(s, at)))
    } else {
        None
    }
}

/// The URL in a text, looked for by its scheme: https, else http, else ftp.
pub open spec fn url_in(s: Seq<char>) -> Option<Seq<char>> {
    if contains(s, "https://"@) {
        url_with(s, "https://"@)
    } else if contains(s, "http://"@) {
        url_with(s, "http://"@)
    } else {
        url_with(s, "ftp://"@)
    }
}

fn url_by_scheme(cs: &Vec<char>, scheme: &str) -> (r: Option<String>)
    ensures
        match r {
            Some(u) => url_with(cs@, scheme@) == Some(u@),
            None => !contains(cs@, scheme@),
        },
{
    let at = match find(cs, scheme) {
        Some(i) => i,
        None => {
            return None;
        },
    };
    proof {
        assert(stands_at(cs@, scheme@, at as int));
        let k = choose|k: int| is_first_at(cs@, scheme@, k);
        assert(is_first_at(cs@, scheme@, k));
        assert(k == at) by {
            if k < at {
                assert(!stands_at(cs@, scheme@, k));
            }
        }
    }
    let mut end: usize = at;
    while end < cs.len() && !(space(cs[end]) || cs[end] == '"' || cs[end] == '\'' || cs[end] == '<'
        || cs[end] == '>' || cs[end] == ')')
        invariant
            at <= end <= cs@.len(),
            url_end(cs@, at as int) == url_end(cs@, end as int),
        decreases cs@.len() - end,
    {
        end += 1;
    }
    Some(sub_string(cs, at, end))
}

/// The URL in a text, from its scheme to the first character that ends it.
pub fn find_url(s: &str) -> (r: Option<String>)
    ensures
        crate::binary::option_view(r) == url_in(s@),
{
    let cs = chars_of(s);
    if let Some(u) = url_by_scheme(&cs, "https://") {
        return Some(u);
    }
    if let Some(u) = url_by_scheme(&cs, "http://") {
        return Some(u);
    }
    url_by_scheme(&cs, "ftp://")
}

/// Text that names a registry key: a hive, or an autostart location.
pub open spec fn names_registry(s: Seq<char>) -> bool {
    ||| contains(s, "HKEY_"@)
    ||| contains(s, "HKLM"@)
    ||| contains(s, "HKCU"@)
    ||| contains(s, "HKCR"@)
    ||| contains(s, "CurrentVersion\\Run"@)
}

fn is_registry_key(s: &str) -> (r: bool)
    ensures
        r == names_registry(s@),
{
    has(s, "HKEY_") || has(s, "HKLM") || has(s, "HKCU") || has(s, "HKCR") || has(
        s,
        "CurrentVersion\\Run",
    )
}

/// A path on a drive, as in `C:\`, or one on a server, as in `\\server`.
pub open spec fn names_path(s: Seq<char>) -> bool {
    ||| s.len() >= 3 && is_letter(s[0]) && s[1] == ':' && s[2] == '\\'
    ||| begins(s, "\\\\"@)
}

/// Is the text a file path?
pub fn is_path(s: &str) -> (r: bool)
    ensures
        r == names_path(s@),
{
    let cs = chars_of(s);
    let drive = cs.len() >= 3 && (('a' <= cs[0] && cs[0] <= 'z') || ('A' <= cs[0] && cs[0] <= 'Z'))
        && cs[1] == ':' && cs[2] == '\\';
    drive || has_prefix(s, "\\\\")
}

/// What a text is cut at: dots, or all that is neither digit nor dot.
#[derive(Clone, Copy, PartialEq, Eq, Structural)]
pub enum Cut {
    Dots,
    NonAddress,
}

/// Is a text cut at this character?
pub open spec fn cuts(cut: Cut, c: char) -> bool {
    match cut {
        Cut::Dots => c == '.',
        Cut::NonAddress => !is_decimal(c) && c != '.',
    }
}

/// The pieces of a text, the first of which begins at `from` and has been
/// followed up to `i`.
pub open spec fn pieces_from(s: Seq<char>, cut: Cut, from: int, i: int) -> Seq<Seq<char>>
    decreases s.len() - i,
{
    if i >= s.len() {
        seq![s.subrange(from, s.len() as int)]
    } else if cuts(cut, s[i]) {
        seq![s.subrange(from, i)] + pieces_from(s, cut, i + 1, i + 1)
    } else {
        pieces_from(s, cut, from, i + 1)
    }
}

/// The pieces that a text falls into.
pub open spec fn pieces(s: Seq<char>, cut: Cut) -> Seq<Seq<char>> {
    pieces_from(s, cut, 0, 0)
}

fn split(s: &str, cut: Cut) -> (r: Vec<String>)
    ensures
        views(r@) == pieces(s@, cut),
{
    let cs = chars_of(s);
    let mut out: Vec<String> = Vec::new();
    let mut from: usize = 0;
    let ghost all = pieces(s@, cut);
    proof {
        assert(views(out@) + all =~= all);
    }
    for i in 0..cs.len()
        invariant
            cs@ == s@,
            from <= i,
            all == views(out@) + pieces_from(s@, cut, from as int, i as int),
    {
        let c = cs[i];
        let here = match cut {
            Cut::Dots => c == '.',
            Cut::NonAddress => !('0' <= c && c <= '9') && c != '.',
        };
        if here {
            let p = sub_string(&cs, from, i);
            proof {
                lemma_views_push(out@, p);
                let rest = pieces_from(s@, cut, i + 1, i + 1);
                assert(views(out@) + (seq![p@] + rest) =~= views(out@).push(p@) + rest);
            }
            out.push(p);
            from = i + 1;
        }
    }
    let p = sub_string(&cs, from, cs.len());
    proof {
        lemma_views_push(out@, p);
        assert(views(out@) + seq![p@] =~= views(out@).push(p@));
    }
    out.push(p);
    out
}

/// One of the four numbers of an IPv4 address.
pub open spec fn is_octet(p: Seq<char>) -> bool {
    0 < p.len() <= 3 && number(p, 10, 255) is Some
}

/// An IPv4 address: four dot-separated numbers, none above 255.
pub open spec fn is_address(s: Seq<char>) -> bool {
    let p = pieces(s, Cut::Dots);
    p.len() == 4 && is_octet(p[0]) && is_octet(p[1]) && is_octet(p[2]) && is_octet(p[3])
}

fn octet(p: &str) -> (r: bool)
    ensures
        r == is_octet(p@),
{
    let n = chars_of(p).len();
    0 < n && n <= 3 && parse_number(p, 10, 255).is_some()
}

/// Is the token an IPv4 address?
pub fn is_ipv4(token: &str) -> (r: bool)
    ensures
        r == is_address(token@),
{
    let p = split(token, Cut::Dots);
    proof {
        assert(forall|i: int| 0 <= i < p@.len() ==> (#[trigger] p@[i])@ == views(p@)[i]);
    }
    p.len() == 4 && octet(p[0].as_str()) && octet(p[1].as_str()) && octet(p[2].as_str()) && octet(
        p[3].as_str(),
    )
}

// ---------------------------------------------------------------------------
// Collecting
// ---------------------------------------------------------------------------

/// The list with one more indicator, unless it is full or lists it already.
pub open spec fn added(iocs: Seq<IocModel>, ioc: IocModel) -> Seq<IocModel> {
    if iocs.len() < MAX_IOCS && !iocs.contains(ioc) {
        iocs.push(ioc)
    } else {
        iocs
    }
}

fn add(iocs: &mut Vec<Ioc>, kind: IocKind, value: String)
    ensures
        models(final(iocs)@) == added(models(old(iocs)@), IocModel { kind, value: value@ }),
{
    let ghost before = models(iocs@);
    let ghost m = IocModel { kind, value: value@ };
    if iocs.len() >= MAX_IOCS {
        return;
    }
    for i in 0..iocs.len()
        invariant
            before == models(iocs@),
            m == (IocModel { kind, value: value@ }),
            forall|j: int| 0 <= j < i ==> models(iocs@)[j] != m,
    {
        proof {
            assert(models(iocs@)[i as int] == iocs@[i as int].deep_view());
        }
        if iocs[i].kind == kind && same(iocs[i].value.as_str(), value.as_str()) {
            proof {
                assert(before[i as int] == m);
            }
            return;
        }
    }
    let ioc = Ioc { kind, value };
    proof {
        lemma_models_push(iocs@, ioc);
        assert(!before.contains(m));
    }
    iocs.push(ioc);
}

/// The list with the URL of a text.
pub open spec fn with_url(iocs: Seq<IocModel>, s: Seq<char>) -> Seq<IocModel> {
    match url_in(s) {
        Some(u) => added(iocs, IocModel { kind: IocKind::Url, value: u }),
        None => iocs,
    }
}

/// The list with a text that is a registry key or else a path.
pub open spec fn with_place(iocs: Seq<IocModel>, s: Seq<char>) -> Seq<IocModel> {
    if names_registry(s) {
        added(iocs, IocModel { kind: IocKind::RegistryKey, value: s })
    } else if names_path(s) {
        added(iocs, IocModel { kind: IocKind::FilePath, value: s })
    } else {
        iocs
    }
}

/// The list with the addresses among the first `n` tokens.
pub open spec fn with_addresses(iocs: Seq<IocModel>, tokens: Seq<Seq<char>>, n: int) -> Seq<IocModel>
    decreases n,
{
    if n <= 0 {
        iocs
    } else if is_address(tokens[n - 1]) {
        added(
            with_addresses(iocs, tokens, n - 1),
            IocModel { kind: IocKind::Ipv4, value: tokens[n - 1] },
        )
    } else {
        with_addresses(iocs, tokens, n - 1)
    }
}

/// The list with the indicators of a text.
pub open spec fn classified(iocs: Seq<IocModel>, s: Seq<char>) -> Seq<IocModel> {
    let tokens = pieces(s, Cut::NonAddress);
    with_addresses(with_place(with_url(iocs, s), s), tokens, tokens.len() as int)
}

/// The list with the indicators of each text, in order.
pub open spec fn collected(iocs: Seq<IocModel>, texts: Seq<Seq<char>>) -> Seq<IocModel>
    decreases texts.len(),
{
    if texts.len() == 0 {
        iocs
    } else {
        collected(classified(iocs, texts[0]), texts.skip(1))
    }
}

proof fn lemma_full(iocs: Seq<IocModel>, s: Seq<char>)
    requires
        iocs.len() >= MAX_IOCS,
    ensures
        classified(iocs, s) == iocs,
{
    let tokens = pieces(s, Cut::NonAddress);
    lemma_full_addresses(iocs, tokens, tokens.len() as int);
}

proof fn lemma_full_addresses(iocs: Seq<IocModel>, tokens: Seq<Seq<char>>, n: int)
    requires
        iocs.len() >= MAX_IOCS,
    ensures
        with_addresses(iocs, tokens, n) == iocs,
    decreases n,
{
    if n > 0 {
        lemma_full_addresses(iocs, tokens, n - 1);
    }
}

/// Records the indicators of one string.
fn classify(s: &str, iocs: &mut Vec<Ioc>)
    ensures
        models(final(iocs)@) == classified(models(old(iocs)@), s@),
{
    if iocs.len() >= MAX_IOCS {
        proof {
            lemma_full(models(iocs@), s@);
        }
        return;
    }
    if let Some(url) = find_url(s) {
        self::add(iocs, IocKind::Url, url);
    }
    if is_registry_key(s) {
        self::add(iocs, IocKind::RegistryKey, s.to_string());
    } else if is_path(s) {
        self::add(iocs, IocKind::FilePath, s.to_string());
    }
    let tokens = split(s, Cut::NonAddress);
    let ghost before = models(iocs@);
    for i in 0..tokens.len()
        invariant
            models(iocs@) == with_addresses(before, views(tokens@), i as int),
    {
        proof {
            assert(views(tokens@)[i as int] == tokens@[i as int]@);
        }
        if is_ipv4(tokens[i].as_str()) {
            self::add(iocs, IocKind::Ipv4, tokens[i].clone());
        }
    }
}

/// What a scan for strings of at least `min` characters finds.
pub open spec fn scan_of(data: Seq<u8>, min: int) -> StringScanModel {
    StringScanModel {
        ascii_count: ascii_strings(data, min).len() as usize,
        wide_count: wide_strings(data, min).len() as usize,
        iocs: collected(
            collected(Seq::empty(), ascii_strings(data, min)),
            wide_strings(data, min),
        ),
    }
}

proof fn lemma_first(text: Seq<char>, rest: Seq<Seq<char>>)
    ensures
        (seq![text] + rest)[0] == text,
        (seq![text] + rest).skip(1) == rest,
        (seq![text] + rest).len() == 1 + rest.len(),
{
    assert((seq![text] + rest).skip(1) =~= rest);
}

fn scan_ascii(data: &[u8], min_len: usize, iocs: &mut Vec<Ioc>) -> (count: usize)
    ensures
        count == ascii_strings(data@, min_len as int).len(),
        models(final(iocs)@) == collected(
            models(old(iocs)@),
            ascii_strings(data@, min_len as int),
        ),
{
    let ghost start_iocs = models(iocs@);
    let mut count: usize = 0;
    let mut i: usize = 0;
    while i < data.len()
        invariant
            i <= data@.len(),
            count <= i,
            count + ascii_from(data@, min_len as int, i as int).len() == ascii_strings(
                data@,
                min_len as int,
            ).len(),
            collected(models(iocs@), ascii_from(data@, min_len as int, i as int)) == collected(
                start_iocs,
                ascii_strings(data@, min_len as int),
            ),
        decreases data@.len() - i,
    {
        if is_printable(data[i]) {
            let start = i;
            let mut s = String::new();
            proof {
                lemma_run_end(data@, start as int);
                assert(s@ =~= run_text(data@, start as int, i as int));
            }
            while i < data.len() && is_printable(data[i])
                invariant
                    start <= i <= data@.len(),
                    run_end(data@, start as int) == run_end(data@, i as int),
                    s@ == run_text(data@, start as int, i as int),
                decreases data@.len() - i,
            {
                s.push(data[i] as char);
                i += 1;
                proof {
                    assert(s@ =~= run_text(data@, start as int, i as int));
                }
            }
            if i - start >= min_len {
                proof {
                    lemma_first(s@, ascii_from(data@, min_len as int, i as int));
                }
                count += 1;
                classify(s.as_str(), iocs);
            }
        } else {
            i += 1;
        }
    }
    count
}

fn scan_wide(data: &[u8], min_len: usize, iocs: &mut Vec<Ioc>) -> (count: usize)
    ensures
        count == wide_strings(data@, min_len as int).len(),
        models(final(iocs)@) == collected(models(old(iocs)@), wide_strings(data@, min_len as int)),
{
    let ghost start_iocs = models(iocs@);
    let len = data.len();
    let mut count: usize = 0;
    let mut i: usize = 0;
    while i < len && len - i > 1
        invariant
            len == data@.len(),
            i <= len,
            count <= i,
            count + wide_from(data@, min_len as int, i as int).len() == wide_strings(
                data@,
                min_len as int,
            ).len(),
            collected(models(iocs@), wide_from(data@, min_len as int, i as int)) == collected(
                start_iocs,
                wide_strings(data@, min_len as int),
            ),
        decreases len - i,
    {
        if is_printable(data[i]) && data[i + 1] == 0 {
            let start = i;
            let mut n: usize = 0;
            let mut s = String::new();
            proof {
                lemma_wide_end(data@, start as int);
                assert(s@ =~= wide_text(data@, start as int, i as int));
            }
            while i < len && len - i > 1 && is_printable(data[i]) && data[i + 1] == 0
                invariant
                    len == data@.len(),
                    start <= i <= len,
                    i == start + 2 * n,
                    wide_end(data@, start as int) == wide_end(data@, i as int),
                    s@ == wide_text(data@, start as int, i as int),
                decreases len - i,
            {
                s.push(data[i] as char);
                i += 2;
                n += 1;
                proof {
                    assert(s@ =~= wide_text(data@, start as int, i as int));
                }
            }
            if n >= min_len {
                proof {
                    lemma_first(s@, wide_from(data@, min_len as int, i as int));
                }
                count += 1;
                classify(s.as_str(), iocs);
            }
        } else {
            i += 1;
        }
    }
    count
}

/// Scans a buffer for ASCII and UTF-16LE strings of at least `min_len`
/// characters, counts them, and extracts the indicators in each.
pub fn scan(data: &[u8], min_len: usize) -> (r: StringScan)
    ensures
        r.deep_view() == scan_of(data@, min_len as int),
{
    let mut iocs: Vec<Ioc> = Vec::new();
    proof {
        assert(models(iocs@) =~= Seq::<IocModel>::empty());
    }
    let ascii_count = scan_ascii(data, min_len, &mut iocs);
    let wide_count = scan_wide(data, min_len, &mut iocs);
    StringScan { ascii_count, wide_count, iocs }
}

} // verus!
