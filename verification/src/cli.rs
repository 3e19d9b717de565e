//! The command line: one verb, one artifact.
use crate::binary::option_view;
use crate::hexdump::{HexWindow, HexWindowModel};
use crate::search::{
    after, begins, either_number, has_prefix, is_hex, number, parse_either, parse_number, strip,
    trim, trimmed,
};
use crate::text::{chars_of, dec, decimal, join, joined, lemma_views_push, same, views};
use vstd::prelude::*;

verus! {

pub const VERSION: &'static str = "0.1.0";

pub const DEFAULT_HEX_LEN: usize = 256;

/// Only where an address narrows the listing.
pub const DEFAULT_DISASM_COUNT: usize = 100;

pub const HINT: &'static str = "try: sma --help";

/// What a command line asks for.
#[derive(Debug, Clone, PartialEq, Eq)]
pub enum Command {
    /// Triage report: headers, sections, imports, strings, limits.
    Scan { path: String, json: bool },
    /// Inventory of functions and the APIs each one reaches.
    Functions { path: String, json: bool },
    /// Control-flow graph of a single function.
    Cfg { path: String, addr: Option<u64>, dot: bool },
    /// Flat instruction listing.
    Disasm { path: String, addr: Option<u64>, count: Option<usize>, section: Option<String> },
    /// A window of raw bytes.
    Hex { path: String, window: HexWindow, len: Option<usize> },
}

#[derive(Debug, Clone, PartialEq, Eq)]
pub enum Invocation {
    Run(Command),
    Help,
    Version,
}

pub ghost enum CommandModel {
    Scan { path: Seq<char>, json: bool },
    Functions { path: Seq<char>, json: bool },
    Cfg { path: Seq<char>, addr: Option<u64>, dot: bool },
    Disasm {
        path: Seq<char>,
        addr: Option<u64>,
        count: Option<usize>,
        section: Option<Seq<char>>,
    },
    Hex { path: Seq<char>, window: HexWindowModel, len: Option<usize> },
}

pub ghost enum InvocationModel {
    Run(CommandModel),
    Help,
    Version,
}

impl DeepView for Command {
    type V = CommandModel;

    open spec fn deep_view(&self) -> CommandModel {
        match self {
            Command::Scan { path, json } => CommandModel::Scan { path: path@, json: *json },
            Command::Functions { path, json } => CommandModel::Functions {
                path: path@,
                json: *json,
            },
            Command::Cfg { path, addr, dot } => CommandModel::Cfg {
                path: path@,
                addr: *addr,
                dot: *dot,
            },
            Command::Disasm { path, addr, count, section } => CommandModel::Disasm {
                path: path@,
                addr: *addr,
                count: *count,
                section: option_view(*section),
            },
            Command::Hex { path, window, len } => CommandModel::Hex {
                path: path@,
                window: window.deep_view(),
                len: *len,
            },
        }
    }
}

impl DeepView for Invocation {
    type V = InvocationModel;

    open spec fn deep_view(&self) -> InvocationModel {
        match self {
            Invocation::Run(c) => InvocationModel::Run(c.deep_view()),
            Invocation::Help => InvocationModel::Help,
            Invocation::Version => InvocationModel::Version,
        }
    }
}

// ---------------------------------------------------------------------------
// Verbs and flags
// ---------------------------------------------------------------------------

pub const VERBS: [&'static str; 5] = ["scan", "functions", "cfg", "disasm", "hex"];

/// Each flag with a verb that it belongs to. The one source for what a verb
/// accepts and for what is said of a flag under the wrong verb.
pub const FLAG_OWNERS: [(&'static str, &'static str); 11] = [
    ("--json", "scan"),
    ("--json", "functions"),
    ("--addr", "cfg"),
    ("--addr", "disasm"),
    ("--dot", "cfg"),
    ("--count", "disasm"),
    ("--section", "disasm"),
    ("--section", "hex"),
    ("--at", "hex"),
    ("--headers", "hex"),
    ("--len", "hex"),
];

pub const USE_SCAN: &'static str = "use: sma scan <file>";

pub const USE_CFG: &'static str =
    "use: sma cfg <file> (one function), or sma disasm <file> (flat listing)";

pub const NO_DEBUG: &'static str =
    "removed. sma is static-only by design -- use a debugger (x64dbg, WinDbg) for dynamic\n       analysis. 'sma scan' now ends with a 'limits' section naming where static analysis stops.";

pub const NO_FULL: &'static str =
    "removed. Dumping every byte was never analysis. Use a window: sma hex <file> --at <rva>";

pub const NO_DUMP: &'static str =
    "removed. Per-section metadata is in 'sma scan'; raw bytes via: sma hex <file> --section <name>";

pub const USE_DISASM: &'static str =
    "use: sma disasm <file>  (with no --addr, that is every executable section)";

pub const USE_FUNCTIONS: &'static str = "renamed: sma functions <file>";

/// Flags that the tool no longer has, each with what to use instead.
pub const RETIRED: [(&'static str, &'static str); 11] = [
    ("-s", USE_SCAN),
    ("--scan", USE_SCAN),
    ("-d", USE_CFG),
    ("--disassemble", USE_CFG),
    ("-b", NO_DEBUG),
    ("--debug", NO_DEBUG),
    ("-f", NO_FULL),
    ("--full", NO_FULL),
    ("--dump-sections", NO_DUMP),
    ("--all", USE_DISASM),
    ("--calls", USE_FUNCTIONS),
];

/// Is this one of the verbs?
pub open spec fn is_verb(s: Seq<char>) -> bool {
    exists|i: int| 0 <= i < VERBS@.len() && (#[trigger] VERBS@[i])@ == s
}

fn verb_index(s: &str) -> (r: Option<usize>)
    ensures
        match r {
            Some(i) => i < VERBS@.len() && VERBS@[i as int]@ == s@,
            None => !is_verb(s@),
        },
{
    for i in 0..VERBS.len()
        invariant
            forall|j: int| 0 <= j < i ==> (#[trigger] VERBS@[j])@ != s@,
    {
        if same(VERBS[i], s) {
            return Some(i);
        }
    }
    None
}

/// Does the flag belong to the verb?
pub open spec fn belongs(flag: Seq<char>, verb: Seq<char>) -> bool {
    exists|i: int|
        0 <= i < FLAG_OWNERS@.len() && (#[trigger] FLAG_OWNERS@[i]).0@ == flag
            && FLAG_OWNERS@[i].1@ == verb
}

/// The verbs that the flag belongs to, by the first `n` entries.
pub open spec fn owners_among(flag: Seq<char>, n: int) -> Seq<Seq<char>>
    decreases n,
{
    if n <= 0 {
        Seq::empty()
    } else if FLAG_OWNERS@[n - 1].0@ == flag {
        owners_among(flag, n - 1).push(FLAG_OWNERS@[n - 1].1@)
    } else {
        owners_among(flag, n - 1)
    }
}

/// The verbs that the flag belongs to.
pub open spec fn owners_of(flag: Seq<char>) -> Seq<Seq<char>> {
    owners_among(flag, FLAG_OWNERS@.len() as int)
}

/// The advice on a retired flag, from entry `i` on.
pub open spec fn advice_from(flag: Seq<char>, i: int) -> Option<Seq<char>>
    decreases RETIRED@.len() - i,
{
    if i >= RETIRED@.len() {
        None
    } else if RETIRED@[i].0@ == flag {
        Some(RETIRED@[i].1@)
    } else {
        advice_from(flag, i + 1)
    }
}

/// Why a verb does not take a flag, if it does not.
pub open spec fn flag_error(flag: Seq<char>, verb: Seq<char>) -> Option<Seq<char>> {
    if belongs(flag, verb) {
        None
    } else if owners_of(flag).len() > 0 {
        Some(
            "error: "@ + flag + " is not an option of '"@ + verb + "' -- it belongs to: "@ + join(
                owners_of(flag),
                ", "@,
            ) + "\n"@ + HINT@,
        )
    } else {
        match advice_from(flag, 0) {
            Some(advice) => Some("error: "@ + flag + " no longer exists.\n       "@ + advice),
            None => Some("error: unknown option '"@ + flag + "'\n"@ + HINT@),
        }
    }
}

fn find_advice(flag: &str) -> (r: Option<&'static str>)
    ensures
        match r {
            Some(a) => advice_from(flag@, 0) == Some(a@),
            None => advice_from(flag@, 0) is None,
        },
{
    for i in 0..RETIRED.len()
        invariant
            advice_from(flag@, 0) == advice_from(flag@, i as int),
    {
        if same(RETIRED[i].0, flag) {
            return Some(RETIRED[i].1);
        }
    }
    None
}

/// Rejects a flag that the verb does not take.
pub fn check_owner(flag: &str, verb: &str) -> (r: Result<(), String>)
    ensures
        match r {
            Ok(_) => belongs(flag@, verb@),
            Err(e) => flag_error(flag@, verb@) == Some(e@),
        },
{
    let mut owners: Vec<String> = Vec::new();
    proof {
        assert(views(owners@) =~= Seq::<Seq<char>>::empty());
    }
    for i in 0..FLAG_OWNERS.len()
        invariant
            views(owners@) == owners_among(flag@, i as int),
            forall|j: int|
                0 <= j < i ==> !((#[trigger] FLAG_OWNERS@[j]).0@ == flag@ && FLAG_OWNERS@[j].1@
                    == verb@),
    {
        if same(FLAG_OWNERS[i].0, flag) {
            if same(FLAG_OWNERS[i].1, verb) {
                proof {
                    assert(FLAG_OWNERS@[i as int].0@ == flag@);
                }
                return Ok(());
            }
            let o = FLAG_OWNERS[i].1.to_string();
            proof {
                lemma_views_push(owners@, o);
            }
            owners.push(o);
        }
    }
    proof {
        assert(!belongs(flag@, verb@));
    }
    if owners.len() > 0 {
        proof {
            assert(owners_of(flag@).len() > 0);
        }
        let mut e = "error: ".to_string();
        e.append(flag);
        e.append(" is not an option of '");
        e.append(verb);
        e.append("' -- it belongs to: ");
        e.append(joined(&owners, ", ").as_str());
        e.append("\n");
        e.append(HINT);
        return Err(e);
    }
    proof {
        assert(owners_of(flag@).len() == 0);
    }
    match find_advice(flag) {
        Some(advice) => {
            let mut e = "error: ".to_string();
            e.append(flag);
            e.append(" no longer exists.\n       ");
            e.append(advice);
            Err(e)
        },
        None => {
            let mut e = "error: unknown option '".to_string();
            e.append(flag);
            e.append("'\n");
            e.append(HINT);
            Err(e)
        },
    }
}

// ---------------------------------------------------------------------------
// Addresses and numbers
// ---------------------------------------------------------------------------

/// The flag by which a verb takes an address, if it takes one.
pub open spec fn address_flag_of(verb: Seq<char>) -> Option<Seq<char>> {
    if verb == "cfg"@ || verb == "disasm"@ {
        Some("--addr"@)
    } else if verb == "hex"@ {
        Some("--at"@)
    } else {
        None
    }
}

/// The flag by which a verb takes an address, if it takes one.
pub fn address_flag(verb: &str) -> (r: Option<&'static str>)
    ensures
        match r {
            Some(f) => address_flag_of(verb@) == Some(f@),
            None => address_flag_of(verb@) is None,
        },
{
    if same(verb, "cfg") || same(verb, "disasm") {
        Some("--addr")
    } else if same(verb, "hex") {
        Some("--at")
    } else {
        None
    }
}

/// Below this many digits a bare hex word is taken for a file name.
pub const MIN_BARE_HEX_DIGITS: usize = 5;

/// Hexadecimal digits and nothing else?
pub open spec fn all_hex(s: Seq<char>) -> bool {
    forall|i: int| 0 <= i < s.len() ==> is_hex(#[trigger] s[i])
}

/// Does the text read as an address? With a prefix, any digits do; without, five
/// digits are asked for, because shorter hex words are plausible file names.
pub open spec fn reads_as_address(s: Seq<char>) -> bool {
    if begins(s, "0x"@) {
        after(s, "0x"@).len() > 0 && all_hex(after(s, "0x"@))
    } else if begins(s, "0X"@) {
        after(s, "0X"@).len() > 0 && all_hex(after(s, "0X"@))
    } else {
        s.len() >= MIN_BARE_HEX_DIGITS && all_hex(s)
    }
}

fn only_hex(s: &str, least: usize) -> (r: bool)
    ensures
        r == (s@.len() >= least && all_hex(s@)),
{
    let cs = chars_of(s);
    if cs.len() < least {
        return false;
    }
    for i in 0..cs.len()
        invariant
            cs@ == s@,
            forall|j: int| 0 <= j < i ==> is_hex(#[trigger] cs@[j]),
    {
        let c = cs[i];
        if !(('0' <= c && c <= '9') || ('a' <= c && c <= 'f') || ('A' <= c && c <= 'F')) {
            proof {
                assert(!is_hex(s@[i as int]));
            }
            return false;
        }
    }
    true
}

/// Is this a hex address that someone forgot to put a flag on? This only ever
/// leads to a suggestion in an error message.
pub fn looks_like_address(s: &str) -> (r: bool)
    ensures
        r == reads_as_address(s@),
{
    if let Some(rest) = strip(s, "0x") {
        return only_hex(rest.as_str(), 1);
    }
    if let Some(rest) = strip(s, "0X") {
        return only_hex(rest.as_str(), 1);
    }
    only_hex(s, MIN_BARE_HEX_DIGITS)
}

/// A hex address, with or without its prefix.
pub open spec fn hex_value(s: Seq<char>) -> Option<int> {
    let t = trimmed(s);
    if begins(t, "0x"@) {
        number(after(t, "0x"@), 16, u64::MAX as int)
    } else if begins(t, "0X"@) {
        number(after(t, "0X"@), 16, u64::MAX as int)
    } else {
        number(t, 16, u64::MAX as int)
    }
}

/// What is said of a value that is no address.
pub open spec fn bad_address(s: Seq<char>, flag: Seq<char>) -> Seq<char> {
    "error: "@ + flag + " wants a hex address like 0x1400 or 1400 (got '"@ + s + "')"@
}

/// Reads a hex address.
pub fn parse_hex(s: &str, flag: &str) -> (r: Result<u64, String>)
    ensures
        match r {
            Ok(a) => hex_value(s@) == Some(a as int),
            Err(e) => hex_value(s@) is None && e@ == bad_address(s@, flag@),
        },
{
    let t = trim(s);
    let digits: String = match strip(t.as_str(), "0x") {
        Some(d) => d,
        None => match strip(t.as_str(), "0X") {
            Some(d) => d,
            None => t,
        },
    };
    match parse_number(digits.as_str(), 16, u64::MAX) {
        Some(a) => Ok(a),
        None => {
            let mut e = "error: ".to_string();
            e.append(flag);
            e.append(" wants a hex address like 0x1400 or 1400 (got '");
            e.append(s);
            e.append("')");
            Err(e)
        },
    }
}

/// A count, or what is said of a value that is none.
pub open spec fn count_value(s: Seq<char>, flag: Seq<char>) -> Result<int, Seq<char>> {
    match either_number(trimmed(s), usize::MAX as int) {
        Some(n) => if n == 0 {
            Err("error: "@ + flag + " must be greater than zero"@)
        } else {
            Ok(n)
        },
        None => Err("error: "@ + flag + " wants a positive number (got '"@ + s + "')"@),
    }
}

/// Reads a count: decimal, or hex behind a prefix.
pub fn parse_count(s: &str, flag: &str) -> (r: Result<usize, String>)
    ensures
        match r {
            Ok(n) => count_value(s@, flag@) == Ok::<int, Seq<char>>(n as int),
            Err(e) => count_value(s@, flag@) == Err::<int, Seq<char>>(e@),
        },
{
    let t = trim(s);
    match parse_either(t.as_str(), usize::MAX as u64) {
        Some(n) => if n == 0 {
            let mut e = "error: ".to_string();
            e.append(flag);
            e.append(" must be greater than zero");
            Err(e)
        } else {
            Ok(n as usize)
        },
        None => {
            let mut e = "error: ".to_string();
            e.append(flag);
            e.append(" wants a positive number (got '");
            e.append(s);
            e.append("')");
            Err(e)
        },
    }
}

// ---------------------------------------------------------------------------
// Arguments
// ---------------------------------------------------------------------------

/// What the arguments behind the verb have said so far.
pub struct Options {
    pub path: Option<String>,
    pub json: bool,
    pub dot: bool,
    pub headers: bool,
    pub addr: Option<u64>,
    pub at: Option<u64>,
    pub count: Option<usize>,
    pub section: Option<String>,
    pub len: Option<usize>,
}

pub ghost struct OptionsModel {
    pub path: Option<Seq<char>>,
    pub json: bool,
    pub dot: bool,
    pub headers: bool,
    pub addr: Option<u64>,
    pub at: Option<u64>,
    pub count: Option<usize>,
    pub section: Option<Seq<char>>,
    pub len: Option<usize>,
}

impl DeepView for Options {
    type V = OptionsModel;

    open spec fn deep_view(&self) -> OptionsModel {
        OptionsModel {
            path: option_view(self.path),
            json: self.json,
            dot: self.dot,
            headers: self.headers,
            addr: self.addr,
            at: self.at,
            count: self.count,
            section: option_view(self.section),
            len: self.len,
        }
    }
}

/// Nothing said yet.
pub open spec fn no_options() -> OptionsModel {
    OptionsModel {
        path: None,
        json: false,
        dot: false,
        headers: false,
        addr: None,
        at: None,
        count: None,
        section: None,
        len: None,
    }
}

/// What is said of a second positional argument. A bare address among the two
/// is a forgotten flag, not a second file.
pub open spec fn extra_error(verb: Seq<char>, seen: Seq<char>, a: Seq<char>) -> Seq<char> {
    match address_flag_of(verb) {
        Some(flag) => if reads_as_address(seen) || reads_as_address(a) {
            let address = if reads_as_address(seen) {
                seen
            } else {
                a
            };
            let file = if reads_as_address(seen) {
                a
            } else {
                seen
            };
            "error: an address needs the "@ + flag
                + " flag, it is not a positional argument\n       try: sma "@ + verb + " "@ + flag
                + " "@ + address + " \""@ + file + "\""@
        } else {
            plain_extra_error(seen, a)
        },
        None => plain_extra_error(seen, a),
    }
}

pub open spec fn plain_extra_error(seen: Seq<char>, a: Seq<char>) -> Seq<char> {
    "error: unexpected extra argument '"@ + a + "' (already analyzing '"@ + seen + "')\n"@ + HINT@
}

fn plain_extra_message(seen: &str, a: &str) -> (r: String)
    ensures
        r@ == plain_extra_error(seen@, a@),
{
    let mut e = "error: unexpected extra argument '".to_string();
    e.append(a);
    e.append("' (already analyzing '");
    e.append(seen);
    e.append("')\n");
    e.append(HINT);
    e
}

fn extra_message(verb: &str, seen: &str, a: &str) -> (r: String)
    ensures
        r@ == extra_error(verb@, seen@, a@),
{
    if let Some(flag) = address_flag(verb) {
        let first = looks_like_address(seen);
        if first || looks_like_address(a) {
            let (address, file) = if first {
                (seen, a)
            } else {
                (a, seen)
            };
            let mut e = "error: an address needs the ".to_string();
            e.append(flag);
            e.append(" flag, it is not a positional argument\n       try: sma ");
            e.append(verb);
            e.append(" ");
            e.append(flag);
            e.append(" ");
            e.append(address);
            e.append(" \"");
            e.append(file);
            e.append("\"");
            return e;
        }
    }
    plain_extra_message(seen, a)
}

/// What is said of a flag without its value.
pub open spec fn missing_value(flag: Seq<char>) -> Seq<char> {
    "error: "@ + flag + " needs a value\n"@ + HINT@
}

/// The options with a flag that carries no value.
pub open spec fn with_switch(o: OptionsModel, flag: Seq<char>) -> OptionsModel {
    if flag == "--json"@ {
        OptionsModel { json: true, ..o }
    } else if flag == "--dot"@ {
        OptionsModel { dot: true, ..o }
    } else {
        OptionsModel { headers: true, ..o }
    }
}

/// Does the flag carry a value?
pub open spec fn takes_value(flag: Seq<char>) -> bool {
    flag != "--json"@ && flag != "--dot"@ && flag != "--headers"@
}

/// The options with a flag that carries the value `v`, or what is wrong with
/// the value.
pub open spec fn with_value(o: OptionsModel, flag: Seq<char>, v: Seq<char>) -> Result<
    OptionsModel,
    Seq<char>,
> {
    if flag == "--addr"@ || flag == "--at"@ {
        match hex_value(v) {
            Some(a) => Ok(
                if flag == "--addr"@ {
                    OptionsModel { addr: Some(a as u64), ..o }
                } else {
                    OptionsModel { at: Some(a as u64), ..o }
                },
            ),
            None => Err(bad_address(v, flag)),
        }
    } else if flag == "--count"@ || flag == "--len"@ {
        match count_value(v, flag) {
            Ok(n) => Ok(
                if flag == "--count"@ {
                    OptionsModel { count: Some(n as usize), ..o }
                } else {
                    OptionsModel { len: Some(n as usize), ..o }
                },
            ),
            Err(e) => Err(e),
        }
    } else {
        Ok(OptionsModel { section: Some(v), ..o })
    }
}

/// Reads the argument at `i`: the options after it, and where the next argument
/// stands. A flag is rejected before any value it might carry is taken, so that
/// a mistyped flag never swallows the path.
pub open spec fn read_argument(
    verb: Seq<char>,
    args: Seq<Seq<char>>,
    i: int,
    o: OptionsModel,
) -> Result<(OptionsModel, int), Seq<char>> {
    let a = args[i];
    if !begins(a, "-"@) {
        match o.path {
            Some(seen) => Err(extra_error(verb, seen, a)),
            None => Ok((OptionsModel { path: Some(a), ..o }, i + 1)),
        }
    } else if !belongs(a, verb) {
        Err(flag_error(a, verb)->0)
    } else if !takes_value(a) {
        Ok((with_switch(o, a), i + 1))
    } else if i + 1 >= args.len() {
        Err(missing_value(a))
    } else {
        match with_value(o, a, args[i + 1]) {
            Ok(n) => Ok((n, i + 2)),
            Err(e) => Err(e),
        }
    }
}

/// Reads the arguments from `i` on.
pub open spec fn read_from(
    verb: Seq<char>,
    args: Seq<Seq<char>>,
    i: int,
    o: OptionsModel,
) -> Result<OptionsModel, Seq<char>>
    decreases args.len() - i,
{
    if i >= args.len() {
        Ok(o)
    } else {
        match read_argument(verb, args, i, o) {
            Ok((n, next)) => if next > i {
                read_from(verb, args, next, n)
            } else {
                Ok(n)
            },
            Err(e) => Err(e),
        }
    }
}

/// The window of raw bytes that is asked for: exactly one.
pub open spec fn window_of(o: OptionsModel) -> Result<HexWindowModel, Seq<char>> {
    match (o.at, o.section) {
        (Some(a), None) => if o.headers {
            Err("error: hex takes exactly one of --at, --section, --headers\n"@ + HINT@)
        } else {
            Ok(HexWindowModel::At(a))
        },
        (None, Some(s)) => if o.headers {
            Err("error: hex takes exactly one of --at, --section, --headers\n"@ + HINT@)
        } else {
            Ok(HexWindowModel::Section(s))
        },
        (None, None) => if o.headers {
            Ok(HexWindowModel::Headers)
        } else {
            Err(
                "error: hex needs a window: --at <hex>, --section <name>, or --headers\n"@
                    + HINT@,
            )
        },
        _ => Err("error: hex takes exactly one of --at, --section, --headers\n"@ + HINT@),
    }
}

/// The command of a verb with its options.
pub open spec fn command_of(verb: Seq<char>, o: OptionsModel) -> Result<CommandModel, Seq<char>> {
    match o.path {
        None => Err("error: '"@ + verb + "' needs a path to a file\n"@ + HINT@),
        Some(path) => if verb == "scan"@ {
            Ok(CommandModel::Scan { path, json: o.json })
        } else if verb == "functions"@ {
            Ok(CommandModel::Functions { path, json: o.json })
        } else if verb == "cfg"@ {
            Ok(CommandModel::Cfg { path, addr: o.addr, dot: o.dot })
        } else if verb == "disasm"@ {
            Ok(CommandModel::Disasm { path, addr: o.addr, count: o.count, section: o.section })
        } else {
            match window_of(o) {
                Ok(window) => Ok(CommandModel::Hex { path, window, len: o.len }),
                Err(e) => Err(e),
            }
        },
    }
}

/// The command that a verb and the arguments behind it ask for.
pub open spec fn run_of(verb: Seq<char>, rest: Seq<Seq<char>>) -> Result<
    InvocationModel,
    Seq<char>,
> {
    match read_from(verb, rest, 0, no_options()) {
        Err(e) => Err(e),
        Ok(o) => match command_of(verb, o) {
            Ok(c) => Ok(InvocationModel::Run(c)),
            Err(e) => Err(e),
        },
    }
}

/// What a command line asks for, or what is wrong with it. Help and version
/// prevail wherever they stand. The verb is optional: without one, the file is
/// scanned.
pub open spec fn invocation_of(args: Seq<Seq<char>>) -> Result<InvocationModel, Seq<char>> {
    if args.contains("-h"@) || args.contains("--help"@) {
        Ok(InvocationModel::Help)
    } else if args.contains("-V"@) || args.contains("--version"@) {
        Ok(InvocationModel::Version)
    } else if args.len() == 0 {
        Ok(InvocationModel::Help)
    } else if is_verb(args[0]) {
        run_of(args[0], args.skip(1))
    } else {
        run_of("scan"@, args)
    }
}

fn mentions(args: &[String], a: &str, b: &str) -> (r: bool)
    ensures
        r == (views(args@).contains(a@) || views(args@).contains(b@)),
{
    for i in 0..args.len()
        invariant
            forall|j: int| 0 <= j < i ==> #[trigger] views(args@)[j] != a@ && views(args@)[j] != b@,
    {
        if same(args[i].as_str(), a) || same(args[i].as_str(), b) {
            proof {
                assert(views(args@)[i as int] == args@[i as int]@);
            }
            return true;
        }
    }
    false
}

/// Takes in a flag that carries a value.
fn set_value(o: &mut Options, flag: &str, v: &str) -> (r: Result<(), String>)
    requires
        takes_value(flag@),
    ensures
        match r {
            Ok(_) => with_value(old(o).deep_view(), flag@, v@) == Ok::<OptionsModel, Seq<char>>(
                final(o).deep_view(),
            ),
            Err(e) => with_value(old(o).deep_view(), flag@, v@) == Err::<OptionsModel, Seq<char>>(
                e@,
            ),
        },
{
    if same(flag, "--addr") {
        o.addr = Some(
            match parse_hex(v, flag) {
                Ok(a) => a,
                Err(e) => {
                    return Err(e);
                },
            },
        );
    } else if same(flag, "--at") {
        o.at = Some(
            match parse_hex(v, flag) {
                Ok(a) => a,
                Err(e) => {
                    return Err(e);
                },
            },
        );
    } else if same(flag, "--count") {
        o.count = Some(
            match parse_count(v, flag) {
                Ok(n) => n,
                Err(e) => {
                    return Err(e);
                },
            },
        );
    } else if same(flag, "--len") {
        o.len = Some(
            match parse_count(v, flag) {
                Ok(n) => n,
                Err(e) => {
                    return Err(e);
                },
            },
        );
    } else {
        o.section = Some(v.to_string());
    }
    Ok(())
}

/// Reads one argument and says where the next one stands.
fn take_argument(verb: &str, args: &[String], i: usize, o: &mut Options) -> (r: Result<
    usize,
    String,
>)
    requires
        i < args@.len(),
    ensures
        match r {
            Ok(next) => i < next <= args@.len() && read_argument(
                verb@,
                views(args@),
                i as int,
                old(o).deep_view(),
            ) == Ok::<(OptionsModel, int), Seq<char>>((final(o).deep_view(), next as int)),
            Err(e) => read_argument(verb@, views(args@), i as int, old(o).deep_view()) == Err::<
                (OptionsModel, int),
                Seq<char>,
            >(e@),
        },
{
    let a = args[i].as_str();
    let total = args.len();
    proof {
        assert(views(args@)[i as int] == a@);
    }
    if !has_prefix(a, "-") {
        if let Some(seen) = &o.path {
            return Err(extra_message(verb, seen.as_str(), a));
        }
        o.path = Some(a.to_string());
        return Ok(i + 1);
    }
    match check_owner(a, verb) {
        Ok(_) => {},
        Err(e) => {
            return Err(e);
        },
    }
    if same(a, "--json") {
        o.json = true;
        return Ok(i + 1);
    }
    if same(a, "--dot") {
        o.dot = true;
        return Ok(i + 1);
    }
    if same(a, "--headers") {
        o.headers = true;
        return Ok(i + 1);
    }
    if total - i < 2 {
        let mut e = "error: ".to_string();
        e.append(a);
        e.append(" needs a value\n");
        e.append(HINT);
        return Err(e);
    }
    let v = args[i + 1].as_str();
    proof {
        assert(views(args@)[i + 1] == v@);
    }
    match set_value(o, a, v) {
        Ok(_) => Ok(i + 2),
        Err(e) => Err(e),
    }
}

fn finish_command(verb: &str, o: Options) -> (r: Result<Command, String>)
    ensures
        match r {
            Ok(c) => command_of(verb@, o.deep_view()) == Ok::<CommandModel, Seq<char>>(
                c.deep_view(),
            ),
            Err(e) => command_of(verb@, o.deep_view()) == Err::<CommandModel, Seq<char>>(e@),
        },
{
    let path = match o.path {
        Some(p) => p,
        None => {
            let mut e = "error: '".to_string();
            e.append(verb);
            e.append("' needs a path to a file\n");
            e.append(HINT);
            return Err(e);
        },
    };
    if same(verb, "scan") {
        return Ok(Command::Scan { path, json: o.json });
    }
    if same(verb, "functions") {
        return Ok(Command::Functions { path, json: o.json });
    }
    if same(verb, "cfg") {
        return Ok(Command::Cfg { path, addr: o.addr, dot: o.dot });
    }
    if same(verb, "disasm") {
        return Ok(
            Command::Disasm { path, addr: o.addr, count: o.count, section: o.section },
        );
    }
    let window: Option<HexWindow> = match (o.at, o.section) {
        (Some(a), None) => if o.headers {
            None
        } else {
            Some(HexWindow::At(a))
        },
        (None, Some(s)) => if o.headers {
            None
        } else {
            Some(HexWindow::Section(s))
        },
        (None, None) => if o.headers {
            Some(HexWindow::Headers)
        } else {
            let mut e = "error: hex needs a window: --at <hex>, --section <name>, or --headers\n".to_string();
            e.append(HINT);
            return Err(e);
        },
        _ => None,
    };
    match window {
        Some(w) => Ok(Command::Hex { path, window: w, len: o.len }),
        None => {
            let mut e = "error: hex takes exactly one of --at, --section, --headers\n".to_string();
            e.append(HINT);
            Err(e)
        },
    }
}

/// Reads the arguments behind a verb.
fn parse_run(verb: &str, rest: &[String]) -> (r: Result<Invocation, String>)
    ensures
        match r {
            Ok(v) => run_of(verb@, views(rest@)) == Ok::<InvocationModel, Seq<char>>(
                v.deep_view(),
            ),
            Err(e) => run_of(verb@, views(rest@)) == Err::<InvocationModel, Seq<char>>(e@),
        },
{
    let ghost all = views(rest@);
    let mut o = Options {
        path: None,
        json: false,
        dot: false,
        headers: false,
        addr: None,
        at: None,
        count: None,
        section: None,
        len: None,
    };
    let mut i: usize = 0;
    while i < rest.len()
        invariant
            all == views(rest@),
            i <= rest@.len(),
            read_from(verb@, all, 0, no_options()) == read_from(
                verb@,
                all,
                i as int,
                o.deep_view(),
            ),
        decreases rest@.len() - i,
    {
        match take_argument(verb, rest, i, &mut o) {
            Ok(next) => {
                i = next;
            },
            Err(e) => {
                return Err(e);
            },
        }
    }
    match finish_command(verb, o) {
        Ok(c) => Ok(Invocation::Run(c)),
        Err(e) => Err(e),
    }
}

/// Reads a command line, without the name of the program.
pub fn parse(args: &[String]) -> (r: Result<Invocation, String>)
    ensures
        match r {
            Ok(v) => invocation_of(views(args@)) == Ok::<InvocationModel, Seq<char>>(
                v.deep_view(),
            ),
            Err(e) => invocation_of(views(args@)) == Err::<InvocationModel, Seq<char>>(e@),
        },
{
    if mentions(args, "-h", "--help") {
        return Ok(Invocation::Help);
    }
    if mentions(args, "-V", "--version") {
        return Ok(Invocation::Version);
    }
    if args.len() == 0 {
        return Ok(Invocation::Help);
    }
    proof {
        assert(views(args@)[0] == args@[0]@);
    }
    match verb_index(args[0].as_str()) {
        Some(k) => {
            proof {
                assert(is_verb(args@[0]@));
                assert(views(args@.subrange(1, args@.len() as int)) =~= views(args@).skip(1));
            }
            parse_run(VERBS[k], &args[1..args.len()])
        },
        None => parse_run("scan", args),
    }
}

// ---------------------------------------------------------------------------
// Help
// ---------------------------------------------------------------------------

pub const HELP_VERBS: &'static str =
    " - static malware analysis\n\nusage:\n  sma <verb> <file> [options]\n  sma <file>                       same as: sma scan <file>\n\nverbs:\n  scan       triage report: headers, sections + entropy, imports, capabilities,\n             strings/IOCs, and the limits of what static analysis can see here\n  functions  inventory of discovered functions (entry point, exports, TLS\n             callbacks, call targets) and the APIs each one reaches\n  cfg        control-flow graph of one function\n  disasm     flat instruction listing, like objdump -d\n  hex        a window of raw bytes\n\nscan / functions options:\n      --json               machine-readable output instead of the human report\n\ncfg options:\n      --addr <hex>         function to graph (default: the entry point)\n      --dot                emit Graphviz DOT instead of a text listing\n\ndisasm options:\n      --addr <hex>         start here instead of listing whole sections\n      --count <n>          stop after n instructions (default ";

pub const HELP_DISASM: &'static str =
    " with --addr)\n      --section <name>     restrict to one section\n\nhex options:\n      --at <hex>           start at a virtual address (RVA)\n      --section <name>     start at a section\n      --headers            the header region\n      --len <n>            how many bytes (default ";

pub const HELP_REST: &'static str =
    ")\n\n  -h, --help               show this help\n  -V, --version            show the version\n\na typical session:\n  sma scan sample.exe                     # what is this, and what stands out?\n  sma functions sample.exe                # where is the interesting code?\n  sma cfg sample.exe --addr 0x24c0        # what does that function do?\n  sma cfg sample.exe --addr 0x24c0 --dot > f.dot && dot -Tpng f.dot -o f.png\n\nfindings are indicative, never definitive. benign software trips these rules too.\n";

/// The help text.
pub open spec fn help_text() -> Seq<char> {
    "sma "@ + VERSION@ + HELP_VERBS@ + dec(DEFAULT_DISASM_COUNT as int) + HELP_DISASM@ + dec(
        DEFAULT_HEX_LEN as int,
    ) + HELP_REST@
}

pub fn help() -> (r: String)
    ensures
        r@ == help_text(),
{
    let mut s = "sma ".to_string();
    s.append(VERSION);
    s.append(HELP_VERBS);
    s.append(decimal(DEFAULT_DISASM_COUNT as u64).as_str());
    s.append(HELP_DISASM);
    s.append(decimal(DEFAULT_HEX_LEN as u64).as_str());
    s.append(HELP_REST);
    s
}

pub fn version() -> (r: String)
    ensures
        r@ == "sma "@ + VERSION@,
{
    let mut s = "sma ".to_string();
    s.append(VERSION);
    s
}

// ---------------------------------------------------------------------------
// Commands
// ---------------------------------------------------------------------------

/// The file that a command works on.
pub open spec fn path_of(c: CommandModel) -> Seq<char> {
    match c {
        CommandModel::Scan { path, .. } => path,
        CommandModel::Functions { path, .. } => path,
        CommandModel::Cfg { path, .. } => path,
        CommandModel::Disasm { path, .. } => path,
        CommandModel::Hex { path, .. } => path,
    }
}

/// The verb of a command.
pub open spec fn verb_name(c: CommandModel) -> Seq<char> {
    match c {
        CommandModel::Scan { .. } => "scan"@,
        CommandModel::Functions { .. } => "functions"@,
        CommandModel::Cfg { .. } => "cfg"@,
        CommandModel::Disasm { .. } => "disasm"@,
        CommandModel::Hex { .. } => "hex"@,
    }
}

/// The file that a command works on.
pub fn command_path(c: &Command) -> (r: &str)
    ensures
        r@ == path_of(c.deep_view()),
{
    match c {
        Command::Scan { path, .. } => path.as_str(),
        Command::Functions { path, .. } => path.as_str(),
        Command::Cfg { path, .. } => path.as_str(),
        Command::Disasm { path, .. } => path.as_str(),
        Command::Hex { path, .. } => path.as_str(),
    }
}

/// The verb of a command.
pub fn verb_of(c: &Command) -> (r: &'static str)
    ensures
        r@ == verb_name(c.deep_view()),
{
    match c {
        Command::Scan { .. } => "scan",
        Command::Functions { .. } => "functions",
        Command::Cfg { .. } => "cfg",
        Command::Disasm { .. } => "disasm",
        Command::Hex { .. } => "hex",
    }
}

/// What is said of a file that could not be read, for the given reason. A path
/// that is really an address means that the flag was left off.
pub open spec fn unreadable_text(c: CommandModel, reason: Seq<char>) -> Seq<char> {
    let plain = "error: cannot read "@ + path_of(c) + ": "@ + reason;
    match address_flag_of(verb_name(c)) {
        Some(flag) => if reads_as_address(path_of(c)) {
            plain + "\n       that looks like an address -- it belongs to "@ + flag + ": sma "@
                + verb_name(c) + " "@ + flag + " "@ + path_of(c) + " <file>"@
        } else {
            plain
        },
        None => plain,
    }
}

/// What is said of a file that could not be read.
pub fn unreadable(c: &Command, reason: &str) -> (r: String)
    ensures
        r@ == unreadable_text(c.deep_view(), reason@),
{
    let path = command_path(c);
    let verb = verb_of(c);
    let mut s = "error: cannot read ".to_string();
    s.append(path);
    s.append(": ");
    s.append(reason);
    if let Some(flag) = address_flag(verb) {
        if looks_like_address(path) {
            s.append("\n       that looks like an address -- it belongs to ");
            s.append(flag);
            s.append(": sma ");
            s.append(verb);
            s.append(" ");
            s.append(flag);
            s.append(" ");
            s.append(path);
            s.append(" <file>");
        }
    }
    s
}

/// How many instructions a listing is limited to: a window needs a default, a
/// whole section does not.
pub open spec fn listing_limit(addr: Option<u64>, count: Option<usize>) -> Option<usize> {
    match count {
        Some(n) => Some(n),
        None => if addr is Some {
            Some(DEFAULT_DISASM_COUNT)
        } else {
            None
        },
    }
}

pub fn default_count(addr: Option<u64>, count: Option<usize>) -> (r: Option<usize>)
    ensures
        r == listing_limit(addr, count),
{
    match count {
        Some(n) => Some(n),
        None => if addr.is_some() {
            Some(DEFAULT_DISASM_COUNT)
        } else {
            None
        },
    }
}

// ---------------------------------------------------------------------------
// Laws
// ---------------------------------------------------------------------------

/// Without a verb the file is scanned: `sma <file>` asks for the same as
/// `sma scan <file>`.
pub proof fn law_verb_defaults_to_scan(args: Seq<Seq<char>>)
    requires
        args.len() > 0,
        !is_verb(args[0]),
    ensures
        invocation_of(args) == invocation_of(seq!["scan"@] + args),
{
    let longer = seq!["scan"@] + args;
    assert(VERBS@[0]@ == "scan"@);
    assert(is_verb("scan"@));
    assert(longer.skip(1) =~= args);
    assert(longer[0] == "scan"@);
    reveal_strlit("scan");
    reveal_strlit("-h");
    reveal_strlit("--help");
    reveal_strlit("-V");
    reveal_strlit("--version");
    assert forall|x: Seq<char>| x != "scan"@ implies longer.contains(x) == args.contains(x) by {
        if longer.contains(x) {
            let k = choose|k: int| 0 <= k < longer.len() && longer[k] == x;
            assert(args[k - 1] == x);
        }
        if args.contains(x) {
            let k = choose|k: int| 0 <= k < args.len() && args[k] == x;
            assert(longer[k + 1] == x);
        }
    }
    assert("scan"@.len() == 4);
    assert("-h"@.len() == 2);
    assert("--help"@.len() == 6);
    assert("-V"@.len() == 2);
    assert("--version"@.len() == 9);
}

/// A flag under a verb that it does not belong to is an error, never a silent
/// no-op.
pub proof fn law_foreign_flag_is_an_error(
    verb: Seq<char>,
    args: Seq<Seq<char>>,
    i: int,
    o: OptionsModel,
)
    requires
        0 <= i < args.len(),
        begins(args[i], "-"@),
        !belongs(args[i], verb),
    ensures
        read_argument(verb, args, i, o) is Err,
        read_from(verb, args, i, o) is Err,
{
}

/// Help is given wherever it is asked for on the command line.
pub proof fn law_help_prevails(args: Seq<Seq<char>>)
    requires
        args.contains("-h"@) || args.contains("--help"@),
    ensures
        invocation_of(args) == Ok::<InvocationModel, Seq<char>>(InvocationModel::Help),
{
}

/// A flag without its value is an error; it takes nothing that stands before it.
pub proof fn law_missing_value_is_an_error(
    verb: Seq<char>,
    args: Seq<Seq<char>>,
    o: OptionsModel,
)
    requires
        args.len() > 0,
        begins(args.last(), "-"@),
        belongs(args.last(), verb),
        takes_value(args.last()),
    ensures
        read_argument(verb, args, args.len() - 1, o) == Err::<(OptionsModel, int), Seq<char>>(
            missing_value(args.last()),
        ),
{
}

/// Are the arguments from `i` on flags, each with its value where it takes one?
pub open spec fn complete(opts: Seq<Seq<char>>, i: int) -> bool
    decreases opts.len() - i,
{
    if i >= opts.len() {
        i == opts.len()
    } else {
        begins(opts[i], "-"@) && if takes_value(opts[i]) {
            i + 2 <= opts.len() && complete(opts, i + 2)
        } else {
            complete(opts, i + 1)
        }
    }
}

/// The path may stand before, between or behind the options: the command line
/// asks for the same, or has the same wrong with it.
pub proof fn law_path_stands_anywhere(
    verb: Seq<char>,
    path: Seq<char>,
    opts: Seq<Seq<char>>,
    more: Seq<Seq<char>>,
)
    requires
        is_verb(verb),
        !begins(path, "-"@),
        complete(opts, 0),
    ensures
        invocation_of(seq![verb] + opts + seq![path] + more) == invocation_of(
            seq![verb, path] + opts + more,
        ),
{
    let late = seq![verb] + opts + seq![path] + more;
    let early = seq![verb, path] + opts + more;
    let n = opts.len() as int;
    assert forall|x: Seq<char>| late.contains(x) == early.contains(x) by {
        if late.contains(x) {
            let k = choose|k: int| 0 <= k < late.len() && late[k] == x;
            if 1 <= k <= n {
                assert(early[k + 1] == x);
            } else if k == n + 1 {
                assert(early[1] == x);
            } else {
                assert(early[k] == x);
            }
        }
        if early.contains(x) {
            let k = choose|k: int| 0 <= k < early.len() && early[k] == x;
            if 2 <= k <= n + 1 {
                assert(late[k - 1] == x);
            } else if k == 1 {
                assert(late[n + 1] == x);
            } else {
                assert(late[k] == x);
            }
        }
    }
    let a = opts + seq![path] + more;
    let b = seq![path] + opts + more;
    assert(late.skip(1) =~= a);
    assert(early.skip(1) =~= b);
    assert(late[0] == verb && early[0] == verb);
    lemma_path_later(verb, path, opts, more, 0, no_options());
    assert(read_from(verb, b, 0, no_options()) == read_from(
        verb,
        b,
        1,
        with_path(no_options(), path),
    ));
}

spec fn with_path(o: OptionsModel, path: Seq<char>) -> OptionsModel {
    OptionsModel { path: Some(path), ..o }
}

/// Reading goes by what stands from `i` on.
proof fn lemma_read_suffix(
    verb: Seq<char>,
    a: Seq<Seq<char>>,
    b: Seq<Seq<char>>,
    i: int,
    o: OptionsModel,
)
    requires
        0 <= i,
        a.len() == b.len(),
        forall|j: int| i <= j < a.len() ==> a[j] == b[j],
    ensures
        read_from(verb, a, i, o) == read_from(verb, b, i, o),
    decreases a.len() - i,
{
    if i < a.len() {
        match read_argument(verb, a, i, o) {
            Ok((n, next)) => {
                if next > i {
                    lemma_read_suffix(verb, a, b, next, n);
                }
            },
            Err(_) => {},
        }
    }
}

proof fn lemma_path_later(
    verb: Seq<char>,
    path: Seq<char>,
    opts: Seq<Seq<char>>,
    more: Seq<Seq<char>>,
    i: int,
    o: OptionsModel,
)
    requires
        0 <= i <= opts.len(),
        !begins(path, "-"@),
        complete(opts, i),
        o.path is None,
    ensures
        read_from(verb, opts + seq![path] + more, i, o) == read_from(
            verb,
            seq![path] + opts + more,
            i + 1,
            with_path(o, path),
        ),
    decreases opts.len() - i,
{
    let a = opts + seq![path] + more;
    let b = seq![path] + opts + more;
    let p = with_path(o, path);
    if i == opts.len() {
        assert(a[i] == path);
        assert(read_argument(verb, a, i, o) == Ok::<(OptionsModel, int), Seq<char>>((p, i + 1)));
        assert forall|j: int| i + 1 <= j < a.len() implies a[j] == b[j] by {}
        lemma_read_suffix(verb, a, b, i + 1, p);
    } else {
        let flag = opts[i];
        assert(a[i] == flag && b[i + 1] == flag);
        if belongs(flag, verb) {
            if takes_value(flag) {
                assert(i + 2 <= opts.len());
                let v = opts[i + 1];
                assert(a[i + 1] == v && b[i + 2] == v);
                match with_value(o, flag, v) {
                    Ok(n) => {
                        assert(with_value(p, flag, v) == Ok::<OptionsModel, Seq<char>>(
                            with_path(n, path),
                        ));
                        lemma_path_later(verb, path, opts, more, i + 2, n);
                    },
                    Err(_) => {},
                }
            } else {
                assert(with_switch(p, flag) == with_path(with_switch(o, flag), path));
                lemma_path_later(verb, path, opts, more, i + 1, with_switch(o, flag));
            }
        }
    }
}

} // verus!
