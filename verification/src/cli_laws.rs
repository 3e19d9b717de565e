//! What every command line asks for.
use crate::cli::{
    belongs, command_of, hex_value, invocation_of, is_verb, listing_limit, no_options,
    read_argument, read_from, run_of, CommandModel, InvocationModel, OptionsModel, FLAG_OWNERS,
    VERBS,
};
use crate::hexdump::HexWindowModel;
use crate::search::{
    after, begins, either_number, is_space, law_numerals_read_back, trim_end, trim_start, trimmed,
};
use crate::text::{dec, digit_char, digits, hex};
use vstd::prelude::*;

verus! {

proof fn lemma_flag_texts()
    ensures
        "--json"@.len() == 6,
        "--addr"@.len() == 6,
        "--addr"@[2] == 'a',
        "--json"@[2] == 'j',
        "--dot"@.len() == 5,
        "--dot"@[2] == 'd',
        "--count"@.len() == 7,
        "--section"@.len() == 9,
        "--section"@[2] == 's',
        "--at"@.len() == 4,
        "--headers"@.len() == 9,
        "--headers"@[2] == 'h',
        "--len"@.len() == 5,
        "--len"@[2] == 'l',
        begins("--json"@, "-"@),
        begins("--addr"@, "-"@),
        begins("--dot"@, "-"@),
        begins("--count"@, "-"@),
        begins("--section"@, "-"@),
        begins("--at"@, "-"@),
        begins("--headers"@, "-"@),
        begins("--len"@, "-"@),
{
    reveal_strlit("-");
    reveal_strlit("--json");
    reveal_strlit("--addr");
    reveal_strlit("--dot");
    reveal_strlit("--count");
    reveal_strlit("--section");
    reveal_strlit("--at");
    reveal_strlit("--headers");
    reveal_strlit("--len");
    assert("--json"@.subrange(0, 1) =~= "-"@);
    assert("--addr"@.subrange(0, 1) =~= "-"@);
    assert("--dot"@.subrange(0, 1) =~= "-"@);
    assert("--count"@.subrange(0, 1) =~= "-"@);
    assert("--section"@.subrange(0, 1) =~= "-"@);
    assert("--at"@.subrange(0, 1) =~= "-"@);
    assert("--headers"@.subrange(0, 1) =~= "-"@);
    assert("--len"@.subrange(0, 1) =~= "-"@);
}

proof fn lemma_owners()
    ensures
        belongs("--json"@, "scan"@),
        belongs("--json"@, "functions"@),
        belongs("--addr"@, "cfg"@),
        belongs("--addr"@, "disasm"@),
        belongs("--dot"@, "cfg"@),
        belongs("--count"@, "disasm"@),
        belongs("--section"@, "disasm"@),
        belongs("--section"@, "hex"@),
        belongs("--at"@, "hex"@),
        belongs("--headers"@, "hex"@),
        belongs("--len"@, "hex"@),
{
    assert(FLAG_OWNERS@[0].0@ == "--json"@ && FLAG_OWNERS@[0].1@ == "scan"@);
    assert(FLAG_OWNERS@[1].0@ == "--json"@ && FLAG_OWNERS@[1].1@ == "functions"@);
    assert(FLAG_OWNERS@[2].0@ == "--addr"@ && FLAG_OWNERS@[2].1@ == "cfg"@);
    assert(FLAG_OWNERS@[3].0@ == "--addr"@ && FLAG_OWNERS@[3].1@ == "disasm"@);
    assert(FLAG_OWNERS@[4].0@ == "--dot"@ && FLAG_OWNERS@[4].1@ == "cfg"@);
    assert(FLAG_OWNERS@[5].0@ == "--count"@ && FLAG_OWNERS@[5].1@ == "disasm"@);
    assert(FLAG_OWNERS@[6].0@ == "--section"@ && FLAG_OWNERS@[6].1@ == "disasm"@);
    assert(FLAG_OWNERS@[7].0@ == "--section"@ && FLAG_OWNERS@[7].1@ == "hex"@);
    assert(FLAG_OWNERS@[8].0@ == "--at"@ && FLAG_OWNERS@[8].1@ == "hex"@);
    assert(FLAG_OWNERS@[9].0@ == "--headers"@ && FLAG_OWNERS@[9].1@ == "hex"@);
    assert(FLAG_OWNERS@[10].0@ == "--len"@ && FLAG_OWNERS@[10].1@ == "hex"@);
}

/// A switch turns on what it is named after, and nothing else.
pub proof fn law_switches_turn_on_their_option(
    args: Seq<Seq<char>>,
    i: int,
    o: OptionsModel,
)
    requires
        0 <= i < args.len(),
    ensures
        args[i] == "--json"@ ==> read_argument("scan"@, args, i, o) == Ok::<_, Seq<char>>(
            (OptionsModel { json: true, ..o }, i + 1),
        ),
        args[i] == "--json"@ ==> read_argument("functions"@, args, i, o) == Ok::<_, Seq<char>>(
            (OptionsModel { json: true, ..o }, i + 1),
        ),
        args[i] == "--dot"@ ==> read_argument("cfg"@, args, i, o) == Ok::<_, Seq<char>>(
            (OptionsModel { dot: true, ..o }, i + 1),
        ),
        args[i] == "--headers"@ ==> read_argument("hex"@, args, i, o) == Ok::<_, Seq<char>>(
            (OptionsModel { headers: true, ..o }, i + 1),
        ),
{
    lemma_flag_texts();
    lemma_owners();
}

/// A flag with an address or a name takes the argument behind it.
#[verifier::rlimit(50)]
pub proof fn law_flags_take_their_value(
    args: Seq<Seq<char>>,
    i: int,
    o: OptionsModel,
    a: u64,
)
    requires
        0 <= i,
        i + 1 < args.len(),
    ensures
        args[i] == "--addr"@ && args[i + 1] == "0x"@ + hex(a as int) ==> read_argument(
            "cfg"@,
            args,
            i,
            o,
        ) == Ok::<_, Seq<char>>((OptionsModel { addr: Some(a), ..o }, i + 2)) && read_argument(
            "disasm"@,
            args,
            i,
            o,
        ) == Ok::<_, Seq<char>>((OptionsModel { addr: Some(a), ..o }, i + 2)),
        args[i] == "--addr"@ && args[i + 1] == hex(a as int) ==> read_argument("cfg"@, args, i, o)
            == Ok::<_, Seq<char>>((OptionsModel { addr: Some(a), ..o }, i + 2)),
        args[i] == "--at"@ && args[i + 1] == "0x"@ + hex(a as int) ==> read_argument(
            "hex"@,
            args,
            i,
            o,
        ) == Ok::<_, Seq<char>>((OptionsModel { at: Some(a), ..o }, i + 2)),
        args[i] == "--section"@ ==> read_argument("disasm"@, args, i, o) == Ok::<_, Seq<char>>(
            (OptionsModel { section: Some(args[i + 1]), ..o }, i + 2),
        ) && read_argument("hex"@, args, i, o) == Ok::<_, Seq<char>>(
            (OptionsModel { section: Some(args[i + 1]), ..o }, i + 2),
        ),
{
    lemma_flag_texts();
    lemma_owners();
    lemma_hex_value(a as int);
}

/// A flag with a number takes it from the argument behind it, decimal or
/// hexadecimal; zero is refused.
#[verifier::rlimit(50)]
pub proof fn law_flags_take_their_count(
    args: Seq<Seq<char>>,
    i: int,
    o: OptionsModel,
    n: usize,
)
    requires
        0 <= i,
        i + 1 < args.len(),
        args[i + 1] == dec(n as int) || args[i + 1] == "0x"@ + hex(n as int),
    ensures
        args[i] == "--count"@ && n > 0 ==> read_argument("disasm"@, args, i, o) == Ok::<
            _,
            Seq<char>,
        >((OptionsModel { count: Some(n), ..o }, i + 2)),
        args[i] == "--len"@ && n > 0 ==> read_argument("hex"@, args, i, o) == Ok::<_, Seq<char>>(
            (OptionsModel { len: Some(n), ..o }, i + 2),
        ),
        args[i] == "--count"@ && n == 0 ==> read_argument("disasm"@, args, i, o) is Err,
        args[i] == "--len"@ && n == 0 ==> read_argument("hex"@, args, i, o) is Err,
{
    lemma_flag_texts();
    lemma_owners();
    lemma_count_value(n as int);
}

proof fn lemma_solid_digits(n: int, radix: int)
    requires
        n >= 0,
        2 <= radix <= 16,
    ensures
        digits(n, radix).len() > 0,
        forall|i: int|
            0 <= i < digits(n, radix).len() ==> ('0' <= #[trigger] digits(n, radix)[i] <= '9' || 'a'
                <= digits(n, radix)[i] <= 'f'),
    decreases n,
{
    if n >= radix {
        assert(0 <= n / radix < n) by (nonlinear_arith)
            requires
                n >= radix,
                radix >= 2,
        ;
        assert(0 <= n % radix < radix) by (nonlinear_arith)
            requires
                n >= radix,
                radix >= 2,
        ;
        lemma_solid_digits(n / radix, radix);
        assert(digits(n, radix) == digits(n / radix, radix).push(digit_char(n % radix)));
    }
}

proof fn lemma_untrimmed(s: Seq<char>)
    requires
        s.len() > 0,
        !is_space(s[0]),
        !is_space(s.last()),
    ensures
        trimmed(s) == s,
{
    assert(trim_start(s) == s);
    assert(trim_end(s) == s);
}

proof fn lemma_not_prefixed(s: Seq<char>)
    requires
        forall|i: int| 0 <= i < s.len() ==> #[trigger] s[i] != 'x' && s[i] != 'X',
    ensures
        !begins(s, "0x"@),
        !begins(s, "0X"@),
{
    reveal_strlit("0x");
    reveal_strlit("0X");
    if s.len() >= 2 {
        assert(s.subrange(0, 2)[1] == s[1]);
    }
}

proof fn lemma_hex_value(a: int)
    requires
        0 <= a <= u64::MAX,
    ensures
        hex_value("0x"@ + hex(a)) == Some(a),
        hex_value(hex(a)) == Some(a),
{
    reveal_strlit("0x");
    let s = "0x"@ + hex(a);
    lemma_solid_digits(a, 16);
    law_numerals_read_back(a, 16, u64::MAX as int);
    assert(s.subrange(0, 2) =~= "0x"@);
    assert(after(s, "0x"@) =~= hex(a));
    assert(s.last() == hex(a).last());
    lemma_untrimmed(s);
    lemma_untrimmed(hex(a));
    lemma_not_prefixed(hex(a));
}

proof fn lemma_count_value(n: int)
    requires
        0 <= n <= usize::MAX,
    ensures
        either_number(trimmed(dec(n)), usize::MAX as int) == Some(n),
        either_number(trimmed("0x"@ + hex(n)), usize::MAX as int) == Some(n),
{
    reveal_strlit("0x");
    let s = "0x"@ + hex(n);
    lemma_solid_digits(n, 16);
    lemma_solid_digits(n, 10);
    law_numerals_read_back(n, 16, usize::MAX as int);
    law_numerals_read_back(n, 10, usize::MAX as int);
    assert(s.subrange(0, 2) =~= "0x"@);
    assert(after(s, "0x"@) =~= hex(n));
    assert(s.last() == hex(n).last());
    lemma_untrimmed(s);
    lemma_untrimmed(dec(n));
    lemma_not_prefixed(dec(n));
}

/// The first argument that is no flag is the path; a second one is an error.
pub proof fn law_the_path_is_no_flag(
    verb: Seq<char>,
    args: Seq<Seq<char>>,
    i: int,
    o: OptionsModel,
)
    requires
        0 <= i < args.len(),
        args[i].len() == 0 || args[i][0] != '-',
    ensures
        o.path is None ==> read_argument(verb, args, i, o) == Ok::<_, Seq<char>>(
            (OptionsModel { path: Some(args[i]), ..o }, i + 1),
        ),
        o.path is Some ==> read_argument(verb, args, i, o) is Err,
{
    reveal_strlit("-");
    if begins(args[i], "-"@) {
        assert(args[i].subrange(0, 1)[0] == "-"@[0]);
    }
}

/// Arguments are read to the last: what is read of the first ones is carried over
/// to the others.
pub proof fn law_every_argument_is_read(
    verb: Seq<char>,
    args: Seq<Seq<char>>,
    more: Seq<Seq<char>>,
    i: int,
    o: OptionsModel,
)
    requires
        0 <= i <= args.len(),
        read_from(verb, args, i, o) is Ok,
    ensures
        read_from(verb, args + more, i, o) == read_from(
            verb,
            args + more,
            args.len() as int,
            read_from(verb, args, i, o)->Ok_0,
        ),
    decreases args.len() - i,
{
    if i < args.len() {
        let all = args + more;
        assert(all[i] == args[i]);
        let step = read_argument(verb, args, i, o);
        if i + 1 < args.len() {
            assert(all[i + 1] == args[i + 1]);
        }
        assert(read_argument(verb, all, i, o) == step);
        let (n, next) = step->Ok_0;
        assert(next == i + 1 || next == i + 2 && i + 1 < args.len());
        law_every_argument_is_read(verb, args, more, next, n);
    }
}

/// Nothing is read of no arguments.
pub proof fn law_no_arguments_no_options(verb: Seq<char>, args: Seq<Seq<char>>, o: OptionsModel)
    ensures
        read_from(verb, args, args.len() as int, o) == Ok::<OptionsModel, Seq<char>>(o),
        no_options().path is None,
        !no_options().json,
        !no_options().dot,
        !no_options().headers,
        no_options().addr is None,
        no_options().at is None,
        no_options().count is None,
        no_options().section is None,
        no_options().len is None,
{
}

proof fn lemma_verb_texts()
    ensures
        is_verb("scan"@),
        is_verb("functions"@),
        is_verb("cfg"@),
        is_verb("disasm"@),
        is_verb("hex"@),
        "scan"@.len() == 4,
        "functions"@.len() == 9,
        "cfg"@.len() == 3,
        "cfg"@[0] == 'c',
        "disasm"@.len() == 6,
        "hex"@.len() == 3,
        "hex"@[0] == 'h',
{
    reveal_strlit("scan");
    reveal_strlit("functions");
    reveal_strlit("cfg");
    reveal_strlit("disasm");
    reveal_strlit("hex");
    assert(VERBS@[0]@ == "scan"@);
    assert(VERBS@[1]@ == "functions"@);
    assert(VERBS@[2]@ == "cfg"@);
    assert(VERBS@[3]@ == "disasm"@);
    assert(VERBS@[4]@ == "hex"@);
}

/// Each verb makes its own command of the options that it has; none does without
/// a path.
pub proof fn law_verbs_make_their_command(o: OptionsModel, path: Seq<char>)
    ensures
        o.path is None ==> command_of("scan"@, o) is Err && command_of("functions"@, o) is Err
            && command_of("cfg"@, o) is Err && command_of("disasm"@, o) is Err && command_of(
            "hex"@,
            o,
        ) is Err,
        o.path == Some(path) ==> {
            &&& command_of("scan"@, o) == Ok::<_, Seq<char>>(
                CommandModel::Scan { path, json: o.json },
            )
            &&& command_of("functions"@, o) == Ok::<_, Seq<char>>(
                CommandModel::Functions { path, json: o.json },
            )
            &&& command_of("cfg"@, o) == Ok::<_, Seq<char>>(
                CommandModel::Cfg { path, addr: o.addr, dot: o.dot },
            )
            &&& command_of("disasm"@, o) == Ok::<_, Seq<char>>(
                CommandModel::Disasm { path, addr: o.addr, count: o.count, section: o.section },
            )
        },
{
    lemma_verb_texts();
}

/// A hex dump wants one window and no more: an address, a section or the headers.
pub proof fn law_hex_takes_one_window(o: OptionsModel, path: Seq<char>, a: u64, name: Seq<char>)
    requires
        o.path == Some(path),
    ensures
        o.at == Some(a) && o.section is None && !o.headers ==> command_of("hex"@, o) == Ok::<
            _,
            Seq<char>,
        >(CommandModel::Hex { path, window: HexWindowModel::At(a), len: o.len }),
        o.at is None && o.section == Some(name) && !o.headers ==> command_of("hex"@, o) == Ok::<
            _,
            Seq<char>,
        >(CommandModel::Hex { path, window: HexWindowModel::Section(name), len: o.len }),
        o.at is None && o.section is None && o.headers ==> command_of("hex"@, o) == Ok::<
            _,
            Seq<char>,
        >(CommandModel::Hex { path, window: HexWindowModel::Headers, len: o.len }),
        o.at is None && o.section is None && !o.headers ==> command_of("hex"@, o) is Err,
        o.at is Some && o.section is Some ==> command_of("hex"@, o) is Err,
        o.at is Some && o.headers ==> command_of("hex"@, o) is Err,
        o.section is Some && o.headers ==> command_of("hex"@, o) is Err,
{
    lemma_verb_texts();
}

/// Help comes before all else, then the version; a command line without arguments
/// asks for help, and any other runs a verb.
pub proof fn law_command_lines_are_told_apart(args: Seq<Seq<char>>)
    ensures
        args.contains("-h"@) || args.contains("--help"@) || args.len() == 0 ==> invocation_of(args)
            == Ok::<_, Seq<char>>(InvocationModel::Help),
        !args.contains("-h"@) && !args.contains("--help"@) && (args.contains("-V"@)
            || args.contains("--version"@)) ==> invocation_of(args) == Ok::<_, Seq<char>>(
            InvocationModel::Version,
        ),
        !args.contains("-h"@) && !args.contains("--help"@) && !args.contains("-V"@)
            && !args.contains("--version"@) && args.len() > 0 ==> {
            &&& is_verb(args[0]) ==> invocation_of(args) == run_of(args[0], args.skip(1))
            &&& !is_verb(args[0]) ==> invocation_of(args) == run_of("scan"@, args)
        },
        args.len() > 0 ==> (is_verb(args[0]) <==> args[0] == "scan"@ || args[0] == "functions"@
            || args[0] == "cfg"@ || args[0] == "disasm"@ || args[0] == "hex"@),
{
    lemma_verb_texts();
    if args.contains("-V"@) || args.contains("--version"@) {
        assert(args.len() > 0);
    }
}

/// A run is what the options of the verb make of it.
pub proof fn law_runs_are_made_of_their_options(
    verb: Seq<char>,
    rest: Seq<Seq<char>>,
    o: OptionsModel,
    c: CommandModel,
)
    requires
        read_from(verb, rest, 0, no_options()) == Ok::<OptionsModel, Seq<char>>(o),
        command_of(verb, o) == Ok::<CommandModel, Seq<char>>(c),
    ensures
        run_of(verb, rest) == Ok::<_, Seq<char>>(InvocationModel::Run(c)),
{
}

/// A listing from an address on stops after 100 instructions unless another number
/// is given; without an address it goes through to the end.
pub proof fn law_listings_from_an_address_are_short(addr: Option<u64>, count: Option<usize>)
    ensures
        count is Some ==> listing_limit(addr, count) == count,
        count is None && addr is Some ==> listing_limit(addr, count) == Some(100usize),
        count is None && addr is None ==> listing_limit(addr, count) is None,
{
}

} // verus!
