//! What is said where something is refused, and when that is.
use crate::binary::{BinaryModel, SectionModel};
use crate::binary_laws::{first_holding, law_first_section_holds, law_on_disk_bytes, on_disk};
use crate::cfg::{
    asked_for, end_of, function_of, insn_at, instrs_of, no_decoder, not_x86, region_of, seen_after,
    stranded, wanted, width_of, work_after, InstrModel, Instrs, Region, Walked, MAX_INSNS,
};
use crate::cli::{
    advice_from, all_hex, belongs, extra_error, flag_error, owners_among, owners_of,
    reads_as_address, FLAG_OWNERS, RETIRED,
};
use crate::elf::elf_of;
use crate::engine::{decoded, FailureModel, InsnModel, Width};
use crate::error::{parse_error_text, ParseError};
use crate::hexdump::{no_such_section, titles_of};
use crate::listing::{instr_note, note_of};
use crate::pe::{coff_at, optional_at, pe_of, table_error};
use crate::picks::{lemma_picks_last, lemma_picks_none, picks};
use crate::reader::le;
use crate::search::{after, begins};
use crate::symbols::{place_of, SymbolsModel};
use crate::text::{dec, hex0x, hex0x_padded, join};
use vstd::prelude::*;

verus! {

// ---------------------------------------------------------------------------
// Files
// ---------------------------------------------------------------------------

/// A file is too short where it ends before what is wanted of it, and the refusal
/// tells its length.
#[verifier::rlimit(50)]
pub proof fn law_short_files_end_too_early(data: Seq<u8>, offset: usize, needed: usize, have: usize)
    requires
        data.len() <= usize::MAX,
    ensures
        pe_of(data) == Err::<BinaryModel, ParseError>(ParseError::TooShort { offset, needed, have })
            || elf_of(data) == Err::<BinaryModel, ParseError>(
            ParseError::TooShort { offset, needed, have },
        ) ==> offset + needed > data.len() && have == data.len() && 1 <= needed <= 8,
{
    lemma_pe_short(data, offset, needed, have);
}

proof fn lemma_table_short(data: Seq<u8>, table: int, n: int)
    requires
        0 <= table,
        data.len() <= usize::MAX,
    ensures
        table_error(data, table, n) matches Some(e) ==> {
            &&& e is TooShort
            &&& e->offset + e->needed > data.len()
            &&& e->have == data.len()
            &&& 1 <= e->needed <= 8
        },
    decreases n,
{
    if n > 0 {
        lemma_table_short(data, table, n - 1);
    }
}

#[verifier::rlimit(50)]
proof fn lemma_pe_short(data: Seq<u8>, offset: usize, needed: usize, have: usize)
    requires
        data.len() <= usize::MAX,
    ensures
        pe_of(data) == Err::<BinaryModel, ParseError>(ParseError::TooShort { offset, needed, have })
            ==> offset + needed > data.len() && have == data.len() && 1 <= needed <= 8,
{
    let coff = coff_at(data);
    reveal_with_fuel(le, 5);
    lemma_table_short(
        data,
        optional_at(data) + le(data, coff + 16, 2),
        le(data, coff + 2, 2),
    );
}

/// What is said of a file that cannot be read.
pub proof fn law_parse_errors_give_their_reason(offset: usize, needed: usize, have: usize, m: u16, c: u8)
    ensures
        parse_error_text(ParseError::TooShort { offset, needed, have })
            == "buffer too short: need "@ + dec(needed as int) + " byte(s) at offset "@ + hex0x(
            offset as int,
        ) + ", but file is only "@ + dec(have as int) + " bytes"@,
        parse_error_text(ParseError::BadDosMagic) == "not a PE file: missing 'MZ' magic"@,
        parse_error_text(ParseError::BadPeSignature)
            == "not a PE file: missing 'PE\\0\\0' signature"@,
        parse_error_text(ParseError::UnknownOptionalMagic(m)) == "unknown optional-header magic: "@
            + hex0x_padded(m as int, 4),
        parse_error_text(ParseError::BadElfMagic) == "not an ELF file: missing '\\x7fELF' magic"@,
        parse_error_text(ParseError::UnsupportedElfClass(c)) == "unsupported ELF class byte: "@
            + dec(c as int) + " (want 1=32-bit or 2=64-bit)"@,
        parse_error_text(ParseError::UnsupportedElfEndian) == "big-endian ELF is not supported"@,
        parse_error_text(ParseError::UnknownFormat)
            == "unrecognized file format (not PE 'MZ' or ELF '\\x7fELF')"@,
{
}

// ---------------------------------------------------------------------------
// Functions
// ---------------------------------------------------------------------------

/// A function is looked for exactly where the code is x86, an entry point or an
/// address is given, and the first section that holds it has bytes there in the
/// file; the code is read in the mode of the architecture.
pub proof fn law_functions_need_code(
    file: Seq<u8>,
    b: BinaryModel,
    start: Option<u64>,
    func: u64,
    i: int,
)
    requires
        start is Some ==> func == start->0,
        start is None ==> func == b.entry_point,
    ensures
        width_of(b.arch) is None ==> region_of(file, b, start) == Err::<Region, Seq<char>>(
            not_x86(b.arch),
        ),
        width_of(b.arch) is Some && start is None && func == 0 ==> region_of(file, b, start)
            is Err,
        width_of(b.arch) is Some && (start is Some || func != 0) && (forall|k: int|
            !#[trigger] first_holding(b.sections, func as int, k)) ==> region_of(file, b, start)
            is Err,
        width_of(b.arch) is Some && (start is Some || func != 0) && first_holding(
            b.sections,
            func as int,
            i,
        ) && b.sections[i].virtual_addr + on_disk(file, b.sections[i]).len() <= u64::MAX ==> {
            let s = b.sections[i];
            &&& func < s.virtual_addr + on_disk(file, s).len() ==> region_of(file, b, start) == Ok::<
                Region,
                Seq<char>,
            >(
                Region {
                    wide: width_of(b.arch) == Some(Width::Bits64),
                    code: on_disk(file, s),
                    base: s.virtual_addr,
                },
            )
            &&& func >= s.virtual_addr + on_disk(file, s).len() ==> region_of(file, b, start) is Err
        },
        region_of(file, b, start) matches Err(e) ==> function_of(file, b, start)
            == Walked::Refused(e),
{
    law_first_section_holds(b.sections, func as int);
    if first_holding(b.sections, func as int, i) {
        law_on_disk_bytes(file, b.sections[i]);
    }
}

/// Is there an address of the region at which the decoder cannot be set up, for
/// that reason?
pub open spec fn fails_to_set_up(r: Region, a: u64, reason: Seq<char>) -> bool {
    &&& r.base <= a < r.base + r.code.len()
    &&& decoded(r.wide, r.code.skip(a - r.base), a, 1) == Err::<Seq<InsnModel>, FailureModel>(
        FailureModel::Init(reason),
    )
}

proof fn lemma_stranded(r: Region, work: Seq<u64>, seen: Instrs)
    requires
        seen.dom().finite(),
    ensures
        stranded(r, work, seen) matches Some(reason) ==> exists|a: u64| #[trigger]
            fails_to_set_up(r, a, reason),
    decreases MAX_INSNS - seen.len(), work.len(),
{
    if work.len() > 0 {
        if wanted(r.base as int, end_of(r), seen, work[0]) && no_decoder(r, work[0]) is Some {
            assert(fails_to_set_up(r, work[0], no_decoder(r, work[0])->0));
        } else {
            let found = insn_at(r, work[0]);
            lemma_stranded(
                r,
                work_after(r.base as int, end_of(r), work, seen, found),
                seen_after(r.base as int, end_of(r), work, seen, found),
            );
        }
    }
}

/// A walk is given up for want of a decoder only where one cannot be set up at
/// some address, and always where that is so at its start. Any other walk finds
/// the instructions of the function, and is refused where there are none.
pub proof fn law_walks_are_given_up_without_a_decoder(
    file: Seq<u8>,
    b: BinaryModel,
    start: Option<u64>,
    r: Region,
    func: u64,
)
    requires
        region_of(file, b, start) == Ok::<Region, Seq<char>>(r),
        func == asked_for(b, start),
    ensures
        function_of(file, b, start) is NoDecoder ==> exists|a: u64| #[trigger]
            fails_to_set_up(r, a, function_of(file, b, start)->NoDecoder_0),
        forall|reason: Seq<char>| #[trigger]
            fails_to_set_up(r, func, reason) ==> function_of(file, b, start) == Walked::NoDecoder(
                reason,
            ),
        (forall|a: u64, reason: Seq<char>| !#[trigger] fails_to_set_up(r, a, reason)) ==> {
            &&& instrs_of(r, func).len() > 0 ==> function_of(file, b, start) == Walked::Found(
                instrs_of(r, func),
            )
            &&& instrs_of(r, func).len() == 0 ==> function_of(file, b, start) == Walked::Refused(
                "no decodable instructions at "@ + hex0x(func as int),
            )
        },
{
    let none: Instrs = Map::empty();
    lemma_stranded(r, seq![func], none);
    if function_of(file, b, start) is NoDecoder {
        let reason = function_of(file, b, start)->NoDecoder_0;
        let a = choose|a: u64| #[trigger] fails_to_set_up(r, a, reason);
        assert(fails_to_set_up(r, a, reason));
    }
    assert forall|reason: Seq<char>| #[trigger] fails_to_set_up(r, func, reason) implies function_of(
        file,
        b,
        start,
    ) == Walked::NoDecoder(reason) by {
        assert(seq![func][0] == func);
        assert(wanted(r.base as int, end_of(r), none, func));
    }
}

/// An instruction is noted by its operands, which stand behind the first space of
/// its text, and by the address behind it.
pub proof fn law_notes_are_of_the_operands(
    m: Option<SymbolsModel>,
    i: InstrModel,
    mnemonic: Seq<char>,
    operands: Seq<char>,
)
    requires
        i.text == mnemonic + seq![' '] + operands,
        forall|k: int| 0 <= k < mnemonic.len() ==> #[trigger] mnemonic[k] != ' ',
        i.addr + i.size <= u64::MAX,
    ensures
        instr_note(m, i) == note_of(m, i.flow, operands, (i.addr + i.size) as u64),
{
    let text = i.text;
    let n = mnemonic.len() as int;
    assert forall|k: int| 0 <= k < n implies #[trigger] text[k] != ' ' by {
        assert(text[k] == mnemonic[k]);
    }
    lemma_space(text, 0, n);
    assert(text.subrange(n + 1, text.len() as int) =~= operands);
}

proof fn lemma_space(s: Seq<char>, from: int, at: int)
    requires
        0 <= from <= at < s.len(),
        s[at] == ' ',
        forall|k: int| from <= k < at ==> #[trigger] s[k] != ' ',
    ensures
        place_of(s, ' ', from) == at,
    decreases at - from,
{
    if from < at {
        assert(s[from] != ' ');
        lemma_space(s, from + 1, at);
    }
}

// ---------------------------------------------------------------------------
// Command lines
// ---------------------------------------------------------------------------

proof fn lemma_owner_places(flag: Seq<char>, n: int) -> (places: Seq<int>)
    requires
        0 <= n <= FLAG_OWNERS@.len(),
    ensures
        picks(places, 0, n, |k: int| FLAG_OWNERS@[k].0@ == flag),
        owners_among(flag, n).len() == places.len(),
        forall|j: int|
            0 <= j < places.len() ==> #[trigger] owners_among(flag, n)[j]
                == FLAG_OWNERS@[places[j]].1@,
    decreases n,
{
    let holds = |k: int| FLAG_OWNERS@[k].0@ == flag;
    if n <= 0 {
        lemma_picks_none(0, n, holds);
        Seq::empty()
    } else {
        let places = lemma_owner_places(flag, n - 1);
        assert(picks(places, 0, n - 1, holds));
        lemma_picks_last(places, 0, n, holds);
        if holds(n - 1) {
            places.push(n - 1)
        } else {
            places
        }
    }
}

/// A flag of another verb is refused with all verbs that have it, in order.
pub proof fn law_foreign_flags_name_their_verbs(flag: Seq<char>, verb: Seq<char>) -> (places: Seq<
    int,
>)
    ensures
        picks(places, 0, 11, |k: int| FLAG_OWNERS@[k].0@ == flag),
        belongs(flag, verb) ==> flag_error(flag, verb) is None,
        !belongs(flag, verb) && places.len() > 0 ==> flag_error(flag, verb) == Some(
            "error: "@ + flag + " is not an option of '"@ + verb + "' -- it belongs to: "@ + join(
                Seq::new(places.len(), |j: int| FLAG_OWNERS@[places[j]].1@),
                ", "@,
            ) + "\n"@ + "try: sma --help"@,
        ),
{
    let places = lemma_owner_places(flag, 11);
    assert(owners_of(flag) =~= Seq::new(places.len(), |j: int| FLAG_OWNERS@[places[j]].1@));
    places
}

proof fn lemma_advice(flag: Seq<char>, i: int)
    requires
        0 <= i <= RETIRED@.len(),
    ensures
        match advice_from(flag, i) {
            Some(a) => exists|k: int|
                i <= k < 11 && (#[trigger] RETIRED@[k]).0@ == flag && RETIRED@[k].1@ == a,
            None => forall|k: int| i <= k < 11 ==> (#[trigger] RETIRED@[k]).0@ != flag,
        },
    decreases RETIRED@.len() - i,
{
    if i < RETIRED@.len() && RETIRED@[i].0@ != flag {
        lemma_advice(flag, i + 1);
    }
}

/// A flag that no verb has is refused with what to use instead, where it once
/// existed, and else as unknown.
pub proof fn law_unknown_flags_are_told_from_retired_ones(flag: Seq<char>, verb: Seq<char>)
    requires
        forall|k: int| 0 <= k < 11 ==> (#[trigger] FLAG_OWNERS@[k]).0@ != flag,
    ensures
        (forall|k: int| 0 <= k < 11 ==> (#[trigger] RETIRED@[k]).0@ != flag) ==> flag_error(
            flag,
            verb,
        ) == Some("error: unknown option '"@ + flag + "'\n"@ + "try: sma --help"@),
        (exists|k: int| 0 <= k < 11 && (#[trigger] RETIRED@[k]).0@ == flag) ==> exists|k: int|
            0 <= k < 11 && (#[trigger] RETIRED@[k]).0@ == flag && flag_error(flag, verb) == Some(
                "error: "@ + flag + " no longer exists.\n       "@ + RETIRED@[k].1@,
            ),
{
    let places = lemma_owner_places(flag, 11);
    if places.len() > 0 {
        assert(FLAG_OWNERS@[places[0]].0@ == flag);
    }
    lemma_advice(flag, 0);
}

/// A word reads as an address where it is hexadecimal digits behind `0x`, or at
/// least five of them alone.
pub proof fn law_addresses_read_as_such(digits: Seq<char>)
    requires
        forall|i: int|
            0 <= i < digits.len() ==> ('0' <= #[trigger] digits[i] <= '9' || 'a' <= digits[i] <= 'f'
                || 'A' <= digits[i] <= 'F'),
    ensures
        reads_as_address("0x"@ + digits) <==> digits.len() > 0,
        reads_as_address("0X"@ + digits) <==> digits.len() > 0,
        reads_as_address(digits) <==> digits.len() >= 5,
{
    reveal_strlit("0x");
    reveal_strlit("0X");
    let a = "0x"@ + digits;
    let b = "0X"@ + digits;
    assert(a.subrange(0, 2) =~= "0x"@);
    assert(after(a, "0x"@) =~= digits);
    assert(b.subrange(0, 2) =~= "0X"@);
    assert(after(b, "0X"@) =~= digits);
    if begins(b, "0x"@) {
        assert(b.subrange(0, 2)[1] == 'X');
    }
    if digits.len() >= 2 {
        assert(digits.subrange(0, 2)[1] == digits[1]);
    }
    assert(all_hex(digits));
}

/// A word with any other character reads as no address.
pub proof fn law_other_words_are_no_addresses(s: Seq<char>, i: int)
    requires
        2 <= i < s.len(),
        !('0' <= s[i] <= '9' || 'a' <= s[i] <= 'f' || 'A' <= s[i] <= 'F'),
    ensures
        !reads_as_address(s),
{
    reveal_strlit("0x");
    reveal_strlit("0X");
    assert(after(s, "0x"@)[i - 2] == s[i]);
    assert(after(s, "0X"@)[i - 2] == s[i]);
}

/// A second path is refused. Where one of the two reads as an address and the verb
/// has a flag for one, the refusal shows how it is given.
pub proof fn law_second_paths_are_refused(seen: Seq<char>, a: Seq<char>)
    ensures
        ({
            let plain = "error: unexpected extra argument '"@ + a + "' (already analyzing '"@ + seen
                + "')\n"@ + "try: sma --help"@;
            &&& extra_error("scan"@, seen, a) == plain
            &&& extra_error("functions"@, seen, a) == plain
            &&& !reads_as_address(seen) && !reads_as_address(a) ==> extra_error("cfg"@, seen, a)
                == plain
            &&& reads_as_address(seen) ==> extra_error("cfg"@, seen, a)
                == "error: an address needs the "@ + "--addr"@
                + " flag, it is not a positional argument\n       try: sma "@ + "cfg"@ + " "@
                + "--addr"@ + " "@ + seen + " \""@ + a + "\""@
            &&& !reads_as_address(seen) && reads_as_address(a) ==> extra_error("hex"@, seen, a)
                == "error: an address needs the "@ + "--at"@
                + " flag, it is not a positional argument\n       try: sma "@ + "hex"@ + " "@
                + "--at"@ + " "@ + a + " \""@ + seen + "\""@
        }),
{
    reveal_strlit("scan");
    reveal_strlit("functions");
    reveal_strlit("cfg");
    reveal_strlit("disasm");
    reveal_strlit("hex");
    assert("cfg"@[0] == 'c' && "hex"@[0] == 'h');
}

/// What is said where a section of that name is missing: the titles of all
/// sections there are.
pub proof fn law_missing_sections_are_told_from_all(secs: Seq<SectionModel>, name: Seq<char>)
    ensures
        no_such_section(secs, name) == "no section named '"@ + name + "'. this file has: "@ + join(
            Seq::new(
                secs.len(),
                |i: int|
                    if secs[i].name.len() == 0 {
                        "(unnamed)"@
                    } else {
                        secs[i].name
                    },
            ),
            ", "@,
        ),
{
    assert(titles_of(secs) =~= Seq::new(
        secs.len(),
        |i: int|
            if secs[i].name.len() == 0 {
                "(unnamed)"@
            } else {
                secs[i].name
            },
    ));
}

} // verus!
