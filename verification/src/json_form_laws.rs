//! Every JSON text that is written is well formed.
use crate::binary::{
    lemma_functions_among_positive, likely_packed, packed, total_functions,
    BinaryModel, ImportModel, SectionModel,
};
use crate::entropy::three_places;
use crate::functions::{FunctionModel, InventoryModel};
use crate::inventory::{apis_json, function_json, functions_json, inventory_json, label_json};
use crate::json::{
    all_quoted, finding_object, findings_lines, function_names, import_object,
    imports_lines, ioc_object, iocs_lines, packing_object, quoted, report_object, section_object,
    sections_lines, short_name, string_array,
};
use crate::json_grammar::{
    is_item, is_json, is_open, is_space, is_value, lemma_close, lemma_dec,
    lemma_indented_close, lemma_indented_member, lemma_lines_array, lemma_open, lemma_open_more,
    lemma_plain_string, lemma_quoted, lemma_string_array,
    lemma_three_places, lemma_truth, lines, made_of, names_member,
};
use crate::limits::names_of;
use crate::rules::{severity_name, FindingModel};
use crate::strings::{kind_name, IocModel};
use crate::text::{dec, join, truth};
use vstd::prelude::*;

verus! {

// ---------------------------------------------------------------------------
// Grouping
// ---------------------------------------------------------------------------

/// An array between the name before it and what follows it.
proof fn lemma_group_array(
    acc: Seq<char>,
    k: Seq<char>,
    open: Seq<char>,
    items: Seq<char>,
    close: Seq<char>,
    next: Seq<char>,
)
    ensures
        acc + (k + open) + items + (close + next) == acc + k + (open + items + close) + next,
{
    assert(acc + (k + open) + items + (close + next) =~= acc + k + (open + items + close) + next);
}

/// An object of two members between the name before it and what follows it.
proof fn lemma_group_object(
    acc: Seq<char>,
    k: Seq<char>,
    open: Seq<char>,
    a: Seq<char>,
    m: Seq<char>,
    b: Seq<char>,
    close: Seq<char>,
    next: Seq<char>,
)
    ensures
        acc + (k + open) + a + m + b + (close + next) == acc + k + (open + a + m + b + close) + next,
{
    assert(acc + (k + open) + a + m + b + (close + next) =~= acc + k + (open + a + m + b + close)
        + next);
}

// ---------------------------------------------------------------------------
// Names of members, and where they stand in longer texts
// ---------------------------------------------------------------------------

proof fn lemma_names_first_name_inline()
    ensures
        names_member("{\"name\": "@, 1),
        "{\"name\": "@[0] == '{',
{
    reveal(names_member);
    reveal_strlit("{\"name\": ");
}

proof fn lemma_names_virtual_addr_inline()
    ensures
        names_member(", \"virtual_addr\": "@, 2),
        ", \"virtual_addr\": "@[0] == ',',
{
    reveal(names_member);
    reveal_strlit(", \"virtual_addr\": ");
}

proof fn lemma_names_virtual_size_inline()
    ensures
        names_member(", \"virtual_size\": "@, 2),
        ", \"virtual_size\": "@[0] == ',',
{
    reveal(names_member);
    reveal_strlit(", \"virtual_size\": ");
}

proof fn lemma_names_file_offset_inline()
    ensures
        names_member(", \"file_offset\": "@, 2),
        ", \"file_offset\": "@[0] == ',',
{
    reveal(names_member);
    reveal_strlit(", \"file_offset\": ");
}

proof fn lemma_names_file_size_inline()
    ensures
        names_member(", \"file_size\": "@, 2),
        ", \"file_size\": "@[0] == ',',
{
    reveal(names_member);
    reveal_strlit(", \"file_size\": ");
}

proof fn lemma_names_readable_inline()
    ensures
        names_member(", \"readable\": "@, 2),
        ", \"readable\": "@[0] == ',',
{
    reveal(names_member);
    reveal_strlit(", \"readable\": ");
}

proof fn lemma_names_writable_inline()
    ensures
        names_member(", \"writable\": "@, 2),
        ", \"writable\": "@[0] == ',',
{
    reveal(names_member);
    reveal_strlit(", \"writable\": ");
}

proof fn lemma_names_executable_inline()
    ensures
        names_member(", \"executable\": "@, 2),
        ", \"executable\": "@[0] == ',',
{
    reveal(names_member);
    reveal_strlit(", \"executable\": ");
}

proof fn lemma_names_entropy_inline()
    ensures
        names_member(", \"entropy\": "@, 2),
        ", \"entropy\": "@[0] == ',',
{
    reveal(names_member);
    reveal_strlit(", \"entropy\": ");
}

proof fn lemma_names_likely_packed_inline()
    ensures
        names_member(", \"likely_packed\": "@, 2),
        ", \"likely_packed\": "@[0] == ',',
{
    reveal(names_member);
    reveal_strlit(", \"likely_packed\": ");
}

proof fn lemma_names_first_dll_inline()
    ensures
        names_member("{\"dll\": "@, 1),
        "{\"dll\": "@[0] == '{',
{
    reveal(names_member);
    reveal_strlit("{\"dll\": ");
}

proof fn lemma_names_functions_inline()
    ensures
        names_member(", \"functions\": "@, 2),
        ", \"functions\": "@[0] == ',',
{
    reveal(names_member);
    reveal_strlit(", \"functions\": ");
}

proof fn lemma_names_first_capability_inline()
    ensures
        names_member("{\"capability\": "@, 1),
        "{\"capability\": "@[0] == '{',
{
    reveal(names_member);
    reveal_strlit("{\"capability\": ");
}

proof fn lemma_names_severity_inline()
    ensures
        names_member(", \"severity\": "@, 2),
        ", \"severity\": "@[0] == ',',
{
    reveal(names_member);
    reveal_strlit(", \"severity\": ");
}

proof fn lemma_names_matched_inline()
    ensures
        names_member(", \"matched\": "@, 2),
        ", \"matched\": "@[0] == ',',
{
    reveal(names_member);
    reveal_strlit(", \"matched\": ");
}

proof fn lemma_names_first_kind_inline()
    ensures
        names_member("{\"kind\": "@, 1),
        "{\"kind\": "@[0] == '{',
{
    reveal(names_member);
    reveal_strlit("{\"kind\": ");
}

proof fn lemma_names_value_inline()
    ensures
        names_member(", \"value\": "@, 2),
        ", \"value\": "@[0] == ',',
{
    reveal(names_member);
    reveal_strlit(", \"value\": ");
}

proof fn lemma_names_first_api_inline()
    ensures
        names_member("{\"api\": "@, 1),
        "{\"api\": "@[0] == '{',
{
    reveal(names_member);
    reveal_strlit("{\"api\": ");
}

proof fn lemma_names_call_sites_inline()
    ensures
        names_member(", \"call_sites\": "@, 2),
        ", \"call_sites\": "@[0] == ',',
{
    reveal(names_member);
    reveal_strlit(", \"call_sites\": ");
}

proof fn lemma_names_first_rva_inline()
    ensures
        names_member("{\"rva\": "@, 1),
        "{\"rva\": "@[0] == '{',
{
    reveal(names_member);
    reveal_strlit("{\"rva\": ");
}

proof fn lemma_names_calls_inline()
    ensures
        names_member(", \"calls\": "@, 2),
        ", \"calls\": "@[0] == ',',
{
    reveal(names_member);
    reveal_strlit(", \"calls\": ");
}

proof fn lemma_names_label_inline()
    ensures
        names_member(", \"label\": "@, 2),
        ", \"label\": "@[0] == ',',
{
    reveal(names_member);
    reveal_strlit(", \"label\": ");
}

proof fn lemma_names_reaches_inline()
    ensures
        names_member(", \"reaches\": "@, 2),
        ", \"reaches\": "@[0] == ',',
{
    reveal(names_member);
    reveal_strlit(", \"reaches\": ");
}

proof fn lemma_names_first_packed_inline()
    ensures
        names_member("{\"packed\": "@, 1),
        "{\"packed\": "@[0] == '{',
{
    reveal(names_member);
    reveal_strlit("{\"packed\": ");
}

proof fn lemma_names_sections_inline()
    ensures
        names_member(", \"sections\": "@, 2),
        ", \"sections\": "@[0] == ',',
{
    reveal(names_member);
    reveal_strlit(", \"sections\": ");
}

proof fn lemma_names_first_libraries_inline()
    ensures
        names_member("{\"libraries\": "@, 1),
        "{\"libraries\": "@[0] == '{',
{
    reveal(names_member);
    reveal_strlit("{\"libraries\": ");
}

proof fn lemma_names_first_ascii_inline()
    ensures
        names_member("{\"ascii\": "@, 1),
        "{\"ascii\": "@[0] == '{',
{
    reveal(names_member);
    reveal_strlit("{\"ascii\": ");
}

proof fn lemma_names_wide_inline()
    ensures
        names_member(", \"wide\": "@, 2),
        ", \"wide\": "@[0] == ',',
{
    reveal(names_member);
    reveal_strlit(", \"wide\": ");
}

proof fn lemma_names_first_file()
    ensures
        names_member("{\n  \"file\": "@, 4),
        "{\n  \"file\": "@[0] == '{',
{
    reveal(names_member);
    reveal_strlit("{\n  \"file\": ");
}

proof fn lemma_names_size()
    ensures
        names_member(",\n  \"size\": "@, 4),
        ",\n  \"size\": "@[0] == ',',
{
    reveal(names_member);
    reveal_strlit(",\n  \"size\": ");
}

proof fn lemma_names_format()
    ensures
        names_member(",\n  \"format\": "@, 4),
        ",\n  \"format\": "@[0] == ',',
{
    reveal(names_member);
    reveal_strlit(",\n  \"format\": ");
}

proof fn lemma_names_arch()
    ensures
        names_member(",\n  \"arch\": "@, 4),
        ",\n  \"arch\": "@[0] == ',',
{
    reveal(names_member);
    reveal_strlit(",\n  \"arch\": ");
}

proof fn lemma_names_bits()
    ensures
        names_member(",\n  \"bits\": "@, 4),
        ",\n  \"bits\": "@[0] == ',',
{
    reveal(names_member);
    reveal_strlit(",\n  \"bits\": ");
}

proof fn lemma_names_kind()
    ensures
        names_member(",\n  \"kind\": "@, 4),
        ",\n  \"kind\": "@[0] == ',',
{
    reveal(names_member);
    reveal_strlit(",\n  \"kind\": ");
}

proof fn lemma_names_attributes()
    ensures
        names_member(",\n  \"attributes\": "@, 4),
        ",\n  \"attributes\": "@[0] == ',',
{
    reveal(names_member);
    reveal_strlit(",\n  \"attributes\": ");
}

proof fn lemma_names_entry_point()
    ensures
        names_member(",\n  \"entry_point\": "@, 4),
        ",\n  \"entry_point\": "@[0] == ',',
{
    reveal(names_member);
    reveal_strlit(",\n  \"entry_point\": ");
}

proof fn lemma_names_image_base()
    ensures
        names_member(",\n  \"image_base\": "@, 4),
        ",\n  \"image_base\": "@[0] == ',',
{
    reveal(names_member);
    reveal_strlit(",\n  \"image_base\": ");
}

proof fn lemma_names_sections()
    ensures
        names_member(",\n  \"sections\": "@, 4),
        ",\n  \"sections\": "@[0] == ',',
{
    reveal(names_member);
    reveal_strlit(",\n  \"sections\": ");
}

proof fn lemma_names_packing()
    ensures
        names_member(",\n  \"packing\": "@, 4),
        ",\n  \"packing\": "@[0] == ',',
{
    reveal(names_member);
    reveal_strlit(",\n  \"packing\": ");
}

proof fn lemma_names_imports()
    ensures
        names_member(",\n  \"imports\": "@, 4),
        ",\n  \"imports\": "@[0] == ',',
{
    reveal(names_member);
    reveal_strlit(",\n  \"imports\": ");
}

proof fn lemma_names_import_summary()
    ensures
        names_member(",\n  \"import_summary\": "@, 4),
        ",\n  \"import_summary\": "@[0] == ',',
{
    reveal(names_member);
    reveal_strlit(",\n  \"import_summary\": ");
}

proof fn lemma_split_sections()
    ensures
        ",\n  \"sections\": [\n"@ == ",\n  \"sections\": "@ + "[\n"@,
{
    reveal_strlit(",\n  \"sections\": [\n");
    reveal_strlit(",\n  \"sections\": ");
    reveal_strlit("[\n");
    assert(",\n  \"sections\": [\n"@ =~= ",\n  \"sections\": "@ + "[\n"@);
}

proof fn lemma_split_packing()
    ensures
        "  ],\n  \"packing\": "@ == "  ]"@ + ",\n  \"packing\": "@,
{
    reveal_strlit("  ],\n  \"packing\": ");
    reveal_strlit("  ]");
    reveal_strlit(",\n  \"packing\": ");
    assert("  ],\n  \"packing\": "@ =~= "  ]"@ + ",\n  \"packing\": "@);
}

proof fn lemma_split_imports()
    ensures
        ",\n  \"imports\": [\n"@ == ",\n  \"imports\": "@ + "[\n"@,
{
    reveal_strlit(",\n  \"imports\": [\n");
    reveal_strlit(",\n  \"imports\": ");
    reveal_strlit("[\n");
    assert(",\n  \"imports\": [\n"@ =~= ",\n  \"imports\": "@ + "[\n"@);
}

proof fn lemma_split_import_summary_libraries()
    ensures
        "  ],\n  \"import_summary\": {\"libraries\": "@ == "  ]"@ + (",\n  \"import_summary\": "@ + "{\"libraries\": "@),
{
    reveal_strlit("  ],\n  \"import_summary\": {\"libraries\": ");
    reveal_strlit("  ]");
    reveal_strlit(",\n  \"import_summary\": ");
    reveal_strlit("{\"libraries\": ");
    assert("  ],\n  \"import_summary\": {\"libraries\": "@ =~= "  ]"@ + (",\n  \"import_summary\": "@ + "{\"libraries\": "@));
}

proof fn lemma_split_capabilities()
    ensures
        "},\n  \"capabilities\": [\n"@ == "}"@ + (",\n  \"capabilities\": "@ + "[\n"@),
{
    reveal_strlit("},\n  \"capabilities\": [\n");
    reveal_strlit("}");
    reveal_strlit(",\n  \"capabilities\": ");
    reveal_strlit("[\n");
    assert("},\n  \"capabilities\": [\n"@ =~= "}"@ + (",\n  \"capabilities\": "@ + "[\n"@));
}

proof fn lemma_names_capabilities()
    ensures
        names_member(",\n  \"capabilities\": "@, 4),
        ",\n  \"capabilities\": "@[0] == ',',
{
    reveal(names_member);
    reveal_strlit(",\n  \"capabilities\": ");
}

proof fn lemma_names_strings()
    ensures
        names_member(",\n  \"strings\": "@, 4),
        ",\n  \"strings\": "@[0] == ',',
{
    reveal(names_member);
    reveal_strlit(",\n  \"strings\": ");
}

proof fn lemma_names_iocs()
    ensures
        names_member(",\n  \"iocs\": "@, 4),
        ",\n  \"iocs\": "@[0] == ',',
{
    reveal(names_member);
    reveal_strlit(",\n  \"iocs\": ");
}

proof fn lemma_split_strings_ascii()
    ensures
        "  ],\n  \"strings\": {\"ascii\": "@ == "  ]"@ + (",\n  \"strings\": "@ + "{\"ascii\": "@),
{
    reveal_strlit("  ],\n  \"strings\": {\"ascii\": ");
    reveal_strlit("  ]");
    reveal_strlit(",\n  \"strings\": ");
    reveal_strlit("{\"ascii\": ");
    assert("  ],\n  \"strings\": {\"ascii\": "@ =~= "  ]"@ + (",\n  \"strings\": "@ + "{\"ascii\": "@));
}

proof fn lemma_split_iocs()
    ensures
        "},\n  \"iocs\": [\n"@ == "}"@ + (",\n  \"iocs\": "@ + "[\n"@),
{
    reveal_strlit("},\n  \"iocs\": [\n");
    reveal_strlit("}");
    reveal_strlit(",\n  \"iocs\": ");
    reveal_strlit("[\n");
    assert("},\n  \"iocs\": [\n"@ =~= "}"@ + (",\n  \"iocs\": "@ + "[\n"@));
}

proof fn lemma_split_lines_end()
    ensures
        "  ]\n}\n"@ == "  ]"@ + "\n}\n"@,
{
    reveal_strlit("  ]\n}\n");
    reveal_strlit("  ]");
    reveal_strlit("\n}\n");
    assert("  ]\n}\n"@ =~= "  ]"@ + "\n}\n"@);
}

proof fn lemma_names_code_calls()
    ensures
        names_member(",\n  \"code_calls\": "@, 4),
        ",\n  \"code_calls\": "@[0] == ',',
{
    reveal(names_member);
    reveal_strlit(",\n  \"code_calls\": ");
}

proof fn lemma_names_import_calls()
    ensures
        names_member(",\n  \"import_calls\": "@, 4),
        ",\n  \"import_calls\": "@[0] == ',',
{
    reveal(names_member);
    reveal_strlit(",\n  \"import_calls\": ");
}

proof fn lemma_names_indirect_calls()
    ensures
        names_member(",\n  \"indirect_calls\": "@, 4),
        ",\n  \"indirect_calls\": "@[0] == ',',
{
    reveal(names_member);
    reveal_strlit(",\n  \"indirect_calls\": ");
}

proof fn lemma_names_imported_functions()
    ensures
        names_member(",\n  \"imported_functions\": "@, 4),
        ",\n  \"imported_functions\": "@[0] == ',',
{
    reveal(names_member);
    reveal_strlit(",\n  \"imported_functions\": ");
}

proof fn lemma_names_attribution()
    ensures
        names_member(",\n  \"attribution\": "@, 4),
        ",\n  \"attribution\": "@[0] == ',',
{
    reveal(names_member);
    reveal_strlit(",\n  \"attribution\": ");
}

proof fn lemma_names_functions()
    ensures
        names_member(",\n  \"functions\": "@, 4),
        ",\n  \"functions\": "@[0] == ',',
{
    reveal(names_member);
    reveal_strlit(",\n  \"functions\": ");
}

proof fn lemma_names_api_calls()
    ensures
        names_member(",\n  \"api_calls\": "@, 4),
        ",\n  \"api_calls\": "@[0] == ',',
{
    reveal(names_member);
    reveal_strlit(",\n  \"api_calls\": ");
}

proof fn lemma_names_never_called()
    ensures
        names_member(",\n  \"never_called\": "@, 4),
        ",\n  \"never_called\": "@[0] == ',',
{
    reveal(names_member);
    reveal_strlit(",\n  \"never_called\": ");
}

proof fn lemma_split_attribution_approximate_functions()
    ensures
        ",\n  \"attribution\": \"approximate\",\n  \"functions\": [\n"@ == ",\n  \"attribution\": "@ + ("\"approximate\""@ + (",\n  \"functions\": "@ + "[\n"@)),
{
    reveal_strlit(",\n  \"attribution\": \"approximate\",\n  \"functions\": [\n");
    reveal_strlit(",\n  \"attribution\": ");
    reveal_strlit("\"approximate\"");
    reveal_strlit(",\n  \"functions\": ");
    reveal_strlit("[\n");
    assert(",\n  \"attribution\": \"approximate\",\n  \"functions\": [\n"@ =~= ",\n  \"attribution\": "@ + ("\"approximate\""@ + (",\n  \"functions\": "@ + "[\n"@)));
}

proof fn lemma_split_api_calls()
    ensures
        "  ],\n  \"api_calls\": [\n"@ == "  ]"@ + (",\n  \"api_calls\": "@ + "[\n"@),
{
    reveal_strlit("  ],\n  \"api_calls\": [\n");
    reveal_strlit("  ]");
    reveal_strlit(",\n  \"api_calls\": ");
    reveal_strlit("[\n");
    assert("  ],\n  \"api_calls\": [\n"@ =~= "  ]"@ + (",\n  \"api_calls\": "@ + "[\n"@));
}

proof fn lemma_split_never_called()
    ensures
        "  ],\n  \"never_called\": ["@ == "  ]"@ + (",\n  \"never_called\": "@ + "["@),
{
    reveal_strlit("  ],\n  \"never_called\": [");
    reveal_strlit("  ]");
    reveal_strlit(",\n  \"never_called\": ");
    reveal_strlit("[");
    assert("  ],\n  \"never_called\": ["@ =~= "  ]"@ + (",\n  \"never_called\": "@ + "["@));
}

proof fn lemma_split_names_end()
    ensures
        "]\n}\n"@ == "]"@ + "\n}\n"@,
{
    reveal_strlit("]\n}\n");
    reveal_strlit("]");
    reveal_strlit("\n}\n");
    assert("]\n}\n"@ =~= "]"@ + "\n}\n"@);
}

// ---------------------------------------------------------------------------
// Objects of the report
// ---------------------------------------------------------------------------

proof fn lemma_section(s: SectionModel, d: int)
    requires
        d >= 1,
    ensures
        is_item(section_object(s), d, false),
{
    let margin = "    "@;
    assert("    {\"name\": "@ =~= margin + "{\"name\": "@) by {
        reveal_strlit("    {\"name\": ");
        reveal_strlit("    ");
        reveal_strlit("{\"name\": ");
    }
    assert(is_space(margin)) by {
        reveal_strlit("    ");
    }
    lemma_names_first_name_inline();
    lemma_quoted(s.name, d - 1);
    lemma_open("{\"name\": "@, 1, quoted(s.name), d - 1);
    let t0 = "{\"name\": "@ + quoted(s.name);
    assert("    {\"name\": "@ + quoted(s.name) =~= margin + t0);
    lemma_names_virtual_addr_inline();
    lemma_dec(s.virtual_addr as int, d - 1);
    lemma_indented_member(margin, t0, ", \"virtual_addr\": "@, 2, dec(s.virtual_addr as int), d - 1);
    let t1 = t0 + ", \"virtual_addr\": "@ + dec(s.virtual_addr as int);
    lemma_names_virtual_size_inline();
    lemma_dec(s.virtual_size as int, d - 1);
    lemma_indented_member(margin, t1, ", \"virtual_size\": "@, 2, dec(s.virtual_size as int), d - 1);
    let t2 = t1 + ", \"virtual_size\": "@ + dec(s.virtual_size as int);
    lemma_names_file_offset_inline();
    lemma_dec(s.file_offset as int, d - 1);
    lemma_indented_member(margin, t2, ", \"file_offset\": "@, 2, dec(s.file_offset as int), d - 1);
    let t3 = t2 + ", \"file_offset\": "@ + dec(s.file_offset as int);
    lemma_names_file_size_inline();
    lemma_dec(s.file_size as int, d - 1);
    lemma_indented_member(margin, t3, ", \"file_size\": "@, 2, dec(s.file_size as int), d - 1);
    let t4 = t3 + ", \"file_size\": "@ + dec(s.file_size as int);
    lemma_names_readable_inline();
    lemma_truth(s.readable, d - 1);
    lemma_indented_member(margin, t4, ", \"readable\": "@, 2, truth(s.readable), d - 1);
    let t5 = t4 + ", \"readable\": "@ + truth(s.readable);
    lemma_names_writable_inline();
    lemma_truth(s.writable, d - 1);
    lemma_indented_member(margin, t5, ", \"writable\": "@, 2, truth(s.writable), d - 1);
    let t6 = t5 + ", \"writable\": "@ + truth(s.writable);
    lemma_names_executable_inline();
    lemma_truth(s.executable, d - 1);
    lemma_indented_member(margin, t6, ", \"executable\": "@, 2, truth(s.executable), d - 1);
    let t7 = t6 + ", \"executable\": "@ + truth(s.executable);
    lemma_names_entropy_inline();
    lemma_three_places(s.entropy, d - 1);
    lemma_indented_member(margin, t7, ", \"entropy\": "@, 2, three_places(s.entropy), d - 1);
    let t8 = t7 + ", \"entropy\": "@ + three_places(s.entropy);
    lemma_names_likely_packed_inline();
    lemma_truth(likely_packed(s), d - 1);
    lemma_indented_member(margin, t8, ", \"likely_packed\": "@, 2, truth(likely_packed(s)), d - 1);
    let t9 = t8 + ", \"likely_packed\": "@ + truth(likely_packed(s));
    lemma_indented_close(margin, t9, d - 1);
}

proof fn lemma_import(i: ImportModel, d: int)
    requires
        d >= 2,
    ensures
        is_item(import_object(i), d, false),
{
    let margin = "    "@;
    assert("    {\"dll\": "@ =~= margin + "{\"dll\": "@) by {
        reveal_strlit("    {\"dll\": ");
        reveal_strlit("    ");
        reveal_strlit("{\"dll\": ");
    }
    assert(is_space(margin)) by {
        reveal_strlit("    ");
    }
    lemma_names_first_dll_inline();
    lemma_quoted(i.dll, d - 1);
    lemma_open("{\"dll\": "@, 1, quoted(i.dll), d - 1);
    let t0 = "{\"dll\": "@ + quoted(i.dll);
    assert("    {\"dll\": "@ + quoted(i.dll) =~= margin + t0);
    lemma_names_functions_inline();
    lemma_string_array(function_names(i.functions), d - 1);
    lemma_indented_member(margin, t0, ", \"functions\": "@, 2, string_array(function_names(i.functions)), d - 1);
    let t1 = t0 + ", \"functions\": "@ + string_array(function_names(i.functions));
    lemma_indented_close(margin, t1, d - 1);
}

proof fn lemma_finding(f: FindingModel, d: int)
    requires
        d >= 2,
    ensures
        is_item(finding_object(f), d, false),
{
    let margin = "    "@;
    assert("    {\"capability\": "@ =~= margin + "{\"capability\": "@) by {
        reveal_strlit("    {\"capability\": ");
        reveal_strlit("    ");
        reveal_strlit("{\"capability\": ");
    }
    assert(is_space(margin)) by {
        reveal_strlit("    ");
    }
    lemma_names_first_capability_inline();
    lemma_quoted(f.capability, d - 1);
    lemma_open("{\"capability\": "@, 1, quoted(f.capability), d - 1);
    let t0 = "{\"capability\": "@ + quoted(f.capability);
    assert("    {\"capability\": "@ + quoted(f.capability) =~= margin + t0);
    lemma_names_severity_inline();
    lemma_quoted(severity_name(f.severity), d - 1);
    lemma_indented_member(margin, t0, ", \"severity\": "@, 2, quoted(severity_name(f.severity)), d - 1);
    let t1 = t0 + ", \"severity\": "@ + quoted(severity_name(f.severity));
    lemma_names_matched_inline();
    lemma_string_array(f.matched, d - 1);
    lemma_indented_member(margin, t1, ", \"matched\": "@, 2, string_array(f.matched), d - 1);
    let t2 = t1 + ", \"matched\": "@ + string_array(f.matched);
    lemma_indented_close(margin, t2, d - 1);
}

proof fn lemma_ioc(i: IocModel, d: int)
    requires
        d >= 1,
    ensures
        is_item(ioc_object(i), d, false),
{
    let margin = "    "@;
    assert("    {\"kind\": "@ =~= margin + "{\"kind\": "@) by {
        reveal_strlit("    {\"kind\": ");
        reveal_strlit("    ");
        reveal_strlit("{\"kind\": ");
    }
    assert(is_space(margin)) by {
        reveal_strlit("    ");
    }
    lemma_names_first_kind_inline();
    lemma_quoted(kind_name(i.kind), d - 1);
    lemma_open("{\"kind\": "@, 1, quoted(kind_name(i.kind)), d - 1);
    let t0 = "{\"kind\": "@ + quoted(kind_name(i.kind));
    assert("    {\"kind\": "@ + quoted(kind_name(i.kind)) =~= margin + t0);
    lemma_names_value_inline();
    lemma_quoted(i.value, d - 1);
    lemma_indented_member(margin, t0, ", \"value\": "@, 2, quoted(i.value), d - 1);
    let t1 = t0 + ", \"value\": "@ + quoted(i.value);
    lemma_indented_close(margin, t1, d - 1);
}

/// One called API as a JSON object.
spec fn api_object(v: (Seq<char>, u64)) -> Seq<char> {
    "    {\"api\": "@ + quoted(v.0) + ", \"call_sites\": "@ + dec(v.1 as int) + "}"@
}

proof fn lemma_api(v: (Seq<char>, u64), d: int)
    requires
        d >= 1,
    ensures
        is_item(api_object(v), d, false),
{
    let margin = "    "@;
    assert("    {\"api\": "@ =~= margin + "{\"api\": "@) by {
        reveal_strlit("    {\"api\": ");
        reveal_strlit("    ");
        reveal_strlit("{\"api\": ");
    }
    assert(is_space(margin)) by {
        reveal_strlit("    ");
    }
    lemma_names_first_api_inline();
    lemma_quoted(v.0, d - 1);
    lemma_open("{\"api\": "@, 1, quoted(v.0), d - 1);
    let t0 = "{\"api\": "@ + quoted(v.0);
    assert("    {\"api\": "@ + quoted(v.0) =~= margin + t0);
    lemma_names_call_sites_inline();
    lemma_dec(v.1 as int, d - 1);
    lemma_indented_member(margin, t0, ", \"call_sites\": "@, 2, dec(v.1 as int), d - 1);
    let t1 = t0 + ", \"call_sites\": "@ + dec(v.1 as int);
    lemma_indented_close(margin, t1, d - 1);
}

proof fn lemma_label(l: Option<crate::symbols::LabelModel>, d: int)
    ensures
        is_value(label_json(l), d),
{
    match l {
        Some(crate::symbols::LabelModel::Entry) => {
            lemma_quoted("entry"@, d);
        },
        Some(crate::symbols::LabelModel::Export(n)) => {
            lemma_quoted("export:"@ + n, d);
        },
        Some(crate::symbols::LabelModel::TlsCallback) => {
            lemma_quoted("tls_callback"@, d);
        },
        None => {},
    }
}

/// The same object with its array written as one.
spec fn function_object(f: FunctionModel) -> Seq<char> {
    "    {\"rva\": "@ + dec(f.rva as int) + ", \"calls\": "@ + dec(f.calls as int)
        + ", \"label\": "@ + label_json(f.label) + ", \"reaches\": "@ + string_array(f.apis) + "}"@
}

proof fn lemma_function_object(f: FunctionModel, d: int)
    requires
        d >= 2,
    ensures
        is_item(function_object(f), d, false),
{
    let margin = "    "@;
    assert("    {\"rva\": "@ =~= margin + "{\"rva\": "@) by {
        reveal_strlit("    {\"rva\": ");
        reveal_strlit("    ");
        reveal_strlit("{\"rva\": ");
    }
    assert(is_space(margin)) by {
        reveal_strlit("    ");
    }
    lemma_names_first_rva_inline();
    lemma_dec(f.rva as int, d - 1);
    lemma_open("{\"rva\": "@, 1, dec(f.rva as int), d - 1);
    let t0 = "{\"rva\": "@ + dec(f.rva as int);
    assert("    {\"rva\": "@ + dec(f.rva as int) =~= margin + t0);
    lemma_names_calls_inline();
    lemma_dec(f.calls as int, d - 1);
    lemma_indented_member(margin, t0, ", \"calls\": "@, 2, dec(f.calls as int), d - 1);
    let t1 = t0 + ", \"calls\": "@ + dec(f.calls as int);
    lemma_names_label_inline();
    lemma_label(f.label, d - 1);
    lemma_indented_member(margin, t1, ", \"label\": "@, 2, label_json(f.label), d - 1);
    let t2 = t1 + ", \"label\": "@ + label_json(f.label);
    lemma_names_reaches_inline();
    lemma_string_array(f.apis, d - 1);
    lemma_indented_member(margin, t2, ", \"reaches\": "@, 2, string_array(f.apis), d - 1);
    let t3 = t2 + ", \"reaches\": "@ + string_array(f.apis);
    lemma_indented_close(margin, t3, d - 1);
}

proof fn lemma_function(f: FunctionModel, d: int)
    requires
        d >= 2,
    ensures
        is_item(function_json(f), d, false),
{
    lemma_function_object(f, d);
    let acc = "    {\"rva\": "@ + dec(f.rva as int) + ", \"calls\": "@ + dec(f.calls as int)
        + ", \"label\": "@ + label_json(f.label);
    let items = join(all_quoted(f.apis), ", "@);
    assert(", \"reaches\": ["@ =~= ", \"reaches\": "@ + "["@) by {
        reveal_strlit(", \"reaches\": [");
        reveal_strlit(", \"reaches\": ");
        reveal_strlit("[");
    }
    assert("]}"@ =~= "]"@ + "}"@) by {
        reveal_strlit("]}");
        reveal_strlit("]");
        reveal_strlit("}");
    }
    lemma_group_array(acc, ", \"reaches\": "@, "["@, items, "]"@, "}"@);
}

spec fn sections_of(v: Seq<SectionModel>) -> Seq<Seq<char>> {
    Seq::new(v.len(), |i: int| section_object(v[i]))
}

proof fn lemma_sections_lines(v: Seq<SectionModel>, n: int)
    requires
        0 <= n <= v.len(),
    ensures
        sections_lines(v, n) == lines(sections_of(v), n),
    decreases n,
{
    if n > 0 {
        lemma_sections_lines(v, n - 1);
    }
}

proof fn lemma_sections_array(v: Seq<SectionModel>, d: int)
    requires
        d >= 2,
    ensures
        is_value("[\n"@ + sections_lines(v, v.len() as int) + "  ]"@, d),
{
    let all = sections_of(v);
    assert forall|i: int| 0 <= i < all.len() implies is_item(#[trigger] all[i], d - 1, false) by {
        lemma_section(v[i], d - 1);
    }
    lemma_sections_lines(v, v.len() as int);
    lemma_lines_array(all, d);
}

spec fn imports_of(v: Seq<ImportModel>) -> Seq<Seq<char>> {
    Seq::new(v.len(), |i: int| import_object(v[i]))
}

proof fn lemma_imports_lines(v: Seq<ImportModel>, n: int)
    requires
        0 <= n <= v.len(),
    ensures
        imports_lines(v, n) == lines(imports_of(v), n),
    decreases n,
{
    if n > 0 {
        lemma_imports_lines(v, n - 1);
    }
}

proof fn lemma_imports_array(v: Seq<ImportModel>, d: int)
    requires
        d >= 3,
    ensures
        is_value("[\n"@ + imports_lines(v, v.len() as int) + "  ]"@, d),
{
    let all = imports_of(v);
    assert forall|i: int| 0 <= i < all.len() implies is_item(#[trigger] all[i], d - 1, false) by {
        lemma_import(v[i], d - 1);
    }
    lemma_imports_lines(v, v.len() as int);
    lemma_lines_array(all, d);
}

spec fn findings_of(v: Seq<FindingModel>) -> Seq<Seq<char>> {
    Seq::new(v.len(), |i: int| finding_object(v[i]))
}

proof fn lemma_findings_lines(v: Seq<FindingModel>, n: int)
    requires
        0 <= n <= v.len(),
    ensures
        findings_lines(v, n) == lines(findings_of(v), n),
    decreases n,
{
    if n > 0 {
        lemma_findings_lines(v, n - 1);
    }
}

proof fn lemma_findings_array(v: Seq<FindingModel>, d: int)
    requires
        d >= 3,
    ensures
        is_value("[\n"@ + findings_lines(v, v.len() as int) + "  ]"@, d),
{
    let all = findings_of(v);
    assert forall|i: int| 0 <= i < all.len() implies is_item(#[trigger] all[i], d - 1, false) by {
        lemma_finding(v[i], d - 1);
    }
    lemma_findings_lines(v, v.len() as int);
    lemma_lines_array(all, d);
}

spec fn iocs_of(v: Seq<IocModel>) -> Seq<Seq<char>> {
    Seq::new(v.len(), |i: int| ioc_object(v[i]))
}

proof fn lemma_iocs_lines(v: Seq<IocModel>, n: int)
    requires
        0 <= n <= v.len(),
    ensures
        iocs_lines(v, n) == lines(iocs_of(v), n),
    decreases n,
{
    if n > 0 {
        lemma_iocs_lines(v, n - 1);
    }
}

proof fn lemma_iocs_array(v: Seq<IocModel>, d: int)
    requires
        d >= 2,
    ensures
        is_value("[\n"@ + iocs_lines(v, v.len() as int) + "  ]"@, d),
{
    let all = iocs_of(v);
    assert forall|i: int| 0 <= i < all.len() implies is_item(#[trigger] all[i], d - 1, false) by {
        lemma_ioc(v[i], d - 1);
    }
    lemma_iocs_lines(v, v.len() as int);
    lemma_lines_array(all, d);
}

spec fn functions_of(v: Seq<FunctionModel>) -> Seq<Seq<char>> {
    Seq::new(v.len(), |i: int| function_json(v[i]))
}

proof fn lemma_functions_lines(v: Seq<FunctionModel>, n: int)
    requires
        0 <= n <= v.len(),
    ensures
        functions_json(v, n) == lines(functions_of(v), n),
    decreases n,
{
    if n > 0 {
        lemma_functions_lines(v, n - 1);
    }
}

proof fn lemma_functions_array(v: Seq<FunctionModel>, d: int)
    requires
        d >= 3,
    ensures
        is_value("[\n"@ + functions_json(v, v.len() as int) + "  ]"@, d),
{
    let all = functions_of(v);
    assert forall|i: int| 0 <= i < all.len() implies is_item(#[trigger] all[i], d - 1, false) by {
        lemma_function(v[i], d - 1);
    }
    lemma_functions_lines(v, v.len() as int);
    lemma_lines_array(all, d);
}

spec fn apis_of(v: Seq<(Seq<char>, u64)>) -> Seq<Seq<char>> {
    Seq::new(v.len(), |i: int| api_object(v[i]))
}

proof fn lemma_apis_lines(v: Seq<(Seq<char>, u64)>, n: int)
    requires
        0 <= n <= v.len(),
    ensures
        apis_json(v, n) == lines(apis_of(v), n),
    decreases n,
{
    if n > 0 {
        lemma_apis_lines(v, n - 1);
        let o = v[n - 1];
        assert(apis_json(v, n - 1) + "    {\"api\": "@ + quoted(o.0) + ", \"call_sites\": "@ + dec(
            o.1 as int,
        ) + "}"@ =~= apis_json(v, n - 1) + api_object(o));
    }
}

proof fn lemma_apis_array(v: Seq<(Seq<char>, u64)>, d: int)
    requires
        d >= 2,
    ensures
        is_value("[\n"@ + apis_json(v, v.len() as int) + "  ]"@, d),
{
    let all = apis_of(v);
    assert forall|i: int| 0 <= i < all.len() implies is_item(#[trigger] all[i], d - 1, false) by {
        lemma_api(v[i], d - 1);
    }
    lemma_apis_lines(v, v.len() as int);
    lemma_lines_array(all, d);
}

proof fn lemma_packing(secs: Seq<SectionModel>, d: int)
    requires
        d >= 2,
    ensures
        is_value("{\"packed\": "@ + truth(secs.len() > 0) + ", \"sections\": "@ + string_array(names_of(secs)) + "}"@, d),
{
    lemma_names_first_packed_inline();
    lemma_truth(secs.len() > 0, d - 1);
    lemma_open("{\"packed\": "@, 1, truth(secs.len() > 0), d - 1);
    lemma_names_sections_inline();
    lemma_string_array(names_of(secs), d - 1);
    lemma_open_more("{\"packed\": "@ + truth(secs.len() > 0), ", \"sections\": "@, 2, string_array(names_of(secs)), d - 1);
    reveal_strlit("}");
    assert("}"@.drop_last() =~= Seq::<char>::empty());
    lemma_close("{\"packed\": "@ + truth(secs.len() > 0) + ", \"sections\": "@ + string_array(names_of(secs)), "}"@, d - 1);
}

proof fn lemma_summary(a: int, b: int, d: int)
    requires
        d >= 1,
        a >= 0,
        b >= 0,
    ensures
        is_value("{\"libraries\": "@ + dec(a) + ", \"functions\": "@ + dec(b) + "}"@, d),
{
    lemma_names_first_libraries_inline();
    lemma_dec(a, d - 1);
    lemma_open("{\"libraries\": "@, 1, dec(a), d - 1);
    lemma_names_functions_inline();
    lemma_dec(b, d - 1);
    lemma_open_more("{\"libraries\": "@ + dec(a), ", \"functions\": "@, 2, dec(b), d - 1);
    reveal_strlit("}");
    assert("}"@.drop_last() =~= Seq::<char>::empty());
    lemma_close("{\"libraries\": "@ + dec(a) + ", \"functions\": "@ + dec(b), "}"@, d - 1);
}

proof fn lemma_counts(a: int, b: int, d: int)
    requires
        d >= 1,
        a >= 0,
        b >= 0,
    ensures
        is_value("{\"ascii\": "@ + dec(a) + ", \"wide\": "@ + dec(b) + "}"@, d),
{
    lemma_names_first_ascii_inline();
    lemma_dec(a, d - 1);
    lemma_open("{\"ascii\": "@, 1, dec(a), d - 1);
    lemma_names_wide_inline();
    lemma_dec(b, d - 1);
    lemma_open_more("{\"ascii\": "@ + dec(a), ", \"wide\": "@, 2, dec(b), d - 1);
    reveal_strlit("}");
    assert("}"@.drop_last() =~= Seq::<char>::empty());
    lemma_close("{\"ascii\": "@ + dec(a) + ", \"wide\": "@ + dec(b), "}"@, d - 1);
}

/// A closed object with a line feed behind it is a JSON text.
proof fn lemma_document(t: Seq<char>, d: int)
    requires
        d >= 1,
        is_open(t, d - 1),
    ensures
        is_json(t + "\n}\n"@, d),
{
    reveal_strlit("\n}\n");
    let tail = seq!['\n', '}'];
    let feed = seq!['\n'];
    assert(tail.drop_last() =~= feed);
    lemma_close(t, tail, d - 1);
    let v = t + tail;
    let s = t + "\n}\n"@;
    let none = Seq::<char>::empty();
    assert(s =~= none + v + feed);
    assert(made_of(s, none, v, feed));
}

/// The members of the report before its sections.
spec fn report_head(path: Seq<char>, size: int, b: BinaryModel) -> Seq<char> {
    "{\n  \"file\": "@ + quoted(path) + ",\n  \"size\": "@ + dec(size) + ",\n  \"format\": "@ + quoted(
        short_name(b.format),
    ) + ",\n  \"arch\": "@ + quoted(b.arch) + ",\n  \"bits\": "@ + dec(b.bits as int)
        + ",\n  \"kind\": "@ + quoted(b.kind) + ",\n  \"attributes\": "@ + string_array(b.attributes)
        + ",\n  \"entry_point\": "@ + dec(b.entry_point as int) + ",\n  \"image_base\": "@ + dec(
        b.image_base as int,
    )
}

proof fn lemma_report_head(path: Seq<char>, size: int, b: BinaryModel)
    requires
        size >= 0,
    ensures
        is_open(report_head(path, size, b), 3),
{
    lemma_names_first_file();
    lemma_quoted(path, 3);
    lemma_open("{\n  \"file\": "@, 4, quoted(path), 3);
    let t0 = "{\n  \"file\": "@ + quoted(path);
    lemma_names_size();
    lemma_dec(size, 3);
    lemma_open_more(t0, ",\n  \"size\": "@, 4, dec(size), 3);
    let t1 = t0 + ",\n  \"size\": "@ + dec(size);
    lemma_names_format();
    lemma_quoted(short_name(b.format), 3);
    lemma_open_more(t1, ",\n  \"format\": "@, 4, quoted(short_name(b.format)), 3);
    let t2 = t1 + ",\n  \"format\": "@ + quoted(short_name(b.format));
    lemma_names_arch();
    lemma_quoted(b.arch, 3);
    lemma_open_more(t2, ",\n  \"arch\": "@, 4, quoted(b.arch), 3);
    let t3 = t2 + ",\n  \"arch\": "@ + quoted(b.arch);
    lemma_names_bits();
    lemma_dec(b.bits as int, 3);
    lemma_open_more(t3, ",\n  \"bits\": "@, 4, dec(b.bits as int), 3);
    let t4 = t3 + ",\n  \"bits\": "@ + dec(b.bits as int);
    lemma_names_kind();
    lemma_quoted(b.kind, 3);
    lemma_open_more(t4, ",\n  \"kind\": "@, 4, quoted(b.kind), 3);
    let t5 = t4 + ",\n  \"kind\": "@ + quoted(b.kind);
    lemma_names_attributes();
    lemma_string_array(b.attributes, 3);
    lemma_open_more(t5, ",\n  \"attributes\": "@, 4, string_array(b.attributes), 3);
    let t6 = t5 + ",\n  \"attributes\": "@ + string_array(b.attributes);
    lemma_names_entry_point();
    lemma_dec(b.entry_point as int, 3);
    lemma_open_more(t6, ",\n  \"entry_point\": "@, 4, dec(b.entry_point as int), 3);
    let t7 = t6 + ",\n  \"entry_point\": "@ + dec(b.entry_point as int);
    lemma_names_image_base();
    lemma_dec(b.image_base as int, 3);
    lemma_open_more(t7, ",\n  \"image_base\": "@, 4, dec(b.image_base as int), 3);
    let t8 = t7 + ",\n  \"image_base\": "@ + dec(b.image_base as int);
    assert(report_head(path, size, b) == t8);
}

/// The members of the report up to its import summary.
spec fn report_upto_summary(path: Seq<char>, size: int, b: BinaryModel) -> Seq<char> {
    report_head(path, size, b) + ",\n  \"sections\": "@ + ("[\n"@ + sections_lines(
        b.sections,
        b.sections.len() as int,
    ) + "  ]"@) + ",\n  \"packing\": "@ + packing_object(packed(b.sections))
        + ",\n  \"imports\": "@ + ("[\n"@ + imports_lines(b.imports, b.imports.len() as int)
        + "  ]"@) + ",\n  \"import_summary\": "@ + ("{\"libraries\": "@ + dec(
        b.imports.len() as int,
    ) + ", \"functions\": "@ + dec(total_functions(b.imports)) + "}"@)
}

proof fn lemma_report_upto_summary(path: Seq<char>, size: int, b: BinaryModel)
    requires
        size >= 0,
    ensures
        is_open(report_upto_summary(path, size, b), 3),
        report_head(path, size, b) + ",\n  \"sections\": [\n"@ + sections_lines(
            b.sections,
            b.sections.len() as int,
        ) + "  ],\n  \"packing\": "@ + packing_object(packed(b.sections))
            + ",\n  \"imports\": [\n"@ + imports_lines(b.imports, b.imports.len() as int)
            + "  ],\n  \"import_summary\": {\"libraries\": "@ + dec(b.imports.len() as int)
            + ", \"functions\": "@ + dec(total_functions(b.imports))
            + "},\n  \"capabilities\": [\n"@ == report_upto_summary(path, size, b) + (
        ",\n  \"capabilities\": "@ + "[\n"@),
{
    let h = report_head(path, size, b);
    lemma_report_head(path, size, b);
    let sections = sections_lines(b.sections, b.sections.len() as int);
    let packing = packing_object(packed(b.sections));
    let imports = imports_lines(b.imports, b.imports.len() as int);
    let libs = b.imports.len() as int;
    let fns = total_functions(b.imports);
    lemma_functions_among_positive(b.imports, b.imports.len() as int);
    lemma_sections_array(b.sections, 3);
    lemma_packing(packed(b.sections), 3);
    lemma_imports_array(b.imports, 3);
    lemma_summary(libs, fns, 3);
    let o = "[\n"@;
    let c = "  ]"@;
    let kc = ",\n  \"capabilities\": "@;
    let ks = ",\n  \"sections\": "@;
    lemma_names_sections();
    let kp = ",\n  \"packing\": "@;
    lemma_names_packing();
    let ki = ",\n  \"imports\": "@;
    lemma_names_imports();
    let km = ",\n  \"import_summary\": "@;
    lemma_names_import_summary();
    lemma_split_sections();
    lemma_split_packing();
    lemma_split_imports();
    lemma_split_import_summary_libraries();
    lemma_split_capabilities();
    let a1 = o + sections + c;
    lemma_group_array(h, ks, o, sections, c, kp);
    let h1 = h + ks + a1;
    lemma_open_more(h, ks, 4, a1, 3);
    let h2 = h1 + kp + packing;
    lemma_open_more(h1, kp, 4, packing, 3);
    let a3 = o + imports + c;
    let lb = "{\"libraries\": "@;
    let fu = ", \"functions\": "@;
    lemma_group_array(h2, ki, o, imports, c, km + lb);
    let h3 = h2 + ki + a3;
    lemma_open_more(h2, ki, 4, a3, 3);
    let o4 = lb + dec(libs) + fu + dec(fns) + "}"@;
    lemma_group_object(h3, km, lb, dec(libs), fu, dec(fns), "}"@, kc + o);
    lemma_open_more(h3, km, 4, o4, 3);
}

/// The machine-readable report on a file is well-formed JSON, whatever its names,
/// paths and strings hold.
pub proof fn law_report_is_json(
    path: Seq<char>,
    size: int,
    b: BinaryModel,
    findings: Seq<FindingModel>,
)
    requires
        size >= 0,
    ensures
        is_json(report_object(path, size, b, findings), 4),
{
    let h4 = report_upto_summary(path, size, b);
    lemma_report_upto_summary(path, size, b);
    let found = findings_lines(findings, findings.len() as int);
    let iocs = iocs_lines(b.strings.iocs, b.strings.iocs.len() as int);
    lemma_findings_array(findings, 3);
    lemma_counts(b.strings.ascii_count as int, b.strings.wide_count as int, 3);
    lemma_iocs_array(b.strings.iocs, 3);
    let o = "[\n"@;
    let c = "  ]"@;
    let kc = ",\n  \"capabilities\": "@;
    lemma_names_capabilities();
    let kt = ",\n  \"strings\": "@;
    lemma_names_strings();
    let kx = ",\n  \"iocs\": "@;
    lemma_names_iocs();
    lemma_split_strings_ascii();
    lemma_split_iocs();
    lemma_split_lines_end();
    let a5 = o + found + c;
    let la = "{\"ascii\": "@;
    let wi = ", \"wide\": "@;
    lemma_group_array(h4, kc, o, found, c, kt + la);
    let h5 = h4 + kc + a5;
    lemma_open_more(h4, kc, 4, a5, 3);
    let na = dec(b.strings.ascii_count as int);
    let nw = dec(b.strings.wide_count as int);
    let o6 = la + na + wi + nw + "}"@;
    lemma_group_object(h5, kt, la, na, wi, nw, "}"@, kx + o);
    let h6 = h5 + kt + o6;
    lemma_open_more(h5, kt, 4, o6, 3);
    let a7 = o + iocs + c;
    lemma_group_array(h6, kx, o, iocs, c, "\n}\n"@);
    let h7 = h6 + kx + a7;
    lemma_open_more(h6, kx, 4, a7, 3);
    lemma_document(h7, 4);
}

/// The members of the inventory before its lists.
spec fn inventory_head(path: Seq<char>, i: InventoryModel) -> Seq<char> {
    "{\n  \"file\": "@ + quoted(path) + ",\n  \"code_calls\": "@ + dec(i.direct_calls as int)
        + ",\n  \"import_calls\": "@ + dec(i.import_calls as int)
        + ",\n  \"indirect_calls\": "@ + dec(i.indirect_calls as int)
        + ",\n  \"imported_functions\": "@ + dec(i.imported_total as int)
}

proof fn lemma_inventory_head(path: Seq<char>, i: InventoryModel)
    ensures
        is_open(inventory_head(path, i), 3),
{
    lemma_names_first_file();
    lemma_quoted(path, 3);
    lemma_open("{\n  \"file\": "@, 4, quoted(path), 3);
    let t0 = "{\n  \"file\": "@ + quoted(path);
    lemma_names_code_calls();
    lemma_dec(i.direct_calls as int, 3);
    lemma_open_more(t0, ",\n  \"code_calls\": "@, 4, dec(i.direct_calls as int), 3);
    let t1 = t0 + ",\n  \"code_calls\": "@ + dec(i.direct_calls as int);
    lemma_names_import_calls();
    lemma_dec(i.import_calls as int, 3);
    lemma_open_more(t1, ",\n  \"import_calls\": "@, 4, dec(i.import_calls as int), 3);
    let t2 = t1 + ",\n  \"import_calls\": "@ + dec(i.import_calls as int);
    lemma_names_indirect_calls();
    lemma_dec(i.indirect_calls as int, 3);
    lemma_open_more(t2, ",\n  \"indirect_calls\": "@, 4, dec(i.indirect_calls as int), 3);
    let t3 = t2 + ",\n  \"indirect_calls\": "@ + dec(i.indirect_calls as int);
    lemma_names_imported_functions();
    lemma_dec(i.imported_total as int, 3);
    lemma_open_more(t3, ",\n  \"imported_functions\": "@, 4, dec(i.imported_total as int), 3);
    let t4 = t3 + ",\n  \"imported_functions\": "@ + dec(i.imported_total as int);
    assert(inventory_head(path, i) == t4);
}

/// The machine-readable inventory is well-formed JSON, whatever its names hold.
pub proof fn law_inventory_is_json(path: Seq<char>, i: InventoryModel)
    ensures
        is_json(inventory_json(path, i), 4),
{
    let h = inventory_head(path, i);
    lemma_inventory_head(path, i);
    let functions = functions_json(i.functions, i.functions.len() as int);
    let apis = apis_json(i.api_calls, i.api_calls.len() as int);
    let names = join(all_quoted(i.uncalled), ", "@);
    lemma_functions_array(i.functions, 3);
    lemma_apis_array(i.api_calls, 3);
    lemma_string_array(i.uncalled, 3);
    let word = "\"approximate\""@;
    assert(word =~= "\""@ + "approximate"@ + "\""@) by {
        reveal_strlit("\"approximate\"");
        reveal_strlit("approximate");
        reveal_strlit("\"");
    }
    assert(is_value(word, 3)) by {
        reveal_strlit("approximate");
        lemma_plain_string("approximate"@, 3);
    }
    let o = "[\n"@;
    let c = "  ]"@;
    let ka = ",\n  \"attribution\": "@;
    lemma_names_attribution();
    let kf = ",\n  \"functions\": "@;
    lemma_names_functions();
    let kp = ",\n  \"api_calls\": "@;
    lemma_names_api_calls();
    let kn = ",\n  \"never_called\": "@;
    lemma_names_never_called();
    lemma_split_attribution_approximate_functions();
    lemma_split_api_calls();
    lemma_split_never_called();
    lemma_split_names_end();
    let h1 = h + ka + word;
    lemma_open_more(h, ka, 4, word, 3);
    assert(h + (ka + (word + (kf + o))) =~= h1 + (kf + o));
    let a2 = o + functions + c;
    lemma_group_array(h1, kf, o, functions, c, kp + o);
    let h2 = h1 + kf + a2;
    lemma_open_more(h1, kf, 4, a2, 3);
    let a3 = o + apis + c;
    lemma_group_array(h2, kp, o, apis, c, kn + "["@);
    let h3 = h2 + kp + a3;
    lemma_open_more(h2, kp, 4, a3, 3);
    let a4 = "["@ + names + "]"@;
    lemma_group_array(h3, kn, "["@, names, "]"@, "\n}\n"@);
    let h4 = h3 + kn + a4;
    lemma_open_more(h3, kn, 4, a4, 3);
    lemma_document(h4, 4);
    assert(inventory_json(path, i) == h4 + "\n}\n"@);
}

} // verus!
