//! What the program prints: one view of a file for each command.
use crate::binary::{Binary, BinaryModel};
use crate::cfg::{asked_for, build, function_of, is_graph, not_x86, width_of, CfgModel, Walked};
use crate::cfg_laws::law_graph_is_determined;
use crate::cli::{default_count, listing_limit, Command, CommandModel, DEFAULT_HEX_LEN};
use crate::disasm::{disassemble, disassembly, DisasmOpts, DisasmOptsModel, Outcome};
use crate::dot::graph_dot;
use crate::engine::{failure_text, FailureModel};
use crate::functions::{all_calls, discover, is_inventory, InventoryModel};
use crate::functions_laws::law_inventory_is_determined;
use crate::hexdump::{dump, dump_text, resolve_window, window_range};
use crate::inventory::{inventory_json, inventory_text, write_json, write_text};
use crate::json::{report, report_object};
use crate::listing::graph_text;
use crate::rules::{assess_imports, findings_of};
use crate::symbols::{symbols_of, Symbols};
use vstd::prelude::*;

verus! {

/// What a command prints, and the error that it ends with, if it does.
pub ghost struct Shown {
    pub text: Seq<char>,
    pub error: Option<Seq<char>>,
}

pub open spec fn printed(text: Seq<char>) -> Shown {
    Shown { text, error: None }
}

/// An error, with nothing printed.
pub open spec fn refused(e: Seq<char>) -> Shown {
    Shown { text: Seq::empty(), error: Some(e) }
}

/// Is this a view of the functions of a binary?
pub open spec fn is_functions_view(
    path: Seq<char>,
    json: bool,
    file: Seq<u8>,
    b: BinaryModel,
    v: Shown,
) -> bool {
    let m = symbols_of(file, b);
    match width_of(b.arch) {
        None => v == refused(not_x86(b.arch)),
        Some(w) => {
            let c = all_calls(m, w, file, b);
            match c.failed {
                Some(f) => v == refused(failure_text(f)),
                None => exists|inv: InventoryModel| #[trigger]
                    is_inventory(b, m, c.events, inv) && v == printed(
                        if json {
                            inventory_json(path, inv)
                        } else {
                            inventory_text(inv)
                        },
                    ),
            }
        },
    }
}

/// Is this a view of the graph of a function?
pub open spec fn is_cfg_view(
    addr: Option<u64>,
    dot: bool,
    file: Seq<u8>,
    b: BinaryModel,
    v: Shown,
) -> bool {
    let m = Some(symbols_of(file, b));
    match function_of(file, b, addr) {
        Walked::Found(instrs) => exists|g: CfgModel|
            g.func == asked_for(b, addr) && g.instrs == instrs && #[trigger] is_graph(
                g.func,
                g.instrs,
                g.blocks,
            ) && v == printed(
                if dot {
                    graph_dot(m, g)
                } else {
                    graph_text(m, g)
                },
            ),
        Walked::Refused(e) => v == refused(e),
        Walked::NoDecoder(reason) => v == refused(failure_text(FailureModel::Init(reason))),
    }
}

/// The listing of a binary, or as much of it as was printed before the decoder
/// failed.
pub open spec fn disasm_view(opts: DisasmOptsModel, file: Seq<u8>, b: BinaryModel) -> Shown {
    match disassembly(file, b, opts, Some(symbols_of(file, b))) {
        Outcome::Listed(text, n) => printed(text),
        Outcome::Refused(e) => refused(e),
        Outcome::Failed(text, f) => Shown { text, error: Some(failure_text(f)) },
    }
}

/// Is this what a command shows of a file?
pub open spec fn is_view(c: CommandModel, file: Seq<u8>, b: BinaryModel, v: Shown) -> bool {
    let len = file.len() as int;
    match c {
        CommandModel::Scan { path, json } => v == printed(
            if json {
                report_object(path, len, b, findings_of(b.imports))
            } else {
                crate::report::report_text(path, len, b)
            },
        ),
        CommandModel::Functions { path, json } => is_functions_view(path, json, file, b, v),
        CommandModel::Cfg { path, addr, dot } => is_cfg_view(addr, dot, file, b, v),
        CommandModel::Disasm { path, addr, count, section } => v == disasm_view(
            DisasmOptsModel { addr, count: listing_limit(addr, count), section },
            file,
            b,
        ),
        CommandModel::Hex { path, window, len: n } => match window_range(
            b.sections,
            len,
            window,
            n,
            DEFAULT_HEX_LEN as int,
        ) {
            Ok((from, count)) => v == printed(
                dump_text(file.subrange(from, from + count), from),
            ),
            Err(e) => v == refused(e),
        },
    }
}

/// What was printed into an empty text, with the error at its end.
pub open spec fn shown(text: String, error: Result<(), String>) -> Shown {
    Shown {
        text: text@,
        error: match error {
            Ok(_) => None,
            Err(e) => Some(e@),
        },
    }
}

fn view_functions(path: &str, json: bool, file: &[u8], bin: &Binary) -> (r: (
    String,
    Result<(), String>,
))
    ensures
        is_functions_view(path@, json, file@, bin.deep_view(), shown(r.0, r.1)),
{
    let mut text = String::new();
    proof {
        assert(text@ =~= Seq::<char>::empty());
    }
    let syms = Symbols::build(file, bin);
    let inv = match discover(file, bin, &syms) {
        Ok(inv) => inv,
        Err(e) => {
            return (text, Err(e));
        },
    };
    if json {
        write_json(&mut text, path, &inv);
    } else {
        write_text(&mut text, &inv);
    }
    proof {
        let i = inv.deep_view();
        assert(text@ =~= if json {
            inventory_json(path@, i)
        } else {
            inventory_text(i)
        });
    }
    (text, Ok(()))
}

fn view_cfg(addr: Option<u64>, dot: bool, file: &[u8], bin: &Binary) -> (r: (
    String,
    Result<(), String>,
))
    ensures
        is_cfg_view(addr, dot, file@, bin.deep_view(), shown(r.0, r.1)),
{
    let mut text = String::new();
    proof {
        assert(text@ =~= Seq::<char>::empty());
    }
    let syms = Symbols::build(file, bin);
    let graph = match build(file, bin, addr) {
        Ok(g) => g,
        Err(e) => {
            return (text, Err(e));
        },
    };
    if dot {
        graph.to_dot(&mut text, Some(&syms));
    } else {
        graph.to_text(&mut text, Some(&syms));
    }
    proof {
        let m = Some(symbols_of(file@, bin.deep_view()));
        let g = graph.deep_view();
        assert(text@ =~= if dot {
            graph_dot(m, g)
        } else {
            graph_text(m, g)
        });
    }
    (text, Ok(()))
}

/// What a command shows of a file that was read and parsed: the text to print,
/// and the error that follows it, if there is one.
pub fn view(c: &Command, file: &[u8], bin: &Binary) -> (r: (String, Result<(), String>))
    ensures
        is_view(c.deep_view(), file@, bin.deep_view(), shown(r.0, r.1)),
{
    let mut text = String::new();
    proof {
        assert(text@ =~= Seq::<char>::empty());
    }
    match c {
        Command::Scan { path, json } => {
            if *json {
                let findings = assess_imports(bin.imports.as_slice());
                return (report(path.as_str(), file.len(), bin, findings.as_slice()), Ok(()));
            }
            crate::report::write(&mut text, path.as_str(), file.len(), bin);
            proof {
                let t = crate::report::report_text(path@, file@.len() as int, bin.deep_view());
                assert(text@ =~= t);
            }
            (text, Ok(()))
        },
        Command::Functions { path, json } => view_functions(path.as_str(), *json, file, bin),
        Command::Cfg { path: _, addr, dot } => view_cfg(*addr, *dot, file, bin),
        Command::Disasm { path: _, addr, count, section } => {
            let syms = Symbols::build(file, bin);
            let name: Option<&str> = match section {
                Some(s) => Some(s.as_str()),
                None => None,
            };
            let opts = DisasmOpts {
                addr: *addr,
                count: default_count(*addr, *count),
                section: name,
            };
            let done = disassemble(file, bin, &mut text, &opts, Some(&syms));
            proof {
                let d = disasm_view(opts.deep_view(), file@, bin.deep_view());
                assert(Seq::<char>::empty() + d.text =~= d.text);
            }
            match done {
                Ok(_) => (text, Ok(())),
                Err(e) => (text, Err(e)),
            }
        },
        Command::Hex { path: _, window, len } => {
            match resolve_window(file, bin, window, *len, DEFAULT_HEX_LEN) {
                Ok((off, n)) => {
                    let len = file.len();
                    proof {
                        assert(off + n <= len);
                    }
                    (dump(&file[off..off + n], off), Ok(()))
                },
                Err(e) => (text, Err(e)),
            }
        },
    }
}

// ---------------------------------------------------------------------------
// Laws
// ---------------------------------------------------------------------------

/// The same command on the same file always shows the same: the same text, and
/// the same error or none.
pub proof fn law_same_input_same_view(
    c: CommandModel,
    file: Seq<u8>,
    b: BinaryModel,
    x: Shown,
    y: Shown,
)
    requires
        is_view(c, file, b, x),
        is_view(c, file, b, y),
    ensures
        x == y,
{
    let m = symbols_of(file, b);
    match c {
        CommandModel::Functions { path, json } => {
            if x != y {
                let es = all_calls(m, width_of(b.arch)->0, file, b).events;
                let s = choose|i: InventoryModel| #[trigger]
                    is_inventory(b, m, es, i) && x == printed(
                        if json {
                            inventory_json(path, i)
                        } else {
                            inventory_text(i)
                        },
                    );
                let t = choose|i: InventoryModel| #[trigger]
                    is_inventory(b, m, es, i) && y == printed(
                        if json {
                            inventory_json(path, i)
                        } else {
                            inventory_text(i)
                        },
                    );
                law_inventory_is_determined(b, m, es, s, t);
            }
        },
        CommandModel::Cfg { path, addr, dot } => {
            if x != y {
                let func = asked_for(b, addr);
                let instrs = function_of(file, b, addr)->Found_0;
                let s = choose|g: CfgModel|
                    g.func == func && g.instrs == instrs && #[trigger] is_graph(
                        g.func,
                        g.instrs,
                        g.blocks,
                    ) && x == printed(
                        if dot {
                            graph_dot(Some(m), g)
                        } else {
                            graph_text(Some(m), g)
                        },
                    );
                let t = choose|g: CfgModel|
                    g.func == func && g.instrs == instrs && #[trigger] is_graph(
                        g.func,
                        g.instrs,
                        g.blocks,
                    ) && y == printed(
                        if dot {
                            graph_dot(Some(m), g)
                        } else {
                            graph_text(Some(m), g)
                        },
                    );
                law_graph_is_determined(func, instrs, s.blocks, t.blocks);
                assert(s == t);
            }
        },
        _ => {},
    }
}

} // verus!
