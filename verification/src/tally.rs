//! Counting calls: where they go, and how often.
use crate::binary::{clamped, lesser, SectionModel};
use crate::cfg::{as_target, flow_of, target_of};
use crate::disasm::{behind, wrapped, BATCH};
use crate::engine::{bytes_taken, decoded, in_line, FailureModel, InsnModel};
use crate::keys::{ascending, sorted_keys};
use crate::order::{before, increasing, lemma_inserted, lemma_irreflexive, locate};
use crate::symbols::{reached, CallTarget, SymbolsModel, TargetModel};
use crate::text::views;
use std::collections::BTreeMap;
use vstd::prelude::*;

verus! {

broadcast use vstd::std_specs::btree::group_btree_axioms;

/// The call sites that are held for attribution: a backstop against a file that
/// is one enormous call table.
pub const MAX_TRACKED_CALLS: usize = 200_000;

/// A call: where it stands, what it reaches, and the address it names, if it
/// names one.
pub ghost struct CallEvent {
    pub site: u64,
    pub target: TargetModel,
    pub direct: Option<u64>,
}

/// Is the instruction a call?
pub open spec fn is_call(i: InsnModel) -> bool {
    flow_of(i.mnemonic) is Call
}

/// The call that an instruction makes.
pub open spec fn event_of(m: SymbolsModel, i: InsnModel) -> CallEvent {
    CallEvent {
        site: i.address,
        target: reached(m, i.operands, behind(i)),
        direct: as_target(target_of(i.operands)),
    }
}

/// The calls among the first `n` instructions.
pub open spec fn events_in(m: SymbolsModel, insns: Seq<InsnModel>, n: int) -> Seq<CallEvent>
    decreases n,
{
    if n <= 0 {
        Seq::empty()
    } else if is_call(insns[n - 1]) {
        events_in(m, insns, n - 1).push(event_of(m, insns[n - 1]))
    } else {
        events_in(m, insns, n - 1)
    }
}

/// The calls that a sweep comes across, and how the decoder failed where it did,
/// which ends the sweep.
pub ghost struct Calls {
    pub events: Seq<CallEvent>,
    pub failed: Option<FailureModel>,
}

/// The calls that a linear sweep over code comes across, from an offset on.
#[verifier::opaque]
pub open spec fn events_from(
    m: SymbolsModel,
    wide: bool,
    code: Seq<u8>,
    base: u64,
    off: int,
) -> Calls
    decreases code.len() - off,
{
    if off >= code.len() {
        Calls { events: Seq::empty(), failed: None }
    } else {
        match decoded(wide, code.skip(off), wrapped(base + off), BATCH as int) {
            Err(f) => Calls { events: Seq::empty(), failed: Some(f) },
            Ok(insns) => {
                let taken = bytes_taken(insns, insns.len() as int);
                if insns.len() == 0 {
                    events_from(m, wide, code, base, off + 1)
                } else if taken <= 0 || off + taken > code.len() {
                    Calls { events: Seq::empty(), failed: None }
                } else {
                    let rest = events_from(m, wide, code, base, off + taken);
                    Calls {
                        events: events_in(m, insns, insns.len() as int) + rest.events,
                        ..rest
                    }
                }
            },
        }
    }
}

/// Do the instructions that the sweep for calls decodes, from an offset on, follow
/// one another and stay within the code?
#[verifier::opaque]
pub open spec fn calls_in_line(wide: bool, code: Seq<u8>, base: u64, off: int) -> bool
    decreases code.len() - off,
{
    if off >= code.len() {
        true
    } else {
        match decoded(wide, code.skip(off), wrapped(base + off), BATCH as int) {
            Err(_) => true,
            Ok(insns) => {
                let taken = bytes_taken(insns, insns.len() as int);
                &&& in_line(insns, wrapped(base + off), code.len() - off, BATCH as int)
                &&& if insns.len() == 0 {
                    calls_in_line(wide, code, base, off + 1)
                } else if taken <= 0 {
                    true
                } else {
                    calls_in_line(wide, code, base, off + taken)
                }
            },
        }
    }
}

/// The calls in the executable ones of the first `n` sections.
pub open spec fn events_upto(
    m: SymbolsModel,
    wide: bool,
    file: Seq<u8>,
    secs: Seq<SectionModel>,
    n: int,
) -> Calls
    decreases n,
{
    if n <= 0 {
        Calls { events: Seq::empty(), failed: None }
    } else {
        let before = events_upto(m, wide, file, secs, n - 1);
        if before.failed is None && secs[n - 1].executable {
            let more = events_from(
                m,
                wide,
                clamped(file, secs[n - 1].file_offset as int, secs[n - 1].file_size as int),
                secs[n - 1].virtual_addr,
                0,
            );
            Calls { events: before.events + more.events, failed: more.failed }
        } else {
            before
        }
    }
}

// ---------------------------------------------------------------------------
// What is counted
// ---------------------------------------------------------------------------

/// A count, as far as 64 bits hold it.
pub open spec fn capped(n: int) -> int {
    lesser(n, u64::MAX as int)
}

/// The calls that name an address.
pub open spec fn calls_naming(es: Seq<CallEvent>, a: u64) -> int
    decreases es.len(),
{
    if es.len() == 0 {
        0
    } else {
        calls_naming(es.drop_last(), a) + (if es.last().direct == Some(a) {
            1int
        } else {
            0
        })
    }
}

/// The calls that reach an API.
pub open spec fn calls_reaching(es: Seq<CallEvent>, api: Seq<char>) -> int
    decreases es.len(),
{
    if es.len() == 0 {
        0
    } else {
        calls_reaching(es.drop_last(), api) + (if es.last().target == TargetModel::Import(api) {
            1int
        } else {
            0
        })
    }
}

/// What a call may reach.
pub ghost enum Kind {
    Code,
    Import,
    Unknown,
}

pub open spec fn is_kind(target: TargetModel, k: Kind) -> bool {
    match k {
        Kind::Code => target is Code,
        Kind::Import => target is Import,
        Kind::Unknown => target is Unknown,
    }
}

/// The calls of a kind.
pub open spec fn calls_of(es: Seq<CallEvent>, k: Kind) -> int
    decreases es.len(),
{
    if es.len() == 0 {
        0
    } else {
        calls_of(es.drop_last(), k) + (if is_kind(es.last().target, k) {
            1int
        } else {
            0
        })
    }
}

/// The sites of all calls that reach an API, with the API.
pub open spec fn import_sites(es: Seq<CallEvent>) -> Seq<(u64, Seq<char>)>
    decreases es.len(),
{
    if es.len() == 0 {
        Seq::empty()
    } else {
        match es.last().target {
            TargetModel::Import(api) => import_sites(es.drop_last()).push((es.last().site, api)),
            _ => import_sites(es.drop_last()),
        }
    }
}

/// The sites that are held for attribution.
pub open spec fn tracked_sites(es: Seq<CallEvent>) -> Seq<(u64, Seq<char>)> {
    import_sites(es).take(lesser(import_sites(es).len() as int, MAX_TRACKED_CALLS as int))
}

/// Sites and APIs, by the characters of the names.
pub open spec fn site_views(s: Seq<(u64, String)>) -> Seq<(u64, Seq<char>)> {
    Seq::new(s.len(), |i: int| (s[i].0, s[i].1@))
}

proof fn lemma_counts_positive(es: Seq<CallEvent>, a: u64, api: Seq<char>, k: Kind)
    ensures
        0 <= calls_naming(es, a) <= es.len(),
        0 <= calls_reaching(es, api) <= es.len(),
        0 <= calls_of(es, k) <= es.len(),
    decreases es.len(),
{
    if es.len() > 0 {
        lemma_counts_positive(es.drop_last(), a, api, k);
    }
}

/// What was counted of the calls so far.
pub struct Tally {
    /// Address named by a call to the number of calls that name it.
    targets: BTreeMap<u64, u64>,
    /// APIs reached, in order, and the number of calls that reach each.
    names: Vec<String>,
    counts: Vec<u64>,
    /// Sites of calls that reach an API.
    sites: Vec<(u64, String)>,
    direct: u64,
    import: u64,
    indirect: u64,
    truncated: bool,
    log: Ghost<Seq<CallEvent>>,
}

impl Tally {
    /// The calls that were counted.
    pub closed spec fn log(self) -> Seq<CallEvent> {
        self.log@
    }

    spec fn targets_right(self) -> bool {
        &&& forall|a: u64| #[trigger]
            self.targets@.contains_key(a) <==> calls_naming(self.log@, a) > 0
        &&& forall|a: u64| #[trigger]
            self.targets@.contains_key(a) ==> self.targets@[a] == capped(
                calls_naming(self.log@, a),
            )
    }

    spec fn names_right(self) -> bool {
        &&& increasing(views(self.names@))
        &&& self.names@.len() == self.counts@.len()
        &&& forall|n: Seq<char>| #[trigger]
            views(self.names@).contains(n) <==> calls_reaching(self.log@, n) > 0
        &&& forall|i: int|
            0 <= i < self.names@.len() ==> #[trigger] self.counts@[i] == capped(
                calls_reaching(self.log@, self.names@[i]@),
            )
    }

    spec fn sites_right(self) -> bool {
        &&& site_views(self.sites@) == tracked_sites(self.log@)
        &&& self.truncated == (import_sites(self.log@).len() > MAX_TRACKED_CALLS)
    }

    spec fn kinds_right(self) -> bool {
        &&& self.direct == capped(calls_of(self.log@, Kind::Code))
        &&& self.import == capped(calls_of(self.log@, Kind::Import))
        &&& self.indirect == capped(calls_of(self.log@, Kind::Unknown))
    }

    /// Every count is that of the calls counted.
    pub closed spec fn right(self) -> bool {
        self.targets_right() && self.names_right() && self.sites_right() && self.kinds_right()
    }

    pub fn new() -> (r: Self)
        ensures
            r.right(),
            r.log() == Seq::<CallEvent>::empty(),
    {
        let r = Tally {
            targets: BTreeMap::new(),
            names: Vec::new(),
            counts: Vec::new(),
            sites: Vec::new(),
            direct: 0,
            import: 0,
            indirect: 0,
            truncated: false,
            log: Ghost(Seq::empty()),
        };
        proof {
            assert(site_views(r.sites@) =~= tracked_sites(r.log@));
        }
        r
    }

    fn count_target(&mut self, a: u64, es: Ghost<Seq<CallEvent>>, e: Ghost<CallEvent>)
        requires
            old(self).targets_right(),
            old(self).log@ == es@,
            e@.direct == Some(a),
        ensures
            *final(self) == (Tally { targets: final(self).targets, ..*old(self) }),
            forall|x: u64| #[trigger]
                final(self).targets@.contains_key(x) <==> calls_naming(es@.push(e@), x) > 0,
            forall|x: u64| #[trigger]
                final(self).targets@.contains_key(x) ==> final(self).targets@[x] == capped(
                    calls_naming(es@.push(e@), x),
                ),
    {
        let n: u64 = match self.targets.get(&a) {
            Some(c) => c.saturating_add(1),
            None => 1,
        };
        let ghost was = self.targets@;
        proof {
            assert(es@.push(e@).drop_last() =~= es@);
            lemma_counts_positive(es@, a, Seq::empty(), Kind::Code);
        }
        self.targets.insert(a, n);
        proof {
            assert forall|x: u64| #[trigger]
                self.targets@.contains_key(x) <==> calls_naming(es@.push(e@), x) > 0 by {
                lemma_counts_positive(es@, x, Seq::empty(), Kind::Code);
                assert(was.contains_key(x) <==> calls_naming(es@, x) > 0);
            }
            assert forall|x: u64| #[trigger]
                self.targets@.contains_key(x) implies self.targets@[x] == capped(
                calls_naming(es@.push(e@), x),
            ) by {
                lemma_counts_positive(es@, x, Seq::empty(), Kind::Code);
                assert(was.contains_key(x) <==> calls_naming(es@, x) > 0);
            }
        }
    }
}

impl Tally {
    fn count_api(&mut self, api: &str, es: Ghost<Seq<CallEvent>>, e: Ghost<CallEvent>)
        requires
            old(self).names_right(),
            old(self).log@ == es@,
            e@.target == TargetModel::Import(api@),
        ensures
            *final(self) == (Tally {
                names: final(self).names,
                counts: final(self).counts,
                ..*old(self)
            }),
            increasing(views(final(self).names@)),
            final(self).names@.len() == final(self).counts@.len(),
            forall|n: Seq<char>| #[trigger]
                views(final(self).names@).contains(n) <==> calls_reaching(es@.push(e@), n) > 0,
            forall|i: int|
                0 <= i < final(self).names@.len() ==> #[trigger] final(self).counts@[i] == capped(
                    calls_reaching(es@.push(e@), final(self).names@[i]@),
                ),
    {
        let ghost was = views(self.names@);
        let ghost had = self.counts@;
        let ghost old_names = self.names@;
        let ghost now = es@.push(e@);
        proof {
            assert(now.drop_last() =~= es@);
            assert forall|n: Seq<char>| calls_reaching(now, n) == calls_reaching(es@, n) + (if n
                == api@ {
                1int
            } else {
                0
            }) && calls_reaching(es@, n) >= 0 by {
                lemma_counts_positive(es@, 0, n, Kind::Code);
            }
        }
        let (at, there) = locate(&self.names, api);
        if there {
            let c = self.counts[at];
            self.counts.set(at, c.saturating_add(1));
            proof {
                assert forall|i: int| 0 <= i < self.names@.len() implies #[trigger] self.counts@[i]
                    == capped(calls_reaching(now, self.names@[i]@)) by {
                    assert(had[i] == capped(calls_reaching(es@, old_names[i]@)));
                    if i != at && self.names@[i]@ == api@ {
                        lemma_irreflexive(api@);
                        if i < at {
                            assert(before(was[i], was[at as int]));
                        } else {
                            assert(before(was[at as int], was[i]));
                        }
                    }
                }
                assert forall|n: Seq<char>| #[trigger]
                    views(self.names@).contains(n) <==> calls_reaching(now, n) > 0 by {
                    assert(was.contains(n) <==> calls_reaching(es@, n) > 0);
                }
            }
        } else {
            self.names.insert(at, api.to_string());
            self.counts.insert(at, 1);
            proof {
                lemma_inserted(was, api@, at as int);
                assert(views(self.names@) =~= was.insert(at as int, api@));
                lemma_counts_positive(es@, 0, api@, Kind::Code);
                assert(was.contains(api@) <==> calls_reaching(es@, api@) > 0);
                assert(calls_reaching(es@, api@) == 0);
                assert forall|i: int| 0 <= i < self.names@.len() implies #[trigger] self.counts@[i]
                    == capped(calls_reaching(now, self.names@[i]@)) by {
                    assert(views(self.names@)[i] == self.names@[i]@);
                    if i < at {
                        assert(had[i] == capped(calls_reaching(es@, old_names[i]@)));
                        assert(was.contains(was[i]));
                    } else if i > at {
                        assert(had[i - 1] == capped(calls_reaching(es@, old_names[i - 1]@)));
                        assert(was.contains(was[i - 1]));
                    }
                }
                assert forall|n: Seq<char>| #[trigger]
                    views(self.names@).contains(n) <==> calls_reaching(now, n) > 0 by {
                    assert(was.contains(n) <==> calls_reaching(es@, n) > 0);
                }
            }
        }
    }

    fn track_site(
        &mut self,
        site: u64,
        api: String,
        es: Ghost<Seq<CallEvent>>,
        e: Ghost<CallEvent>,
    )
        requires
            old(self).sites_right(),
            old(self).log@ == es@,
            e@.target == TargetModel::Import(api@),
            e@.site == site,
        ensures
            *final(self) == (Tally {
                sites: final(self).sites,
                truncated: final(self).truncated,
                ..*old(self)
            }),
            site_views(final(self).sites@) == tracked_sites(es@.push(e@)),
            final(self).truncated == (import_sites(es@.push(e@)).len() > MAX_TRACKED_CALLS),
    {
        let ghost now = es@.push(e@);
        let ghost was = self.sites@;
        let ghost all = import_sites(es@);
        proof {
            assert(now.drop_last() =~= es@);
            assert(import_sites(now) == all.push((site, api@)));
        }
        if self.sites.len() < MAX_TRACKED_CALLS {
            self.sites.push((site, api));
            proof {
                assert(site_views(was).len() == lesser(all.len() as int, MAX_TRACKED_CALLS as int));
                assert(all.take(all.len() as int) =~= all);
                assert(site_views(self.sites@) =~= site_views(was).push((site, api@)));
                assert(import_sites(now).take(import_sites(now).len() as int) =~= import_sites(
                    now,
                ));
            }
        } else {
            self.truncated = true;
            proof {
                assert(all.len() >= MAX_TRACKED_CALLS);
                assert(import_sites(now).take(MAX_TRACKED_CALLS as int) =~= all.take(
                    MAX_TRACKED_CALLS as int,
                ));
            }
        }
    }

    /// Counts one call.
    pub fn count(&mut self, site: u64, target: CallTarget, direct: Option<u64>)
        requires
            old(self).right(),
        ensures
            final(self).right(),
            final(self).log() == old(self).log().push(
                (CallEvent { site, target: target.deep_view(), direct }),
            ),
    {
        let ghost es = self.log@;
        let ghost e = CallEvent { site, target: target.deep_view(), direct };
        let ghost now = es.push(e);
        proof {
            assert(now.drop_last() =~= es);
            lemma_counts_positive(es, 0, Seq::empty(), Kind::Code);
            lemma_counts_positive(es, 0, Seq::empty(), Kind::Import);
            lemma_counts_positive(es, 0, Seq::empty(), Kind::Unknown);
            assert forall|a: u64| calls_naming(now, a) == calls_naming(es, a) + (if direct == Some(
                a,
            ) {
                1int
            } else {
                0
            }) by {}
        }
        if let Some(a) = direct {
            self.count_target(a, Ghost(es), Ghost(e));
        }
        match target {
            CallTarget::Code(_) => {
                self.direct = self.direct.saturating_add(1);
            },
            CallTarget::Import(api) => {
                self.import = self.import.saturating_add(1);
                self.count_api(api.as_str(), Ghost(es), Ghost(e));
                self.track_site(site, api, Ghost(es), Ghost(e));
            },
            CallTarget::Unknown => {
                self.indirect = self.indirect.saturating_add(1);
            },
        }
        proof {
            if !(target is Import) {
                assert(import_sites(now) == import_sites(es));
                assert forall|n: Seq<char>| calls_reaching(now, n) == calls_reaching(es, n) by {}
            }
            self.log = Ghost(now);
        }
    }
}

impl Tally {
    /// The addresses that calls name, in ascending order.
    pub fn targets(&self) -> (r: Vec<u64>)
        requires
            self.right(),
        ensures
            ascending(r@),
            forall|a: u64| #[trigger] r@.contains(a) <==> calls_naming(self.log(), a) > 0,
    {
        sorted_keys(&self.targets)
    }

    /// How many calls name an address.
    pub fn calls_to(&self, a: u64) -> (r: u64)
        requires
            self.right(),
        ensures
            r == capped(calls_naming(self.log(), a)),
    {
        proof {
            lemma_counts_positive(self.log@, a, Seq::empty(), Kind::Code);
        }
        match self.targets.get(&a) {
            Some(n) => *n,
            None => 0,
        }
    }

    /// The APIs that calls reach, in order.
    pub fn api_names(&self) -> (r: &Vec<String>)
        requires
            self.right(),
        ensures
            increasing(views(r@)),
            forall|n: Seq<char>| #[trigger]
                views(r@).contains(n) <==> calls_reaching(self.log(), n) > 0,
    {
        &self.names
    }

    /// How many calls reach each of the APIs.
    pub fn api_counts(&self) -> (r: (&Vec<String>, &Vec<u64>))
        requires
            self.right(),
        ensures
            increasing(views(r.0@)),
            r.0@.len() == r.1@.len(),
            forall|n: Seq<char>| #[trigger]
                views(r.0@).contains(n) <==> calls_reaching(self.log(), n) > 0,
            forall|i: int|
                0 <= i < r.0@.len() ==> #[trigger] r.1@[i] == capped(
                    calls_reaching(self.log(), r.0@[i]@),
                ),
    {
        (&self.names, &self.counts)
    }

    /// The sites of calls that reach an API, with the API.
    pub fn sites(&self) -> (r: &Vec<(u64, String)>)
        requires
            self.right(),
        ensures
            site_views(r@) == tracked_sites(self.log()),
    {
        &self.sites
    }

    /// Were there more such sites than are held?
    pub fn is_truncated(&self) -> (r: bool)
        requires
            self.right(),
        ensures
            r == (import_sites(self.log()).len() > MAX_TRACKED_CALLS),
    {
        self.truncated
    }

    /// The calls to a literal code address, to an API, and to a target computed
    /// at runtime.
    pub fn by_kind(&self) -> (r: (u64, u64, u64))
        requires
            self.right(),
        ensures
            r.0 == capped(calls_of(self.log(), Kind::Code)),
            r.1 == capped(calls_of(self.log(), Kind::Import)),
            r.2 == capped(calls_of(self.log(), Kind::Unknown)),
    {
        (self.direct, self.import, self.indirect)
    }
}

} // verus!
