//! Packer identification from section names.
//!
//! Packers rename sections, and most never bother to hide it. This is a naming
//! convention, not a signature: one pass of a section renamer defeats it. A hit
//! is a hypothesis to confirm against the entropy and the import count.
use crate::binary::{str_views, Binary, Section, SectionModel};
use crate::search::{lowered, same_ignoring_case};
use crate::text::{models, same};
use vstd::prelude::*;

verus! {

/// Packers, each with a section name that it leaves behind. Every name is one
/// that no ordinary toolchain emits.
pub const SIGNATURES: [(&'static str, &'static str); 25] = [
    ("UPX", "UPX0"),
    ("UPX", "UPX1"),
    ("UPX", "UPX2"),
    ("UPX", "UPX!"),
    ("ASPack", ".aspack"),
    ("Themida / WinLicense", ".themida"),
    ("Themida / WinLicense", ".winlice"),
    ("VMProtect", ".vmp0"),
    ("VMProtect", ".vmp1"),
    ("VMProtect", ".vmp2"),
    ("FSG", "FSG!"),
    ("PECompact", "PEC2"),
    ("PECompact", "PECompact2"),
    ("Petite", ".petite"),
    ("NsPack", ".nsp0"),
    ("NsPack", ".nsp1"),
    ("NsPack", ".nsp2"),
    ("MPRESS", "MPRESS1"),
    ("MPRESS", "MPRESS2"),
    ("MEW", ".MEW"),
    ("Enigma", ".enigma1"),
    ("Enigma", ".enigma2"),
    ("Obsidium", ".obsidium"),
    ("Upack", ".Upack"),
    ("Upack", ".ByDwing"),
];

/// Is there a section of this name, in whatever case?
pub open spec fn has_section(secs: Seq<SectionModel>, name: Seq<char>) -> bool {
    exists|i: int| 0 <= i < secs.len() && lowered((#[trigger] secs[i]).name) == lowered(name)
}

/// The packers to which the first `n` signatures point, each once.
pub open spec fn packers_among(secs: Seq<SectionModel>, n: int) -> Seq<Seq<char>>
    decreases n,
{
    if n <= 0 {
        Seq::empty()
    } else {
        let rest = packers_among(secs, n - 1);
        let sig = SIGNATURES@[n - 1];
        if has_section(secs, sig.1@) && !rest.contains(sig.0@) {
            rest.push(sig.0@)
        } else {
            rest
        }
    }
}

/// The packers to which the section names point.
pub open spec fn packers_of(secs: Seq<SectionModel>) -> Seq<Seq<char>> {
    packers_among(secs, SIGNATURES@.len() as int)
}

fn any_section(sections: &[Section], name: &str) -> (r: bool)
    ensures
        r == has_section(models(sections@), name@),
{
    for i in 0..sections.len()
        invariant
            forall|j: int|
                0 <= j < i ==> lowered((#[trigger] models(sections@)[j]).name) != lowered(name@),
    {
        proof {
            assert(models(sections@)[i as int] == sections@[i as int].deep_view());
        }
        if same_ignoring_case(sections[i].name.as_str(), name) {
            return true;
        }
    }
    false
}

/// Is the text among the strings?
pub fn is_one_of(v: &Vec<&'static str>, s: &str) -> (r: bool)
    ensures
        r == str_views(v@).contains(s@),
{
    for i in 0..v.len()
        invariant
            forall|j: int| 0 <= j < i ==> (#[trigger] str_views(v@)[j]) != s@,
    {
        if same(v[i], s) {
            proof {
                assert(str_views(v@)[i as int] == s@);
            }
            return true;
        }
    }
    false
}

/// Every packer whose section-name convention this file matches, each once.
/// More than one means that the names overlap and none should be trusted
/// without corroboration.
pub fn identify(sections: &[Section]) -> (r: Vec<&'static str>)
    ensures
        str_views(r@) == packers_of(models(sections@)),
{
    let mut hits: Vec<&'static str> = Vec::new();
    proof {
        assert(str_views(hits@) =~= Seq::<Seq<char>>::empty());
    }
    for i in 0..SIGNATURES.len()
        invariant
            str_views(hits@) == packers_among(models(sections@), i as int),
    {
        let sig = SIGNATURES[i];
        if any_section(sections, sig.1) && !is_one_of(&hits, sig.0) {
            let ghost was = hits@;
            hits.push(sig.0);
            proof {
                assert(str_views(hits@) =~= str_views(was).push(sig.0@));
            }
        }
    }
    hits
}

impl Binary {
    /// Packers that this file's section names suggest.
    pub fn packer_hints(&self) -> (r: Vec<&'static str>)
        ensures
            str_views(r@) == packers_of(models(self.sections@)),
    {
        identify(self.sections.as_slice())
    }
}

proof fn lemma_packers_distinct(secs: Seq<SectionModel>, n: int)
    ensures
        packers_among(secs, n).no_duplicates(),
    decreases n,
{
    if n > 0 {
        lemma_packers_distinct(secs, n - 1);
        let rest = packers_among(secs, n - 1);
        let now = packers_among(secs, n);
        assert forall|i: int, j: int| 0 <= i < j < now.len() implies now[i] != now[j] by {
            if j == rest.len() {
                assert(rest.contains(rest[i]));
            }
        }
    }
}

/// No packer is reported twice.
pub proof fn law_each_packer_once(secs: Seq<SectionModel>)
    ensures
        packers_of(secs).no_duplicates(),
{
    lemma_packers_distinct(secs, SIGNATURES@.len() as int);
}

proof fn lemma_packer_found(secs: Seq<SectionModel>, p: Seq<char>, n: int)
    requires
        n <= SIGNATURES@.len(),
    ensures
        packers_among(secs, n).contains(p) <==> exists|i: int|
            0 <= i < n && (#[trigger] SIGNATURES@[i]).0@ == p && has_section(
                secs,
                SIGNATURES@[i].1@,
            ),
    decreases n,
{
    if n > 0 {
        lemma_packer_found(secs, p, n - 1);
        let rest = packers_among(secs, n - 1);
        let sig = SIGNATURES@[n - 1];
        let now = packers_among(secs, n);
        if rest.contains(p) {
            let k = choose|k: int| 0 <= k < rest.len() && rest[k] == p;
            assert(now[k] == p);
        }
        if has_section(secs, sig.1@) && !rest.contains(sig.0@) {
            assert(now[rest.len() as int] == sig.0@);
            if now.contains(p) && p != sig.0@ {
                let k = choose|k: int| 0 <= k < now.len() && now[k] == p;
                assert(rest[k] == p);
            }
        }
    }
}

/// A packer is reported exactly if the file has a section of one of its names.
pub proof fn law_packer_reported_by_its_names(secs: Seq<SectionModel>, p: Seq<char>)
    ensures
        packers_of(secs).contains(p) <==> exists|i: int|
            0 <= i < SIGNATURES@.len() && (#[trigger] SIGNATURES@[i]).0@ == p && has_section(
                secs,
                SIGNATURES@[i].1@,
            ),
{
    lemma_packer_found(secs, p, SIGNATURES@.len() as int);
}

} // verus!
