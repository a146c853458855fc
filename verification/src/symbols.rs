//! The lazy dynamic symbol cache.
//!
//! A named entry point of a loaded driver is resolved at most once; the
//! cache remembers the outcome forever, a failure as finally as a
//! success. The platform loader itself is outside this crate: a caller
//! asks the cache whether a name still needs resolution, performs the
//! lookup if so, and stores the outcome. Whatever races to store first
//! wins; every later store of the same name changes nothing, so all
//! callers observe the single recorded outcome.

use crate::conv::Signature;
use crate::dib::DirectBinding;
use vstd::prelude::*;

verus! {

/// The recorded outcome of one resolution: the address the loader bound
/// to the name, or its definite, terminal absence.
#[derive(Clone, Copy, PartialEq, Eq, Structural, Debug)]
pub enum Resolution {
    /// The loader returned this address.
    Resolved(usize),
    /// The loader reported no such symbol; never retried.
    Failed,
}

/// One cached name with its outcome, immutable once created.
pub struct SymbolEntry {
    pub name: String,
    pub res: Resolution,
}

/// The map a sequence of entries represents.
pub open spec fn symbol_map_of(s: Seq<SymbolEntry>) -> Map<Seq<char>, Resolution>
    decreases s.len(),
{
    if s.len() == 0 {
        Map::empty()
    } else {
        symbol_map_of(s.drop_last()).insert(s.last().name@, s.last().res)
    }
}

/// No name appears in two entries.
pub open spec fn unique_names(s: Seq<SymbolEntry>) -> bool {
    forall|i: int, j: int| 0 <= i < j < s.len() ==> s[i].name@ != s[j].name@
}

/// A name is in the represented map exactly when some entry carries it.
pub proof fn lemma_symbol_map_domain(s: Seq<SymbolEntry>, n: Seq<char>)
    ensures
        symbol_map_of(s).contains_key(n) <==> exists|i: int|
            0 <= i < s.len() && s[i].name@ == n,
    decreases s.len(),
{
    if s.len() > 0 {
        lemma_symbol_map_domain(s.drop_last(), n);
        if s.last().name@ == n {
            assert(s[s.len() - 1].name@ == n);
        } else if symbol_map_of(s).contains_key(n) {
            let i = choose|i: int| 0 <= i < s.drop_last().len() && s.drop_last()[i].name@ == n;
            assert(s[i].name@ == n);
        } else {
            assert(forall|i: int| 0 <= i < s.len() - 1 ==> s.drop_last()[i] == s[i]);
        }
    }
}

/// An entry of the sequence is what the represented map records for its
/// name, provided no other entry shares the name.
pub proof fn lemma_symbol_map_at(s: Seq<SymbolEntry>, i: int)
    requires
        unique_names(s),
        0 <= i < s.len(),
    ensures
        symbol_map_of(s).contains_key(s[i].name@),
        symbol_map_of(s)[s[i].name@] == s[i].res,
    decreases s.len(),
{
    if i == s.len() - 1 {
    } else {
        lemma_symbol_map_at(s.drop_last(), i);
        assert(s.drop_last()[i] == s[i]);
    }
}

/// What storing an outcome does to the abstract cache: the first record
/// of a name wins, every later one changes nothing.
pub open spec fn spec_store(
    m: Map<Seq<char>, Resolution>,
    n: Seq<char>,
    r: Resolution,
) -> Map<Seq<char>, Resolution> {
    if m.contains_key(n) {
        m
    } else {
        m.insert(n, r)
    }
}

/// Resolution happens at most once: however many racing first accesses
/// store an outcome for a name, the cache keeps the one that arrived
/// first, and every access reads that one.
pub proof fn lemma_resolve_at_most_once(
    m: Map<Seq<char>, Resolution>,
    n: Seq<char>,
    r1: Resolution,
    r2: Resolution,
)
    ensures
        spec_store(spec_store(m, n, r1), n, r2) == spec_store(m, n, r1),
        spec_store(m, n, r1).contains_key(n),
        !m.contains_key(n) ==> spec_store(m, n, r1)[n] == r1,
{
}

/// The process-wide cache of resolved entry points.
pub struct SymbolCache {
    entries: Vec<SymbolEntry>,
}

impl View for SymbolCache {
    type V = Map<Seq<char>, Resolution>;

    closed spec fn view(&self) -> Map<Seq<char>, Resolution> {
        symbol_map_of(self.entries@)
    }
}

impl SymbolCache {
    /// No name is recorded twice.
    pub closed spec fn wf(&self) -> bool {
        unique_names(self.entries@)
    }

    /// An empty cache.
    pub fn new() -> (c: SymbolCache)
        ensures
            c@ == Map::<Seq<char>, Resolution>::empty(),
            c.wf(),
    {
        SymbolCache { entries: Vec::new() }
    }

    /// Index of the entry recorded for `name`, if any.
    fn position(&self, name: &String) -> (r: Option<usize>)
        ensures
            match r {
                Some(i) => i < self.entries@.len() && self.entries@[i as int].name@ == name@,
                None => forall|i: int|
                    0 <= i < self.entries@.len() ==> (#[trigger] self.entries@[i]).name@ != name@,
            },
    {
        let mut k: usize = 0;
        while k < self.entries.len()
            invariant
                k <= self.entries@.len(),
                forall|i: int| 0 <= i < k ==> (#[trigger] self.entries@[i]).name@ != name@,
            decreases self.entries@.len() - k,
        {
            let e = &self.entries[k];
            if e.name == *name {
                return Some(k);
            }
            k = k + 1;
        }
        None
    }

    /// The recorded outcome for `name`, if resolution ran already.
    pub fn lookup(&self, name: &String) -> (r: Option<Resolution>)
        requires
            self.wf(),
        ensures
            match r {
                Some(res) => self@.contains_key(name@) && res == self@[name@],
                None => !self@.contains_key(name@),
            },
    {
        proof {
            lemma_symbol_map_domain(self.entries@, name@);
        }
        match self.position(name) {
            Some(i) => {
                proof {
                    lemma_symbol_map_at(self.entries@, i as int);
                }
                Some(self.entries[i].res)
            },
            None => None,
        }
    }

    /// Whether a first access must run the resolver for `name`.
    pub fn needs_resolution(&self, name: &String) -> (r: bool)
        requires
            self.wf(),
        ensures
            r == !self@.contains_key(name@),
    {
        proof {
            lemma_symbol_map_domain(self.entries@, name@);
        }
        match self.position(name) {
            Some(_) => false,
            None => true,
        }
    }

    /// The callable a resolved name denotes: a binding of the cached
    /// address under the caller's stated signature. `None` while the
    /// name is unresolved or after a terminal failure — such an entry
    /// point must not be called, and is never re-resolved.
    pub fn resolved_binding(&self, name: &String, sig: Signature) -> (r: Option<DirectBinding>)
        requires
            self.wf(),
        ensures
            match r {
                Some(b) => self@.contains_key(name@) && self@[name@] == Resolution::Resolved(
                    b.address,
                ) && b.sig == sig,
                None => !self@.contains_key(name@) || self@[name@] is Failed,
            },
    {
        match self.lookup(name) {
            Some(Resolution::Resolved(address)) => Some(DirectBinding::bind(address, sig)),
            _ => None,
        }
    }

    /// Record the outcome the resolver produced for `name`. The first
    /// record wins: storing a name that is already recorded changes
    /// nothing, so concurrent first accesses all observe one outcome.
    pub fn store(&mut self, name: String, res: Resolution)
        requires
            old(self).wf(),
        ensures
            final(self).wf(),
            final(self)@ == spec_store(old(self)@, name@, res),
            final(self)@.contains_key(name@),
    {
        proof {
            lemma_symbol_map_domain(self.entries@, name@);
        }
        match self.position(&name) {
            Some(i) => {
                proof {
                    lemma_symbol_map_at(self.entries@, i as int);
                }
            },
            None => {
                let entry = SymbolEntry { name, res };
                proof {
                    assert(self.entries@.push(entry).drop_last() =~= self.entries@);
                }
                self.entries.push(entry);
            },
        }
    }
}

} // verus!
