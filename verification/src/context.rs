//! The variable store: an ordered, flag-aware mapping from uppercase names
//! to values, with read-only, internal and inheritable markers.

use vstd::prelude::*;
use crate::bindings::RunEnvironment;
use crate::errors::Error;
use crate::names::{valid_context_name, validate_context_name, CommandName, VariableName};
use crate::phases::{lemma_phase_rank, phase_rank, phase_sequence_spec, DebugOptions, Phases};
use crate::printer::Printer;
use crate::registry::CommandManager;
use crate::strutil::{lex_lt, str_compare, lemma_lex_lt_trichotomy, lemma_lex_lt_transitive};

verus! {

/// The ghost image of one stored variable.
pub ghost struct VarView {
    pub name: Seq<char>,
    pub value: Seq<char>,
    pub read_only: bool,
    pub internal: bool,
    pub inherit: bool,
}

/// Entries stand in strictly increasing name order.
pub open spec fn vars_sorted(s: Seq<VarView>) -> bool {
    forall|i: int, j: int|
        0 <= i < j < s.len() ==> lex_lt(#[trigger] s[i].name, #[trigger] s[j].name)
}

/// Every stored name passed the store's validator.
pub open spec fn vars_valid(s: Seq<VarView>) -> bool {
    forall|i: int| 0 <= i < s.len() ==> valid_context_name(#[trigger] s[i].name)
}

/// The mapping an ordered entry sequence denotes.
pub open spec fn vars_to_map(s: Seq<VarView>) -> Map<Seq<char>, VarView>
    decreases s.len(),
{
    if s.len() == 0 {
        Map::empty()
    } else {
        vars_to_map(s.drop_last()).insert(s.last().name, s.last())
    }
}

/// A key is in the denoted map exactly when some entry bears it.
pub proof fn lemma_vars_to_map_dom(s: Seq<VarView>)
    ensures
        forall|k: Seq<char>|
            #[trigger] vars_to_map(s).contains_key(k) ==> exists|i: int|
                0 <= i < s.len() && s[i].name == k,
        forall|i: int| 0 <= i < s.len() ==> vars_to_map(s).contains_key(#[trigger] s[i].name),
    decreases s.len(),
{
    if s.len() > 0 {
        lemma_vars_to_map_dom(s.drop_last());
        assert forall|i: int| 0 <= i < s.len() implies vars_to_map(s).contains_key(
            #[trigger] s[i].name,
        ) by {
            if i < s.len() - 1 {
                assert(s.drop_last()[i] == s[i]);
            }
        }
        assert forall|k: Seq<char>| #[trigger] vars_to_map(s).contains_key(k) implies exists|i: int|
            0 <= i < s.len() && s[i].name == k by {
            if k != s.last().name {
                assert(vars_to_map(s.drop_last()).contains_key(k));
                let i = choose|i: int| 0 <= i < s.drop_last().len() && s.drop_last()[i].name == k;
                assert(s.drop_last()[i] == s[i]);
                assert(s[i].name == k);
            } else {
                assert(s[s.len() - 1].name == k);
            }
        }
    }
}

/// In a sorted entry sequence, the denoted map sends each entry's name to
/// that entry.
pub proof fn lemma_vars_to_map_index(s: Seq<VarView>, i: int)
    requires
        vars_sorted(s),
        0 <= i < s.len(),
    ensures
        vars_to_map(s).contains_key(s[i].name),
        vars_to_map(s)[s[i].name] == s[i],
    decreases s.len(),
{
    if i == s.len() - 1 {
    } else {
        lemma_lex_lt_trichotomy(s[i].name, s.last().name);
        assert(vars_sorted(s.drop_last())) by {
            assert(forall|x: int, y: int|
                0 <= x < y < s.drop_last().len() ==> lex_lt(
                    #[trigger] s.drop_last()[x].name,
                    #[trigger] s.drop_last()[y].name,
                ));
        }
        lemma_vars_to_map_index(s.drop_last(), i);
        assert(s.drop_last()[i] == s[i]);
    }
}

/// In a sorted entry sequence, names are pairwise distinct.
pub proof fn lemma_vars_distinct(s: Seq<VarView>, i: int, j: int)
    requires
        vars_sorted(s),
        0 <= i < s.len(),
        0 <= j < s.len(),
        i != j,
    ensures
        s[i].name != s[j].name,
{
    if i < j {
        lemma_lex_lt_trichotomy(s[i].name, s[j].name);
    } else {
        lemma_lex_lt_trichotomy(s[j].name, s[i].name);
    }
}

struct ContextVar {
    name: String,
    value: String,
    read_only: bool,
    internal: bool,
    inherit: bool,
}

impl ContextVar {
    spec fn view(&self) -> VarView {
        VarView {
            name: self.name@,
            value: self.value@,
            read_only: self.read_only,
            internal: self.internal,
            inherit: self.inherit,
        }
    }
}

/// One entry as handed out by [`ContextMap::iter`].
#[derive(Clone, Debug, PartialEq, Eq)]
pub struct ContextEntry {
    pub name: String,
    pub value: String,
    pub is_read_only: bool,
    pub is_internal: bool,
}

/// The ordered variable store.
pub struct ContextMap {
    entries: Vec<ContextVar>,
}

impl ContextMap {
    /// The entries in storage order.
    pub closed spec fn seq_view(&self) -> Seq<VarView> {
        self.entries@.map_values(|v: ContextVar| v.view())
    }

    /// The mapping the store denotes.
    pub open spec fn as_map(&self) -> Map<Seq<char>, VarView> {
        vars_to_map(self.seq_view())
    }

    pub open spec fn wf(&self) -> bool {
        vars_sorted(self.seq_view()) && vars_valid(self.seq_view())
    }

    pub fn new() -> (r: ContextMap)
        ensures
            r.wf(),
            r.seq_view() == Seq::<VarView>::empty(),
            r.as_map() == Map::<Seq<char>, VarView>::empty(),
    {
        let r = ContextMap { entries: Vec::new() };
        proof {
            assert(r.seq_view() =~= Seq::<VarView>::empty());
        }
        r
    }

    fn find_index(&self, name: &str) -> (r: Option<usize>)
        requires
            self.wf(),
        ensures
            match r {
                Some(i) => i < self.seq_view().len() && self.seq_view()[i as int].name == name@,
                None => forall|i: int|
                    0 <= i < self.seq_view().len() ==> (#[trigger] self.seq_view()[i].name)
                        != name@,
            },
    {
        let mut i: usize = 0;
        while i < self.entries.len()
            invariant
                self.wf(),
                i <= self.seq_view().len(),
                self.seq_view().len() == self.entries@.len(),
                forall|j: int|
                    0 <= j < i ==> (#[trigger] self.seq_view()[j].name) != name@,
            decreases self.entries@.len() - i,
        {
            if crate::strutil::str_eq(self.entries[i].name.as_str(), name) {
                return Some(i);
            }
            i += 1;
        }
        None
    }

    /// Looks a variable up by name.
    pub fn get(&self, name: &str) -> (r: Option<String>)
        requires
            self.wf(),
        ensures
            match r {
                Some(v) => self.as_map().contains_key(name@) && v@ == self.as_map()[name@].value,
                None => !self.as_map().contains_key(name@),
            },
    {
        match self.find_index(name) {
            Some(i) => {
                proof {
                    lemma_vars_to_map_index(self.seq_view(), i as int);
                }
                Some(self.entries[i].value.clone())
            },
            None => {
                proof {
                    lemma_vars_to_map_dom(self.seq_view());
                    if self.as_map().contains_key(name@) {
                        let j = choose|j: int|
                            0 <= j < self.seq_view().len() && self.seq_view()[j].name == name@;
                        assert(self.seq_view()[j].name != name@);
                    }
                }
                None
            },
        }
    }

    /// Finds where a name sits, or would sit, in the ordered entries.
    fn lower_bound(&self, name: &str) -> (r: (usize, bool))
        requires
            self.wf(),
        ensures
            r.0 <= self.seq_view().len(),
            forall|j: int| 0 <= j < r.0 ==> lex_lt((#[trigger] self.seq_view()[j]).name, name@),
            r.1 ==> r.0 < self.seq_view().len() && self.seq_view()[r.0 as int].name == name@,
            !r.1 ==> forall|j: int|
                r.0 <= j < self.seq_view().len() ==> lex_lt(
                    name@,
                    (#[trigger] self.seq_view()[j]).name,
                ),
    {
        let ghost s0 = self.seq_view();
        let mut idx: usize = 0;
        while idx < self.entries.len()
            invariant
                self.wf(),
                s0 == self.seq_view(),
                s0.len() == self.entries@.len(),
                idx <= s0.len(),
                forall|j: int| 0 <= j < idx ==> lex_lt((#[trigger] s0[j]).name, name@),
            decreases s0.len() - idx,
        {
            let c = str_compare(self.entries[idx].name.as_str(), name);
            if c < 0 {
                idx += 1;
            } else if c == 0 {
                return (idx, true);
            } else {
                proof {
                    assert(lex_lt(name@, s0[idx as int].name));
                    assert forall|j: int| idx <= j < s0.len() implies lex_lt(
                        name@,
                        (#[trigger] s0[j]).name,
                    ) by {
                        if j > idx {
                            assert(lex_lt(s0[idx as int].name, s0[j].name));
                            lemma_lex_lt_transitive(name@, s0[idx as int].name, s0[j].name);
                        }
                    }
                }
                return (idx, false);
            }
        }
        (idx, false)
    }

    /// Writes a variable. Fails with `InvalidName` when the name does not
    /// match `[A-Z0-9_]+`, and with `ReadOnlyViolation` when the variable
    /// exists and is marked read-only; otherwise the entry is created or
    /// replaced.
    pub fn set(
        &mut self,
        name: &str,
        value: &str,
        read_only: bool,
        internal: bool,
        inherit: bool,
    ) -> (r: Result<(), Error>)
        requires
            old(self).wf(),
        ensures
            final(self).wf(),
            !valid_context_name(name@) ==> (r matches Err(e) && (e matches Error::InvalidName {
                ..
            }) && final(self).seq_view() == old(self).seq_view()),
            valid_context_name(name@) && old(self).as_map().contains_key(name@) && old(
                self,
            ).as_map()[name@].read_only ==> (r matches Err(e) && (e
                matches Error::ReadOnlyViolation { .. }) && final(self).seq_view() == old(
                self,
            ).seq_view()),
            valid_context_name(name@) && !(old(self).as_map().contains_key(name@) && old(
                self,
            ).as_map()[name@].read_only) ==> r is Ok && final(self).as_map() == old(
                self,
            ).as_map().insert(
                name@,
                VarView {
                    name: name@,
                    value: value@,
                    read_only,
                    internal,
                    inherit,
                },
            ),
            r is Err <==> (!valid_context_name(name@) || (old(self).as_map().contains_key(name@)
                && old(self).as_map()[name@].read_only)),
    {
        proof {
            lemma_vars_to_map_dom(old(self).seq_view());
        }
        if !validate_context_name(name) {
            return Err(Error::InvalidName { name: name.to_owned() });
        }
        let ghost s0 = self.seq_view();
        let new_var = ContextVar {
            name: name.to_owned(),
            value: value.to_owned(),
            read_only,
            internal,
            inherit,
        };
        let ghost nv = new_var.view();
        let (idx, found) = self.lower_bound(name);
        if found {
            proof {
                lemma_vars_to_map_index(s0, idx as int);
            }
            if self.entries[idx].read_only {
                return Err(Error::ReadOnlyViolation { name: name.to_owned() });
            }
            // replace in place, keeping the position
            self.entries.remove(idx);
            self.entries.insert(idx, new_var);
            proof {
                let s1 = self.seq_view();
                assert(s1 =~= s0.update(idx as int, nv));
                assert forall|i: int, j: int| 0 <= i < j < s1.len() implies lex_lt(
                    #[trigger] s1[i].name,
                    #[trigger] s1[j].name,
                ) by {
                    assert(s1[i].name == s0[i].name);
                    assert(s1[j].name == s0[j].name);
                }
                assert(self.wf());
                lemma_vars_to_map_dom(s1);
                lemma_vars_to_map_dom(s0);
                assert forall|k: Seq<char>|
                    vars_to_map(s1).contains_key(k) == old(self).as_map().insert(
                        name@,
                        nv,
                    ).contains_key(k) by {
                    if vars_to_map(s1).contains_key(k) {
                        let i = choose|i: int| 0 <= i < s1.len() && s1[i].name == k;
                        assert(s0[i].name == k || k == name@);
                    }
                    if old(self).as_map().insert(name@, nv).contains_key(k) {
                        if k == name@ {
                            assert(s1[idx as int].name == k);
                        } else {
                            let i = choose|i: int| 0 <= i < s0.len() && s0[i].name == k;
                            assert(s1[i].name == k);
                        }
                    }
                }
                assert forall|k: Seq<char>| #[trigger]
                    vars_to_map(s1).contains_key(k) implies vars_to_map(s1)[k] == old(
                    self,
                ).as_map().insert(name@, nv)[k] by {
                    let i = choose|i: int| 0 <= i < s1.len() && s1[i].name == k;
                    lemma_vars_to_map_index(s1, i);
                    if i == idx as int {
                        assert(k == name@);
                    } else {
                        lemma_vars_distinct(s1, i, idx as int);
                        assert(k != name@);
                        lemma_vars_to_map_index(s0, i);
                    }
                }
                assert(vars_to_map(s1) =~= old(self).as_map().insert(name@, nv));
            }
            Ok(())
        } else {
            // idx is the insertion point: everything before is below the
            // name, everything from idx on is above it
            proof {
                lemma_vars_to_map_dom(s0);
                if old(self).as_map().contains_key(name@) {
                    let j = choose|j: int| 0 <= j < s0.len() && s0[j].name == name@;
                    lemma_lex_lt_trichotomy(s0[j].name, name@);
                }
                assert(!old(self).as_map().contains_key(name@));
            }
            self.entries.insert(idx, new_var);
            proof {
                let s1 = self.seq_view();
                assert(s1 =~= s0.insert(idx as int, nv));
                assert forall|i: int, j: int| 0 <= i < j < s1.len() implies lex_lt(
                    #[trigger] s1[i].name,
                    #[trigger] s1[j].name,
                ) by {
                    if j < idx as int {
                        assert(s1[i] == s0[i] && s1[j] == s0[j]);
                    } else if j == idx as int {
                        assert(s1[i] == s0[i]);
                        assert(lex_lt(s0[i].name, name@));
                    } else {
                        // j > idx: s1[j] == s0[j-1], above the new name
                        assert(s1[j] == s0[j - 1]);
                        assert(idx as int <= j - 1 < s0.len());
                        assert(lex_lt(name@, s0[j - 1].name));
                        if i < idx as int {
                            assert(s1[i] == s0[i]);
                            assert(lex_lt(s0[i].name, name@));
                            lemma_lex_lt_transitive(s0[i].name, name@, s0[j - 1].name);
                        } else if i == idx as int {
                            assert(s1[i] == nv);
                        } else {
                            assert(s1[i] == s0[i - 1]);
                            assert(lex_lt(s0[i - 1].name, s0[j - 1].name));
                        }
                    }
                }
                assert(self.wf());
                lemma_vars_to_map_dom(s1);
                lemma_vars_to_map_dom(s0);
                assert forall|k: Seq<char>|
                    vars_to_map(s1).contains_key(k) == old(self).as_map().insert(
                        name@,
                        nv,
                    ).contains_key(k) by {
                    if vars_to_map(s1).contains_key(k) {
                        let i = choose|i: int| 0 <= i < s1.len() && s1[i].name == k;
                        if i < idx as int {
                            assert(s0[i].name == k);
                        } else if i == idx as int {
                            assert(k == name@);
                        } else {
                            assert(s0[i - 1].name == k);
                        }
                    }
                    if old(self).as_map().insert(name@, nv).contains_key(k) {
                        if k == name@ {
                            assert(s1[idx as int].name == k);
                        } else {
                            let i = choose|i: int| 0 <= i < s0.len() && s0[i].name == k;
                            if i < idx as int {
                                assert(s1[i].name == k);
                            } else {
                                assert(s1[i + 1].name == k);
                            }
                        }
                    }
                }
                assert forall|k: Seq<char>| #[trigger]
                    vars_to_map(s1).contains_key(k) implies vars_to_map(s1)[k] == old(
                    self,
                ).as_map().insert(name@, nv)[k] by {
                    let i = choose|i: int| 0 <= i < s1.len() && s1[i].name == k;
                    lemma_vars_to_map_index(s1, i);
                    if i == idx as int {
                        assert(k == name@);
                    } else {
                        lemma_vars_distinct(s1, i, idx as int);
                        assert(k != name@);
                        let i0 = if i < idx as int {
                            i
                        } else {
                            i - 1
                        };
                        assert(s0[i0] == s1[i]);
                        lemma_vars_to_map_index(s0, i0);
                    }
                }
                assert(vars_to_map(s1) =~= old(self).as_map().insert(name@, nv));
            }
            Ok(())
        }
    }

    /// A deep copy holding exactly the inheritable entries, each unchanged.
    pub fn inherit(&self) -> (r: ContextMap)
        requires
            self.wf(),
        ensures
            r.wf(),
            forall|k: Seq<char>| #[trigger]
                r.as_map().contains_key(k) <==> (self.as_map().contains_key(k)
                    && self.as_map()[k].inherit),
            forall|k: Seq<char>| #[trigger]
                r.as_map().contains_key(k) ==> r.as_map()[k] == self.as_map()[k],
    {
        let ghost s0 = self.seq_view();
        let mut out = ContextMap::new();
        let mut i: usize = 0;
        while i < self.entries.len()
            invariant
                self.wf(),
                out.wf(),
                s0 == self.seq_view(),
                s0.len() == self.entries@.len(),
                i <= s0.len(),
                forall|k: Seq<char>| #[trigger]
                    out.as_map().contains_key(k) <==> exists|j: int|
                        0 <= j < i && s0[j].name == k && s0[j].inherit,
                forall|j: int|
                    0 <= j < i && s0[j].inherit ==> out.as_map()[(#[trigger] s0[j]).name] == s0[j],
            decreases s0.len() - i,
        {
            let e = &self.entries[i];
            if e.inherit {
                proof {
                    if out.as_map().contains_key(s0[i as int].name) {
                        let j = choose|j: int|
                            0 <= j < i && s0[j].name == s0[i as int].name && s0[j].inherit;
                        lemma_vars_distinct(s0, j, i as int);
                    }
                }
                let res = out.set(
                    e.name.as_str(),
                    e.value.as_str(),
                    e.read_only,
                    e.internal,
                    e.inherit,
                );
                match res {
                    Ok(_) => (),
                    Err(_) => {
                        proof {
                            assert(false);
                        }
                    },
                }
                proof {
                    assert(out.as_map()[s0[i as int].name] == s0[i as int]);
                }
            }
            i += 1;
        }
        proof {
            lemma_vars_to_map_dom(s0);
            assert forall|k: Seq<char>| #[trigger] out.as_map().contains_key(k) implies (
            self.as_map().contains_key(k) && self.as_map()[k].inherit) by {
                let j = choose|j: int| 0 <= j < s0.len() && s0[j].name == k && s0[j].inherit;
                lemma_vars_to_map_index(s0, j);
            }
            assert forall|k: Seq<char>|
                self.as_map().contains_key(k) && self.as_map()[k].inherit implies #[trigger]
            out.as_map().contains_key(k) by {
                let j = choose|j: int| 0 <= j < s0.len() && s0[j].name == k;
                lemma_vars_to_map_index(s0, j);
            }
            assert forall|k: Seq<char>| #[trigger] out.as_map().contains_key(k) implies
            out.as_map()[k] == self.as_map()[k] by {
                let j = choose|j: int| 0 <= j < s0.len() && s0[j].name == k && s0[j].inherit;
                lemma_vars_to_map_index(s0, j);
            }
        }
        out
    }

    pub fn is_empty(&self) -> (r: bool)
        ensures
            r == (self.seq_view().len() == 0),
    {
        self.entries.len() == 0
    }

    pub fn len(&self) -> (r: usize)
        ensures
            r == self.seq_view().len(),
    {
        self.entries.len()
    }

    /// The entries in their stable, byte-lexicographic name order.
    pub fn iter(&self) -> (r: Vec<ContextEntry>)
        requires
            self.wf(),
        ensures
            r@.len() == self.seq_view().len(),
            forall|i: int|
                0 <= i < r@.len() ==> {
                    let e = #[trigger] r@[i];
                    let v = self.seq_view()[i];
                    e.name@ == v.name && e.value@ == v.value && e.is_read_only == v.read_only
                        && e.is_internal == v.internal
                },
    {
        let mut r: Vec<ContextEntry> = Vec::new();
        let mut i: usize = 0;
        while i < self.entries.len()
            invariant
                self.seq_view().len() == self.entries@.len(),
                i <= self.entries@.len(),
                r@.len() == i,
                forall|j: int|
                    0 <= j < i ==> {
                        let e = #[trigger] r@[j];
                        let v = self.seq_view()[j];
                        e.name@ == v.name && e.value@ == v.value && e.is_read_only == v.read_only
                            && e.is_internal == v.internal
                    },
            decreases self.entries@.len() - i,
        {
            let e = &self.entries[i];
            r.push(
                ContextEntry {
                    name: e.name.clone(),
                    value: e.value.clone(),
                    is_read_only: e.read_only,
                    is_internal: e.internal,
                },
            );
            i += 1;
        }
        r
    }
}

/// Relies on chrono's `Local::now` and `DelayedFormat`: the local time
/// rendered as `YYYYMMDD.HHMM`, which is never empty.
#[verifier::external_body]
fn current_timestamp() -> (r: String)
    ensures
        r@.len() > 0,
{
    format!("{}", chrono::Local::now().format("%Y%m%d.%H%M"))
}

/// The variables a fresh root context is seeded with.
pub open spec fn seeded_context(ts: Seq<char>, version: Seq<char>, my_binary: Seq<char>) -> Map<
    Seq<char>,
    VarView,
> {
    Map::empty().insert(
        "TIMESTAMP"@,
        VarView {
            name: "TIMESTAMP"@,
            value: ts,
            read_only: true,
            internal: false,
            inherit: true,
        },
    ).insert(
        "VERSION"@,
        VarView {
            name: "VERSION"@,
            value: version,
            read_only: true,
            internal: false,
            inherit: true,
        },
    ).insert(
        "MY_BINARY"@,
        VarView {
            name: "MY_BINARY"@,
            value: my_binary,
            read_only: true,
            internal: true,
            inherit: true,
        },
    )
}

/// The names a root context may pass on to a build context.
pub open spec fn root_seed_name(k: Seq<char>) -> bool {
    k == "TIMESTAMP"@ || k == "VERSION"@ || k == "MY_BINARY"@
}

/// The names a build context may pass on to a dependent context.
pub open spec fn build_seed_name(k: Seq<char>) -> bool {
    root_seed_name(k) || k == "BUSYBOX_BINARY"@
}

/// The inheritable part of a variable map.
pub open spec fn inherited(m: Map<Seq<char>, VarView>) -> Map<Seq<char>, VarView> {
    Map::new(|k: Seq<char>| m.contains_key(k) && m[k].inherit, |k: Seq<char>| m[k])
}

/// Builds the root context from explicit settings; what is not given is
/// derived (the timestamp from the clock, the version from the timestamp).
pub struct ContextBuilder {
    timestamp: Option<String>,
    version: Option<String>,
    printer: Printer,
    commands: CommandManager,
}

impl ContextBuilder {
    pub closed spec fn timestamp_view(&self) -> Option<Seq<char>> {
        match self.timestamp {
            Some(ref t) => Some(t@),
            None => None,
        }
    }

    pub closed spec fn version_view(&self) -> Option<Seq<char>> {
        match self.version {
            Some(ref v) => Some(v@),
            None => None,
        }
    }

    /// The log sink the built context will carry.
    pub closed spec fn printer_view(&self) -> Printer {
        self.printer
    }

    /// The registry snapshot the built context will carry.
    pub closed spec fn commands_view(&self) -> CommandManager {
        self.commands
    }

    pub fn new(printer: Printer, commands: CommandManager) -> (r: ContextBuilder)
        ensures
            r.timestamp_view() is None,
            r.version_view() is None,
            r.printer_view() == printer,
            r.commands_view() == commands,
    {
        ContextBuilder { timestamp: None, version: None, printer, commands }
    }

    /// A builder for tests: a silent printer and an empty registry.
    pub fn new_test() -> (r: ContextBuilder)
        ensures
            r.timestamp_view() is None,
            r.version_view() is None,
            r.printer_view().errors() == 0,
            r.printer_view().level() == crate::printer::LogLevel::Off,
            !r.printer_view().exits_on_error(),
            r.commands_view().reg() == Seq::<(Seq<char>, crate::registry::CommandView)>::empty(),
    {
        let commands = crate::registry::CommandManagerBuilder::new().build();
        proof {
            assert(commands.reg() =~= Seq::<(Seq<char>, crate::registry::CommandView)>::empty());
        }
        ContextBuilder {
            timestamp: None,
            version: None,
            printer: Printer::new(&crate::printer::LogLevel::Off, false),
            commands,
        }
    }

    /// Sets the timestamp; an all-whitespace timestamp is refused.
    pub fn timestamp(self, timestamp: String) -> (r: Result<ContextBuilder, Error>)
        ensures
            r is Err <==> crate::strutil::trim_spec(timestamp@).len() == 0,
            r matches Ok(b) ==> b.timestamp_view() == Some(crate::strutil::trim_spec(timestamp@))
                && b.version_view() == self.version_view() && b.printer_view()
                == self.printer_view() && b.commands_view() == self.commands_view(),
            r matches Err(e) ==> e matches Error::InvalidEnv { .. },
    {
        let trimmed = crate::strutil::trim_str(timestamp.as_str());
        if trimmed.unicode_len() == 0 {
            Err(Error::InvalidEnv { variable: "TIMESTAMP".to_owned() })
        } else {
            Ok(ContextBuilder { timestamp: Some(trimmed.to_owned()), ..self })
        }
    }

    /// Sets the artifact version; an all-whitespace version is refused.
    pub fn version(self, version: String) -> (r: Result<ContextBuilder, Error>)
        ensures
            r is Err <==> crate::strutil::trim_spec(version@).len() == 0,
            r matches Ok(b) ==> b.version_view() == Some(crate::strutil::trim_spec(version@))
                && b.timestamp_view() == self.timestamp_view() && b.printer_view()
                == self.printer_view() && b.commands_view() == self.commands_view(),
            r matches Err(e) ==> e matches Error::InvalidEnv { .. },
    {
        let trimmed = crate::strutil::trim_str(version.as_str());
        if trimmed.unicode_len() == 0 {
            Err(Error::InvalidEnv { variable: "VERSION".to_owned() })
        } else {
            Ok(ContextBuilder { version: Some(trimmed.to_owned()), ..self })
        }
    }

    /// Seeds the root context. The orchestrator's own executable path is
    /// resolved and checked by the caller and handed in as a plain value.
    pub fn build(self, my_binary: &str) -> (r: Context)
        ensures
            r.wf(),
            r.printer == self.printer_view(),
            r.commands == self.commands_view(),
            match (self.timestamp_view(), self.version_view()) {
                (Some(t), Some(v)) => r.vars().as_map() == seeded_context(t, v, my_binary@),
                (Some(t), None) => r.vars().as_map() == seeded_context(t, t, my_binary@),
                (None, Some(v)) => exists|t: Seq<char>|
                    t.len() > 0 && r.vars().as_map() == seeded_context(t, v, my_binary@),
                (None, None) => exists|t: Seq<char>|
                    t.len() > 0 && r.vars().as_map() == seeded_context(t, t, my_binary@),
            },
    {
        proof {
            lemma_seed_names_valid();
        }
        let ghost tsv = self.timestamp_view();
        let ghost vv = self.version_view();
        let ts = match self.timestamp {
            Some(t) => t,
            None => current_timestamp(),
        };
        proof {
            if tsv is Some {
                assert(ts@ == tsv->Some_0);
            }
        }
        let v = match self.version {
            Some(v) => v,
            None => ts.clone(),
        };
        proof {
            if vv is Some {
                assert(v@ == vv->Some_0);
            } else {
                assert(v@ == ts@);
            }
        }
        let mut vars = ContextMap::new();
        let r1 = vars.set("TIMESTAMP", ts.as_str(), true, false, true);
        let r2 = vars.set("VERSION", v.as_str(), true, false, true);
        let r3 = vars.set("MY_BINARY", my_binary, true, true, true);
        proof {
            lemma_seed_names_distinct();
            assert(r1 is Ok && r2 is Ok && r3 is Ok);
            assert(vars.as_map() == seeded_context(ts@, v@, my_binary@));
        }
        let ctx = Context { variables: vars, printer: self.printer, commands: self.commands };
        proof {
            lemma_seeded_wf(ts@, v@, my_binary@);
            assert(ctx.vars().as_map() == seeded_context(ts@, v@, my_binary@));
            if self.timestamp_view() is None {
                assert(ts@.len() > 0);
                if self.version_view() is None {
                    assert(v@ == ts@);
                    assert(exists|t: Seq<char>|
                        t.len() > 0 && ctx.vars().as_map() == seeded_context(t, t, my_binary@))
                        by {
                        assert(ts@.len() > 0 && ctx.vars().as_map() == seeded_context(
                            ts@,
                            ts@,
                            my_binary@,
                        ));
                    }
                } else {
                    assert(exists|t: Seq<char>|
                        t.len() > 0 && ctx.vars().as_map() == seeded_context(t, v@, my_binary@))
                        by {
                        assert(ts@.len() > 0 && ctx.vars().as_map() == seeded_context(
                            ts@,
                            v@,
                            my_binary@,
                        ));
                    }
                }
            }
        }
        ctx
    }
}

/// The seeded names pass the store's validator.
proof fn lemma_seed_names_valid()
    ensures
        valid_context_name("TIMESTAMP"@),
        valid_context_name("VERSION"@),
        valid_context_name("MY_BINARY"@),
        valid_context_name("WORK_DIR"@),
        valid_context_name("ROOT_DIR"@),
        valid_context_name("ARTIFACTS_DIR"@),
        valid_context_name("BUSYBOX_BINARY"@),
{
    reveal_strlit("TIMESTAMP");
    reveal_strlit("VERSION");
    reveal_strlit("MY_BINARY");
    reveal_strlit("WORK_DIR");
    reveal_strlit("ROOT_DIR");
    reveal_strlit("ARTIFACTS_DIR");
    reveal_strlit("BUSYBOX_BINARY");
}

/// The seeded names are pairwise distinct.
proof fn lemma_seed_names_distinct()
    ensures
        "TIMESTAMP"@ != "VERSION"@,
        "TIMESTAMP"@ != "MY_BINARY"@,
        "VERSION"@ != "MY_BINARY"@,
        "WORK_DIR"@ != "TIMESTAMP"@,
        "WORK_DIR"@ != "VERSION"@,
        "WORK_DIR"@ != "MY_BINARY"@,
        "ROOT_DIR"@ != "TIMESTAMP"@,
        "ROOT_DIR"@ != "VERSION"@,
        "ROOT_DIR"@ != "MY_BINARY"@,
        "ARTIFACTS_DIR"@ != "TIMESTAMP"@,
        "ARTIFACTS_DIR"@ != "VERSION"@,
        "ARTIFACTS_DIR"@ != "MY_BINARY"@,
        "BUSYBOX_BINARY"@ != "TIMESTAMP"@,
        "BUSYBOX_BINARY"@ != "VERSION"@,
        "BUSYBOX_BINARY"@ != "MY_BINARY"@,
        "WORK_DIR"@ != "ROOT_DIR"@,
        "WORK_DIR"@ != "ARTIFACTS_DIR"@,
        "WORK_DIR"@ != "BUSYBOX_BINARY"@,
        "ROOT_DIR"@ != "ARTIFACTS_DIR"@,
        "ROOT_DIR"@ != "BUSYBOX_BINARY"@,
        "ARTIFACTS_DIR"@ != "BUSYBOX_BINARY"@,
{
    reveal_strlit("TIMESTAMP");
    reveal_strlit("VERSION");
    reveal_strlit("MY_BINARY");
    reveal_strlit("WORK_DIR");
    reveal_strlit("ROOT_DIR");
    reveal_strlit("ARTIFACTS_DIR");
    reveal_strlit("BUSYBOX_BINARY");
    assert("TIMESTAMP"@.len() == 9);
    assert("VERSION"@.len() == 7);
    assert("MY_BINARY"@.len() == 9);
    assert("WORK_DIR"@.len() == 8);
    assert("ROOT_DIR"@.len() == 8);
    assert("ARTIFACTS_DIR"@.len() == 13);
    assert("BUSYBOX_BINARY"@.len() == 14);
    assert("TIMESTAMP"@[0] == 'T' && "MY_BINARY"@[0] == 'M');
    assert("WORK_DIR"@[0] == 'W' && "ROOT_DIR"@[0] == 'R');
}

/// A freshly seeded map satisfies the root context's shape.
proof fn lemma_seeded_wf(ts: Seq<char>, v: Seq<char>, mb: Seq<char>)
    ensures
        context_seeds(seeded_context(ts, v, mb)),
        forall|k: Seq<char>|
            #[trigger] seeded_context(ts, v, mb).contains_key(k) && seeded_context(
                ts,
                v,
                mb,
            )[k].inherit ==> root_seed_name(k),
{
    lemma_seed_names_distinct();
    let m = seeded_context(ts, v, mb);
    assert(m.contains_key("TIMESTAMP"@));
    assert(m["TIMESTAMP"@].read_only && m["TIMESTAMP"@].inherit);
}

/// The root context's seeds are present, read-only and inheritable.
pub open spec fn context_seeds(m: Map<Seq<char>, VarView>) -> bool {
    &&& m.contains_key("TIMESTAMP"@) && m["TIMESTAMP"@].read_only && m["TIMESTAMP"@].inherit
    &&& m.contains_key("VERSION"@) && m["VERSION"@].read_only && m["VERSION"@].inherit
    &&& m.contains_key("MY_BINARY"@) && m["MY_BINARY"@].read_only && m["MY_BINARY"@].inherit
}

/// The root context: seeded variables, the log sink and the registry.
pub struct Context {
    pub variables: ContextMap,
    pub printer: Printer,
    pub commands: CommandManager,
}

impl Context {
    pub open spec fn vars(&self) -> ContextMap {
        self.variables
    }

    pub open spec fn wf(&self) -> bool {
        &&& self.vars().wf()
        &&& context_seeds(self.vars().as_map())
        &&& forall|k: Seq<char>|
            #[trigger] self.vars().as_map().contains_key(k) && self.vars().as_map()[k].inherit
                ==> root_seed_name(k)
    }

    pub fn timestamp(&self) -> (r: String)
        requires
            self.wf(),
        ensures
            r@ == self.vars().as_map()["TIMESTAMP"@].value,
    {
        match self.variables.get("TIMESTAMP") {
            Some(v) => v,
            None => vstd::pervasive::unreached(),
        }
    }

    pub fn version(&self) -> (r: String)
        requires
            self.wf(),
        ensures
            r@ == self.vars().as_map()["VERSION"@].value,
    {
        match self.variables.get("VERSION") {
            Some(v) => v,
            None => vstd::pervasive::unreached(),
        }
    }

    pub fn get(&self, name: &str) -> (r: Option<String>)
        requires
            self.wf(),
        ensures
            match r {
                Some(v) => self.vars().as_map().contains_key(name@) && v@ == self.vars().as_map(
                ).index(name@).value,
                None => !self.vars().as_map().contains_key(name@),
            },
    {
        self.variables.get(name)
    }

    /// Sets a variable on the root context; such entries never inherit.
    pub fn set(&mut self, name: &str, value: &str, is_read_only: bool, is_internal: bool) -> (r:
        Result<(), Error>)
        requires
            old(self).wf(),
        ensures
            final(self).wf(),
            final(self).printer == old(self).printer,
            final(self).commands == old(self).commands,
            r is Err <==> (!valid_context_name(name@) || (old(self).vars().as_map().contains_key(
                name@,
            ) && old(self).vars().as_map().index(name@).read_only)),
            r is Ok ==> final(self).vars().as_map() == old(self).vars().as_map().insert(
                name@,
                VarView {
                    name: name@,
                    value: value@,
                    read_only: is_read_only,
                    internal: is_internal,
                    inherit: false,
                },
            ),
            r is Err ==> final(self).vars().as_map() == old(self).vars().as_map(),
    {
        let r = self.variables.set(name, value, is_read_only, is_internal, false);
        proof {
            if r is Ok {
                let m0 = old(self).vars().as_map();
                let m1 = self.vars().as_map();
                assert(m1.contains_key("TIMESTAMP"@));
                if name@ != "TIMESTAMP"@ {
                    assert(m1["TIMESTAMP"@] == m0["TIMESTAMP"@]);
                } else {
                    assert(m0.contains_key(name@) && m0[name@].read_only);
                }
                assert(context_seeds(m1));
                assert forall|k: Seq<char>|
                    #[trigger] m1.contains_key(k) && m1[k].inherit implies root_seed_name(k) by {
                    if k != name@ {
                        assert(m0.contains_key(k) && m0[k] == m1[k]);
                    }
                }
            }
        }
        r
    }

    /// Derives the per-build context: inheritable root variables plus the
    /// resolved build directories, all read-only; the networked phases are
    /// kept as a set, in phase order. The directories are resolved, and the
    /// scratch directory created, by the caller.
    pub fn create_build_context(
        &self,
        work_directory: &str,
        artifacts_directory: &str,
        busybox_binary: &str,
        scratch_directory: &str,
        bootstrap_environment: RunEnvironment,
        networked_phases: Vec<Phases>,
        debug_options: Vec<DebugOptions>,
    ) -> (r: BuildContext)
        requires
            self.wf(),
        ensures
            r.wf(),
            r.vars().as_map() == build_seeded(
                self.vars().as_map(),
                work_directory@,
                artifacts_directory@,
                busybox_binary@,
                scratch_directory@,
            ),
            r.scratch_dir@ == scratch_directory@,
            r.commands.reg() == self.commands.reg(),
            r.printer.errors() == self.printer.errors(),
            r.printer.level() == self.printer.level(),
            r.printer.exits_on_error() == self.printer.exits_on_error(),
            r.bootstrap_environment == bootstrap_environment,
            forall|p: Phases| #[trigger] r.networked_phases@.contains(p)
                <==> networked_phases@.contains(p),
            forall|i: int, j: int|
                0 <= i < j < r.networked_phases@.len() ==> phase_rank(r.networked_phases@[i])
                    < phase_rank(r.networked_phases@[j]),
            r.debug_options@ == debug_options@,
            r.deps_view() == Seq::<(Seq<char>, Seq<char>)>::empty(),
    {
        proof {
            lemma_seed_names_valid();
            lemma_seed_names_distinct();
        }
        let mut vars = self.variables.inherit();
        proof {
            assert(vars.as_map() =~= inherited(self.vars().as_map()));
        }
        let mut root_directory = scratch_directory.to_owned();
        root_directory.append("/root_fs");
        let r1 = vars.set("BUSYBOX_BINARY", busybox_binary, true, true, true);
        let r2 = vars.set("ARTIFACTS_DIR", artifacts_directory, true, true, false);
        let r3 = vars.set("ROOT_DIR", root_directory.as_str(), true, true, false);
        let r4 = vars.set("WORK_DIR", work_directory, true, true, false);
        proof {
            assert(r1 is Ok && r2 is Ok && r3 is Ok && r4 is Ok);
        }
        let networked = normalize_phases(&networked_phases);
        let r = BuildContext {
            printer: self.printer.clone(),
            commands: self.commands.clone(),
            bootstrap_environment,
            variables: vars,
            networked_phases: networked,
            scratch_dir: scratch_directory.to_owned(),
            debug_options,
            dependencies: Vec::new(),
        };
        proof {
            let m0 = inherited(self.vars().as_map());
            assert(m0.contains_key("TIMESTAMP"@) && m0["TIMESTAMP"@] == self.vars().as_map().index(
                "TIMESTAMP"@,
            ));
            assert(m0.contains_key("VERSION"@));
            assert(m0.contains_key("MY_BINARY"@));
            assert(r.deps_view() =~= Seq::<(Seq<char>, Seq<char>)>::empty());
            assert forall|k: Seq<char>|
                #[trigger] r.vars().as_map().contains_key(k) && r.vars().as_map()[k].inherit
                    implies build_seed_name(k) by {
                if k != "BUSYBOX_BINARY"@ && k != "ARTIFACTS_DIR"@ && k != "ROOT_DIR"@ && k
                    != "WORK_DIR"@ {
                    assert(m0.contains_key(k));
                }
            }
        }
        r
    }

    /// A build context over fixed example paths, for tests.
    pub fn test_system(&self) -> (r: BuildContext)
        requires
            self.wf(),
        ensures
            r.wf(),
            r.vars().as_map() == build_seeded(
                self.vars().as_map(),
                "/foo/work"@,
                "/foo/artifacts"@,
                "/usr/bin/busybox"@,
                "/foo/work/XXXX"@,
            ),
            r.printer.errors() == self.printer.errors(),
            r.printer.level() == self.printer.level(),
            r.commands.reg() == self.commands.reg(),
            r.deps_view() == Seq::<(Seq<char>, Seq<char>)>::empty(),
    {
        self.create_build_context(
            "/foo/work",
            "/foo/artifacts",
            "/usr/bin/busybox",
            "/foo/work/XXXX",
            RunEnvironment::Directory("/tmp/bootstrap_dir".to_owned()),
            Vec::new(),
            Vec::new(),
        )
    }
}

fn phase_list_contains(list: &Vec<Phases>, phase: &Phases) -> (r: bool)
    ensures
        r == list@.contains(*phase),
{
    let mut i: usize = 0;
    while i < list.len()
        invariant
            i <= list@.len(),
            forall|j: int| 0 <= j < i ==> list@[j] != *phase,
        decreases list@.len() - i,
    {
        if list[i] == *phase {
            return true;
        }
        i += 1;
    }
    false
}

/// The given phases as a set, in canonical phase order and without
/// duplicates.
fn normalize_phases(phases: &Vec<Phases>) -> (r: Vec<Phases>)
    ensures
        forall|i: int, j: int|
            0 <= i < j < r@.len() ==> phase_rank(r@[i]) < phase_rank(r@[j]),
        forall|p: Phases| #[trigger] r@.contains(p) <==> phases@.contains(p),
{
    let all = Phases::iter();
    let mut out: Vec<Phases> = Vec::new();
    let mut k: usize = 0;
    while k < all.len()
        invariant
            all@ == phase_sequence_spec(),
            k <= all@.len(),
            forall|i: int, j: int|
                0 <= i < j < out@.len() ==> phase_rank(out@[i]) < phase_rank(out@[j]),
            forall|i: int| 0 <= i < out@.len() ==> phase_rank(#[trigger] out@[i]) < k,
            forall|p: Phases|
                #[trigger] out@.contains(p) <==> (phases@.contains(p) && phase_rank(p) < k),
        decreases all@.len() - k,
    {
        let p = all[k];
        proof {
            lemma_phase_rank();
            assert(phase_rank(all@[k as int]) == k);
        }
        if phase_list_contains(phases, &p) {
            let ghost out0 = out@;
            out.push(p);
            proof {
                assert forall|q: Phases| #[trigger] out@.contains(q) implies (phases@.contains(q)
                    && phase_rank(q) < k + 1) by {
                    let idx = choose|idx: int| 0 <= idx < out@.len() && out@[idx] == q;
                    if idx < out0.len() {
                        assert(out0[idx] == q);
                        assert(out0.contains(q));
                    } else {
                        assert(q == p);
                    }
                }
                assert forall|q: Phases|
                    phases@.contains(q) && phase_rank(q) < k + 1 implies #[trigger] out@.contains(
                    q,
                ) by {
                    if phase_rank(q) < k {
                        assert(out0.contains(q));
                        let idx = choose|idx: int| 0 <= idx < out0.len() && out0[idx] == q;
                        assert(out@[idx] == q);
                    } else {
                        assert(phase_rank(q) == k && phase_rank(p) == k);
                        assert(q == p);
                        assert(out@[out@.len() - 1] == p);
                    }
                }
            }
        } else {
            proof {
                assert forall|q: Phases|
                    phases@.contains(q) && phase_rank(q) < k + 1 implies #[trigger] out@.contains(
                    q,
                ) by {
                    if phase_rank(q) == k {
                        assert(q == p);
                        assert(!phases@.contains(p));
                    }
                }
            }
        }
        k += 1;
    }
    proof {
        lemma_phase_rank();
        assert forall|p: Phases| #[trigger] out@.contains(p) <==> phases@.contains(p) by {
            assert(phase_rank(p) < all@.len());
        }
    }
    out
}

/// The variable map of a fresh build context: the inheritable root
/// variables plus the four build directories.
pub open spec fn build_seeded(
    root: Map<Seq<char>, VarView>,
    work: Seq<char>,
    artifacts: Seq<char>,
    busybox: Seq<char>,
    scratch: Seq<char>,
) -> Map<Seq<char>, VarView> {
    inherited(root).insert(
        "BUSYBOX_BINARY"@,
        VarView {
            name: "BUSYBOX_BINARY"@,
            value: busybox,
            read_only: true,
            internal: true,
            inherit: true,
        },
    ).insert(
        "ARTIFACTS_DIR"@,
        VarView {
            name: "ARTIFACTS_DIR"@,
            value: artifacts,
            read_only: true,
            internal: true,
            inherit: false,
        },
    ).insert(
        "ROOT_DIR"@,
        VarView {
            name: "ROOT_DIR"@,
            value: scratch + "/root_fs"@,
            read_only: true,
            internal: true,
            inherit: false,
        },
    ).insert(
        "WORK_DIR"@,
        VarView {
            name: "WORK_DIR"@,
            value: work,
            read_only: true,
            internal: true,
            inherit: false,
        },
    )
}

/// The build context's own variables are present and read-only, beside the
/// root seeds.
pub open spec fn build_context_seeds(m: Map<Seq<char>, VarView>) -> bool {
    &&& context_seeds(m)
    &&& m.contains_key("WORK_DIR"@) && m["WORK_DIR"@].read_only
    &&& m.contains_key("ROOT_DIR"@) && m["ROOT_DIR"@].read_only
    &&& m.contains_key("ARTIFACTS_DIR"@) && m["ARTIFACTS_DIR"@].read_only
    &&& m.contains_key("BUSYBOX_BINARY"@) && m["BUSYBOX_BINARY"@].read_only && m.index(
        "BUSYBOX_BINARY"@,
    ).inherit
}

/// The per-build state: variables, registry snapshot, log sink, bootstrap
/// environment, networked phases, scratch path, debug options and the
/// pending dependency list.
pub struct BuildContext {
    pub printer: Printer,
    pub commands: CommandManager,
    pub bootstrap_environment: RunEnvironment,
    pub variables: ContextMap,
    pub networked_phases: Vec<Phases>,
    pub scratch_dir: String,
    pub debug_options: Vec<DebugOptions>,
    pub dependencies: Vec<(VariableName, CommandName)>,
}

impl BuildContext {
    pub open spec fn vars(&self) -> ContextMap {
        self.variables
    }

    /// The registered dependencies, as name pairs in registration order.
    pub open spec fn deps_view(&self) -> Seq<(Seq<char>, Seq<char>)> {
        self.dependencies@.map_values(|d: (VariableName, CommandName)| (d.0@, d.1@))
    }

    pub open spec fn wf(&self) -> bool {
        &&& self.vars().wf()
        &&& build_context_seeds(self.vars().as_map())
        &&& forall|k: Seq<char>|
            #[trigger] self.vars().as_map().contains_key(k) && self.vars().as_map()[k].inherit
                ==> build_seed_name(k)
    }

    /// Returns and clears the pending dependency list.
    pub fn take_dependencies(&mut self) -> (r: Vec<(VariableName, CommandName)>)
        ensures
            r@.map_values(|d: (VariableName, CommandName)| (d.0@, d.1@)) == old(self).deps_view(),
            final(self).deps_view() == Seq::<(Seq<char>, Seq<char>)>::empty(),
            final(self).vars() == old(self).vars(),
            final(self).printer == old(self).printer,
            final(self).commands == old(self).commands,
            final(self).bootstrap_environment == old(self).bootstrap_environment,
            final(self).scratch_dir == old(self).scratch_dir,
            final(self).networked_phases == old(self).networked_phases,
            final(self).debug_options == old(self).debug_options,
            final(self).wf() == old(self).wf(),
    {
        let mut out: Vec<(VariableName, CommandName)> = Vec::new();
        core::mem::swap(&mut self.dependencies, &mut out);
        proof {
            assert(final(self).deps_view() =~= Seq::<(Seq<char>, Seq<char>)>::empty());
        }
        out
    }

    /// Registers a dependency; a second registration under the same
    /// variable name is refused.
    pub fn add_dependency(&mut self, key: VariableName, value: CommandName) -> (r: Result<
        (),
        Error,
    >)
        ensures
            final(self).vars() == old(self).vars(),
            final(self).printer == old(self).printer,
            final(self).commands == old(self).commands,
            final(self).bootstrap_environment == old(self).bootstrap_environment,
            final(self).scratch_dir == old(self).scratch_dir,
            final(self).networked_phases == old(self).networked_phases,
            final(self).debug_options == old(self).debug_options,
            final(self).wf() == old(self).wf(),
            r is Err <==> (exists|j: int|
                0 <= j < old(self).deps_view().len() && (#[trigger] old(self).deps_view()[j]).0
                    == key@),
            r is Ok ==> final(self).deps_view() == old(self).deps_view().push((key@, value@)),
            r is Err ==> final(self).deps_view() == old(self).deps_view(),
            r matches Err(e) ==> e matches Error::DuplicateDependency { .. },
    {
        let mut i: usize = 0;
        while i < self.dependencies.len()
            invariant
                self == old(self),
                i <= self.dependencies@.len(),
                self.deps_view().len() == self.dependencies@.len(),
                forall|j: int| 0 <= j < i ==> (#[trigger] self.deps_view()[j]).0 != key@,
            decreases self.dependencies@.len() - i,
        {
            if self.dependencies[i].0.eq_name(&key) {
                proof {
                    assert(self.deps_view()[i as int].0 == key@);
                }
                return Err(Error::DuplicateDependency { name: key.as_str().to_owned() });
            }
            i += 1;
        }
        self.dependencies.push((key, value));
        proof {
            assert(self.deps_view() =~= old(self).deps_view().push((key@, value@)));
        }
        Ok(())
    }

    /// Derives the context a declared dependency is built in: inheritable
    /// entries only, plus a fresh root, work and artifacts directory.
    pub fn create_dependent_context(
        &self,
        artifacts_dir: &str,
        name: &VariableName,
        scratch_directory: &str,
    ) -> (r: BuildContext)
        requires
            self.wf(),
        ensures
            r.wf(),
            r.vars().as_map() == inherited(self.vars().as_map()).insert(
                "ROOT_DIR"@,
                VarView {
                    name: "ROOT_DIR"@,
                    value: scratch_directory@ + "/root_fs"@,
                    read_only: true,
                    internal: true,
                    inherit: false,
                },
            ).insert(
                "WORK_DIR"@,
                VarView {
                    name: "WORK_DIR"@,
                    value: self.scratch_dir@,
                    read_only: true,
                    internal: true,
                    inherit: false,
                },
            ).insert(
                "ARTIFACTS_DIR"@,
                VarView {
                    name: "ARTIFACTS_DIR"@,
                    value: artifacts_dir@ + "/deps/"@ + name@,
                    read_only: true,
                    internal: true,
                    inherit: false,
                },
            ),
            r.scratch_dir@ == scratch_directory@,
            r.commands.reg() == self.commands.reg(),
            r.printer.errors() == self.printer.errors(),
            r.printer.level() == self.printer.level(),
            r.printer.exits_on_error() == self.printer.exits_on_error(),
            r.bootstrap_environment == self.bootstrap_environment,
            r.networked_phases@ == self.networked_phases@,
            r.debug_options@ == self.debug_options@,
            r.deps_view() == Seq::<(Seq<char>, Seq<char>)>::empty(),
    {
        proof {
            lemma_seed_names_valid();
            lemma_seed_names_distinct();
        }
        let mut artifacts_directory = artifacts_dir.to_owned();
        artifacts_directory.append("/deps/");
        artifacts_directory.append(name.as_str());
        let mut root_directory = scratch_directory.to_owned();
        root_directory.append("/root_fs");
        let mut vars = self.variables.inherit();
        proof {
            assert(vars.as_map() =~= inherited(self.vars().as_map()));
        }
        let r1 = vars.set("ROOT_DIR", root_directory.as_str(), true, true, false);
        let r2 = vars.set("WORK_DIR", self.scratch_dir.as_str(), true, true, false);
        let r3 = vars.set("ARTIFACTS_DIR", artifacts_directory.as_str(), true, true, false);
        proof {
            assert(r1 is Ok && r2 is Ok && r3 is Ok);
        }
        let r = BuildContext {
            printer: self.printer.clone(),
            commands: self.commands.clone(),
            bootstrap_environment: self.bootstrap_environment.clone(),
            variables: vars,
            networked_phases: self.networked_phases.clone(),
            scratch_dir: scratch_directory.to_owned(),
            debug_options: self.debug_options.clone(),
            dependencies: Vec::new(),
        };
        proof {
            let m0 = inherited(self.vars().as_map());
            assert(m0.contains_key("TIMESTAMP"@));
            assert(m0.contains_key("VERSION"@));
            assert(m0.contains_key("MY_BINARY"@));
            assert(m0.contains_key("BUSYBOX_BINARY"@));
            assert(r.deps_view() =~= Seq::<(Seq<char>, Seq<char>)>::empty());
            assert(r.networked_phases@ =~= self.networked_phases@);
            assert(r.debug_options@ =~= self.debug_options@);
            assert forall|k: Seq<char>|
                #[trigger] r.vars().as_map().contains_key(k) && r.vars().as_map()[k].inherit
                    implies build_seed_name(k) by {
                if k != "ARTIFACTS_DIR"@ && k != "ROOT_DIR"@ && k != "WORK_DIR"@ {
                    assert(m0.contains_key(k));
                }
            }
        }
        r
    }

    pub fn bootstrap_environment(&self) -> (r: &RunEnvironment)
        ensures
            r == &self.bootstrap_environment,
    {
        &self.bootstrap_environment
    }

    pub fn printer(&self) -> (r: &Printer)
        ensures
            r == &self.printer,
    {
        &self.printer
    }

    pub fn artifacts_directory(&self) -> (r: String)
        requires
            self.wf(),
        ensures
            r@ == self.vars().as_map().index("ARTIFACTS_DIR"@).value,
    {
        match self.variables.get("ARTIFACTS_DIR") {
            Some(v) => v,
            None => vstd::pervasive::unreached(),
        }
    }

    pub fn busybox_binary(&self) -> (r: String)
        requires
            self.wf(),
        ensures
            r@ == self.vars().as_map().index("BUSYBOX_BINARY"@).value,
    {
        match self.variables.get("BUSYBOX_BINARY") {
            Some(v) => v,
            None => vstd::pervasive::unreached(),
        }
    }

    pub fn my_binary(&self) -> (r: String)
        requires
            self.wf(),
        ensures
            r@ == self.vars().as_map().index("MY_BINARY"@).value,
    {
        match self.variables.get("MY_BINARY") {
            Some(v) => v,
            None => vstd::pervasive::unreached(),
        }
    }

    pub fn root_directory(&self) -> (r: String)
        requires
            self.wf(),
        ensures
            r@ == self.vars().as_map().index("ROOT_DIR"@).value,
    {
        match self.variables.get("ROOT_DIR") {
            Some(v) => v,
            None => vstd::pervasive::unreached(),
        }
    }

    pub fn work_directory(&self) -> (r: String)
        requires
            self.wf(),
        ensures
            r@ == self.vars().as_map().index("WORK_DIR"@).value,
    {
        match self.variables.get("WORK_DIR") {
            Some(v) => v,
            None => vstd::pervasive::unreached(),
        }
    }

    pub fn timestamp(&self) -> (r: String)
        requires
            self.wf(),
        ensures
            r@ == self.vars().as_map().index("TIMESTAMP"@).value,
    {
        match self.variables.get("TIMESTAMP") {
            Some(v) => v,
            None => vstd::pervasive::unreached(),
        }
    }

    pub fn version(&self) -> (r: String)
        requires
            self.wf(),
        ensures
            r@ == self.vars().as_map().index("VERSION"@).value,
    {
        match self.variables.get("VERSION") {
            Some(v) => v,
            None => vstd::pervasive::unreached(),
        }
    }

    pub fn scratch_directory(&self) -> (r: String)
        ensures
            r@ == self.scratch_dir@,
    {
        self.scratch_dir.clone()
    }

    pub fn get(&self, name: &str) -> (r: Option<String>)
        requires
            self.wf(),
        ensures
            match r {
                Some(v) => self.vars().as_map().contains_key(name@) && v@ == self.vars().as_map(
                ).index(name@).value,
                None => !self.vars().as_map().contains_key(name@),
            },
    {
        self.variables.get(name)
    }

    /// The raw lookup; values here are plain strings, so it coincides with
    /// [`Self::get`].
    pub fn get_raw(&self, name: &str) -> (r: Option<String>)
        requires
            self.wf(),
        ensures
            match r {
                Some(v) => self.vars().as_map().contains_key(name@) && v@ == self.vars().as_map(
                ).index(name@).value,
                None => !self.vars().as_map().contains_key(name@),
            },
    {
        self.variables.get(name)
    }

    /// Writes a variable; entries written here never inherit.
    pub fn set(&mut self, name: &str, value: &str, is_read_only: bool, is_internal: bool) -> (r:
        Result<(), Error>)
        requires
            old(self).wf(),
        ensures
            final(self).wf(),
            final(self).printer == old(self).printer,
            final(self).commands == old(self).commands,
            final(self).deps_view() == old(self).deps_view(),
            final(self).bootstrap_environment == old(self).bootstrap_environment,
            final(self).scratch_dir == old(self).scratch_dir,
            final(self).networked_phases == old(self).networked_phases,
            final(self).debug_options == old(self).debug_options,
            r is Err <==> (!valid_context_name(name@) || (old(self).vars().as_map().contains_key(
                name@,
            ) && old(self).vars().as_map().index(name@).read_only)),
            r is Ok ==> final(self).vars().as_map() == old(self).vars().as_map().insert(
                name@,
                VarView {
                    name: name@,
                    value: value@,
                    read_only: is_read_only,
                    internal: is_internal,
                    inherit: false,
                },
            ),
            r is Err ==> final(self).vars().as_map() == old(self).vars().as_map(),
            r matches Err(e) ==> ((e matches Error::InvalidName { .. }) || (e
                matches Error::ReadOnlyViolation { .. })),
    {
        let r = self.variables.set(name, value, is_read_only, is_internal, false);
        proof {
            if r is Ok {
                let m0 = old(self).vars().as_map();
                let m1 = self.vars().as_map();
                if name@ != "TIMESTAMP"@ {
                    assert(m1["TIMESTAMP"@] == m0["TIMESTAMP"@]);
                }
                if name@ != "VERSION"@ {
                    assert(m1["VERSION"@] == m0["VERSION"@]);
                }
                if name@ != "MY_BINARY"@ {
                    assert(m1["MY_BINARY"@] == m0["MY_BINARY"@]);
                }
                if name@ != "WORK_DIR"@ {
                    assert(m1["WORK_DIR"@] == m0["WORK_DIR"@]);
                }
                if name@ != "ROOT_DIR"@ {
                    assert(m1["ROOT_DIR"@] == m0["ROOT_DIR"@]);
                }
                if name@ != "ARTIFACTS_DIR"@ {
                    assert(m1["ARTIFACTS_DIR"@] == m0["ARTIFACTS_DIR"@]);
                }
                if name@ != "BUSYBOX_BINARY"@ {
                    assert(m1["BUSYBOX_BINARY"@] == m0["BUSYBOX_BINARY"@]);
                }
                assert(build_context_seeds(m1));
                assert forall|k: Seq<char>|
                    #[trigger] m1.contains_key(k) && m1[k].inherit implies build_seed_name(k) by {
                    if k != name@ {
                        assert(m0.contains_key(k) && m0[k] == m1[k]);
                    }
                }
            }
        }
        r
    }

    /// The raw write; values here are plain strings, so it coincides with
    /// [`Self::set`].
    pub fn set_raw(&mut self, name: &str, value: &str, is_read_only: bool, is_internal: bool) -> (r:
        Result<(), Error>)
        requires
            old(self).wf(),
        ensures
            final(self).wf(),
            final(self).printer == old(self).printer,
            final(self).commands == old(self).commands,
            final(self).deps_view() == old(self).deps_view(),
            final(self).bootstrap_environment == old(self).bootstrap_environment,
            final(self).scratch_dir == old(self).scratch_dir,
            final(self).networked_phases == old(self).networked_phases,
            final(self).debug_options == old(self).debug_options,
            r is Err <==> (!valid_context_name(name@) || (old(self).vars().as_map().contains_key(
                name@,
            ) && old(self).vars().as_map().index(name@).read_only)),
            r is Ok ==> final(self).vars().as_map() == old(self).vars().as_map().insert(
                name@,
                VarView {
                    name: name@,
                    value: value@,
                    read_only: is_read_only,
                    internal: is_internal,
                    inherit: false,
                },
            ),
            r is Err ==> final(self).vars().as_map() == old(self).vars().as_map(),
    {
        self.set(name, value, is_read_only, is_internal)
    }

    /// All entries, in their stable byte-lexicographic name order.
    pub fn iter(&self) -> (r: Vec<ContextEntry>)
        requires
            self.wf(),
        ensures
            r@.len() == self.vars().seq_view().len(),
            forall|i: int|
                0 <= i < r@.len() ==> {
                    let e = #[trigger] r@[i];
                    let v = self.vars().seq_view()[i];
                    e.name@ == v.name && e.value@ == v.value && e.is_read_only == v.read_only
                        && e.is_internal == v.internal
                },
    {
        self.variables.iter()
    }

    pub fn command_manager(&self) -> (r: &CommandManager)
        ensures
            r == &self.commands,
    {
        &self.commands
    }

    /// Whether the phase runs with networking enabled.
    pub fn wants_network(&self, phase: &Phases) -> (r: bool)
        ensures
            r == self.networked_phases@.contains(*phase),
    {
        let mut i: usize = 0;
        while i < self.networked_phases.len()
            invariant
                i <= self.networked_phases@.len(),
                forall|j: int| 0 <= j < i ==> self.networked_phases@[j] != *phase,
            decreases self.networked_phases@.len() - i,
        {
            if self.networked_phases[i] == *phase {
                return true;
            }
            i += 1;
        }
        false
    }

    /// Whether the given debug option was requested.
    pub fn check_debug_option(&self, debug_option: &DebugOptions) -> (r: bool)
        ensures
            r == self.debug_options@.contains(*debug_option),
    {
        let mut i: usize = 0;
        while i < self.debug_options.len()
            invariant
                i <= self.debug_options@.len(),
                forall|j: int| 0 <= j < i ==> self.debug_options@[j] != *debug_option,
            decreases self.debug_options@.len() - i,
        {
            if self.debug_options[i] == *debug_option {
                return true;
            }
            i += 1;
        }
        false
    }
}

} // verus!
