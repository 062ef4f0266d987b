//! Mount bindings for the container runtime, and the bootstrap environment.
//!
//! A binding can be written down as `kind:arg:…` and parsed back; parsing
//! the canonical form of a well-formed binding yields the binding again.

use vstd::prelude::*;
use crate::errors::Error;
use crate::strutil::{split_spec, join_spec, split_str, join_strings, str_eq, lemma_split_join};

verus! {

/// A mapping of an outside filesystem location to an in-container path.
#[derive(Clone, Debug, PartialEq, Eq)]
pub struct BindMap {
    pub source: String,
    pub target: String,
}

/// A mapping for an overlay filesystem into the container.
#[derive(Clone, Debug, PartialEq, Eq)]
pub struct OverlayMap {
    pub sources: Vec<String>,
    pub target: String,
}

/// A mount-point definition.
#[derive(Clone, Debug, PartialEq, Eq)]
pub enum Binding {
    /// A read/write binding.
    RW(BindMap),
    /// A read-only binding.
    RO(BindMap),
    /// A tmpfs at the given path inside the container.
    TmpFS(String),
    /// A path made inaccessible inside the container.
    Inaccessible(String),
    /// A writable overlay of the sources onto the target.
    Overlay(OverlayMap),
    /// A read-only overlay of the sources onto the target.
    OverlayRO(OverlayMap),
}

/// The ghost image of a binding.
pub ghost enum BindingView {
    RW { source: Seq<char>, target: Seq<char> },
    RO { source: Seq<char>, target: Seq<char> },
    TmpFS { target: Seq<char> },
    Inaccessible { target: Seq<char> },
    Overlay { sources: Seq<Seq<char>>, target: Seq<char> },
    OverlayRO { sources: Seq<Seq<char>>, target: Seq<char> },
}

impl View for Binding {
    type V = BindingView;

    open spec fn view(&self) -> BindingView {
        match self {
            Binding::RW(m) => BindingView::RW { source: m.source@, target: m.target@ },
            Binding::RO(m) => BindingView::RO { source: m.source@, target: m.target@ },
            Binding::TmpFS(t) => BindingView::TmpFS { target: t@ },
            Binding::Inaccessible(t) => BindingView::Inaccessible { target: t@ },
            Binding::Overlay(m) => BindingView::Overlay {
                sources: m.sources@.map_values(|s: String| s@),
                target: m.target@,
            },
            Binding::OverlayRO(m) => BindingView::OverlayRO {
                sources: m.sources@.map_values(|s: String| s@),
                target: m.target@,
            },
        }
    }
}

impl Binding {
    /// A new read/write binding.
    pub fn rw(source: &str, target: &str) -> (r: Binding)
        ensures
            r@ == (BindingView::RW { source: source@, target: target@ }),
    {
        Binding::RW(BindMap { source: source.to_owned(), target: target.to_owned() })
    }

    /// A new read-only binding.
    pub fn ro(source: &str, target: &str) -> (r: Binding)
        ensures
            r@ == (BindingView::RO { source: source@, target: target@ }),
    {
        Binding::RO(BindMap { source: source.to_owned(), target: target.to_owned() })
    }

    /// A new tmpfs binding.
    pub fn tmpfs(target: &str) -> (r: Binding)
        ensures
            r@ == (BindingView::TmpFS { target: target@ }),
    {
        Binding::TmpFS(target.to_owned())
    }

    /// A new inaccessible-path binding.
    pub fn inaccessible(target: &str) -> (r: Binding)
        ensures
            r@ == (BindingView::Inaccessible { target: target@ }),
    {
        Binding::Inaccessible(target.to_owned())
    }

    /// A new writable overlay binding.
    pub fn overlay(sources: &Vec<String>, target: &str) -> (r: Binding)
        ensures
            r@ == (BindingView::Overlay {
                sources: sources@.map_values(|s: String| s@),
                target: target@,
            }),
    {
        let r = Binding::Overlay(OverlayMap { sources: sources.clone(), target: target.to_owned() });
        proof {
            let m_sources = match r {
                Binding::Overlay(ref m) => m.sources@,
                _ => Seq::empty(),
            };
            assert(m_sources.map_values(|s: String| s@) =~= sources@.map_values(|s: String| s@));
        }
        r
    }

    /// A new read-only overlay binding.
    pub fn overlay_ro(sources: &Vec<String>, target: &str) -> (r: Binding)
        ensures
            r@ == (BindingView::OverlayRO {
                sources: sources@.map_values(|s: String| s@),
                target: target@,
            }),
    {
        let r = Binding::OverlayRO(
            OverlayMap { sources: sources.clone(), target: target.to_owned() },
        );
        proof {
            let m_sources = match r {
                Binding::OverlayRO(ref m) => m.sources@,
                _ => Seq::empty(),
            };
            assert(m_sources.map_values(|s: String| s@) =~= sources@.map_values(|s: String| s@));
        }
        r
    }
}

/// What the string form `kind:arg:…` denotes, or nothing when malformed:
/// `rw` and `ro` take exactly two arguments, `tmpfs` and `inaccessible`
/// exactly one, the overlays at least two.
pub open spec fn parse_binding_spec(s: Seq<char>) -> Option<BindingView> {
    let parts = split_spec(s, ':');
    if parts.len() == 0 {
        None
    } else if parts[0] == "rw"@ {
        if parts.len() == 3 {
            Some(BindingView::RW { source: parts[1], target: parts[2] })
        } else {
            None
        }
    } else if parts[0] == "ro"@ {
        if parts.len() == 3 {
            Some(BindingView::RO { source: parts[1], target: parts[2] })
        } else {
            None
        }
    } else if parts[0] == "tmpfs"@ {
        if parts.len() == 2 {
            Some(BindingView::TmpFS { target: parts[1] })
        } else {
            None
        }
    } else if parts[0] == "inaccessible"@ {
        if parts.len() == 2 {
            Some(BindingView::Inaccessible { target: parts[1] })
        } else {
            None
        }
    } else if parts[0] == "overlay"@ {
        if parts.len() >= 3 {
            Some(BindingView::Overlay {
                sources: parts.subrange(1, parts.len() - 1),
                target: parts.last(),
            })
        } else {
            None
        }
    } else if parts[0] == "overlay_ro"@ {
        if parts.len() >= 3 {
            Some(BindingView::OverlayRO {
                sources: parts.subrange(1, parts.len() - 1),
                target: parts.last(),
            })
        } else {
            None
        }
    } else {
        None
    }
}

impl Binding {
    /// Parses the `kind:arg:…` form; strict on arity.
    pub fn parse(value: &str) -> (r: Result<Binding, Error>)
        ensures
            r matches Ok(b) ==> parse_binding_spec(value@) == Some(b@),
            r is Err <==> parse_binding_spec(value@) is None,
            r matches Err(e) ==> e matches Error::InvalidBindingSpec { .. },
    {
        let parts = split_str(value, ':');
        let ghost pv = parts@.map_values(|p: String| p@);
        proof {
            assert(pv == split_spec(value@, ':'));
        }
        if parts.len() == 0 {
            return Err(Error::InvalidBindingSpec { spec: value.to_owned() });
        }
        let kind = parts[0].as_str();
        if str_eq(kind, "rw") {
            if parts.len() == 3 {
                Ok(Binding::rw(parts[1].as_str(), parts[2].as_str()))
            } else {
                Err(Error::InvalidBindingSpec { spec: value.to_owned() })
            }
        } else if str_eq(kind, "ro") {
            if parts.len() == 3 {
                Ok(Binding::ro(parts[1].as_str(), parts[2].as_str()))
            } else {
                Err(Error::InvalidBindingSpec { spec: value.to_owned() })
            }
        } else if str_eq(kind, "tmpfs") {
            if parts.len() == 2 {
                Ok(Binding::tmpfs(parts[1].as_str()))
            } else {
                Err(Error::InvalidBindingSpec { spec: value.to_owned() })
            }
        } else if str_eq(kind, "inaccessible") {
            if parts.len() == 2 {
                Ok(Binding::inaccessible(parts[1].as_str()))
            } else {
                Err(Error::InvalidBindingSpec { spec: value.to_owned() })
            }
        } else if str_eq(kind, "overlay") {
            if parts.len() >= 3 {
                let sources = middle_parts(&parts);
                let b = Binding::overlay(&sources, parts[parts.len() - 1].as_str());
                proof {
                    assert(sources@.map_values(|s: String| s@) =~= pv.subrange(
                        1,
                        pv.len() - 1,
                    ));
                }
                Ok(b)
            } else {
                Err(Error::InvalidBindingSpec { spec: value.to_owned() })
            }
        } else if str_eq(kind, "overlay_ro") {
            if parts.len() >= 3 {
                let sources = middle_parts(&parts);
                let b = Binding::overlay_ro(&sources, parts[parts.len() - 1].as_str());
                proof {
                    assert(sources@.map_values(|s: String| s@) =~= pv.subrange(
                        1,
                        pv.len() - 1,
                    ));
                }
                Ok(b)
            } else {
                Err(Error::InvalidBindingSpec { spec: value.to_owned() })
            }
        } else {
            Err(Error::InvalidBindingSpec { spec: value.to_owned() })
        }
    }

    /// The parts whose joining with `:` is the binding's canonical form.
    pub open spec fn canonical_parts(v: BindingView) -> Seq<Seq<char>> {
        match v {
            BindingView::RW { source, target } => seq!["rw"@, source, target],
            BindingView::RO { source, target } => seq!["ro"@, source, target],
            BindingView::TmpFS { target } => seq!["tmpfs"@, target],
            BindingView::Inaccessible { target } => seq!["inaccessible"@, target],
            BindingView::Overlay { sources, target } => seq!["overlay"@] + sources + seq![target],
            BindingView::OverlayRO { sources, target } => seq!["overlay_ro"@] + sources
                + seq![target],
        }
    }

    /// The canonical `kind:arg:…` form of the binding.
    pub fn canonical(&self) -> (r: String)
        ensures
            r@ == join_spec(Self::canonical_parts(self@), ':'),
    {
        let mut parts: Vec<String> = Vec::new();
        match self {
            Binding::RW(m) => {
                parts.push("rw".to_owned());
                parts.push(m.source.clone());
                parts.push(m.target.clone());
                proof {
                    assert(parts@.map_values(|p: String| p@) =~= Self::canonical_parts(self@));
                }
            },
            Binding::RO(m) => {
                parts.push("ro".to_owned());
                parts.push(m.source.clone());
                parts.push(m.target.clone());
                proof {
                    assert(parts@.map_values(|p: String| p@) =~= Self::canonical_parts(self@));
                }
            },
            Binding::TmpFS(t) => {
                parts.push("tmpfs".to_owned());
                parts.push(t.clone());
                proof {
                    assert(parts@.map_values(|p: String| p@) =~= Self::canonical_parts(self@));
                }
            },
            Binding::Inaccessible(t) => {
                parts.push("inaccessible".to_owned());
                parts.push(t.clone());
                proof {
                    assert(parts@.map_values(|p: String| p@) =~= Self::canonical_parts(self@));
                }
            },
            Binding::Overlay(m) => {
                parts.push("overlay".to_owned());
                let mut i: usize = 0;
                while i < m.sources.len()
                    invariant
                        i <= m.sources@.len(),
                        parts@.len() == i + 1,
                        parts@[0]@ == "overlay"@,
                        forall|j: int|
                            1 <= j < i + 1 ==> (#[trigger] parts@[j])@ == m.sources@[j - 1]@,
                    decreases m.sources@.len() - i,
                {
                    parts.push(m.sources[i].clone());
                    i += 1;
                }
                parts.push(m.target.clone());
                proof {
                    assert(parts@.map_values(|p: String| p@) =~= Self::canonical_parts(self@));
                }
            },
            Binding::OverlayRO(m) => {
                parts.push("overlay_ro".to_owned());
                let mut i: usize = 0;
                while i < m.sources.len()
                    invariant
                        i <= m.sources@.len(),
                        parts@.len() == i + 1,
                        parts@[0]@ == "overlay_ro"@,
                        forall|j: int|
                            1 <= j < i + 1 ==> (#[trigger] parts@[j])@ == m.sources@[j - 1]@,
                    decreases m.sources@.len() - i,
                {
                    parts.push(m.sources[i].clone());
                    i += 1;
                }
                parts.push(m.target.clone());
                proof {
                    assert(parts@.map_values(|p: String| p@) =~= Self::canonical_parts(self@));
                }
            },
        }
        join_strings(&parts, ':')
    }
}

/// All parts but the first and the last.
fn middle_parts(parts: &Vec<String>) -> (r: Vec<String>)
    requires
        parts@.len() >= 2,
    ensures
        r@.len() == parts@.len() - 2,
        forall|j: int| 0 <= j < r@.len() ==> (#[trigger] r@[j])@ == parts@[j + 1]@,
{
    let mut r: Vec<String> = Vec::new();
    let mut i: usize = 1;
    while i < parts.len() - 1
        invariant
            parts@.len() >= 2,
            1 <= i <= parts@.len() - 1,
            r@.len() == i - 1,
            forall|j: int| 0 <= j < r@.len() ==> (#[trigger] r@[j])@ == parts@[j + 1]@,
        decreases parts@.len() - 1 - i,
    {
        r.push(parts[i].clone());
        i += 1;
    }
    r
}

/// No component of the binding contains the separator, and an overlay has
/// at least one source: exactly the bindings whose canonical form parses.
pub open spec fn binding_roundtrippable(v: BindingView) -> bool {
    let parts = Binding::canonical_parts(v);
    &&& forall|i: int, j: int|
        0 <= i < parts.len() && 0 <= j < parts[i].len() ==> (#[trigger] parts[i][j]) != ':'
    &&& match v {
        BindingView::Overlay { sources, .. } => sources.len() >= 1,
        BindingView::OverlayRO { sources, .. } => sources.len() >= 1,
        _ => true,
    }
}

/// Parsing a binding's canonical form yields the binding back.
///
/// A binding with a `:` inside one of its paths has no such round trip:
/// its canonical form splits differently.
pub proof fn lemma_binding_round_trip(v: BindingView)
    requires
        binding_roundtrippable(v),
    ensures
        parse_binding_spec(join_spec(Binding::canonical_parts(v), ':')) == Some(v),
{
    let parts = Binding::canonical_parts(v);
    reveal_strlit("rw");
    reveal_strlit("ro");
    reveal_strlit("tmpfs");
    reveal_strlit("inaccessible");
    reveal_strlit("overlay");
    reveal_strlit("overlay_ro");
    lemma_split_join(parts, ':');
    match v {
        BindingView::RW { source, target } => {
            assert(parts[0] == "rw"@);
        },
        BindingView::RO { source, target } => {
            assert(parts[0] == "ro"@);
            assert("ro"@ != "rw"@) by {
                assert("ro"@[1] == 'o' && "rw"@[1] == 'w');
            }
        },
        BindingView::TmpFS { target } => {
            assert(parts[0] == "tmpfs"@);
            assert("tmpfs"@.len() == 5 && "rw"@.len() == 2 && "ro"@.len() == 2);
        },
        BindingView::Inaccessible { target } => {
            assert(parts[0] == "inaccessible"@);
            assert("inaccessible"@.len() == 12);
            assert("rw"@.len() == 2 && "ro"@.len() == 2 && "tmpfs"@.len() == 5);
        },
        BindingView::Overlay { sources, target } => {
            assert(parts[0] == "overlay"@);
            assert("overlay"@.len() == 7);
            assert("rw"@.len() == 2 && "ro"@.len() == 2 && "tmpfs"@.len() == 5
                && "inaccessible"@.len() == 12);
            assert(parts.len() == sources.len() + 2);
            assert(parts.subrange(1, parts.len() - 1) =~= sources);
            assert(parts.last() == target);
        },
        BindingView::OverlayRO { sources, target } => {
            assert(parts[0] == "overlay_ro"@);
            assert("overlay_ro"@.len() == 10);
            assert("rw"@.len() == 2 && "ro"@.len() == 2 && "tmpfs"@.len() == 5
                && "inaccessible"@.len() == 12 && "overlay"@.len() == 7);
            assert(parts.len() == sources.len() + 2);
            assert(parts.subrange(1, parts.len() - 1) =~= sources);
            assert(parts.last() == target);
        },
    }
}

/// The filesystem backing the bootstrap container.
#[derive(Debug, PartialEq, Eq)]
pub enum RunEnvironment {
    /// Run inside a filesystem image.
    Image(String),
    /// Run inside a directory.
    Directory(String),
}

impl Clone for RunEnvironment {
    fn clone(&self) -> (r: Self)
        ensures
            r == self,
    {
        match self {
            RunEnvironment::Image(p) => RunEnvironment::Image(p.clone()),
            RunEnvironment::Directory(p) => RunEnvironment::Directory(p.clone()),
        }
    }
}

impl RunEnvironment {
    /// Selects the environment: exactly one of a directory or an image must
    /// be given. Whether the path exists on disk is checked by the caller.
    pub fn new(directory: &Option<String>, image: &Option<String>) -> (r: Result<
        RunEnvironment,
        Error,
    >)
        ensures
            match (directory, image) {
                (Some(d), None) => r matches Ok(e) && (e matches RunEnvironment::Directory(p) && p@
                    == d@),
                (None, Some(i)) => r matches Ok(e) && (e matches RunEnvironment::Image(p) && p@
                    == i@),
                _ => r matches Err(e) && e matches Error::RunEnvironment { .. },
            },
    {
        match (directory, image) {
            (Some(d), None) => Ok(RunEnvironment::Directory(d.clone())),
            (None, Some(i)) => Ok(RunEnvironment::Image(i.clone())),
            _ => Err(
                Error::RunEnvironment {
                    message:
                        "Either a bootstrap directory or a bootstrap image is needed".to_owned(),
                },
            ),
        }
    }
}

} // verus!
