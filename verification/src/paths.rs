//! Plain-string path arithmetic: `PATH`-style lists, `~` and relative
//! directory resolution, and command-path placeholder expansion.
//!
//! Paths live here as plain strings; whether they exist on disk is the
//! caller's business.

use vstd::prelude::*;
use crate::errors::Error;
use crate::strutil::{find_char_spec, split_spec, split_str, starts_with_spec, starts_with_str, str_eq};

verus! {

/// Walks a `PATH`-like list: the pieces between `:` separators, empty
/// pieces included.
pub struct PathIterator {
    pieces: Vec<String>,
    idx: usize,
}

impl PathIterator {
    pub closed spec fn pieces_view(&self) -> Seq<Seq<char>> {
        self.pieces@.map_values(|p: String| p@)
    }

    pub closed spec fn pos(&self) -> int {
        self.idx as int
    }

    pub fn new(path: &str) -> (r: PathIterator)
        ensures
            r.pieces_view() == split_spec(path@, ':'),
            r.pos() == 0,
    {
        PathIterator { pieces: split_str(path, ':'), idx: 0 }
    }

    /// The next piece, or nothing once the list is exhausted.
    pub fn next(&mut self) -> (r: Option<String>)
        ensures
            final(self).pieces_view() == old(self).pieces_view(),
            old(self).pos() < old(self).pieces_view().len() ==> {
                &&& r matches Some(p) && p@ == old(self).pieces_view()[old(self).pos()]
                &&& final(self).pos() == old(self).pos() + 1
            },
            old(self).pos() >= old(self).pieces_view().len() ==> (r is None && final(self).pos()
                == old(self).pos()),
    {
        if self.idx < self.pieces.len() {
            let piece = self.pieces[self.idx].clone();
            self.idx = self.idx + 1;
            Some(piece)
        } else {
            None
        }
    }
}

/// Whether the piece at this position survives as a path component: empty
/// pieces vanish, and `.` vanishes everywhere but in front.
pub open spec fn piece_kept(pieces: Seq<Seq<char>>, i: int) -> bool {
    pieces[i].len() > 0 && (pieces[i] != "."@ || i == 0)
}

pub open spec fn kept_pieces(pieces: Seq<Seq<char>>, n: int) -> Seq<Seq<char>>
    decreases n,
{
    if n <= 0 {
        Seq::empty()
    } else {
        kept_pieces(pieces, n - 1) + (if piece_kept(pieces, n - 1) {
            seq![pieces[n - 1]]
        } else {
            Seq::<Seq<char>>::empty()
        })
    }
}

/// The components of a relative path, as `Path::iter` would hand them out.
pub open spec fn segments_spec(p: Seq<char>) -> Seq<Seq<char>> {
    kept_pieces(split_spec(p, '/'), split_spec(p, '/').len() as int)
}

/// Splits a relative path into its components.
pub fn path_segments(p: &str) -> (r: Vec<String>)
    ensures
        r@.map_values(|s: String| s@) == segments_spec(p@),
{
    proof {
        reveal_strlit(".");
    }
    let pieces = split_str(p, '/');
    let ghost pvs = pieces@.map_values(|x: String| x@);
    let mut r: Vec<String> = Vec::new();
    let mut i: usize = 0;
    while i < pieces.len()
        invariant
            pvs == pieces@.map_values(|x: String| x@),
            pvs == split_spec(p@, '/'),
            pvs.len() == pieces@.len(),
            i <= pieces@.len(),
            r@.map_values(|s: String| s@) == kept_pieces(pvs, i as int),
        decreases pieces@.len() - i,
    {
        let piece = &pieces[i];
        let keep = piece.unicode_len() > 0 && (i == 0 || !str_eq(piece.as_str(), "."));
        proof {
            assert(keep == piece_kept(pvs, i as int));
        }
        if keep {
            let ghost premap = r@.map_values(|s: String| s@);
            r.push(piece.clone());
            proof {
                assert(r@.map_values(|s: String| s@) =~= premap.push(pvs[i as int]));
                assert(premap.push(pvs[i as int]) =~= kept_pieces(pvs, i as int + 1));
            }
        } else {
            proof {
                assert(r@.map_values(|s: String| s@) =~= kept_pieces(pvs, i as int + 1));
            }
        }
        i += 1;
    }
    r
}

/// A base directory extended by a path's components after the first
/// `skip` of them, each behind a `/`.
pub open spec fn extend_spec(base: Seq<char>, segs: Seq<Seq<char>>) -> Seq<char>
    decreases segs.len(),
{
    if segs.len() == 0 {
        base
    } else {
        extend_spec(base, segs.drop_last()) + "/"@ + segs.last()
    }
}

pub fn extend_dir(dir: &str, base_dir: &str, skip: usize) -> (r: String)
    ensures
        r@ == extend_spec(
            base_dir@,
            segments_spec(dir@).skip(if skip <= segments_spec(dir@).len() {
                skip as int
            } else {
                segments_spec(dir@).len() as int
            }),
        ),
{
    let segs = path_segments(dir);
    let ghost svs = segs@.map_values(|s: String| s@);
    let from = if skip < segs.len() {
        skip
    } else {
        segs.len()
    };
    let ghost tail = svs.skip(from as int);
    let mut r = base_dir.to_owned();
    let mut i: usize = from;
    while i < segs.len()
        invariant
            svs == segs@.map_values(|s: String| s@),
            svs.len() == segs@.len(),
            tail == svs.skip(from as int),
            from <= i <= segs@.len(),
            r@ == extend_spec(base_dir@, svs.skip(from as int).take(i - from)),
        decreases segs@.len() - i,
    {
        r.push('/');
        r.append(segs[i].as_str());
        proof {
            reveal_strlit("/");
            assert("/"@ =~= seq!['/']);
            let cur = tail.take(i - from + 1);
            assert(cur.drop_last() =~= tail.take(i - from));
            assert(cur.last() == svs[i as int]);
            assert(r@ =~= extend_spec(base_dir@, cur));
        }
        i += 1;
    }
    proof {
        assert(tail.take(svs.len() - from) =~= tail);
        if skip > segs@.len() {
            assert(svs.skip(svs.len() as int) =~= tail.take(0));
        }
    }
    r
}

proof fn lemma_kept_nonempty(pieces: Seq<Seq<char>>, n: int)
    requires
        n >= 1,
        pieces.len() >= 1,
        piece_kept(pieces, 0),
    ensures
        kept_pieces(pieces, n).len() >= 1,
    decreases n,
{
    if n > 1 {
        lemma_kept_nonempty(pieces, n - 1);
    }
}

/// A path that does not open with the separator has at least one component.
proof fn lemma_segments_nonempty(p: Seq<char>)
    requires
        p.len() > 0,
        p[0] != '/',
    ensures
        segments_spec(p).len() >= 1,
{
    let pieces = split_spec(p, '/');
    crate::strutil::lemma_find_char_range(p, '/');
    match find_char_spec(p, '/') {
        None => {
            assert(pieces[0] == p);
        },
        Some(i) => {
            assert(p[i] == '/');
            assert(i >= 1);
            assert(pieces[0] == p.subrange(0, i));
        },
    }
    assert(pieces.len() >= 1);
    assert(piece_kept(pieces, 0));
    lemma_kept_nonempty(pieces, pieces.len() as int);
}

pub open spec fn last_slash(p: Seq<char>) -> Option<int>
    decreases p.len(),
{
    if p.len() == 0 {
        None
    } else if p.last() == '/' {
        Some(p.len() - 1)
    } else {
        last_slash(p.drop_last())
    }
}

/// The directory a path sits in: everything before its last separator,
/// the bare root for a top-level entry, nothing for a plain name.
pub open spec fn parent_spec(p: Seq<char>) -> Option<Seq<char>> {
    match last_slash(p) {
        None => None,
        Some(i) => if i == 0 {
            Some("/"@)
        } else {
            Some(p.subrange(0, i))
        },
    }
}

proof fn lemma_last_slash_at(p: Seq<char>, i: int)
    requires
        0 <= i <= p.len(),
        forall|k: int| i <= k < p.len() ==> p[k] != '/',
        i > 0 ==> p[i - 1] == '/',
    ensures
        i > 0 ==> last_slash(p) == Some(i - 1),
        i == 0 ==> last_slash(p) is None,
    decreases p.len(),
{
    if p.len() > 0 && p.last() != '/' {
        lemma_last_slash_at(p.drop_last(), i);
    }
}

/// The parent directory of a path string.
pub fn parent_dir(p: &str) -> (r: Option<String>)
    ensures
        match r {
            Some(d) => parent_spec(p@) == Some(d@),
            None => parent_spec(p@) is None,
        },
{
    let n = p.unicode_len();
    let mut j: usize = n;
    while j > 0
        invariant
            n == p@.len(),
            j <= n,
            forall|k: int| j <= k < n ==> p@[k] != '/',
        decreases j,
    {
        if p.get_char(j - 1) == '/' {
            proof {
                lemma_last_slash_at(p@, j as int);
            }
            if j == 1 {
                proof {
                    reveal_strlit("/");
                }
                return Some("/".to_owned());
            }
            return Some(p.substring_char(0, j - 1).to_owned());
        }
        j -= 1;
    }
    proof {
        lemma_last_slash_at(p@, 0);
    }
    None
}

/// Rebases a path onto `base` when its first component is the given
/// placeholder.
pub open spec fn compute_path_spec(
    base: Seq<char>,
    input: Seq<char>,
    prefix: Seq<char>,
) -> Option<Seq<char>> {
    let segs = segments_spec(input);
    if segs.len() >= 1 && segs[0] == prefix {
        Some(extend_spec(base, segs.skip(1)))
    } else {
        None
    }
}

fn compute_path(base: &str, input: &str, prefix: &str) -> (r: Option<String>)
    ensures
        match r {
            Some(p) => compute_path_spec(base@, input@, prefix@) == Some(p@),
            None => compute_path_spec(base@, input@, prefix@) is None,
        },
{
    let segs = path_segments(input);
    if segs.len() >= 1 && str_eq(segs[0].as_str(), prefix) {
        Some(extend_dir(input, base, 1))
    } else {
        None
    }
}

/// Where one command-path entry points: `{EXE_DIR}` rebases onto the
/// executable's directory, `{SYSTEMS_DIR}` onto the systems directory,
/// `.` onto the current directory; an absolute path stands as written.
pub open spec fn command_path_entry_spec(
    input: Seq<char>,
    exe_dir: Seq<char>,
    systems_dir: Seq<char>,
    current_dir: Seq<char>,
) -> Option<Seq<char>> {
    if compute_path_spec(exe_dir, input, "{EXE_DIR}"@) is Some {
        compute_path_spec(exe_dir, input, "{EXE_DIR}"@)
    } else if compute_path_spec(systems_dir, input, "{SYSTEMS_DIR}"@) is Some {
        compute_path_spec(systems_dir, input, "{SYSTEMS_DIR}"@)
    } else if compute_path_spec(current_dir, input, "."@) is Some {
        compute_path_spec(current_dir, input, "."@)
    } else if input.len() > 0 && input[0] == '/' {
        Some(input)
    } else {
        None
    }
}

pub open spec fn command_path_all_spec(
    inputs: Seq<Seq<char>>,
    exe_dir: Seq<char>,
    systems_dir: Seq<char>,
    current_dir: Seq<char>,
) -> Option<Seq<Seq<char>>>
    decreases inputs.len(),
{
    if inputs.len() == 0 {
        Some(Seq::empty())
    } else {
        match (
            command_path_all_spec(inputs.drop_last(), exe_dir, systems_dir, current_dir),
            command_path_entry_spec(inputs.last(), exe_dir, systems_dir, current_dir),
        ) {
            (Some(s), Some(p)) => Some(s.push(p)),
            _ => None,
        }
    }
}

proof fn lemma_command_path_all_failure(
    inputs: Seq<Seq<char>>,
    exe_dir: Seq<char>,
    systems_dir: Seq<char>,
    current_dir: Seq<char>,
    i: int,
)
    requires
        0 <= i < inputs.len(),
        command_path_entry_spec(inputs[i], exe_dir, systems_dir, current_dir) is None,
    ensures
        command_path_all_spec(inputs, exe_dir, systems_dir, current_dir) is None,
    decreases inputs.len(),
{
    if inputs.len() > 0 && i < inputs.len() - 1 {
        lemma_command_path_all_failure(inputs.drop_last(), exe_dir, systems_dir, current_dir, i);
    }
}

/// Expands a command lookup path: each entry rebased from its placeholder,
/// absolute entries kept, anything else refused.
pub fn generate_full_command_path(
    command_path: &Vec<String>,
    current_executable: &str,
    systems_directory: &str,
    current_directory: &str,
) -> (r: Result<Vec<String>, Error>)
    ensures
        parent_spec(current_executable@) is None ==> r is Err,
        r matches Ok(ps) ==> {
            let exe_dir = parent_spec(current_executable@)->Some_0;
            &&& parent_spec(current_executable@) is Some
            &&& Some(ps@.map_values(|x: String| x@)) == command_path_all_spec(
                command_path@.map_values(|x: String| x@),
                exe_dir,
                systems_directory@,
                current_directory@,
            )
        },
        parent_spec(current_executable@) matches Some(exe_dir) ==> (r is Err
            <==> command_path_all_spec(
            command_path@.map_values(|x: String| x@),
            exe_dir,
            systems_directory@,
            current_directory@,
        ) is None),
        r matches Err(e) ==> e matches Error::InvalidDirectory { .. },
{
    let exe_dir = match parent_dir(current_executable) {
        Some(d) => d,
        None => {
            return Err(
                Error::InvalidDirectory {
                    reason: "The current executable has no parent".to_owned(),
                    directory: current_executable.to_owned(),
                },
            );
        },
    };
    let ghost inputs = command_path@.map_values(|x: String| x@);
    let mut out: Vec<String> = Vec::new();
    let mut i: usize = 0;
    while i < command_path.len()
        invariant
            inputs == command_path@.map_values(|x: String| x@),
            inputs.len() == command_path@.len(),
            i <= command_path@.len(),
            parent_spec(current_executable@) == Some(exe_dir@),
            command_path_all_spec(
                inputs.subrange(0, i as int),
                exe_dir@,
                systems_directory@,
                current_directory@,
            ) == Some(out@.map_values(|x: String| x@)),
        decreases command_path@.len() - i,
    {
        let entry = command_path[i].as_str();
        let resolved = match compute_path(exe_dir.as_str(), entry, "{EXE_DIR}") {
            Some(p) => p,
            None => match compute_path(systems_directory, entry, "{SYSTEMS_DIR}") {
                Some(p) => p,
                None => match compute_path(current_directory, entry, ".") {
                    Some(p) => p,
                    None => {
                        let n = entry.unicode_len();
                        if n > 0 && entry.get_char(0) == '/' {
                            entry.to_owned()
                        } else {
                            proof {
                                lemma_command_path_all_failure(
                                    inputs,
                                    exe_dir@,
                                    systems_directory@,
                                    current_directory@,
                                    i as int,
                                );
                            }
                            return Err(
                                Error::InvalidDirectory {
                                    reason: "Failed to interpret command path".to_owned(),
                                    directory: entry.to_owned(),
                                },
                            );
                        }
                    },
                },
            },
        };
        let ghost premap = out@.map_values(|x: String| x@);
        out.push(resolved);
        proof {
            assert(inputs.subrange(0, i as int + 1).drop_last() =~= inputs.subrange(0, i as int));
            assert(inputs.subrange(0, i as int + 1).last() == inputs[i as int]);
            assert(out@.map_values(|x: String| x@) =~= premap.push(
                command_path_entry_spec(
                    inputs[i as int],
                    exe_dir@,
                    systems_directory@,
                    current_directory@,
                )->Some_0,
            ));
        }
        i += 1;
    }
    proof {
        assert(inputs.subrange(0, inputs.len() as int) =~= inputs);
    }
    Ok(out)
}

/// What directory a user-written path denotes: `~` forms resolve against
/// the home directory, absolute paths stand, `./` and `../` forms resolve
/// against the current directory when one is known; anything else is
/// refused.
pub open spec fn resolve_directory_spec(
    dir: Seq<char>,
    home: Seq<char>,
    current: Option<Seq<char>>,
) -> Option<Seq<char>> {
    if dir == "~"@ {
        Some(home)
    } else if starts_with_spec(dir, "~/"@) {
        Some(extend_spec(home, segments_spec(dir).skip(1)))
    } else if dir.len() > 0 && dir[0] == '/' {
        Some(dir)
    } else if current is Some && starts_with_spec(dir, "./"@) {
        Some(extend_spec(current->Some_0, segments_spec(dir).skip(1)))
    } else if current is Some && starts_with_spec(dir, "../"@) {
        Some(extend_spec(current->Some_0, segments_spec(dir)))
    } else {
        None
    }
}

pub fn resolve_directory_impl(dir: &str, home_dir: &str, current_dir: Option<&str>) -> (r: Result<
    String,
    Error,
>)
    ensures
        r matches Ok(p) ==> resolve_directory_spec(
            dir@,
            home_dir@,
            match current_dir {
                Some(c) => Some(c@),
                None => None,
            },
        ) == Some(p@),
        r is Err <==> resolve_directory_spec(
            dir@,
            home_dir@,
            match current_dir {
                Some(c) => Some(c@),
                None => None,
            },
        ) is None,
        r matches Err(e) ==> e matches Error::InvalidDirectory { .. },
{
    proof {
        reveal_strlit("~");
        reveal_strlit("~/");
        reveal_strlit("./");
        reveal_strlit("../");
    }
    if str_eq(dir, "~") {
        return Ok(home_dir.to_owned());
    }
    if starts_with_str(dir, "~/") {
        proof {
            reveal_strlit("~/");
            assert("~/"@.len() == 2);
            assert(dir@.subrange(0, 2) == "~/"@);
            assert(dir@[0] == dir@.subrange(0, 2)[0]);
            assert(dir@[0] == '~');
            lemma_segments_nonempty(dir@);
        }
        return Ok(extend_dir(dir, home_dir, 1));
    }
    let n = dir.unicode_len();
    if n > 0 && dir.get_char(0) == '/' {
        return Ok(dir.to_owned());
    }
    match current_dir {
        Some(current) => {
            if starts_with_str(dir, "./") {
                proof {
                    reveal_strlit("./");
                    assert("./"@.len() == 2);
                    assert(dir@.subrange(0, 2) == "./"@);
                    assert(dir@[0] == dir@.subrange(0, 2)[0]);
                    assert(dir@[0] == '.');
                    lemma_segments_nonempty(dir@);
                }
                Ok(extend_dir(dir, current, 1))
            } else if starts_with_str(dir, "../") {
                proof {
                    assert(segments_spec(dir@).skip(0) =~= segments_spec(dir@));
                }
                Ok(extend_dir(dir, current, 0))
            } else {
                Err(
                    Error::InvalidDirectory {
                        reason: "Could not resolve".to_owned(),
                        directory: dir.to_owned(),
                    },
                )
            }
        },
        None => Err(
            Error::InvalidDirectory {
                reason: "Could not resolve".to_owned(),
                directory: dir.to_owned(),
            },
        ),
    }
}

} // verus!
