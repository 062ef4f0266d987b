//! Character-level string helpers shared by the whole library.
//!
//! All executable functions here carry exact contracts over the `Seq<char>`
//! views of their arguments; the spec functions beside them are the
//! vocabulary the rest of the library's contracts are written in.

use vstd::prelude::*;

verus! {

/// Relies on `String::push`: appends exactly one character at the end.
pub assume_specification[ String::push ](s: &mut String, ch: char)
    ensures
        final(s)@ == old(s)@ + seq![ch],
;

/// The whitespace characters the protocol trims around arguments.
pub open spec fn is_space_char(c: char) -> bool {
    c == ' ' || c == '\t' || c == '\r' || c == '\n'
}

pub open spec fn starts_with_spec(s: Seq<char>, p: Seq<char>) -> bool {
    p.len() <= s.len() && s.subrange(0, p.len() as int) == p
}

pub open spec fn find_char_spec(s: Seq<char>, c: char) -> Option<int>
    decreases s.len(),
{
    if s.len() == 0 {
        None
    } else if s[0] == c {
        Some(0)
    } else {
        match find_char_spec(s.drop_first(), c) {
            None => None,
            Some(i) => Some(i + 1),
        }
    }
}

/// Splitting on a separator keeps empty pieces: a string with `n`
/// separators yields `n + 1` pieces.
pub open spec fn split_spec(s: Seq<char>, c: char) -> Seq<Seq<char>>
    decreases s.len(),
{
    match find_char_spec(s, c) {
        None => seq![s],
        Some(i) => if 0 <= i < s.len() {
            seq![s.subrange(0, i)] + split_spec(s.subrange(i + 1, s.len() as int), c)
        } else {
            seq![s]
        },
    }
}

/// A found separator index is always in range and points at the separator.
pub proof fn lemma_find_char_range(s: Seq<char>, c: char)
    ensures
        find_char_spec(s, c) matches Some(i) ==> 0 <= i < s.len() && s[i] == c,
    decreases s.len(),
{
    if s.len() > 0 && s[0] != c {
        lemma_find_char_range(s.drop_first(), c);
    }
}

pub open spec fn join_spec(parts: Seq<Seq<char>>, c: char) -> Seq<char>
    decreases parts.len(),
{
    if parts.len() == 0 {
        Seq::empty()
    } else if parts.len() == 1 {
        parts[0]
    } else {
        parts[0] + seq![c] + join_spec(parts.drop_first(), c)
    }
}

pub open spec fn trim_start_spec(s: Seq<char>) -> Seq<char>
    decreases s.len(),
{
    if s.len() > 0 && is_space_char(s[0]) {
        trim_start_spec(s.drop_first())
    } else {
        s
    }
}

pub open spec fn trim_end_spec(s: Seq<char>) -> Seq<char>
    decreases s.len(),
{
    if s.len() > 0 && is_space_char(s.last()) {
        trim_end_spec(s.drop_last())
    } else {
        s
    }
}

pub open spec fn trim_spec(s: Seq<char>) -> Seq<char> {
    trim_end_spec(trim_start_spec(s))
}

/// Strips one pair of surrounding double quotes, if both are present.
pub open spec fn unquote_spec(s: Seq<char>) -> Seq<char> {
    if s.len() >= 2 && s[0] == '"' && s.last() == '"' {
        s.subrange(1, s.len() - 1)
    } else {
        s
    }
}

/// Strict lexicographic order on character sequences, by code point.
pub open spec fn lex_lt(a: Seq<char>, b: Seq<char>) -> bool
    decreases a.len(),
{
    if b.len() == 0 {
        false
    } else if a.len() == 0 {
        true
    } else if a[0] < b[0] {
        true
    } else if a[0] == b[0] {
        lex_lt(a.drop_first(), b.drop_first())
    } else {
        false
    }
}

/// Of `lex_lt(a, b)`, `a == b` and `lex_lt(b, a)`, exactly one holds.
pub proof fn lemma_lex_lt_trichotomy(a: Seq<char>, b: Seq<char>)
    ensures
        lex_lt(a, b) || a == b || lex_lt(b, a),
        lex_lt(a, b) ==> a != b && !lex_lt(b, a),
        a == b ==> !lex_lt(a, b) && !lex_lt(b, a),
    decreases a.len(),
{
    if a.len() == 0 && b.len() == 0 {
        assert(a =~= b);
    } else if a.len() > 0 && b.len() > 0 {
        lemma_lex_lt_trichotomy(a.drop_first(), b.drop_first());
        if a[0] == b[0] && a.drop_first() == b.drop_first() {
            assert forall|i: int| 0 <= i < a.len() implies a[i] == b[i] by {
                if i > 0 {
                    assert(a[i] == a.drop_first()[i - 1]);
                    assert(b[i] == b.drop_first()[i - 1]);
                }
            }
            assert(a =~= b);
        }
        if a == b {
            assert(a.drop_first() =~= b.drop_first());
        }
    }
}

pub proof fn lemma_lex_lt_transitive(a: Seq<char>, b: Seq<char>, c: Seq<char>)
    requires
        lex_lt(a, b),
        lex_lt(b, c),
    ensures
        lex_lt(a, c),
    decreases a.len(),
{
    if a.len() > 0 && b.len() > 0 && c.len() > 0 {
        if a[0] == b[0] && b[0] == c[0] {
            lemma_lex_lt_transitive(a.drop_first(), b.drop_first(), c.drop_first());
        }
    }
}

proof fn lemma_lex_lt_from_prefix(a: Seq<char>, b: Seq<char>, i: int)
    requires
        0 <= i <= a.len(),
        i <= b.len(),
        forall|j: int| 0 <= j < i ==> a[j] == b[j],
        (i < a.len() && i < b.len() && a[i] < b[i]) || (i == a.len() && i < b.len()),
    ensures
        lex_lt(a, b),
    decreases i,
{
    if i == 0 {
    } else {
        lemma_lex_lt_from_prefix(a.drop_first(), b.drop_first(), i - 1);
    }
}

/// Three-way lexicographic comparison: negative, zero or positive as `a` is
/// below, equal to or above `b`.
pub fn str_compare(a: &str, b: &str) -> (r: i32)
    ensures
        r < 0 <==> lex_lt(a@, b@),
        r == 0 <==> a@ == b@,
        r > 0 <==> lex_lt(b@, a@),
{
    proof {
        lemma_lex_lt_trichotomy(a@, b@);
    }
    let an = a.unicode_len();
    let bn = b.unicode_len();
    let min = if an < bn {
        an
    } else {
        bn
    };
    let mut i: usize = 0;
    while i < min
        invariant
            an == a@.len(),
            bn == b@.len(),
            min <= an,
            min <= bn,
            i <= min,
            forall|j: int| 0 <= j < i ==> a@[j] == b@[j],
        decreases min - i,
    {
        let ca = a.get_char(i);
        let cb = b.get_char(i);
        if ca < cb {
            proof {
                lemma_lex_lt_from_prefix(a@, b@, i as int);
                lemma_lex_lt_trichotomy(a@, b@);
            }
            return -1;
        }
        if cb < ca {
            proof {
                lemma_lex_lt_from_prefix(b@, a@, i as int);
                lemma_lex_lt_trichotomy(a@, b@);
            }
            return 1;
        }
        i += 1;
    }
    if an == bn {
        proof {
            assert(a@ =~= b@);
            lemma_lex_lt_trichotomy(a@, b@);
        }
        0
    } else if an < bn {
        proof {
            lemma_lex_lt_from_prefix(a@, b@, an as int);
            lemma_lex_lt_trichotomy(a@, b@);
        }
        -1
    } else {
        proof {
            lemma_lex_lt_from_prefix(b@, a@, bn as int);
            lemma_lex_lt_trichotomy(a@, b@);
        }
        1
    }
}

pub fn str_eq(a: &str, b: &str) -> (r: bool)
    ensures
        r == (a@ == b@),
{
    let an = a.unicode_len();
    let bn = b.unicode_len();
    if an != bn {
        assert(a@ != b@) by {
            assert(a@.len() != b@.len());
        }
        return false;
    }
    let mut i: usize = 0;
    while i < an
        invariant
            an == a@.len(),
            an == b@.len(),
            i <= an,
            forall|j: int| 0 <= j < i ==> a@[j] == b@[j],
        decreases an - i,
    {
        if a.get_char(i) != b.get_char(i) {
            return false;
        }
        i += 1;
    }
    proof {
        assert(a@ =~= b@);
    }
    true
}

pub fn starts_with_str(s: &str, p: &str) -> (r: bool)
    ensures
        r == starts_with_spec(s@, p@),
{
    let sn = s.unicode_len();
    let pn = p.unicode_len();
    if pn > sn {
        return false;
    }
    let mut i: usize = 0;
    while i < pn
        invariant
            sn == s@.len(),
            pn == p@.len(),
            pn <= sn,
            i <= pn,
            forall|j: int| 0 <= j < i ==> s@[j] == p@[j],
        decreases pn - i,
    {
        if s.get_char(i) != p.get_char(i) {
            assert(s@.subrange(0, p@.len() as int)[i as int] != p@[i as int]);
            return false;
        }
        i += 1;
    }
    proof {
        assert(s@.subrange(0, p@.len() as int) =~= p@);
    }
    true
}

proof fn lemma_find_char_prefix(s: Seq<char>, c: char, i: int)
    requires
        0 <= i <= s.len(),
        forall|j: int| 0 <= j < i ==> s[j] != c,
        i < s.len() ==> s[i] == c,
    ensures
        i < s.len() ==> find_char_spec(s, c) == Some(i),
        i == s.len() ==> find_char_spec(s, c) is None,
    decreases i,
{
    if s.len() == 0 {
    } else if s[0] == c {
    } else {
        if i == 0 {
            // s[0] == c contradicts the loop having passed index 0
        } else {
            lemma_find_char_prefix(s.drop_first(), c, i - 1);
        }
    }
}

pub fn find_char(s: &str, c: char) -> (r: Option<usize>)
    ensures
        match r {
            Some(i) => i < s@.len() && s@[i as int] == c && find_char_spec(s@, c) == Some(
                i as int,
            ),
            None => find_char_spec(s@, c) is None,
        },
{
    let n = s.unicode_len();
    let mut i: usize = 0;
    while i < n
        invariant
            n == s@.len(),
            i <= n,
            forall|j: int| 0 <= j < i ==> s@[j] != c,
        decreases n - i,
    {
        if s.get_char(i) == c {
            proof {
                lemma_find_char_prefix(s@, c, i as int);
            }
            return Some(i);
        }
        i += 1;
    }
    proof {
        lemma_find_char_prefix(s@, c, n as int);
    }
    None
}

pub fn trim_str<'a>(s: &'a str) -> (r: &'a str)
    ensures
        r@ == trim_spec(s@),
{
    let n = s.unicode_len();
    proof {
        assert(s@.subrange(0, n as int) =~= s@);
    }
    let mut lo: usize = 0;
    while lo < n && is_space(s.get_char(lo))
        invariant
            n == s@.len(),
            lo <= n,
            trim_start_spec(s@) == trim_start_spec(s@.subrange(lo as int, n as int)),
        decreases n - lo,
    {
        proof {
            let rest = s@.subrange(lo as int, n as int);
            assert(rest.drop_first() =~= s@.subrange(lo as int + 1, n as int));
        }
        lo += 1;
    }
    proof {
        assert(trim_start_spec(s@) == s@.subrange(lo as int, n as int));
    }
    let mut hi: usize = n;
    while hi > lo && is_space(s.get_char(hi - 1))
        invariant
            n == s@.len(),
            lo <= hi <= n,
            trim_start_spec(s@) == s@.subrange(lo as int, n as int),
            trim_end_spec(s@.subrange(lo as int, n as int)) == trim_end_spec(
                s@.subrange(lo as int, hi as int),
            ),
        decreases hi,
    {
        proof {
            let cur = s@.subrange(lo as int, hi as int);
            assert(cur.drop_last() =~= s@.subrange(lo as int, hi as int - 1));
        }
        hi -= 1;
    }
    proof {
        let cur = s@.subrange(lo as int, hi as int);
        if cur.len() > 0 {
            assert(!is_space_char(cur.last()));
        }
        assert(trim_end_spec(cur) == cur);
    }
    s.substring_char(lo, hi)
}

fn is_space(c: char) -> (r: bool)
    ensures
        r == is_space_char(c),
{
    c == ' ' || c == '\t' || c == '\r' || c == '\n'
}

pub fn unquote<'a>(s: &'a str) -> (r: &'a str)
    ensures
        r@ == unquote_spec(s@),
{
    let n = s.unicode_len();
    if n >= 2 && s.get_char(0) == '"' && s.get_char(n - 1) == '"' {
        s.substring_char(1, n - 1)
    } else {
        s
    }
}

pub fn split_str(s: &str, sep: char) -> (r: Vec<String>)
    ensures
        r@.map_values(|p: String| p@) == split_spec(s@, sep),
{
    let mut acc: Vec<String> = Vec::new();
    let mut rest: &str = s;
    loop
        invariant
            acc@.map_values(|p: String| p@) + split_spec(rest@, sep) == split_spec(s@, sep),
        decreases rest@.len(),
    {
        match find_char(rest, sep) {
            Some(i) => {
                let ghost old_acc = acc@;
                let piece = rest.substring_char(0, i).to_owned();
                acc.push(piece);
                let n = rest.unicode_len();
                rest = rest.substring_char(i + 1, n);
                proof {
                    assert(acc@.map_values(|p: String| p@) =~= old_acc.map_values(
                        |p: String| p@,
                    ) + seq![piece@]);
                    assert(acc@.map_values(|p: String| p@) + split_spec(rest@, sep) =~= split_spec(
                        s@,
                        sep,
                    ));
                }
            },
            None => {
                let ghost old_acc = acc@;
                let piece = rest.to_owned();
                acc.push(piece);
                proof {
                    assert(acc@.map_values(|p: String| p@) =~= old_acc.map_values(
                        |p: String| p@,
                    ) + seq![piece@]);
                    assert(acc@.map_values(|p: String| p@) =~= split_spec(s@, sep));
                }
                return acc;
            },
        }
    }
}

pub fn join_strings(parts: &Vec<String>, sep: char) -> (r: String)
    ensures
        r@ == join_spec(parts@.map_values(|p: String| p@), sep),
{
    let ghost views = parts@.map_values(|p: String| p@);
    let mut r = String::new();
    if parts.len() == 0 {
        return r;
    }
    r.append(parts[0].as_str());
    let mut i: usize = 1;
    while i < parts.len()
        invariant
            1 <= i <= parts.len(),
            views == parts@.map_values(|p: String| p@),
            views.len() == parts@.len(),
            r@ == join_spec(views.subrange(0, i as int), sep),
        decreases parts.len() - i,
    {
        proof {
            lemma_join_snoc(views.subrange(0, i as int), views[i as int], sep);
            assert(views.subrange(0, i as int).push(views[i as int]) =~= views.subrange(
                0,
                i as int + 1,
            ));
        }
        r.push(sep);
        r.append(parts[i].as_str());
        i += 1;
    }
    proof {
        assert(views.subrange(0, views.len() as int) =~= views);
    }
    r
}

proof fn lemma_join_snoc(parts: Seq<Seq<char>>, last: Seq<char>, c: char)
    requires
        parts.len() >= 1,
    ensures
        join_spec(parts.push(last), c) == join_spec(parts, c) + seq![c] + last,
    decreases parts.len(),
{
    if parts.len() == 1 {
        assert(parts.push(last)[0] == parts[0]);
        assert(parts.push(last).drop_first() =~= seq![last]);
        assert(join_spec(seq![last], c) == last);
    } else {
        assert(parts.push(last).drop_first() =~= parts.drop_first().push(last));
        lemma_join_snoc(parts.drop_first(), last, c);
    }
}

/// On a separator-free piece, a split yields the piece alone; this is the
/// kernel of the join/split round trip.
pub proof fn lemma_find_char_absent(s: Seq<char>, c: char)
    requires
        forall|j: int| 0 <= j < s.len() ==> s[j] != c,
    ensures
        find_char_spec(s, c) is None,
    decreases s.len(),
{
    if s.len() > 0 {
        lemma_find_char_absent(s.drop_first(), c);
    }
}

/// Splitting the join of non-empty piece lists recovers the pieces, as long
/// as no piece contains the separator.
pub proof fn lemma_split_join(parts: Seq<Seq<char>>, c: char)
    requires
        parts.len() >= 1,
        forall|i: int, j: int|
            0 <= i < parts.len() && 0 <= j < parts[i].len() ==> #[trigger] parts[i][j] != c,
    ensures
        split_spec(join_spec(parts, c), c) == parts,
    decreases parts.len(),
{
    if parts.len() == 1 {
        lemma_find_char_absent(parts[0], c);
        assert(split_spec(parts[0], c) =~= seq![parts[0]]);
    } else {
        let joined = join_spec(parts, c);
        let head = parts[0];
        let tail_join = join_spec(parts.drop_first(), c);
        assert(joined == head + seq![c] + tail_join);
        assert(joined =~= head + (seq![c] + tail_join));
        lemma_find_char_concat(head, seq![c] + tail_join, c);
        assert((seq![c] + tail_join)[0] == c);
        assert(find_char_spec(seq![c] + tail_join, c) == Some(0int)) by {
            assert((seq![c] + tail_join).len() > 0);
        }
        assert(find_char_spec(joined, c) == Some(head.len() as int));
        assert(joined.subrange(0, head.len() as int) =~= head);
        assert(joined.subrange(head.len() as int + 1, joined.len() as int) =~= tail_join);
        assert(forall|i: int, j: int|
            0 <= i < parts.drop_first().len() && 0 <= j < parts.drop_first()[i].len()
                ==> #[trigger] parts.drop_first()[i][j] != c) by {
            assert(forall|i: int|
                0 <= i < parts.drop_first().len() ==> parts.drop_first()[i] == parts[i + 1]);
        }
        lemma_split_join(parts.drop_first(), c);
        assert(split_spec(joined, c) =~= seq![head] + parts.drop_first());
        assert(seq![head] + parts.drop_first() =~= parts);
    }
}

/// Finding in a concatenation whose left half is separator-free reduces to
/// finding in the right half.
proof fn lemma_find_char_concat(a: Seq<char>, b: Seq<char>, c: char)
    requires
        forall|j: int| 0 <= j < a.len() ==> a[j] != c,
    ensures
        find_char_spec(a + b, c) == match find_char_spec(b, c) {
            None => None::<int>,
            Some(i) => Some(i + a.len()),
        },
    decreases a.len(),
{
    if a.len() == 0 {
        assert(a + b =~= b);
    } else {
        assert((a + b)[0] == a[0]);
        assert((a + b).drop_first() =~= a.drop_first() + b);
        lemma_find_char_concat(a.drop_first(), b, c);
    }
}

} // verus!
