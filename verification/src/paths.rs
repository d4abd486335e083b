use vstd::prelude::*;
use crate::text::{chars_of, chars_eq, string_of, push_all, tail_from};

verus! {

// Paths are Windows paths: `\` and `/` both separate components, a path may
// start with a drive prefix such as `C:`, and joining inserts `\`.

/// A path separator: `\` or `/`.
pub open spec fn is_sep(c: char) -> bool {
    c == '/' || c == '\\'
}

pub open spec fn is_ascii_letter(c: char) -> bool {
    ('a' <= c && c <= 'z') || ('A' <= c && c <= 'Z')
}

/// The path starts with a drive prefix: a letter and a colon, as in `C:`.
pub open spec fn has_drive(p: Seq<char>) -> bool {
    p.len() >= 2 && is_ascii_letter(p[0]) && p[1] == ':'
}

/// The length of the path's drive prefix (0 when it has none).
pub open spec fn drive_len(p: Seq<char>) -> int {
    if has_drive(p) { 2 } else { 0 }
}

/// The pieces of `rest` between separators, given that the piece in progress
/// so far holds `cur`.
pub open spec fn split_slash(rest: Seq<char>, cur: Seq<char>) -> Seq<Seq<char>>
    decreases rest.len(),
{
    if rest.len() == 0 {
        seq![cur]
    } else if is_sep(rest[0]) {
        seq![cur] + split_slash(rest.drop_first(), seq![])
    } else {
        split_slash(rest.drop_first(), cur.push(rest[0]))
    }
}

/// The pieces of a path after its drive prefix.
pub open spec fn path_pieces(p: Seq<char>) -> Seq<Seq<char>> {
    split_slash(p.skip(drive_len(p)), seq![])
}

/// Pieces that name something: neither empty (doubled or trailing
/// separators) nor `.`.
pub open spec fn named_pieces(ps: Seq<Seq<char>>) -> Seq<Seq<char>>
    decreases ps.len(),
{
    if ps.len() == 0 {
        seq![]
    } else {
        let rest = named_pieces(ps.drop_last());
        let x = ps.last();
        if x.len() == 0 || x == seq!['.'] {
            rest
        } else {
            rest.push(x)
        }
    }
}

/// `Path::file_name` for a Windows path: the last component after the drive
/// prefix, unless the path has none or it is `..`.
pub open spec fn file_name(p: Seq<char>) -> Option<Seq<char>> {
    let named = named_pieces(path_pieces(p));
    if named.len() == 0 || named.last() == seq!['.', '.'] {
        None
    } else {
        Some(named.last())
    }
}

/// Index of the last `.` in `s`, if any.
pub open spec fn last_dot(s: Seq<char>) -> Option<int>
    decreases s.len(),
{
    if s.len() == 0 {
        None
    } else if s.last() == '.' {
        Some(s.len() - 1)
    } else {
        last_dot(s.drop_last())
    }
}

/// `Path::extension`: what follows the last `.` of the file name, when that
/// `.` is not the name's first character.
pub open spec fn extension(p: Seq<char>) -> Option<Seq<char>> {
    match file_name(p) {
        Some(name) => match last_dot(name) {
            Some(k) => if k == 0 {
                None
            } else {
                Some(name.subrange(k + 1, name.len() as int))
            },
            None => None,
        },
        None => None,
    }
}

/// `PathBuf::join` on Windows paths: a `rel` with a drive prefix replaces the
/// base; a `rel` starting with a separator keeps only the base's drive prefix;
/// otherwise `\` is put between the two unless the base is empty, ends with a
/// separator, or is a bare drive prefix such as `C:`.
pub open spec fn join_path(base: Seq<char>, rel: Seq<char>) -> Seq<char> {
    if has_drive(rel) {
        rel
    } else if rel.len() > 0 && is_sep(rel[0]) {
        base.take(drive_len(base)) + rel
    } else if base.len() == 0 || is_sep(base.last()) || (base.len() == 2 && has_drive(base)) {
        base + rel
    } else {
        base + seq!['\\'] + rel
    }
}

proof fn lemma_split_slash_len(rest: Seq<char>, cur: Seq<char>)
    ensures
        split_slash(rest, cur).len() >= 1,
    decreases rest.len(),
{
    if rest.len() > 0 {
        if is_sep(rest[0]) {
            lemma_split_slash_len(rest.drop_first(), seq![]);
        } else {
            lemma_split_slash_len(rest.drop_first(), cur.push(rest[0]));
        }
    }
}

/// The components of a path, as `split_slash` cuts it.
fn split_slash_exec(p: &[char]) -> (r: Vec<Vec<char>>)
    ensures
        r@.map_values(|x: Vec<char>| x@) == split_slash(p@, seq![]),
{
    let mut out: Vec<Vec<char>> = Vec::new();
    let mut cur: Vec<char> = Vec::new();
    let mut i: usize = 0;
    assert(p@.skip(0) == p@);
    assert(out@.map_values(|x: Vec<char>| x@) =~= seq![]);
    while i < p.len()
        invariant
            i <= p.len(),
            out@.map_values(|x: Vec<char>| x@) + split_slash(p@.skip(i as int), cur@) == split_slash(p@, seq![]),
        decreases p.len() - i,
    {
        let ghost rest = p@.skip(i as int);
        assert(rest[0] == p@[i as int]);
        assert(rest.drop_first() == p@.skip(i + 1));
        if p[i] == '/' || p[i] == '\\' {
            let ghost before = out@.map_values(|x: Vec<char>| x@);
            let ghost c = cur@;
            out.push(cur);
            assert(out@.map_values(|x: Vec<char>| x@) =~= before.push(c));
            assert(before + (seq![c] + split_slash(p@.skip(i + 1), seq![]))
                == before.push(c) + split_slash(p@.skip(i + 1), seq![]));
            cur = Vec::new();
        } else {
            cur.push(p[i]);
        }
        i = i + 1;
    }
    assert(p@.skip(i as int).len() == 0);
    let ghost before = out@.map_values(|x: Vec<char>| x@);
    let ghost c = cur@;
    out.push(cur);
    assert(out@.map_values(|x: Vec<char>| x@) =~= before.push(c));
    out
}

fn drive_prefix(p: &[char]) -> (b: bool)
    ensures
        b == has_drive(p@),
{
    p.len() >= 2 && (('a' <= p[0] && p[0] <= 'z') || ('A' <= p[0] && p[0] <= 'Z')) && p[1] == ':'
}

/// `Path::file_name` on a character vector.
pub fn file_name_of(p: &[char]) -> (r: Option<Vec<char>>)
    ensures
        r matches Some(v) ==> file_name(p@) == Some(v@),
        r is None ==> file_name(p@) is None,
{
    let dl: usize = if drive_prefix(p) { 2 } else { 0 };
    let tail = tail_from(p, dl);
    let parts = split_slash_exec(&tail);
    let ghost pv = parts@.map_values(|x: Vec<char>| x@);
    assert(pv == path_pieces(p@));
    let mut last: Option<usize> = None;
    let mut i: usize = 0;
    assert(pv.take(0) == Seq::<Seq<char>>::empty());
    while i < parts.len()
        invariant
            i <= parts.len(),
            pv == parts@.map_values(|x: Vec<char>| x@),
            pv.len() == parts.len(),
            last matches Some(k) ==> k < i && named_pieces(pv.take(i as int)).len() > 0
                && named_pieces(pv.take(i as int)).last() == pv[k as int],
            last is None ==> named_pieces(pv.take(i as int)).len() == 0,
        decreases parts.len() - i,
    {
        assert(pv.take(i + 1).drop_last() == pv.take(i as int));
        assert(pv.take(i + 1).last() == parts@[i as int]@);
        let x = &parts[i];
        let named = !(x.len() == 0 || (x.len() == 1 && x[0] == '.'));
        assert(named == !(x@.len() == 0 || x@ == seq!['.'])) by {
            if x@.len() == 1 && x@[0] == '.' {
                assert(x@ =~= seq!['.']);
            }
        }
        if named {
            last = Some(i);
        }
        i = i + 1;
    }
    assert(pv.take(parts.len() as int) == pv);
    match last {
        None => None,
        Some(k) => {
            let x = &parts[k];
            assert(x@ == pv[k as int]);
            let dots = chars_of("..");
            proof { reveal_strlit(".."); }
            if chars_eq(x, &dots) {
                assert(x@ == seq!['.', '.']);
                None
            } else {
                assert(x@ != seq!['.', '.']) by {
                    if x@ == seq!['.', '.'] {
                        assert(dots@ =~= seq!['.', '.']);
                    }
                }
                let mut v: Vec<char> = Vec::new();
                push_all(&mut v, x);
                assert(v@ == x@);
                Some(v)
            }
        },
    }
}

/// `Path::extension` on a character vector.
pub fn extension_of(p: &[char]) -> (r: Option<Vec<char>>)
    ensures
        r matches Some(v) ==> extension(p@) == Some(v@),
        r is None ==> extension(p@) is None,
{
    match file_name_of(p) {
        None => None,
        Some(name) => {
            let mut k: usize = name.len();
            assert(name@.take(k as int) == name@);
            while k > 0 && name[k - 1] != '.'
                invariant
                    k <= name.len(),
                    last_dot(name@) == last_dot(name@.take(k as int)),
                decreases k,
            {
                assert(name@.take(k as int).drop_last() == name@.take(k - 1));
                k = k - 1;
            }
            if k == 0 {
                assert(name@.take(0) == Seq::<char>::empty());
                return None;
            }
            assert(last_dot(name@.take(k as int)) == Some(k - 1));
            if k == 1 {
                return None;
            }
            let mut v: Vec<char> = Vec::new();
            let mut i: usize = k;
            while i < name.len()
                invariant
                    k <= i <= name.len(),
                    v@ == name@.subrange(k as int, i as int),
                decreases name.len() - i,
            {
                v.push(name[i]);
                assert(name@.subrange(k as int, i + 1) == name@.subrange(k as int, i as int).push(name@[i as int]));
                i = i + 1;
            }
            Some(v)
        },
    }
}

/// `PathBuf::join` (`join_path`).
pub fn join_path_str(base: &str, rel: &str) -> (r: String)
    ensures
        r@ == join_path(base@, rel@),
{
    let r = chars_of(rel);
    if drive_prefix(&r) {
        return string_of(&r);
    }
    let b = chars_of(base);
    let mut out: Vec<char> = Vec::new();
    if r.len() > 0 && (r[0] == '/' || r[0] == '\\') {
        let dl: usize = if drive_prefix(&b) { 2 } else { 0 };
        let mut i: usize = 0;
        while i < dl
            invariant
                i <= dl <= b.len(),
                dl == drive_len(b@),
                out@ == b@.take(i as int),
            decreases dl - i,
        {
            out.push(b[i]);
            assert(b@.take(i + 1) == b@.take(i as int).push(b@[i as int]));
            i = i + 1;
        }
        push_all(&mut out, &r);
        return string_of(&out);
    }
    push_all(&mut out, &b);
    let n = b.len();
    if !(n == 0 || b[n - 1] == '/' || b[n - 1] == '\\' || (n == 2 && drive_prefix(&b))) {
        out.push('\\');
    }
    push_all(&mut out, &r);
    string_of(&out)
}


/// `Path::exists` (std): whether something is on disk at that path. The answer
/// depends on the file system at the moment of the call, so nothing is
/// promised about it.
#[verifier::external_body]
pub(crate) fn path_exists(p: &str) -> (b: bool) {
    std::path::Path::new(p).exists()
}

} // verus!
