//! Paths as the operating system reads them: their components, for
//! `Path::strip_prefix`, and joining one path onto another, for `Path::join`.
//! On Windows both `\` and `/` separate components and a drive letter with
//! `:` starts a prefix; elsewhere only `/` separates.
use vstd::prelude::*;
use crate::text::{chars_of, push_all, split_chars, split_on, string_of, sub_vec, views};

verus! {

/// The components of a path with `/` separators, as `Path::components`
/// yields them on a Unix system: a root mark `/` for an absolute path, a `.` mark for a path
/// that starts with `./` or is `.`, then every piece between separators that
/// is neither empty nor `.`.
pub open spec fn components(p: Seq<char>) -> Seq<Seq<char>> {
    let parts = split_on(p, '/');
    let lead = if p.len() > 0 && p[0] == '/' {
        seq![seq!['/']]
    } else if parts[0] == seq!['.'] {
        seq![seq!['.']]
    } else {
        Seq::<Seq<char>>::empty()
    };
    lead + normal_pieces(parts)
}

/// The pieces that are neither empty nor `.`, in order.
pub open spec fn normal_pieces(parts: Seq<Seq<char>>) -> Seq<Seq<char>>
    decreases parts.len(),
{
    if parts.len() == 0 {
        seq![]
    } else {
        let r = normal_pieces(parts.drop_last());
        if parts.last().len() > 0 && parts.last() != seq!['.'] {
            r.push(parts.last())
        } else {
            r
        }
    }
}

/// `s` with every `\` turned into `/`.
pub open spec fn forward_slashes(s: Seq<char>) -> Seq<char> {
    s.map_values(|c: char| if c == '\\' { '/' } else { c })
}

/// A separator: `/`, and on Windows also `\`.
pub open spec fn is_sep(c: char, windows: bool) -> bool {
    c == '/' || (windows && c == '\\')
}

/// On Windows, `p` starts with a drive prefix: an ASCII letter and `:`.
pub open spec fn has_drive(p: Seq<char>) -> bool {
    p.len() >= 2 && p[1] == ':' && ((65 <= (p[0] as u32) && (p[0] as u32) <= 90) || (97 <= (
    p[0] as u32) && (p[0] as u32) <= 122))
}

/// `c` in upper case when it is an ASCII lower-case letter.
pub open spec fn upper_letter(c: char) -> char {
    if 97 <= (c as u32) && (c as u32) <= 122 {
        (((c as u32) - 32) as u8) as char
    } else {
        c
    }
}

/// The components of `p` as `Path::components` yields them. On Windows,
/// `\` separates as `/` does, and a drive prefix is a component of its own
/// whose letter compares in upper case, as Windows compares drives; other
/// prefixes (`\\server\share`, `\\?\`) are read as a root and plain
/// components, which keeps them equal between paths that share them.
pub open spec fn path_components(p: Seq<char>, windows: bool) -> Seq<Seq<char>> {
    if windows {
        if has_drive(p) {
            seq![seq![upper_letter(p[0]), ':']] + components(forward_slashes(p).skip(2))
        } else {
            components(forward_slashes(p))
        }
    } else {
        components(p)
    }
}

/// `rel` joined onto `base` as `Path::join` does. On Unix an absolute
/// `rel` replaces `base`, and otherwise a `/` goes between them unless `base`
/// is empty or ends with one. On Windows a `rel` with a prefix (a drive, or a
/// leading `\\`) replaces `base`; a `rel` that starts with a separator keeps
/// only `base`'s drive; otherwise a `\` goes between them unless `base` is
/// empty, ends with a separator, or is a bare drive such as `C:`.
pub open spec fn join_path(base: Seq<char>, rel: Seq<char>, windows: bool) -> Seq<char> {
    if !windows {
        if rel.len() > 0 && rel[0] == '/' {
            rel
        } else if base.len() > 0 && base.last() != '/' {
            base + seq!['/'] + rel
        } else {
            base + rel
        }
    } else if has_drive(rel) || (rel.len() >= 2 && rel[0] == '\\' && rel[1] == '\\') {
        rel
    } else if rel.len() > 0 && is_sep(rel[0], true) {
        (if has_drive(base) {
            base.take(2)
        } else {
            Seq::<char>::empty()
        }) + rel
    } else if base.len() > 0 && !is_sep(base.last(), true) && !(has_drive(base) && base.len()
        == 2) {
        base + seq!['\\'] + rel
    } else {
        base + rel
    }
}

fn components_of(p: &Vec<char>) -> (r: Vec<Vec<char>>)
    ensures
        views(r@) == components(p@),
{
    let parts = split_chars(p, '/');
    proof {
        crate::text::lemma_split_on_len(p@, '/');
    }
    let ghost pv = views(parts@);
    let dot = vec!['.'];
    assert(dot@ =~= seq!['.']);
    let mut r: Vec<Vec<char>> = Vec::new();
    if p.len() > 0 && p[0] == '/' {
        let root = vec!['/'];
        assert(root@ =~= seq!['/']);
        r.push(root);
    } else if crate::text::vec_range_eq(&dot, &parts[0], 0, parts[0].len()) {
        r.push(vec!['.']);
    }
    assert(parts@[0]@.subrange(0, parts@[0]@.len() as int) =~= parts@[0]@);
    assert(pv[0] == parts@[0]@);
    let ghost lead = views(r@);
    let mut i: usize = 0;
    assert(pv.take(0) =~= Seq::<Seq<char>>::empty());
    assert(lead + normal_pieces(pv.take(0)) =~= lead);
    while i < parts.len()
        invariant
            0 <= i <= parts.len(),
            pv == views(parts@),
            dot@ == seq!['.'],
            views(r@) == lead + normal_pieces(pv.take(i as int)),
        decreases parts.len() - i,
    {
        assert(pv.take(i as int + 1).drop_last() =~= pv.take(i as int));
        assert(pv.take(i as int + 1).last() == parts@[i as int]@);
        let x = &parts[i];
        assert(x@.subrange(0, x@.len() as int) =~= x@);
        if x.len() > 0 && !crate::text::vec_range_eq(&dot, x, 0, x.len()) {
            let ghost before = views(r@);
            r.push(crate::text::sub_vec(x, 0, x.len()));
            assert(views(r@) =~= before.push(x@));
            assert(lead + normal_pieces(pv.take(i as int)).push(x@) =~= (lead + normal_pieces(
                pv.take(i as int),
            )).push(x@));
        }
        i += 1;
    }
    assert(pv.take(parts.len() as int) =~= pv);
    r
}

fn slashes_of(p: &Vec<char>) -> (r: Vec<char>)
    ensures
        r@ == forward_slashes(p@),
{
    let mut r: Vec<char> = Vec::new();
    let mut i: usize = 0;
    while i < p.len()
        invariant
            0 <= i <= p.len(),
            r@ == forward_slashes(p@.take(i as int)),
        decreases p.len() - i,
    {
        let c = if p[i] == '\\' {
            '/'
        } else {
            p[i]
        };
        r.push(c);
        assert(p@.take(i as int + 1) =~= p@.take(i as int).push(p@[i as int]));
        assert(forward_slashes(p@.take(i as int + 1)) =~= forward_slashes(p@.take(i as int)).push(c));
        i += 1;
    }
    assert(p@.take(p.len() as int) =~= p@);
    r
}

fn drive_of(p: &Vec<char>) -> (b: bool)
    ensures
        b == has_drive(p@),
{
    if p.len() < 2 || p[1] != ':' {
        return false;
    }
    let u = p[0] as u32;
    (65 <= u && u <= 90) || (97 <= u && u <= 122)
}

fn upper_of(c: char) -> (r: char)
    ensures
        r == upper_letter(c),
{
    let u = c as u32;
    if 97 <= u && u <= 122 {
        ((u - 32) as u8) as char
    } else {
        c
    }
}

/// The components of `p` (see `path_components`).
pub fn path_components_of(p: &Vec<char>, windows: bool) -> (r: Vec<Vec<char>>)
    ensures
        views(r@) == path_components(p@, windows),
{
    if !windows {
        return components_of(p);
    }
    let q = slashes_of(p);
    if drive_of(p) {
        let mut rest = components_of(&sub_vec(&q, 2, q.len()));
        assert(q@.subrange(2, q@.len() as int) =~= q@.skip(2));
        let mut r: Vec<Vec<char>> = Vec::new();
        let d = vec![upper_of(p[0]), ':'];
        r.push(d);
        let ghost head = views(r@);
        assert(head =~= seq![seq![upper_letter(p@[0]), ':']]);
        let ghost rv = views(rest@);
        r.append(&mut rest);
        assert(views(r@) =~= head + rv);
        r
    } else {
        components_of(&q)
    }
}

/// `Path::join` of `rel` onto `base` (see `join_path`).
pub fn join_path_str(base: &str, rel: &str, windows: bool) -> (r: String)
    ensures
        r@ == join_path(base@, rel@, windows),
{
    let b = chars_of(base);
    let rl = chars_of(rel);
    if !windows {
        if rl.len() > 0 && rl[0] == '/' {
            return string_of(&rl);
        }
        let mut s = string_of(&b);
        if b.len() > 0 && b[b.len() - 1] != '/' {
            s.push('/');
        }
        push_all(&mut s, &rl);
        return s;
    }
    if drive_of(&rl) || (rl.len() >= 2 && rl[0] == '\\' && rl[1] == '\\') {
        return string_of(&rl);
    }
    if rl.len() > 0 && (rl[0] == '/' || rl[0] == '\\') {
        let mut s = if drive_of(&b) {
            assert(b@.subrange(0, 2) =~= b@.take(2));
            string_of(&sub_vec(&b, 0, 2))
        } else {
            String::new()
        };
        push_all(&mut s, &rl);
        return s;
    }
    let mut s = string_of(&b);
    if b.len() > 0 && !(b[b.len() - 1] == '/' || b[b.len() - 1] == '\\') && !(drive_of(&b) && b.len()
        == 2) {
        s.push('\\');
    }
    push_all(&mut s, &rl);
    s
}

} // verus!
