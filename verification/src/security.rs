//! Rules for names and locations that come from remote sources.
use vstd::prelude::*;
use crate::error::AppError;
use crate::text::{
    ascii_lower, chars_of, contains_char, last_in, lemma_last_in_bounds, lemma_last_in_is, slice_vec, split_by, split_in,
    string_of, to_ascii_lower, trim, trim_end_in, trim_end_len, trim_ws, trim_start_in, whitespace,
};
use crate::weburl::{UrlView, WebUrl};
use crate::text::{chars_eq, ends_with, has_suffix};

verus! {

/// Characters Windows refuses in file names, and the control characters.
pub open spec fn is_reserved_char(c: char) -> bool {
    c == '<' || c == '>' || c == ':' || c == '"' || c == '/' || c == '\\' || c == '|' || c == '?'
        || c == '*' || (c as u32) <= 0x1f
}

/// `s` with every reserved character replaced by `_`.
pub open spec fn map_reserved(s: Seq<char>) -> Seq<char> {
    s.map_values(|c: char| if is_reserved_char(c) { '_' } else { c })
}

/// The characters that `sanitize_path_component` strips from the end of a name.
pub open spec fn dot_space() -> Seq<char> {
    seq!['.', ' ']
}

/// A Windows device name (`CON`, `PRN`, `AUX`, `NUL`, `COM1`-`COM9`, `LPT1`-`LPT9`) in any
/// ASCII case.
pub open spec fn reserved_device_name(s: Seq<char>) -> bool {
    let l = s.map_values(|c: char| ascii_lower(c));
    ||| l == seq!['c', 'o', 'n']
    ||| l == seq!['p', 'r', 'n']
    ||| l == seq!['a', 'u', 'x']
    ||| l == seq!['n', 'u', 'l']
    ||| (l.len() == 4 && (l.take(3) == seq!['c', 'o', 'm'] || l.take(3) == seq!['l', 'p', 't'])
        && '1' <= l[3] && l[3] <= '9')
}

/// The text before the first `.` of `s` (all of `s` when it has none).
pub open spec fn stem_of(s: Seq<char>) -> Seq<char> {
    split_in(s, seq!['.'])[0]
}

/// The file or directory name that `sanitize_path_component(value, fallback)` produces.
pub open spec fn sanitized_component(value: Seq<char>, fallback: Seq<char>) -> Seq<char> {
    let trimmed = trim_end_in(trim_ws(map_reserved(value)), dot_space());
    let named = if trimmed.len() == 0 { fallback } else { trimmed };
    let prefixed = if reserved_device_name(stem_of(named)) { seq!['_'] + named } else { named };
    if prefixed.len() > 120 { prefixed.take(120) } else { prefixed }
}

/// Splitting always yields at least one piece.
pub proof fn lemma_split_nonempty(s: Seq<char>, set: Seq<char>)
    ensures
        split_in(s, set).len() >= 1,
    decreases s.len(),
{
    let k = last_in(s, set);
    if k >= 0 {
        lemma_last_in_bounds(s, set);
        lemma_split_nonempty(s.take(k), set);
    }
}

fn is_reserved(c: char) -> (r: bool)
    ensures
        r == is_reserved_char(c),
{
    c == '<' || c == '>' || c == ':' || c == '"' || c == '/' || c == '\\' || c == '|' || c == '?'
        || c == '*' || (c as u32) <= 0x1f
}

fn is_reserved_device_name(s: &[char]) -> (r: bool)
    ensures
        r == reserved_device_name(s@),
{
    let ghost l = s@.map_values(|c: char| ascii_lower(c));
    let mut lower: Vec<char> = Vec::new();
    let mut i: usize = 0;
    while i < s.len()
        invariant
            i <= s.len(),
            lower@ == l.take(i as int),
            l == s@.map_values(|c: char| ascii_lower(c)),
        decreases s.len() - i,
    {
        lower.push(to_ascii_lower(s[i]));
        assert(l.take(i as int + 1) =~= l.take(i as int).push(l[i as int]));
        i += 1;
    }
    assert(lower@ =~= l);
    let n = lower.len();
    if n == 3 {
        let r = (lower[0] == 'c' && lower[1] == 'o' && lower[2] == 'n') || (lower[0] == 'p'
            && lower[1] == 'r' && lower[2] == 'n') || (lower[0] == 'a' && lower[1] == 'u'
            && lower[2] == 'x') || (lower[0] == 'n' && lower[1] == 'u' && lower[2] == 'l');
        proof {
            if r {
                assert(l =~= seq![lower@[0], lower@[1], lower@[2]]);
            }
        }
        r
    } else if n == 4 {
        let r = ((lower[0] == 'c' && lower[1] == 'o' && lower[2] == 'm') || (lower[0] == 'l'
            && lower[1] == 'p' && lower[2] == 't')) && '1' <= lower[3] && lower[3] <= '9';
        proof {
            if (lower[0] == 'c' && lower[1] == 'o' && lower[2] == 'm') {
                assert(l.take(3) =~= seq!['c', 'o', 'm']);
            }
            if (lower[0] == 'l' && lower[1] == 'p' && lower[2] == 't') {
                assert(l.take(3) =~= seq!['l', 'p', 't']);
            }
        }
        r
    } else {
        false
    }
}

/// Replaces the characters Windows refuses in file names, trims the name, falls back to
/// `fallback` when nothing is left, prefixes Windows device names with `_`, and keeps at most
/// 120 characters.
pub fn sanitize_path_component(value: &str, fallback: &str) -> (r: String)
    ensures
        r@ == sanitized_component(value@, fallback@),
{
    let v = chars_of(value);
    let r = sanitize_chars(v.as_slice(), fallback);
    string_of(r.as_slice())
}

/// `sanitize_path_component` over characters.
pub fn sanitize_chars(value: &[char], fallback: &str) -> (r: Vec<char>)
    ensures
        r@ == sanitized_component(value@, fallback@),
{
    let mut mapped: Vec<char> = Vec::new();
    let mut i: usize = 0;
    while i < value.len()
        invariant
            i <= value.len(),
            mapped@ == map_reserved(value@.take(i as int)),
        decreases value.len() - i,
    {
        let c = value[i];
        mapped.push(if is_reserved(c) { '_' } else { c });
        assert(map_reserved(value@.take(i as int + 1)) =~= map_reserved(value@.take(i as int)).push(
            if is_reserved_char(c) { '_' } else { c },
        ));
        i += 1;
    }
    assert(value@.take(value.len() as int) =~= value@);
    let trimmed_ws = trim(mapped.as_slice());
    let ds = vec!['.', ' '];
    assert(ds@ =~= dot_space());
    let e = trim_end_len(trimmed_ws.as_slice(), ds.as_slice());
    let trimmed = slice_vec(trimmed_ws.as_slice(), 0, e);
    let named = if trimmed.len() == 0 {
        chars_of(fallback)
    } else {
        trimmed
    };
    let dot = vec!['.'];
    let pieces = split_by(named.as_slice(), dot.as_slice());
    proof {
        lemma_split_nonempty(named@, dot@);
        assert(dot@ =~= seq!['.']);
        assert(pieces[0].deep_view() =~= pieces@[0]@);
    }
    let prefixed = if is_reserved_device_name(pieces[0].as_slice()) {
        let mut p: Vec<char> = vec!['_'];
        let mut j: usize = 0;
        while j < named.len()
            invariant
                j <= named.len(),
                p@ == seq!['_'] + named@.take(j as int),
            decreases named.len() - j,
        {
            p.push(named[j]);
            assert(seq!['_'] + named@.take(j as int + 1) =~= (seq!['_'] + named@.take(
                j as int,
            )).push(named@[j as int]));
            j += 1;
        }
        assert(named@.take(named.len() as int) =~= named@);
        p
    } else {
        named
    };
    if prefixed.len() > 120 {
        slice_vec(prefixed.as_slice(), 0, 120)
    } else {
        assert(prefixed@.subrange(0, prefixed@.len() as int) =~= prefixed@);
        prefixed
    }
}

/// A path separator on Windows, where the application runs.
pub open spec fn is_path_sep(c: char) -> bool {
    c == '/' || c == '\\'
}

/// The path separators.
pub open spec fn path_seps() -> Seq<char> {
    seq!['/', '\\']
}

/// `s`, read as a path, is exactly one ordinary component: it does not start at a root or
/// prefix, its first piece is neither `.` nor `..`, and every later piece is empty or `.`
/// (the pieces `Path::components` skips).
pub open spec fn single_normal_component(s: Seq<char>) -> bool {
    let pieces = split_in(s, path_seps());
    &&& s.len() > 0
    &&& !is_path_sep(s[0])
    &&& pieces[0] != seq!['.']
    &&& pieces[0] != seq!['.', '.']
    &&& forall|i: int|
        1 <= i < pieces.len() ==> (#[trigger] pieces[i]).len() == 0 || pieces[i] == seq!['.']
}

/// What `safe_filename(value)` gives: the sanitized name, or `None` for a refused name.
pub open spec fn safe_filename_result(value: Seq<char>) -> Option<Seq<char>> {
    if !single_normal_component(value) || value.contains(':') {
        None
    } else {
        let safe = sanitized_component(value, "download"@);
        if safe == seq!['.'] || safe == seq!['.', '.'] {
            None
        } else {
            Some(safe)
        }
    }
}

fn is_single_normal_component(s: &[char]) -> (r: bool)
    ensures
        r == single_normal_component(s@),
{
    if s.len() == 0 || s[0] == '/' || s[0] == '\\' {
        return false;
    }
    let seps = vec!['/', '\\'];
    assert(seps@ =~= path_seps());
    let pieces = split_by(s, seps.as_slice());
    proof {
        lemma_split_nonempty(s@, seps@);
    }
    let first = &pieces[0];
    assert(first@ == pieces.deep_view()[0]);
    if (first.len() == 1 && first[0] == '.') || (first.len() == 2 && first[0] == '.' && first[1]
        == '.') {
        proof {
            if first.len() == 1 {
                assert(first@ =~= seq!['.']);
            } else {
                assert(first@ =~= seq!['.', '.']);
            }
        }
        return false;
    }
    assert(first@ != seq!['.'] && first@ != seq!['.', '.']);
    let mut i: usize = 1;
    while i < pieces.len()
        invariant
            1 <= i <= pieces.len(),
            pieces.deep_view() == split_in(s@, path_seps()),
            forall|j: int|
                1 <= j < i ==> (#[trigger] pieces.deep_view()[j]).len() == 0 || pieces.deep_view()[j]
                    == seq!['.'],
        decreases pieces.len() - i,
    {
        let p = &pieces[i];
        assert(p@ == pieces.deep_view()[i as int]);
        if !(p.len() == 0 || (p.len() == 1 && p[0] == '.')) {
            proof {
                if p@ =~= seq!['.'] {
                    assert(p@.len() == 1 && p@[0] == '.');
                }
            }
            return false;
        }
        proof {
            if p.len() == 1 {
                assert(p@ =~= seq!['.']);
            }
        }
        i += 1;
    }
    true
}

/// Accepts a name from a remote source only when it is one ordinary path component without
/// `:`, and returns it sanitized.
pub fn safe_filename(value: &str) -> (r: Result<String, AppError>)
    ensures
        match r {
            Ok(name) => safe_filename_result(value@) == Some(name@),
            Err(e) => safe_filename_result(value@) is None && e is UnsafeFilename,
        },
{
    let v = chars_of(value);
    match safe_filename_chars(v.as_slice()) {
        Some(name) => Ok(string_of(name.as_slice())),
        None => Err(AppError::UnsafeFilename),
    }
}

/// `safe_filename` over characters.
pub fn safe_filename_chars(v: &[char]) -> (r: Option<Vec<char>>)
    ensures
        match r {
            Some(name) => safe_filename_result(v@) == Some(name@),
            None => safe_filename_result(v@) is None,
        },
{
    if !is_single_normal_component(v) || contains_char(v, ':') {
        return None;
    }
    let safe = sanitize_chars(v, "download");
    if (safe.len() == 1 && safe[0] == '.') || (safe.len() == 2 && safe[0] == '.' && safe[1]
        == '.') {
        proof {
            if safe.len() == 1 {
                assert(safe@ =~= seq!['.']);
            } else {
                assert(safe@ =~= seq!['.', '.']);
            }
        }
        return None;
    }
    proof {
        if safe@ =~= seq!['.'] {
            assert(safe@.len() == 1);
        }
        if safe@ =~= seq!['.', '.'] {
            assert(safe@.len() == 2);
        }
    }
    Some(safe)
}


/// The ordinary pieces of a path: `split_in` pieces without the empty ones and `.`.
pub open spec fn normal_pieces(pieces: Seq<Seq<char>>) -> Seq<Seq<char>>
    decreases pieces.len(),
{
    if pieces.len() == 0 {
        Seq::empty()
    } else {
        let rest = normal_pieces(pieces.drop_last());
        let p = pieces.last();
        if p.len() == 0 || p == seq!['.'] {
            rest
        } else {
            rest.push(p)
        }
    }
}

/// A path begins at a root when its first character is a separator.
pub open spec fn has_root(p: Seq<char>) -> bool {
    p.len() > 0 && is_path_sep(p[0])
}

/// The components of a path as `Path::components` lists them after any prefix and root: a
/// leading `.` of a relative path is kept, every other empty or `.` piece is skipped.
pub open spec fn path_components(p: Seq<char>) -> Seq<Seq<char>> {
    let pieces = split_in(p, path_seps());
    if !has_root(p) && pieces[0] == seq!['.'] {
        seq![seq!['.']] + normal_pieces(pieces.drop_first())
    } else {
        normal_pieces(pieces)
    }
}

/// `p` starts with a Windows drive prefix such as `C:`.
pub open spec fn drive_prefixed(p: Seq<char>) -> bool {
    p.len() >= 2 && (('a' <= p[0] && p[0] <= 'z') || ('A' <= p[0] && p[0] <= 'Z')) && p[1] == ':'
}

/// `p` without the drive prefix that Windows reads at its start, if any.
pub open spec fn after_prefix(p: Seq<char>, windows: bool) -> Seq<char> {
    if windows && drive_prefixed(p) {
        p.skip(2)
    } else {
        p
    }
}

/// The root component, written as a lone separator.
pub open spec fn root_component() -> Seq<char> {
    seq!['\\']
}

/// All components of a path as `Path::components` lists them: on Windows first a drive
/// prefix (its letter compared without case), then the root when the rest starts with a
/// separator, then the other components.
pub open spec fn full_components(p: Seq<char>, windows: bool) -> Seq<Seq<char>> {
    let rest = after_prefix(p, windows);
    let prefix = if windows && drive_prefixed(p) {
        seq![seq![ascii_lower(p[0]), ':']]
    } else {
        Seq::empty()
    };
    let root = if has_root(rest) {
        seq![root_component()]
    } else {
        Seq::empty()
    };
    prefix + root + path_components(rest)
}

/// `candidate` starts with `root` component by component, as `Path::starts_with` compares
/// paths on Windows.
pub open spec fn path_starts_with(candidate: Seq<char>, root: Seq<char>) -> bool {
    let c = full_components(candidate, true);
    let r = full_components(root, true);
    r.len() <= c.len() && c.take(r.len() as int) == r
}

fn normal_pieces_from(pieces: &Vec<Vec<char>>, from: usize) -> (r: Vec<Vec<char>>)
    requires
        from <= pieces.len(),
    ensures
        r.deep_view() == normal_pieces(pieces.deep_view().skip(from as int)),
{
    let ghost all = pieces.deep_view().skip(from as int);
    let mut r: Vec<Vec<char>> = Vec::new();
    let mut i: usize = from;
    assert(all.take(0) =~= Seq::<Seq<char>>::empty());
    while i < pieces.len()
        invariant
            from <= i <= pieces.len(),
            all == pieces.deep_view().skip(from as int),
            r.deep_view() == normal_pieces(all.take(i - from)),
        decreases pieces.len() - i,
    {
        let p = &pieces[i];
        assert(p@ == all[i - from]);
        assert(all.take(i - from + 1).drop_last() =~= all.take(i - from));
        let keep = !(p.len() == 0 || (p.len() == 1 && p[0] == '.'));
        proof {
            if p.len() == 1 && p[0] == '.' {
                assert(p@ =~= seq!['.']);
            }
            if p@ =~= seq!['.'] {
                assert(p@.len() == 1);
            }
        }
        if keep {
            let copy = slice_vec(p.as_slice(), 0, p.len());
            assert(copy@ =~= p@);
            let ghost old_r = r.deep_view();
            assert(copy.deep_view() =~= copy@);
            r.push(copy);
            assert(r.deep_view() =~= old_r.push(p@));
        }
        i += 1;
    }
    assert(all.take(pieces.len() - from) =~= all);
    r
}

/// The components of a path, as `path_components` defines them.
pub fn components_of(p: &[char]) -> (r: Vec<Vec<char>>)
    ensures
        r.deep_view() == path_components(p@),
{
    let seps = vec!['/', '\\'];
    assert(seps@ =~= path_seps());
    let pieces = split_by(p, seps.as_slice());
    proof {
        lemma_split_nonempty(p@, seps@);
    }
    let rooted = p.len() > 0 && (p[0] == '/' || p[0] == '\\');
    let first_is_dot = pieces[0].len() == 1 && pieces[0][0] == '.';
    proof {
        assert(pieces[0]@ == pieces.deep_view()[0]);
        if first_is_dot {
            assert(pieces.deep_view()[0] =~= seq!['.']);
        }
        if pieces.deep_view()[0] =~= seq!['.'] {
            assert(pieces[0]@.len() == 1);
        }
        assert(pieces.deep_view().skip(0) =~= pieces.deep_view());
        assert(pieces.deep_view().skip(1) =~= pieces.deep_view().drop_first());
    }
    if !rooted && first_is_dot {
        let rest = normal_pieces_from(&pieces, 1);
        let dot = vec!['.'];
        assert(dot.deep_view() =~= seq!['.']);
        let mut r: Vec<Vec<char>> = Vec::new();
        r.push(dot);
        assert(r.deep_view() =~= seq![seq!['.']]);
        assert(rest.deep_view().take(0) =~= Seq::<Seq<char>>::empty());
        let mut j: usize = 0;
        while j < rest.len()
            invariant
                j <= rest.len(),
                r.deep_view() == seq![seq!['.']] + rest.deep_view().take(j as int),
            decreases rest.len() - j,
        {
            let copy = slice_vec(rest[j].as_slice(), 0, rest[j].len());
            assert(copy@ =~= rest.deep_view()[j as int]);
            let ghost old_r = r.deep_view();
            assert(copy.deep_view() =~= copy@);
            r.push(copy);
            assert(r.deep_view() =~= old_r.push(copy@));
            assert(r.deep_view() =~= seq![seq!['.']] + rest.deep_view().take(j as int + 1));
            j += 1;
        }
        assert(rest.deep_view().take(rest.len() as int) =~= rest.deep_view());
        r
    } else {
        normal_pieces_from(&pieces, 0)
    }
}

/// What `ensure_within_root` accepts: `candidate` lies at or below `root`.
pub fn ensure_within_root(root: &str, candidate: &str) -> (r: Result<(), AppError>)
    ensures
        r is Ok <==> path_starts_with(candidate@, root@),
        r matches Err(e) ==> e is PathOutsideLibrary,
{
    let rc = chars_of(root);
    let cc = chars_of(candidate);
    if path_starts_with_chars(cc.as_slice(), rc.as_slice()) {
        Ok(())
    } else {
        Err(AppError::PathOutsideLibrary)
    }
}

/// All components of a path, as `full_components` defines them.
pub fn full_components_of(p: &[char], windows: bool) -> (r: Vec<Vec<char>>)
    ensures
        r.deep_view() == full_components(p@, windows),
{
    let drive = windows && p.len() >= 2 && (('a' <= p[0] && p[0] <= 'z') || ('A' <= p[0] && p[0]
        <= 'Z')) && p[1] == ':';
    let rest = if drive {
        slice_vec(p, 2, p.len())
    } else {
        crate::text::vec_of(p)
    };
    assert(rest@ =~= after_prefix(p@, windows));
    let mut r: Vec<Vec<char>> = Vec::new();
    let ghost mut pfx: Seq<Seq<char>> = Seq::empty();
    assert(r.deep_view() =~= pfx);
    if drive {
        let d = vec![to_ascii_lower(p[0]), ':'];
        assert(d@ =~= seq![ascii_lower(p@[0]), ':']);
        assert(d.deep_view() =~= d@);
        r.push(d);
        proof {
            pfx = seq![seq![ascii_lower(p@[0]), ':']];
        }
        assert(r.deep_view() =~= pfx);
    }
    let ghost mut rt: Seq<Seq<char>> = Seq::empty();
    let rooted = rest.len() > 0 && (rest[0] == '/' || rest[0] == '\\');
    if rooted {
        let m = vec!['\\'];
        assert(m@ =~= root_component());
        let ghost before = r.deep_view();
        assert(m.deep_view() =~= m@);
        r.push(m);
        proof {
            rt = seq![root_component()];
        }
        assert(r.deep_view() =~= before.push(root_component()));
    }
    let ghost head = r.deep_view();
    assert(head =~= pfx + rt);
    let body = components_of(rest.as_slice());
    let mut j: usize = 0;
    while j < body.len()
        invariant
            j <= body.len(),
            r.deep_view() == head + body.deep_view().take(j as int),
        decreases body.len() - j,
    {
        let copy = slice_vec(body[j].as_slice(), 0, body[j].len());
        assert(copy@ =~= body.deep_view()[j as int]);
        let ghost old_r = r.deep_view();
        assert(copy.deep_view() =~= copy@);
        r.push(copy);
        assert(r.deep_view() =~= old_r.push(copy@));
        assert(r.deep_view() =~= head + body.deep_view().take(j as int + 1));
        j += 1;
    }
    assert(body.deep_view().take(body.len() as int) =~= body.deep_view());
    r
}

/// Whether `candidate` starts with `root` component by component.
pub fn path_starts_with_chars(candidate: &[char], root: &[char]) -> (r: bool)
    ensures
        r == path_starts_with(candidate@, root@),
{
    let c = full_components_of(candidate, true);
    let r = full_components_of(root, true);
    if r.len() > c.len() {
        return false;
    }
    let mut i: usize = 0;
    while i < r.len()
        invariant
            r.len() <= c.len(),
            i <= r.len(),
            c.deep_view() == full_components(candidate@, true),
            r.deep_view() == full_components(root@, true),
            forall|j: int| 0 <= j < i ==> c.deep_view()[j] == r.deep_view()[j],
        decreases r.len() - i,
    {
        assert(c@[i as int]@ == c.deep_view()[i as int]);
        assert(r@[i as int]@ == r.deep_view()[i as int]);
        if !chars_eq(c[i].as_slice(), r[i].as_slice()) {
            assert(c.deep_view().take(r.len() as int)[i as int] != r.deep_view()[i as int]);
            return false;
        }
        i += 1;
    }
    assert(c.deep_view().take(r.len() as int) =~= r.deep_view());
    true
}

/// Whether `u` is an HTTPS address on BOOTH or pixiv (`booth.pm`, `pixiv.net`, or any of
/// their subdomains).
pub open spec fn allowed_browser_url(u: UrlView) -> bool {
    &&& u.scheme == "https"@
    &&& u.host matches Some(h) && (h == "booth.pm"@ || has_suffix(h, ".booth.pm"@) || h
        == "pixiv.net"@ || has_suffix(h, ".pixiv.net"@))
}

/// The embedded browser may navigate only to HTTPS pages of BOOTH and pixiv.
pub fn is_allowed_browser_url(url: &WebUrl) -> (r: bool)
    ensures
        r == allowed_browser_url(url@),
{
    let scheme = chars_of(url.scheme.as_str());
    let https = chars_of("https");
    if !chars_eq(scheme.as_slice(), https.as_slice()) {
        return false;
    }
    match &url.host {
        None => false,
        Some(h) => {
            let host = chars_of(h.as_str());
            chars_eq(host.as_slice(), chars_of("booth.pm").as_slice()) || ends_with(
                host.as_slice(),
                chars_of(".booth.pm").as_slice(),
            ) || chars_eq(host.as_slice(), chars_of("pixiv.net").as_slice()) || ends_with(
                host.as_slice(),
                chars_of(".pixiv.net").as_slice(),
            )
        },
    }
}

/// Whether `u` is an HTTPS address on `booth.pm` or one of its subdomains, where BOOTH
/// serves downloads.
pub open spec fn allowed_download_url(u: UrlView) -> bool {
    &&& u.scheme == "https"@
    &&& u.host matches Some(h) && (h == "booth.pm"@ || has_suffix(h, ".booth.pm"@))
}

/// Downloads are fetched only from HTTPS addresses of BOOTH.
pub fn is_allowed_download_url(url: &WebUrl) -> (r: bool)
    ensures
        r == allowed_download_url(url@),
{
    let scheme = chars_of(url.scheme.as_str());
    let https = chars_of("https");
    if !chars_eq(scheme.as_slice(), https.as_slice()) {
        return false;
    }
    match &url.host {
        None => false,
        Some(h) => {
            let host = chars_of(h.as_str());
            chars_eq(host.as_slice(), chars_of("booth.pm").as_slice()) || ends_with(
                host.as_slice(),
                chars_of(".booth.pm").as_slice(),
            )
        },
    }
}


/// `std::path::MAIN_SEPARATOR`: the separator paths are joined with on this machine, a backslash
/// on Windows and `/` elsewhere. Only its two possible values are stated.
#[verifier::external_body]
pub(crate) fn main_separator() -> (r: char)
    ensures
        r == '/' || r == '\\',
{
    std::path::MAIN_SEPARATOR
}

/// A bare drive prefix such as `C:`, which Windows extends without a separator.
pub open spec fn bare_drive(p: Seq<char>) -> bool {
    p.len() == 2 && (('a' <= p[0] && p[0] <= 'z') || ('A' <= p[0] && p[0] <= 'Z')) && p[1] == ':'
}

/// `base` extended by the relative name `part`, as `PathBuf::push` does on a machine whose
/// separator is `sep`: no separator is added after an empty base, after a trailing separator,
/// or (on Windows) after a bare drive prefix.
pub open spec fn joined(base: Seq<char>, part: Seq<char>, sep: char) -> Seq<char> {
    if base.len() == 0 || base.last() == '/' || base.last() == sep || (sep == '\\' && bare_drive(
        base,
    )) {
        base + part
    } else {
        base + seq![sep] + part
    }
}

/// `base` extended by `part`.
pub fn join_path(base: &[char], part: &[char], sep: char) -> (r: Vec<char>)
    ensures
        r@ == joined(base@, part@, sep),
{
    let mut out = crate::text::vec_of(base);
    let drive = base.len() == 2 && (('a' <= base[0] && base[0] <= 'z') || ('A' <= base[0] && base[0]
        <= 'Z')) && base[1] == ':';
    if !(base.len() == 0 || base[base.len() - 1] == '/' || base[base.len() - 1] == sep || (sep
        == '\\' && drive)) {
        out.push(sep);
    }
    let mut i: usize = 0;
    let ghost start = out@;
    while i < part.len()
        invariant
            i <= part@.len(),
            out@ == start + part@.take(i as int),
        decreases part.len() - i,
    {
        out.push(part[i]);
        assert(part@.take(i as int + 1) =~= part@.take(i as int).push(part@[i as int]));
        i += 1;
    }
    assert(part@.take(part@.len() as int) =~= part@);
    assert(out@ =~= joined(base@, part@, sep));
    out
}

/// The shop's folder name: the sanitized shop name, with a placeholder when it is missing.
pub open spec fn shop_folder_name(shop_name: Seq<char>) -> Seq<char> {
    sanitized_component(shop_name, "ショップ未取得"@)
}

/// The product's folder name: `{product} [booth-{item}]`, the product name sanitized, with a
/// placeholder when it is missing.
pub open spec fn product_folder_name(product_name: Seq<char>, item_id: i64) -> Seq<char> {
    sanitized_component(product_name, "名称未取得の商品"@) + " [booth-"@ + crate::text::i64_text(
        item_id as int,
    ) + "]"@
}

/// The variation's folder name: `variation-{variation}`.
pub open spec fn variation_folder_name(variation_id: i64) -> Seq<char> {
    "variation-"@ + crate::text::i64_text(variation_id as int)
}

/// The folder of one variation of a product: `{root}/{shop}/{product} [booth-{item}]/variation-{variation}`,
/// each name sanitized, with a placeholder for a missing shop or product name.
pub open spec fn product_directory_spec(
    root: Seq<char>,
    shop_name: Seq<char>,
    product_name: Seq<char>,
    item_id: i64,
    variation_id: i64,
    sep: char,
) -> Seq<char> {
    joined(
        joined(joined(root, shop_folder_name(shop_name), sep), product_folder_name(product_name, item_id), sep),
        variation_folder_name(variation_id),
        sep,
    )
}

/// Where the files of one variation of a product are stored under `root`, joined with this
/// machine's separator.
pub fn product_directory(
    root: &str,
    shop_name: &str,
    product_name: &str,
    item_id: i64,
    variation_id: i64,
) -> (r: String)
    ensures
        r@ == product_directory_spec(root@, shop_name@, product_name@, item_id, variation_id, '/')
            || r@ == product_directory_spec(
            root@,
            shop_name@,
            product_name@,
            item_id,
            variation_id,
            '\\',
        ),
{
    product_directory_with(root, shop_name, product_name, item_id, variation_id, main_separator())
}

/// `product_directory` with the names joined by `sep`.
pub fn product_directory_with(
    root: &str,
    shop_name: &str,
    product_name: &str,
    item_id: i64,
    variation_id: i64,
    sep: char,
) -> (r: String)
    ensures
        r@ == product_directory_spec(root@, shop_name@, product_name@, item_id, variation_id, sep),
{
    let shop = sanitize_chars(chars_of(shop_name).as_slice(), "ショップ未取得");
    let mut product = sanitize_chars(chars_of(product_name).as_slice(), "名称未取得の商品");
    let ghost p0 = product@;
    let tag = chars_of(" [booth-");
    let mut i: usize = 0;
    while i < tag.len()
        invariant
            i <= tag@.len(),
            product@ == p0 + tag@.take(i as int),
        decreases tag.len() - i,
    {
        product.push(tag[i]);
        assert(tag@.take(i as int + 1) =~= tag@.take(i as int).push(tag@[i as int]));
        i += 1;
    }
    assert(tag@.take(tag@.len() as int) =~= tag@);
    crate::text::push_i64(&mut product, item_id);
    product.push(']');
    let mut variation = chars_of("variation-");
    crate::text::push_i64(&mut variation, variation_id);
    proof {
        reveal_strlit("]");
    }
    assert(product@ =~= sanitized_component(product_name@, "名称未取得の商品"@) + " [booth-"@
        + crate::text::i64_text(item_id as int) + "]"@);
    let a = join_path(chars_of(root).as_slice(), shop.as_slice(), sep);
    let b = join_path(a.as_slice(), product.as_slice(), sep);
    let c = join_path(b.as_slice(), variation.as_slice(), sep);
    string_of(c.as_slice())
}


/// No character of `s` is one that Windows refuses in names.
pub open spec fn plain_chars(s: Seq<char>) -> bool {
    forall|i: int| 0 <= i < s.len() ==> !is_reserved_char(#[trigger] s[i])
}

/// The characters that `sanitize_path_component` keeps of `value` once the reserved ones are
/// replaced and the ends are trimmed; the name falls back to `fallback` when this is empty.
pub open spec fn trimmed_name(value: Seq<char>) -> Seq<char> {
    trim_end_in(trim_ws(map_reserved(value)), dot_space())
}

/// Trimming a name with reserved characters replaced keeps it free of them, leaves no `.` or
/// space at its end, and starts it (when not empty) with a character that is not whitespace.
proof fn lemma_trimmed_name(value: Seq<char>)
    ensures
        trimmed_name(value).len() <= value.len(),
        plain_chars(trimmed_name(value)),
        trimmed_name(value).len() > 0 ==> !dot_space().contains(trimmed_name(value).last()),
        trimmed_name(value).len() > 0 ==> !whitespace().contains(trimmed_name(value)[0]),
        forall|i: int|
            0 <= i < trimmed_name(value).len() ==> exists|j: int|
                0 <= j < value.len() && #[trigger] trimmed_name(value)[i] == map_reserved(value)[j],
{
    let mapped = map_reserved(value);
    assert(plain_chars(mapped));
    let started = trim_start_in(mapped, whitespace());
    crate::text::lemma_trim_start_is_suffix(mapped, whitespace());
    let ws = trim_end_in(started, whitespace());
    crate::text::lemma_trim_end_is_prefix(started, whitespace());
    assert(ws == trim_ws(mapped));
    let trimmed = trim_end_in(ws, dot_space());
    crate::text::lemma_trim_end_is_prefix(ws, dot_space());
    assert forall|i: int| 0 <= i < trimmed.len() implies #[trigger] trimmed[i] == mapped[mapped.len()
        - started.len() + i] by {
        assert(trimmed[i] == ws[i]);
        assert(ws[i] == started[i]);
    }
    assert forall|i: int| 0 <= i < trimmed.len() implies exists|j: int|
        0 <= j < value.len() && #[trigger] trimmed[i] == mapped[j] by {
        let j = mapped.len() - started.len() + i;
        assert(trimmed[i] == mapped[j]);
    }
    if trimmed.len() > 0 {
        assert(trimmed[0] == started[0]);
    }
}

/// The text before the first character of `set` is the longest prefix of `s` without one.
proof fn lemma_first_piece(s: Seq<char>, set: Seq<char>)
    ensures
        split_in(s, set).len() >= 1,
        split_in(s, set)[0].len() <= s.len(),
        split_in(s, set)[0] == s.take(split_in(s, set)[0].len() as int),
        forall|i: int| 0 <= i < split_in(s, set)[0].len() ==> !set.contains(#[trigger] s[i]),
        split_in(s, set)[0].len() < s.len() ==> set.contains(s[split_in(s, set)[0].len() as int]),
    decreases s.len(),
{
    lemma_split_nonempty(s, set);
    lemma_last_in_bounds(s, set);
    let k = last_in(s, set);
    if k >= 0 {
        lemma_first_piece(s.take(k), set);
        lemma_split_nonempty(s.take(k), set);
        let p = split_in(s.take(k), set)[0];
        assert(split_in(s, set)[0] == p);
        assert forall|i: int| 0 <= i < p.len() implies !set.contains(#[trigger] s[i]) by {
            assert(s[i] == s.take(k)[i]);
        }
        assert(p =~= s.take(p.len() as int));
        if p.len() < k {
            assert(s[p.len() as int] == s.take(k)[p.len() as int]);
        }
    } else {
        assert(s.take(s.len() as int) =~= s);
    }
}

/// A prefix of `s` without characters of `set`, followed by one of them or by the end, is the
/// first piece of the split.
proof fn lemma_first_piece_is(s: Seq<char>, set: Seq<char>, m: int)
    requires
        0 <= m <= s.len(),
        forall|i: int| 0 <= i < m ==> !set.contains(#[trigger] s[i]),
        m < s.len() ==> set.contains(s[m]),
    ensures
        split_in(s, set)[0] == s.take(m),
{
    lemma_first_piece(s, set);
    let n = split_in(s, set)[0].len() as int;
    if n < m {
        assert(!set.contains(s[n]));
    }
    if m < n {
        assert(!set.contains(s[m]));
    }
}

/// A device name has three or four characters and starts with `c`, `p`, `a`, `n` or `l` in
/// either case.
proof fn lemma_device_shape(s: Seq<char>)
    requires
        reserved_device_name(s),
    ensures
        s.len() == 3 || s.len() == 4,
        ascii_lower(s[0]) == 'c' || ascii_lower(s[0]) == 'p' || ascii_lower(s[0]) == 'a'
            || ascii_lower(s[0]) == 'n' || ascii_lower(s[0]) == 'l',
{
    let l = s.map_values(|c: char| ascii_lower(c));
    assert(l.len() == s.len());
    if l.len() > 0 {
        assert(l[0] == ascii_lower(s[0]));
    }
    if l.len() == 4 {
        assert(l.take(3)[0] == l[0]);
    }
}

/// Whatever the input, the stem (the text before the first `.`) of what
/// `sanitize_path_component` produces is never a Windows device name: such names get a
/// leading `_`.
pub proof fn lemma_sanitized_stem_is_not_device(value: Seq<char>, fallback: Seq<char>)
    ensures
        !reserved_device_name(stem_of(sanitized_component(value, fallback))),
{
    let trimmed = trimmed_name(value);
    let named = if trimmed.len() == 0 { fallback } else { trimmed };
    let dev = reserved_device_name(stem_of(named));
    let prefixed = if dev { seq!['_'] + named } else { named };
    let r = sanitized_component(value, fallback);
    let dot = seq!['.'];
    lemma_first_piece(r, dot);
    if reserved_device_name(stem_of(r)) {
        lemma_device_shape(stem_of(r));
        let p = stem_of(r);
        assert(p[0] == r[0]);
        if dev {
            assert(r[0] == '_');
            assert(false);
        } else if prefixed.len() > 120 {
            lemma_first_piece(named, dot);
            let q = stem_of(named);
            if q.len() < 120 {
                assert forall|i: int| 0 <= i < q.len() implies !dot.contains(#[trigger] r[i]) by {
                    assert(r[i] == named[i]);
                }
                assert(r[q.len() as int] == named[q.len() as int]);
                lemma_first_piece_is(r, dot, q.len() as int);
                assert(r.take(q.len() as int) =~= q);
            } else {
                assert forall|i: int| 0 <= i < 120 implies !dot.contains(#[trigger] r[i]) by {
                    assert(r[i] == named[i]);
                }
                lemma_first_piece_is(r, dot, 120);
                assert(r.take(120) =~= r);
            }
        }
    }
}

/// Every name `sanitize_path_component` produces has at most 120 characters; it is free of
/// separators and other characters Windows refuses when the fallback is, never empty when the
/// fallback is not, and never `.` or `..` when the fallback is neither.
pub proof fn lemma_sanitized_component_is_plain(value: Seq<char>, fallback: Seq<char>)
    ensures
        sanitized_component(value, fallback).len() <= 120,
        plain_chars(fallback) ==> plain_chars(sanitized_component(value, fallback)),
        fallback.len() > 0 ==> sanitized_component(value, fallback).len() > 0,
        fallback != seq!['.'] && fallback != seq!['.', '.'] ==> sanitized_component(value, fallback)
            != seq!['.'] && sanitized_component(value, fallback) != seq!['.', '.'],
{
    lemma_trimmed_name(value);
    let trimmed = trimmed_name(value);
    if trimmed.len() > 0 {
        assert(trimmed.last() != '.') by {
            if trimmed.last() == '.' {
                assert(dot_space()[0] == '.');
                assert(dot_space().contains(trimmed.last()));
            }
        }
    }
    let named = if trimmed.len() == 0 { fallback } else { trimmed };
    assert(named != seq!['.'] && named != seq!['.', '.'] || trimmed.len() == 0) by {
        if trimmed.len() > 0 {
            if named == seq!['.'] || named == seq!['.', '.'] {
                assert(named.last() == '.');
            }
        }
    }
    let dev = reserved_device_name(stem_of(named));
    let prefixed = if dev { seq!['_'] + named } else { named };
    let result = sanitized_component(value, fallback);
    assert(prefixed.len() > 120 ==> result == prefixed.take(120));
    assert(prefixed.len() <= 120 ==> result == prefixed);
    if plain_chars(named) {
        assert(plain_chars(prefixed)) by {
            assert forall|i: int| 0 <= i < prefixed.len() implies !is_reserved_char(
                #[trigger] prefixed[i],
            ) by {
                if dev {
                    if i > 0 {
                        assert(prefixed[i] == named[i - 1]);
                    }
                } else {
                    assert(prefixed[i] == named[i]);
                }
            }
        }
        assert(plain_chars(result)) by {
            assert forall|i: int| 0 <= i < result.len() implies !is_reserved_char(
                #[trigger] result[i],
            ) by {
                assert(result[i] == prefixed[i]);
            }
        }
    }
    if named != seq!['.'] && named != seq!['.', '.'] {
        assert(prefixed != seq!['.'] && prefixed != seq!['.', '.']) by {
            if dev {
                if prefixed == seq!['.'] || prefixed == seq!['.', '.'] {
                    assert(prefixed[0] == '_');
                }
            }
        }
    }
}

/// Every character of `s` is ASCII.
pub open spec fn ascii_text(s: Seq<char>) -> bool {
    forall|i: int| 0 <= i < s.len() ==> (#[trigger] s[i] as u32) < 128
}

/// A printable ASCII character other than the space is not whitespace.
proof fn lemma_printable_ascii_not_whitespace(c: char)
    requires
        0x1f < (c as u32) < 128,
        c != ' ',
    ensures
        !whitespace().contains(c),
{
    assert forall|i: int| 0 <= i < whitespace().len() implies #[trigger] whitespace()[i] != c by {
        assert((whitespace()[i] as u32) <= 0x1f || whitespace()[i] == ' ' || (whitespace()[i] as u32)
            >= 0x85);
    }
}

/// What is left of an ASCII value after trimming is printable ASCII.
proof fn lemma_trimmed_is_ascii(value: Seq<char>)
    requires
        ascii_text(value),
    ensures
        forall|i: int|
            0 <= i < trimmed_name(value).len() ==> 0x1f < (#[trigger] trimmed_name(value)[i] as u32)
                < 128,
{
    lemma_trimmed_name(value);
    let t = trimmed_name(value);
    assert forall|i: int| 0 <= i < t.len() implies 0x1f < (#[trigger] t[i] as u32) < 128 by {
        let j = choose|j: int| 0 <= j < value.len() && #[trigger] t[i] == map_reserved(value)[j];
        assert((value[j] as u32) < 128);
        assert(map_reserved(value)[j] == if is_reserved_char(value[j]) { '_' } else { value[j] });
        assert(('_' as u32) == 95);
        assert(!is_reserved_char(t[i]));
    }
}

/// A name that `sanitize_path_component` leaves as it is: short enough, free of reserved
/// characters, not starting or ending with whitespace, not ending with `.` or a space, and
/// without a device name as its stem.
pub open spec fn settled_name(x: Seq<char>) -> bool {
    &&& 0 < x.len() <= 120
    &&& plain_chars(x)
    &&& !whitespace().contains(x[0])
    &&& !whitespace().contains(x.last())
    &&& !dot_space().contains(x.last())
    &&& !reserved_device_name(stem_of(x))
}

/// `sanitize_path_component` gives a settled name back unchanged, whatever the fallback.
proof fn lemma_settled_is_fixed(x: Seq<char>, fallback: Seq<char>)
    requires
        settled_name(x),
    ensures
        sanitized_component(x, fallback) == x,
{
    assert(map_reserved(x) =~= x);
    assert(trim_start_in(x, whitespace()) == x);
    assert(trim_end_in(x, whitespace()) == x);
    assert(trim_end_in(x, dot_space()) == x);
}

/// For a short ASCII value that does not trim down to nothing, `sanitize_path_component`
/// produces a settled name.
proof fn lemma_sanitized_is_settled(value: Seq<char>, fallback: Seq<char>)
    requires
        ascii_text(value),
        value.len() <= 100,
        trimmed_name(value).len() > 0,
    ensures
        settled_name(sanitized_component(value, fallback)),
{
    lemma_trimmed_name(value);
    lemma_sanitized_stem_is_not_device(value, fallback);
    let named = trimmed_name(value);
    let dev = reserved_device_name(stem_of(named));
    let r = sanitized_component(value, fallback);
    assert(r == if dev { seq!['_'] + named } else { named });
    assert(plain_chars(r)) by {
        assert forall|i: int| 0 <= i < r.len() implies !is_reserved_char(#[trigger] r[i]) by {
            if dev {
                if i > 0 {
                    assert(r[i] == named[i - 1]);
                }
            } else {
                assert(r[i] == named[i]);
            }
        }
    }
    if dev {
        lemma_printable_ascii_not_whitespace('_');
    }
    assert(r.last() == named.last());
    let c = named.last();
    lemma_trimmed_is_ascii(value);
    let k = trimmed_name(value).len() - 1;
    assert(0x1f < (trimmed_name(value)[k] as u32) < 128);
    assert(c == trimmed_name(value)[k]);
    assert(c != ' ') by {
        if c == ' ' {
            assert(dot_space()[1] == ' ');
        }
    }
    lemma_printable_ascii_not_whitespace(c);
}

/// Sanitizing what `sanitize_path_component` produced gives it back unchanged, for an ASCII
/// value of at most 100 characters and an ASCII fallback of at most 100 characters that is
/// itself left unchanged.
pub proof fn lemma_sanitize_is_idempotent(value: Seq<char>, fallback: Seq<char>)
    requires
        ascii_text(value),
        value.len() <= 100,
        ascii_text(fallback),
        fallback.len() <= 100,
        sanitized_component(fallback, fallback) == fallback,
    ensures
        sanitized_component(sanitized_component(value, fallback), fallback) == sanitized_component(
            value,
            fallback,
        ),
{
    let r = sanitized_component(value, fallback);
    if trimmed_name(value).len() > 0 {
        lemma_sanitized_is_settled(value, fallback);
        lemma_settled_is_fixed(r, fallback);
    } else if trimmed_name(fallback).len() > 0 {
        lemma_sanitized_is_settled(fallback, fallback);
        assert(r == fallback);
    } else {
        assert(r == sanitized_component(fallback, fallback));
    }
}

/// A plain character is not a path separator.
proof fn lemma_plain_has_no_separator(c: Seq<char>)
    requires
        plain_chars(c),
    ensures
        forall|i: int| 0 <= i < c.len() ==> !path_seps().contains(#[trigger] c[i]),
{
    assert forall|i: int| 0 <= i < c.len() implies !path_seps().contains(#[trigger] c[i]) by {
        if path_seps().contains(c[i]) {
            let k = choose|k: int| 0 <= k < path_seps().len() && path_seps()[k] == c[i];
            assert(!is_reserved_char(c[i]));
        }
    }
}

/// A path with a separator and then a name free of separators splits into the pieces of what
/// comes before the separator, and the name.
proof fn lemma_split_after_separator(b: Seq<char>, x: char, c: Seq<char>)
    requires
        path_seps().contains(x),
        forall|i: int| 0 <= i < c.len() ==> !path_seps().contains(#[trigger] c[i]),
    ensures
        split_in(b.push(x) + c, path_seps()) == split_in(b, path_seps()).push(c),
{
    let s = b.push(x) + c;
    let k = b.len() as int;
    assert(s[k] == x);
    assert forall|j: int| k < j < s.len() implies !path_seps().contains(#[trigger] s[j]) by {
        assert(s[j] == c[j - k - 1]);
    }
    lemma_last_in_is(s, path_seps(), k);
    assert(s.take(k) =~= b);
    assert(s.skip(k + 1) =~= c);
}

/// Adding a piece to a list of pieces adds it to the ordinary ones unless it is empty or `.`.
proof fn lemma_normal_push(p: Seq<Seq<char>>, c: Seq<char>)
    ensures
        c.len() == 0 || c == seq!['.'] ==> normal_pieces(p.push(c)) == normal_pieces(p),
        c.len() > 0 && c != seq!['.'] ==> normal_pieces(p.push(c)) == normal_pieces(p).push(c),
{
    assert(p.push(c).drop_last() =~= p);
}

/// The components of `j`, whose pieces are `q` and then the name `c`, are those of `base`
/// and `c`, when `q` reads like the pieces of `base`.
proof fn lemma_components_after(base: Seq<char>, j: Seq<char>, q: Seq<Seq<char>>, c: Seq<char>)
    requires
        q.len() >= 1,
        split_in(j, path_seps()) == q.push(c),
        split_in(base, path_seps()).len() >= 1,
        q[0] == split_in(base, path_seps())[0],
        normal_pieces(q) == normal_pieces(split_in(base, path_seps())),
        normal_pieces(q.drop_first()) == normal_pieces(split_in(base, path_seps()).drop_first()),
        has_root(j) == has_root(base),
        c.len() > 0,
        c != seq!['.'],
    ensures
        path_components(j) == path_components(base).push(c),
{
    lemma_normal_push(q, c);
    assert(q.push(c).drop_first() =~= q.drop_first().push(c));
    lemma_normal_push(q.drop_first(), c);
    assert(q.push(c)[0] == q[0]);
    let nb = normal_pieces(split_in(base, path_seps()).drop_first());
    assert(seq![seq!['.']] + nb.push(c) =~= (seq![seq!['.']] + nb).push(c));
}

/// Extending a path by a plain name, after the separator `x` (`with_sep`) or directly after
/// a trailing separator or an empty path, adds the name as one more component, keeps whether
/// the path starts at a root, and ends the path with the name.
proof fn lemma_extend_body(r: Seq<char>, c: Seq<char>, x: char, with_sep: bool)
    requires
        x == '/' || x == '\\',
        with_sep ==> r.len() > 0,
        !with_sep && r.len() > 0 ==> is_path_sep(r.last()),
        c.len() > 0,
        c != seq!['.'],
        plain_chars(c),
    ensures
        ({
            let j = if with_sep { r.push(x) + c } else { r + c };
            &&& path_components(j) == path_components(r).push(c)
            &&& has_root(j) == has_root(r)
            &&& j.len() > 0
            &&& j.last() == c.last()
            &&& r.len() > 0 ==> j[0] == r[0]
        }),
{
    let seps = path_seps();
    let j = if with_sep { r.push(x) + c } else { r + c };
    lemma_plain_has_no_separator(c);
    lemma_split_nonempty(r, seps);
    assert(seps[0] == '/' && seps[1] == '\\');
    assert(!is_reserved_char(c[0]));
    if r.len() == 0 {
        assert(j =~= c);
        lemma_last_in_is(c, seps, -1);
        lemma_last_in_is(r, seps, -1);
        assert(split_in(c, seps) == seq![c]);
        assert(split_in(r, seps) == seq![r]);
        lemma_normal_push(Seq::<Seq<char>>::empty(), c);
        lemma_normal_push(Seq::<Seq<char>>::empty(), r);
        assert(seq![c] =~= Seq::<Seq<char>>::empty().push(c));
        assert(seq![r] =~= Seq::<Seq<char>>::empty().push(r));
    } else if !with_sep {
        let y = r.last();
        let b = r.drop_last();
        assert(seps.contains(y));
        assert(r =~= b.push(y) + Seq::<char>::empty());
        assert(j =~= b.push(y) + c);
        lemma_split_after_separator(b, y, Seq::<char>::empty());
        lemma_split_after_separator(b, y, c);
        lemma_split_nonempty(b, seps);
        let bp = split_in(b, seps);
        lemma_normal_push(bp, Seq::<char>::empty());
        assert(bp.push(Seq::<char>::empty()).drop_first() =~= bp.drop_first().push(Seq::<char>::empty()));
        lemma_normal_push(bp.drop_first(), Seq::<char>::empty());
        assert(j[0] == r[0]);
        lemma_components_after(r, j, bp, c);
    } else {
        assert(seps.contains(x));
        lemma_split_after_separator(r, x, c);
        assert(j[0] == r[0]);
        lemma_components_after(r, j, split_in(r, seps), c);
    }
}

/// Joining a plain name to a path adds it as one more component of the path, read with or
/// without drive prefixes. The one exception: a bare drive such as `C:` read as a drive but
/// joined with `/` gains a root before the name.
#[verifier::spinoff_prover]
#[verifier::rlimit(40)]
proof fn lemma_join_full(base: Seq<char>, c: Seq<char>, sep: char, windows: bool)
    requires
        sep == '/' || sep == '\\',
        sep == '\\' ==> windows,
        c.len() > 0,
        c != seq!['.'],
        plain_chars(c),
    ensures
        !(windows && sep != '\\' && bare_drive(base)) ==> full_components(joined(base, c, sep), windows)
            == full_components(base, windows).push(c),
        windows && sep != '\\' && bare_drive(base) ==> full_components(joined(base, c, sep), windows)
            == full_components(base, windows) + seq![root_component(), c],
        joined(base, c, sep).len() > 0,
        joined(base, c, sep).last() == c.last(),
        !bare_drive(joined(base, c, sep)),
{
    let j = joined(base, c, sep);
    assert(!is_reserved_char(c.last()));
    assert(!is_reserved_char(c[0]));
    if c.len() > 1 {
        assert(!is_reserved_char(c[1]));
    }
    let ghost with_sep = !(base.len() == 0 || base.last() == '/' || base.last() == sep || (sep
        == '\\' && bare_drive(base)));
    if windows && drive_prefixed(base) {
        let rb = base.skip(2);
        if base.len() == 2 {
            assert(rb =~= Seq::<char>::empty());
            if sep == '\\' {
                assert(j =~= base + c);
                assert(j.skip(2) =~= c);
                lemma_extend_body(rb, c, sep, false);
                assert(rb + c =~= c);
            } else {
                assert(j =~= base.push(sep) + c);
                let slash = seq![sep];
                assert(j.skip(2) =~= slash + c);
                lemma_extend_body(slash, c, sep, false);
                let e = Seq::<char>::empty();
                assert(path_seps().contains(sep)) by {
                    assert(path_seps()[0] == '/' && path_seps()[1] == '\\');
                }
                assert(slash =~= e.push(sep) + e);
                lemma_split_after_separator(e, sep, e);
                lemma_last_in_is(e, path_seps(), -1);
                assert(split_in(e, path_seps()) == seq![e]);
                assert(seq![e] =~= Seq::<Seq<char>>::empty().push(e));
                lemma_normal_push(Seq::<Seq<char>>::empty(), e);
                lemma_normal_push(seq![e], e);
                assert(path_components(slash) =~= Seq::<Seq<char>>::empty());
                assert(path_components(rb) =~= Seq::<Seq<char>>::empty());
            }
        } else {
            assert(base.last() == rb.last());
            if with_sep {
                assert(j =~= base.push(sep) + c);
                assert(j.skip(2) =~= rb.push(sep) + c);
            } else {
                assert(j =~= base + c);
                assert(j.skip(2) =~= rb + c);
            }
            lemma_extend_body(rb, c, sep, with_sep);
        }
        assert(j[0] == base[0] && j[1] == base[1]);
    } else {
        assert(!(windows && drive_prefixed(j))) by {
            if windows && drive_prefixed(j) {
                if base.len() >= 2 {
                    assert(j[0] == base[0] && j[1] == base[1]);
                }
            }
        }
        if with_sep {
            assert(j =~= base.push(sep) + c);
        } else {
            assert(j =~= base + c);
        }
        lemma_extend_body(base, c, sep, with_sep);
    }
}

/// `a + b` is free of reserved characters when both parts are.
proof fn lemma_plain_concat(a: Seq<char>, b: Seq<char>)
    requires
        plain_chars(a),
        plain_chars(b),
    ensures
        plain_chars(a + b),
{
    assert forall|i: int| 0 <= i < (a + b).len() implies !is_reserved_char(#[trigger] (a + b)[i]) by {
        if i < a.len() {
            assert((a + b)[i] == a[i]);
        } else {
            assert((a + b)[i] == b[i - a.len()]);
        }
    }
}

/// The text of a number is free of reserved characters.
proof fn lemma_i64_text_plain(n: int)
    ensures
        plain_chars(crate::text::i64_text(n)),
{
    crate::text::lemma_i64_text_chars(n);
}

/// The three folder names of a variation are plain names, never empty, `.` or `..`.
proof fn lemma_folder_names_plain(shop_name: Seq<char>, product_name: Seq<char>, item_id: i64, variation_id: i64)
    ensures
        ({
            let names = seq![
                shop_folder_name(shop_name),
                product_folder_name(product_name, item_id),
                variation_folder_name(variation_id),
            ];
            forall|i: int|
                0 <= i < 3 ==> {
                    let n = #[trigger] names[i];
                    &&& n.len() > 0
                    &&& n != seq!['.']
                    &&& n != seq!['.', '.']
                    &&& plain_chars(n)
                }
        }),
{
    reveal_strlit("ショップ未取得");
    reveal_strlit("名称未取得の商品");
    reveal_strlit(" [booth-");
    reveal_strlit("]");
    reveal_strlit("variation-");
    assert(plain_chars("ショップ未取得"@));
    assert(plain_chars("名称未取得の商品"@));
    assert(plain_chars(" [booth-"@));
    assert(plain_chars("]"@));
    assert(plain_chars("variation-"@));
    lemma_sanitized_component_is_plain(shop_name, "ショップ未取得"@);
    lemma_sanitized_component_is_plain(product_name, "名称未取得の商品"@);
    lemma_i64_text_plain(item_id as int);
    lemma_i64_text_plain(variation_id as int);
    let shop = shop_folder_name(shop_name);
    let sp = sanitized_component(product_name, "名称未取得の商品"@);
    let it = crate::text::i64_text(item_id as int);
    let vt = crate::text::i64_text(variation_id as int);
    lemma_plain_concat(sp, " [booth-"@);
    lemma_plain_concat(sp + " [booth-"@, it);
    lemma_plain_concat(sp + " [booth-"@ + it, "]"@);
    lemma_plain_concat("variation-"@, vt);
    let product = product_folder_name(product_name, item_id);
    let variation = variation_folder_name(variation_id);
    assert(product.last() == ']');
    assert(product.len() >= 2);
    if product == seq!['.', '.'] {
        assert(product[1] == '.');
    }
    assert(variation[0] == 'v');
    assert(variation.len() >= 10);
    let names = seq![shop, product, variation];
    assert(names[0] == shop && names[1] == product && names[2] == variation);
}

/// The components of a variation's folder are those of `root` and then its three folder
/// names (and, for a bare drive read as a drive but joined with `/`, the root before them).
#[verifier::spinoff_prover]
#[verifier::rlimit(40)]
proof fn lemma_directory_components(
    root: Seq<char>,
    shop_name: Seq<char>,
    product_name: Seq<char>,
    item_id: i64,
    variation_id: i64,
    sep: char,
    windows: bool,
)
    requires
        sep == '/' || sep == '\\',
        sep == '\\' ==> windows,
    ensures
        ({
            let d = product_directory_spec(root, shop_name, product_name, item_id, variation_id, sep);
            let names = seq![
                shop_folder_name(shop_name),
                product_folder_name(product_name, item_id),
                variation_folder_name(variation_id),
            ];
            &&& !(windows && sep != '\\' && bare_drive(root)) ==> full_components(d, windows)
                == full_components(root, windows) + names
            &&& windows && sep != '\\' && bare_drive(root) ==> full_components(d, windows)
                == full_components(root, windows) + seq![root_component()] + names
        }),
{
    lemma_folder_names_plain(shop_name, product_name, item_id, variation_id);
    let shop = shop_folder_name(shop_name);
    let product = product_folder_name(product_name, item_id);
    let variation = variation_folder_name(variation_id);
    let names = seq![shop, product, variation];
    assert(names[0] == shop && names[1] == product && names[2] == variation);
    lemma_join_full(root, shop, sep, windows);
    let a = joined(root, shop, sep);
    lemma_join_full(a, product, sep, windows);
    let b = joined(a, product, sep);
    lemma_join_full(b, variation, sep, windows);
    let fr = full_components(root, windows);
    assert(fr.push(shop).push(product).push(variation) =~= fr + names);
    assert((fr + seq![root_component(), shop]).push(product).push(variation) =~= fr + seq![
        root_component(),
    ] + names);
}

/// The folder of a variation lies below `root` and adds exactly three components to it: the
/// shop, the product with its item id, and the variation, each a plain name (never `.` or
/// `..`, free of separators and of the characters Windows refuses). Components are read with
/// drive prefixes where the separator is Windows's own. A different item id gives a different
/// folder.
#[verifier::spinoff_prover]
#[verifier::rlimit(40)]
pub proof fn lemma_product_directory_layout(
    root: Seq<char>,
    shop_name: Seq<char>,
    product_name: Seq<char>,
    item_id: i64,
    variation_id: i64,
    sep: char,
    other_item_id: i64,
)
    requires
        sep == '/' || sep == '\\',
    ensures
        ({
            let d = product_directory_spec(root, shop_name, product_name, item_id, variation_id, sep);
            let added = seq![
                shop_folder_name(shop_name),
                product_folder_name(product_name, item_id),
                variation_folder_name(variation_id),
            ];
            &&& full_components(d, sep == '\\') == full_components(root, sep == '\\') + added
            &&& path_starts_with(d, root)
            &&& forall|i: int|
                0 <= i < 3 ==> {
                    let n = #[trigger] added[i];
                    &&& n.len() > 0
                    &&& n != seq!['.']
                    &&& n != seq!['.', '.']
                    &&& plain_chars(n)
                }
            &&& other_item_id != item_id ==> product_directory_spec(
                root,
                shop_name,
                product_name,
                other_item_id,
                variation_id,
                sep,
            ) != d
        }),
{
    let w = sep == '\\';
    lemma_folder_names_plain(shop_name, product_name, item_id, variation_id);
    lemma_folder_names_plain(shop_name, product_name, other_item_id, variation_id);
    let shop = shop_folder_name(shop_name);
    let variation = variation_folder_name(variation_id);
    let names1 = seq![shop, product_folder_name(product_name, item_id), variation];
    let names2 = seq![shop, product_folder_name(product_name, other_item_id), variation];
    assert(names1[0] == shop && names1[2] == variation);
    let rc = full_components(root, w);
    lemma_directory_components(root, shop_name, product_name, item_id, variation_id, sep, w);
    lemma_directory_components(root, shop_name, product_name, other_item_id, variation_id, sep, w);
    lemma_directory_components(root, shop_name, product_name, item_id, variation_id, sep, true);
    let d = product_directory_spec(root, shop_name, product_name, item_id, variation_id, sep);
    let rt = full_components(root, true);
    if sep != '\\' && bare_drive(root) {
        assert((rt + seq![root_component()] + names1).take(rt.len() as int) =~= rt);
    } else {
        assert((rt + names1).take(rt.len() as int) =~= rt);
    }
    if other_item_id != item_id {
        let d2 = product_directory_spec(root, shop_name, product_name, other_item_id, variation_id, sep);
        if d2 == d {
            let p1 = product_folder_name(product_name, item_id);
            let p2 = product_folder_name(product_name, other_item_id);
            assert((rc + names1)[rc.len() as int + 1] == p1);
            assert((rc + names2)[rc.len() as int + 1] == p2);
            assert(p1 == p2);
            let pre = sanitized_component(product_name, "名称未取得の商品"@) + " [booth-"@;
            let t1 = crate::text::i64_text(item_id as int);
            let t2 = crate::text::i64_text(other_item_id as int);
            reveal_strlit("]");
            assert(p1.subrange(pre.len() as int, p1.len() - 1) =~= t1);
            assert(p2.subrange(pre.len() as int, p2.len() - 1) =~= t2);
            crate::text::lemma_i64_text_injective(item_id as int, other_item_id as int);
        }
    }
}

/// `c` is none of `<`, `>`, `:`, `"`, `/`, `\`, `|`, `?`, `*` and no control character.
pub open spec fn allowed_in_windows_name(c: char) -> bool {
    c != '<' && c != '>' && c != ':' && c != '"' && c != '/' && c != '\\' && c != '|' && c != '?'
        && c != '*' && (c as u32) >= 0x20
}

/// Whatever the value, a sanitized name holds only characters Windows accepts in a name
/// (none of `<>:"/\|?*`, no control character) when the fallback does.
pub proof fn lemma_sanitized_names_are_windows_safe(value: Seq<char>, fallback: Seq<char>)
    requires
        forall|i: int| 0 <= i < fallback.len() ==> allowed_in_windows_name(#[trigger] fallback[i]),
    ensures
        forall|i: int|
            0 <= i < sanitized_component(value, fallback).len() ==> allowed_in_windows_name(
                #[trigger] sanitized_component(value, fallback)[i],
            ),
{
    assert(plain_chars(fallback)) by {
        assert forall|i: int| 0 <= i < fallback.len() implies !is_reserved_char(#[trigger] fallback[i]) by {
            assert(allowed_in_windows_name(fallback[i]));
        }
    }
    lemma_sanitized_component_is_plain(value, fallback);
    let r = sanitized_component(value, fallback);
    assert forall|i: int| 0 <= i < r.len() implies allowed_in_windows_name(#[trigger] r[i]) by {
        assert(!is_reserved_char(r[i]));
    }
}

} // verus!
