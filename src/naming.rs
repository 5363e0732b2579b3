//! How a file found under a directory root becomes a template name.

use vstd::prelude::*;

verus! {

/// Both path separator conventions are understood.
pub open spec fn is_separator(c: char) -> bool {
    c == '/' || c == '\\'
}

/// The part of `path` below `root`, or `None` when `path` does not lie
/// strictly below `root`. A separator that joins the two is not part of it.
pub open spec fn relative_part(root: Seq<char>, path: Seq<char>) -> Option<Seq<char>> {
    if root.len() < path.len() && path.subrange(0, root.len() as int) == root {
        let rest = path.subrange(root.len() as int, path.len() as int);
        if root.len() == 0 || is_separator(root.last()) {
            Some(rest)
        } else if is_separator(rest[0]) {
            Some(rest.drop_first())
        } else {
            None
        }
    } else {
        None
    }
}

/// Whether `path` is `root` itself or lies below it.
pub open spec fn within(root: Seq<char>, path: Seq<char>) -> bool {
    path == root || relative_part(root, path) is Some
}

/// Where the last component of `s` starts: just after its last separator,
/// or at 0 when it has none.
pub open spec fn file_name_start(s: Seq<char>) -> int
    decreases s.len(),
{
    if s.len() == 0 {
        0
    } else if is_separator(s.last()) {
        s.len() as int
    } else {
        file_name_start(s.drop_last())
    }
}

/// `s` with every separator written as `/`.
pub open spec fn normalize_separators(s: Seq<char>) -> Seq<char> {
    s.map_values(|c: char| if is_separator(c) { '/' } else { c })
}

/// The name under which the file at `path` is registered by a directory
/// source over `root` with file suffix `suffix`: its path relative to the
/// root, without the suffix, with `/` between components. `None` when the
/// file is not below the root, does not end with the suffix (after a
/// non-empty stem), or its file name starts with `.` (hidden) or `#`
/// (backup or swap file).
pub open spec fn template_name_of(root: Seq<char>, suffix: Seq<char>, path: Seq<char>) -> Option<
    Seq<char>,
> {
    match relative_part(root, path) {
        None => None,
        Some(rel) => {
            let start = file_name_start(rel);
            let stem_end = rel.len() - suffix.len();
            if start < stem_end && rel.subrange(stem_end, rel.len() as int) == suffix && rel[start]
                != '.' && rel[start] != '#' {
                Some(normalize_separators(rel.subrange(0, stem_end)))
            } else {
                None
            }
        },
    }
}

/// `rel` placed below `root`, joined by `sep` unless the root is empty or
/// already ends with a separator.
pub open spec fn join_path(root: Seq<char>, sep: char, rel: Seq<char>) -> Seq<char> {
    if root.len() == 0 || is_separator(root.last()) {
        root + rel
    } else {
        root.push(sep) + rel
    }
}

pub open spec fn has_no_separator(s: Seq<char>) -> bool {
    forall|i: int| 0 <= i < s.len() ==> !is_separator(#[trigger] s[i])
}

fn is_separator_char(c: char) -> (r: bool)
    ensures
        r == is_separator(c),
{
    c == '/' || c == '\\'
}

/// Index in `path` at which its part below `root` starts.
pub(crate) fn relative_start(root: &str, path: &str) -> (r: Option<usize>)
    ensures
        match relative_part(root@, path@) {
            Some(rel) => r is Some && r->0 <= path@.len() && rel == path@.subrange(
                r->0 as int,
                path@.len() as int,
            ),
            None => r is None,
        },
{
    let rl = root.unicode_len();
    let pl = path.unicode_len();
    if rl >= pl {
        return None;
    }
    let mut i: usize = 0;
    while i < rl
        invariant
            i <= rl,
            rl == root@.len(),
            pl == path@.len(),
            rl < pl,
            forall|k: int| 0 <= k < i ==> path@[k] == root@[k],
        decreases rl - i,
    {
        if root.get_char(i) != path.get_char(i) {
            assert(path@.subrange(0, rl as int)[i as int] != root@[i as int]);
            return None;
        }
        i += 1;
    }
    assert(path@.subrange(0, rl as int) =~= root@);
    let rest = Ghost(path@.subrange(rl as int, pl as int));
    if rl == 0 || is_separator_char(root.get_char(rl - 1)) {
        Some(rl)
    } else if is_separator_char(path.get_char(rl)) {
        assert(rest@[0] == path@[rl as int]);
        assert(rest@.drop_first() =~= path@.subrange(rl + 1, pl as int));
        Some(rl + 1)
    } else {
        assert(rest@[0] == path@[rl as int]);
        None
    }
}

/// Index in `path` at which the last component of `path[from..]` starts.
fn file_name_index(path: &str, from: usize) -> (r: usize)
    requires
        from <= path@.len(),
    ensures
        from <= r <= path@.len(),
        r - from == file_name_start(path@.subrange(from as int, path@.len() as int)),
{
    let pl = path.unicode_len();
    let ghost rel = path@.subrange(from as int, pl as int);
    let mut k: usize = pl;
    let mut done = false;
    assert(rel.subrange(0, k - from) =~= rel);
    while !done && k > from
        invariant
            from <= k <= pl,
            pl == path@.len(),
            rel == path@.subrange(from as int, pl as int),
            file_name_start(rel) == if done {
                k - from
            } else {
                file_name_start(rel.subrange(0, k - from))
            },
        decreases k - from + if done { 0int } else { 1int },
    {
        let ghost pre = rel.subrange(0, k - from);
        assert(pre.last() == path@[k - 1]);
        if is_separator_char(path.get_char(k - 1)) {
            done = true;
        } else {
            assert(pre.drop_last() =~= rel.subrange(0, k - 1 - from));
            k -= 1;
        }
    }
    if !done {
        assert(rel.subrange(0, 0) =~= Seq::<char>::empty());
    }
    k
}

/// Whether `path[at..]` is exactly `suffix`.
fn ends_with_at(path: &str, at: usize, suffix: &str) -> (r: bool)
    requires
        at <= path@.len(),
        path@.len() - at == suffix@.len(),
    ensures
        r == (path@.subrange(at as int, path@.len() as int) == suffix@),
{
    let sl = suffix.unicode_len();
    let pl = path.unicode_len();
    let mut t: usize = 0;
    while t < sl
        invariant
            t <= sl,
            sl == suffix@.len(),
            pl == path@.len(),
            at + sl == pl,
            forall|q: int| 0 <= q < t ==> path@[at + q] == suffix@[q],
        decreases sl - t,
    {
        if path.get_char(at + t) != suffix.get_char(t) {
            assert(path@.subrange(at as int, path@.len() as int)[t as int] != suffix@[t as int]);
            return false;
        }
        t += 1;
    }
    assert(path@.subrange(at as int, path@.len() as int) =~= suffix@);
    true
}

/// `path[from..to]` with every separator written as `/`.
fn normalized(path: &str, from: usize, to: usize) -> (r: String)
    requires
        from <= to <= path@.len(),
    ensures
        r@ == normalize_separators(path@.subrange(from as int, to as int)),
{
    let mut out = String::new();
    let mut seg: usize = from;
    let mut j: usize = from;
    proof {
        reveal_strlit("/");
    }
    while j < to
        invariant
            from <= seg <= j <= to,
            to <= path@.len(),
            "/"@ == seq!['/'],
            out@ == normalize_separators(path@.subrange(from as int, seg as int)),
            forall|q: int| seg <= q < j ==> !is_separator(#[trigger] path@[q]),
        decreases to - j,
    {
        if is_separator_char(path.get_char(j)) {
            let part = path.substring_char(seg, j);
            out.append(part);
            out.append("/");
            assert(normalize_separators(path@.subrange(from as int, j + 1)) =~= normalize_separators(
                path@.subrange(from as int, seg as int),
            ) + path@.subrange(seg as int, j as int) + seq!['/']);
            seg = j + 1;
        }
        j += 1;
    }
    let part = path.substring_char(seg, to);
    out.append(part);
    assert(normalize_separators(path@.subrange(from as int, to as int)) =~= normalize_separators(
        path@.subrange(from as int, seg as int),
    ) + path@.subrange(seg as int, to as int));
    out
}

/// The template name of the file at `path` for a directory source over
/// `root` with file suffix `suffix`, or `None` when the file is not one of
/// its templates.
pub fn template_name(root: &str, suffix: &str, path: &str) -> (r: Option<String>)
    ensures
        r is Some == template_name_of(root@, suffix@, path@) is Some,
        r is Some ==> r->0@ == template_name_of(root@, suffix@, path@)->0,
{
    let rs = match relative_start(root, path) {
        Some(rs) => rs,
        None => return None,
    };
    let pl = path.unicode_len();
    let sl = suffix.unicode_len();
    let ghost rel = path@.subrange(rs as int, pl as int);
    let ns = file_name_index(path, rs);
    if sl >= pl - ns {
        return None;
    }
    let se = pl - sl;
    let fits = ends_with_at(path, se, suffix);
    assert(rel.subrange(se - rs, rel.len() as int) =~= path@.subrange(se as int, pl as int));
    if !fits {
        return None;
    }
    let first = path.get_char(ns);
    assert(rel[ns - rs] == first);
    if first == '.' || first == '#' {
        return None;
    }
    assert(rel.subrange(0, se - rs) =~= path@.subrange(rs as int, se as int));
    Some(normalized(path, rs, se))
}

proof fn lemma_file_name_start_after(prefix: Seq<char>, f: Seq<char>)
    requires
        has_no_separator(f),
        prefix.len() == 0 || is_separator(prefix.last()),
    ensures
        file_name_start(prefix + f) == prefix.len(),
    decreases f.len(),
{
    if f.len() == 0 {
        assert(prefix + f =~= prefix);
    } else {
        assert((prefix + f).drop_last() =~= prefix + f.drop_last());
        assert((prefix + f).last() == f.last());
        lemma_file_name_start_after(prefix, f.drop_last());
    }
}

proof fn lemma_relative_part_of_join(root: Seq<char>, sep: char, rel: Seq<char>)
    requires
        is_separator(sep),
        rel.len() > 0,
    ensures
        relative_part(root, join_path(root, sep, rel)) == Some(rel),
{
    let path = join_path(root, sep, rel);
    assert(path.subrange(0, root.len() as int) =~= root);
    let rest = path.subrange(root.len() as int, path.len() as int);
    if root.len() == 0 || is_separator(root.last()) {
        assert(rest =~= rel);
    } else {
        assert(rest[0] == sep);
        assert(rest.drop_first() =~= rel);
    }
}

/// A file below the root at any depth, reached through the directories
/// `dirs` (each followed by a separator of either convention) and named
/// `stem` followed by the suffix, is registered under its relative path
/// without the suffix, with `/` between components: no backslash, and no
/// leading `/`.
pub proof fn lemma_name_derivation(
    root: Seq<char>,
    root_sep: char,
    dirs: Seq<char>,
    stem: Seq<char>,
    suffix: Seq<char>,
)
    requires
        is_separator(root_sep),
        dirs.len() == 0 || is_separator(dirs.last()),
        dirs.len() > 0 ==> !is_separator(dirs[0]),
        stem.len() > 0,
        has_no_separator(stem),
        stem[0] != '.' && stem[0] != '#',
        has_no_separator(suffix),
    ensures
        template_name_of(root, suffix, join_path(root, root_sep, dirs + stem + suffix)) == Some(
            normalize_separators(dirs) + stem,
        ),
        (normalize_separators(dirs) + stem)[0] != '/',
        forall|i: int|
            0 <= i < (normalize_separators(dirs) + stem).len() ==> (#[trigger] (normalize_separators(
                dirs,
            ) + stem)[i]) != '\\',
{
    let rel = dirs + stem + suffix;
    let tail = stem + suffix;
    lemma_relative_part_of_join(root, root_sep, rel);
    assert(has_no_separator(tail)) by {
        assert forall|i: int| 0 <= i < tail.len() implies !is_separator(#[trigger] tail[i]) by {
            if i < stem.len() {
                assert(!is_separator(stem[i]));
            } else {
                assert(!is_separator(suffix[i - stem.len()]));
            }
        }
    }
    assert(rel =~= dirs + tail);
    lemma_file_name_start_after(dirs, tail);
    let stem_end = rel.len() - suffix.len();
    assert(rel.subrange(stem_end, rel.len() as int) =~= suffix);
    assert(rel[dirs.len() as int] == stem[0]);
    assert forall|i: int| 0 <= i < stem.len() implies !is_separator(#[trigger] stem[i]) by {}
    let name = normalize_separators(dirs) + stem;
    assert(normalize_separators(rel.subrange(0, stem_end)) =~= name);
    assert forall|i: int| 0 <= i < name.len() implies (#[trigger] name[i]) != '\\' by {
        if i >= dirs.len() {
            assert(!is_separator(stem[i - dirs.len()]));
        }
    }
}

/// A file whose name starts with `.` (hidden) or `#` (backup or swap file)
/// is never registered, whatever the suffix.
pub proof fn lemma_hidden_and_backup_files_skipped(
    root: Seq<char>,
    sep: char,
    dir: Seq<char>,
    file: Seq<char>,
    suffix: Seq<char>,
)
    requires
        is_separator(sep),
        dir.len() == 0 || is_separator(dir.last()),
        file.len() > 0,
        has_no_separator(file),
        file[0] == '.' || file[0] == '#',
    ensures
        template_name_of(root, suffix, join_path(root, sep, dir + file)) is None,
{
    let rel = dir + file;
    lemma_relative_part_of_join(root, sep, rel);
    lemma_file_name_start_after(dir, file);
    assert(rel[dir.len() as int] == file[0]);
}

} // verus!
