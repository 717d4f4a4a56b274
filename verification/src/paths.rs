//! Path syntax as `std::path` reads it on POSIX: components, joining, file
//! stems. Paths are carried as text with `/` separators. Where a path must
//! stay inside a directory it is judged under Windows rules as well: `\\`
//! separates too, and a drive prefix makes a path absolute.
use vstd::prelude::*;

use crate::text::{append_chars, chars_to_string, concat_chars, join, join_chars, lemma_split_char_nonempty, slice_chars, split_char, split_on_char, str_to_chars, views};

verus! {

/// A path component (`std::path::Component` without Windows prefixes).
pub enum Comp {
    RootDir,
    CurDir,
    ParentDir,
    Normal(Seq<char>),
}

pub open spec fn dot() -> Seq<char> {
    seq!['.']
}

pub open spec fn dotdot() -> Seq<char> {
    seq!['.', '.']
}

/// Components contributed by the `/`-separated pieces: empty pieces and `.`
/// are skipped, `..` is the parent directory.
pub open spec fn seg_comps(segs: Seq<Seq<char>>) -> Seq<Comp>
    decreases segs.len(),
{
    if segs.len() == 0 {
        Seq::<Comp>::empty()
    } else {
        let prev = seg_comps(segs.drop_last());
        let s = segs.last();
        if s.len() == 0 || s == dot() {
            prev
        } else if s == dotdot() {
            prev.push(Comp::ParentDir)
        } else {
            prev.push(Comp::Normal(s))
        }
    }
}

pub open spec fn starts_with_root(p: Seq<char>) -> bool {
    p.len() > 0 && p[0] == '/'
}

/// `Path::components` on POSIX: a leading `/` is the root, a leading `.`
/// piece is the current directory, the rest follows `seg_comps`.
pub open spec fn components(p: Seq<char>) -> Seq<Comp> {
    let segs = split_char(p, '/');
    let head = if starts_with_root(p) {
        seq![Comp::RootDir]
    } else if segs[0] == dot() {
        seq![Comp::CurDir]
    } else {
        Seq::<Comp>::empty()
    };
    head + seg_comps(segs)
}

pub enum PathPart {
    RootDir,
    CurDir,
    ParentDir,
    Normal(Vec<char>),
}

impl PathPart {
    pub open spec fn view(&self) -> Comp {
        match self {
            PathPart::RootDir => Comp::RootDir,
            PathPart::CurDir => Comp::CurDir,
            PathPart::ParentDir => Comp::ParentDir,
            PathPart::Normal(v) => Comp::Normal(v@),
        }
    }
}

pub open spec fn part_views(v: Seq<PathPart>) -> Seq<Comp> {
    v.map_values(|p: PathPart| p.view())
}

fn is_dot(s: &Vec<char>) -> (r: bool)
    ensures
        r == (s@ == dot()),
{
    let r = s.len() == 1 && s[0] == '.';
    proof {
        if s@ == dot() {
            assert(s@.len() == 1);
        }
        if r {
            assert(s@ =~= dot());
        }
    }
    r
}

fn is_dotdot(s: &Vec<char>) -> (r: bool)
    ensures
        r == (s@ == dotdot()),
{
    let r = s.len() == 2 && s[0] == '.' && s[1] == '.';
    proof {
        if s@ == dotdot() {
            assert(s@.len() == 2);
        }
        if r {
            assert(s@ =~= dotdot());
        }
    }
    r
}

pub fn path_components(p: &Vec<char>) -> (r: Vec<PathPart>)
    ensures
        part_views(r@) == components(p@),
{
    let segs = split_on_char(p, '/');
    proof {
        lemma_split_char_nonempty(p@, '/');
    }
    let ghost sv = views(segs@);
    let mut out: Vec<PathPart> = Vec::new();
    if p.len() > 0 && p[0] == '/' {
        out.push(PathPart::RootDir);
    } else if is_dot(&segs[0]) {
        out.push(PathPart::CurDir);
    }
    let ghost head = part_views(out@);
    let mut i: usize = 0;
    assert(sv.take(0) =~= Seq::<Seq<char>>::empty());
    assert(part_views(out@) =~= head + seg_comps(sv.take(0)));
    while i < segs.len()
        invariant
            i <= segs.len(),
            sv == views(segs@),
            part_views(out@) == head + seg_comps(sv.take(i as int)),
        decreases segs.len() - i,
    {
        let s = &segs[i];
        assert(sv.take(i + 1).drop_last() =~= sv.take(i as int));
        assert(sv.take(i + 1).last() == s@);
        if s.len() == 0 || is_dot(s) {
        } else if is_dotdot(s) {
            let ghost before = part_views(out@);
            out.push(PathPart::ParentDir);
            assert(part_views(out@) =~= before.push(Comp::ParentDir));
            assert(part_views(out@) =~= head + seg_comps(sv.take(i + 1)));
        } else {
            let ghost before = part_views(out@);
            let copy = s.clone();
            assert(copy@ == s@);
            out.push(PathPart::Normal(copy));
            assert(part_views(out@) =~= before.push(Comp::Normal(s@)));
            assert(part_views(out@) =~= head + seg_comps(sv.take(i + 1)));
        }
        i = i + 1;
    }
    assert(sv.take(segs.len() as int) =~= sv);
    out
}

pub open spec fn is_normal(c: Comp) -> bool {
    c is Normal
}

pub open spec fn is_normal_or_cur(c: Comp) -> bool {
    c is Normal || c is CurDir
}

/// A path with Windows `\\` separators written with `/`.
pub open spec fn slashed(value: Seq<char>) -> Seq<char> {
    value.map_values(|c: char| if c == '\\' { '/' } else { c })
}

pub fn slashed_chars(value: &Vec<char>) -> (r: Vec<char>)
    ensures
        r@ == slashed(value@),
{
    let mut out: Vec<char> = Vec::new();
    let mut i: usize = 0;
    while i < value.len()
        invariant
            i <= value.len(),
            out@ == slashed(value@.take(i as int)),
        decreases value.len() - i,
    {
        let c = value[i];
        out.push(if c == '\\' { '/' } else { c });
        assert(out@ =~= slashed(value@.take(i + 1)));
        i = i + 1;
    }
    assert(value@.take(value.len() as int) =~= value@);
    out
}

/// A Windows drive prefix such as `C:` at the start of a path.
pub open spec fn drive_prefix(p: Seq<char>) -> bool {
    p.len() >= 2 && p[1] == ':' && (('a' <= p[0] && p[0] <= 'z') || ('A' <= p[0] && p[0] <= 'Z'))
}

pub fn has_drive_prefix(p: &Vec<char>) -> (r: bool)
    ensures
        r == drive_prefix(p@),
{
    p.len() >= 2 && p[1] == ':' && (('a' <= p[0] && p[0] <= 'z') || ('A' <= p[0] && p[0] <= 'Z'))
}

/// The components of a path under Windows rules: both `/` and `\\` separate
/// (a drive prefix is judged by `drive_prefix`).
pub open spec fn win_components(p: Seq<char>) -> Seq<Comp> {
    components(slashed(p))
}

/// A path that stays inside the directory it is joined to: not empty, not
/// absolute (no leading separator, no drive prefix), and made of normal or
/// `.` components only, with either separator.
pub open spec fn stays_inside(p: Seq<char>) -> bool {
    &&& p.len() > 0
    &&& !starts_with_root(slashed(p))
    &&& !drive_prefix(p)
    &&& forall|i: int| 0 <= i < win_components(p).len() ==> is_normal_or_cur(#[trigger] win_components(p)[i])
}

pub fn path_stays_inside(p: &Vec<char>) -> (r: bool)
    ensures
        r == stays_inside(p@),
{
    let q = slashed_chars(p);
    if p.len() == 0 || q[0] == '/' || has_drive_prefix(p) {
        return false;
    }
    let comps = path_components(&q);
    let mut i: usize = 0;
    while i < comps.len()
        invariant
            i <= comps.len(),
            part_views(comps@) == win_components(p@),
            forall|j: int| 0 <= j < i ==> is_normal_or_cur(#[trigger] win_components(p@)[j]),
        decreases comps.len() - i,
    {
        match &comps[i] {
            PathPart::Normal(_) => {},
            PathPart::CurDir => {},
            _ => {
                assert(!is_normal_or_cur(win_components(p@)[i as int]));
                return false;
            },
        }
        i = i + 1;
    }
    true
}

/// Exactly one component, with either separator, and it is a normal name
/// without a drive prefix.
pub open spec fn single_component(p: Seq<char>) -> bool {
    win_components(p).len() == 1 && win_components(p)[0] is Normal && !drive_prefix(p)
}

pub fn is_single_path_component(value: &str) -> (r: bool)
    ensures
        r == single_component(value@),
{
    let chars = str_to_chars(value);
    if has_drive_prefix(&chars) {
        return false;
    }
    let comps = path_components(&slashed_chars(&chars));
    if comps.len() != 1 {
        return false;
    }
    match &comps[0] {
        PathPart::Normal(_) => true,
        _ => false,
    }
}

/// Names of the normal components.
pub open spec fn normal_names(cs: Seq<Comp>) -> Seq<Seq<char>>
    decreases cs.len(),
{
    if cs.len() == 0 {
        Seq::<Seq<char>>::empty()
    } else {
        let prev = normal_names(cs.drop_last());
        match cs.last() {
            Comp::Normal(n) => prev.push(n),
            _ => prev,
        }
    }
}

/// The normal components joined with `/`.
pub open spec fn portable(p: Seq<char>) -> Seq<char> {
    join(normal_names(components(p)), seq!['/'])
}

fn normal_names_of(comps: &Vec<PathPart>) -> (names: Vec<Vec<char>>)
    ensures
        views(names@) == normal_names(part_views(comps@)),
{
    let ghost cv = part_views(comps@);
    let mut names: Vec<Vec<char>> = Vec::new();
    let mut i: usize = 0;
    assert(cv.take(0) =~= Seq::<Comp>::empty());
    while i < comps.len()
        invariant
            i <= comps.len(),
            cv == part_views(comps@),
            views(names@) == normal_names(cv.take(i as int)),
        decreases comps.len() - i,
    {
        assert(cv.take(i + 1).drop_last() =~= cv.take(i as int));
        assert(cv.take(i + 1).last() == comps@[i as int].view());
        match &comps[i] {
            PathPart::Normal(n) => {
                let ghost before = views(names@);
                let copy = n.clone();
                names.push(copy);
                assert(views(names@) =~= before.push(n@));
                assert(views(names@) =~= normal_names(cv.take(i + 1)));
            },
            _ => {},
        }
        i = i + 1;
    }
    assert(cv.take(comps.len() as int) =~= cv);
    names
}

pub fn path_to_portable_string(path: &str) -> (r: String)
    ensures
        r@ == portable(path@),
{
    let chars = str_to_chars(path);
    let comps = path_components(&chars);
    let names = normal_names_of(&comps);
    let mut sep: Vec<char> = Vec::new();
    sep.push('/');
    assert(sep@ =~= seq!['/']);
    let joined = join_chars(&names, &sep);
    chars_to_string(&joined)
}

/// `PathBuf::push` on POSIX: an absolute piece replaces the path, otherwise
/// a `/` is inserted unless the path is empty or already ends with one.
pub open spec fn push_path(base: Seq<char>, piece: Seq<char>) -> Seq<char> {
    if starts_with_root(piece) {
        piece
    } else if base.len() == 0 || base.last() == '/' {
        base + piece
    } else {
        base + seq!['/'] + piece
    }
}

pub fn join_path(base: &str, piece: &str) -> (r: String)
    ensures
        r@ == push_path(base@, piece@),
{
    let b = str_to_chars(base);
    let p = str_to_chars(piece);
    let out = if p.len() > 0 && p[0] == '/' {
        p
    } else if b.len() == 0 || b[b.len() - 1] == '/' {
        concat_chars(&b, &p)
    } else {
        let mut with_sep = b.clone();
        with_sep.push('/');
        assert(with_sep@ =~= b@ + seq!['/']);
        concat_chars(&with_sep, &p)
    };
    chars_to_string(&out)
}

/// Collecting `/`-separated pieces into a `PathBuf` pushes them in order.
pub open spec fn collect_pieces(pieces: Seq<Seq<char>>) -> Seq<char>
    decreases pieces.len(),
{
    if pieces.len() == 0 {
        Seq::<char>::empty()
    } else {
        push_path(collect_pieces(pieces.drop_last()), pieces.last())
    }
}

pub fn collect_path(pieces: &Vec<Vec<char>>) -> (r: Vec<char>)
    ensures
        r@ == collect_pieces(views(pieces@)),
{
    let ghost pv = views(pieces@);
    let mut out: Vec<char> = Vec::new();
    let mut i: usize = 0;
    assert(pv.take(0) =~= Seq::<Seq<char>>::empty());
    while i < pieces.len()
        invariant
            i <= pieces.len(),
            pv == views(pieces@),
            out@ == collect_pieces(pv.take(i as int)),
        decreases pieces.len() - i,
    {
        let piece = &pieces[i];
        assert(pv.take(i + 1).drop_last() =~= pv.take(i as int));
        assert(pv.take(i + 1).last() == piece@);
        if piece.len() > 0 && piece[0] == '/' {
            out = piece.clone();
        } else if out.len() == 0 || out[out.len() - 1] == '/' {
            append_chars(&mut out, piece);
        } else {
            out.push('/');
            append_chars(&mut out, piece);
            assert(out@ =~= collect_pieces(pv.take(i + 1)));
        }
        i = i + 1;
    }
    assert(pv.take(pieces.len() as int) =~= pv);
    out
}

/// `Path::file_name`: the last component when it is a normal name.
pub open spec fn file_name(p: Seq<char>) -> Option<Seq<char>> {
    let cs = components(p);
    if cs.len() > 0 && cs.last() is Normal {
        Some(cs.last()->Normal_0)
    } else {
        None
    }
}

/// Index of the last `.` in a name, if any.
pub open spec fn last_dot(n: Seq<char>) -> Option<int>
    decreases n.len(),
{
    if n.len() == 0 {
        None
    } else if n.last() == '.' {
        Some(n.len() - 1)
    } else {
        last_dot(n.drop_last())
    }
}

/// `Path::file_stem` of a file name: the part before the last `.`, unless
/// that part is empty (a name such as `.profile`).
pub open spec fn stem_of(name: Seq<char>) -> Seq<char> {
    if name == dotdot() {
        name
    } else {
        match last_dot(name) {
            Some(k) => if k == 0 {
                name
            } else {
                name.subrange(0, k)
            },
            None => name,
        }
    }
}

pub open spec fn file_stem(p: Seq<char>) -> Option<Seq<char>> {
    match file_name(p) {
        Some(n) => Some(stem_of(n)),
        None => None,
    }
}

proof fn lemma_last_dot_bound(n: Seq<char>)
    ensures
        last_dot(n) matches Some(k) ==> 0 <= k < n.len() && n[k] == '.',
    decreases n.len(),
{
    if n.len() > 0 && n.last() != '.' {
        lemma_last_dot_bound(n.drop_last());
    }
}

fn find_last_dot(n: &Vec<char>) -> (r: Option<usize>)
    ensures
        match r {
            Some(k) => last_dot(n@) == Some(k as int),
            None => last_dot(n@) is None,
        },
{
    let mut j = n.len();
    assert(n@.subrange(0, j as int) =~= n@);
    while j > 0
        invariant
            j <= n.len(),
            last_dot(n@) == last_dot(n@.subrange(0, j as int)),
        decreases j,
    {
        if n[j - 1] == '.' {
            return Some(j - 1);
        }
        assert(n@.subrange(0, j as int).drop_last() =~= n@.subrange(0, j - 1));
        j = j - 1;
    }
    None
}

pub fn path_file_stem(p: &Vec<char>) -> (r: Option<Vec<char>>)
    ensures
        match r {
            Some(v) => file_stem(p@) == Some(v@),
            None => file_stem(p@) is None,
        },
{
    let comps = path_components(p);
    if comps.len() == 0 {
        return None;
    }
    let last = &comps[comps.len() - 1];
    assert(part_views(comps@).last() == last.view());
    match last {
        PathPart::Normal(name) => {
            if is_dotdot(name) {
                return Some(name.clone());
            }
            match find_last_dot(name) {
                Some(k) => {
                    proof {
                        lemma_last_dot_bound(name@);
                    }
                    if k == 0 {
                        Some(name.clone())
                    } else {
                        Some(slice_chars(name, 0, k))
                    }
                },
                None => Some(name.clone()),
            }
        },
        _ => None,
    }
}

/// `Path::extension` of a file name: the part after the last `.`, unless
/// the name has none or only a leading one.
pub open spec fn extension_of(name: Seq<char>) -> Option<Seq<char>> {
    if name == dotdot() {
        None
    } else {
        match last_dot(name) {
            Some(k) => if k == 0 {
                None
            } else {
                Some(name.subrange(k + 1, name.len() as int))
            },
            None => None,
        }
    }
}

pub open spec fn file_extension(p: Seq<char>) -> Option<Seq<char>> {
    match file_name(p) {
        Some(n) => extension_of(n),
        None => None,
    }
}

pub fn path_extension(p: &Vec<char>) -> (r: Option<Vec<char>>)
    ensures
        match r {
            Some(v) => file_extension(p@) == Some(v@),
            None => file_extension(p@) is None,
        },
{
    let comps = path_components(p);
    if comps.len() == 0 {
        return None;
    }
    let last = &comps[comps.len() - 1];
    assert(part_views(comps@).last() == last.view());
    match last {
        PathPart::Normal(name) => {
            if is_dotdot(name) {
                return None;
            }
            match find_last_dot(name) {
                Some(k) => {
                    proof {
                        lemma_last_dot_bound(name@);
                    }
                    if k == 0 {
                        None
                    } else {
                        Some(slice_chars(name, k + 1, name.len()))
                    }
                },
                None => None,
            }
        },
        _ => None,
    }
}


// ----- portable round trip -----
/// A name that a normal component can have: not empty, not `.` or `..`,
/// and without `/`.
pub open spec fn plain_name(n: Seq<char>) -> bool {
    n.len() > 0 && n != dot() && n != dotdot() && !n.contains('/')
}

proof fn lemma_split_pieces(s: Seq<char>, sep: char)
    ensures
        forall|k: int| 0 <= k < split_char(s, sep).len() ==> !(#[trigger] split_char(s, sep)[k]).contains(sep),
    decreases s.len(),
{
    lemma_split_char_nonempty(s, sep);
    if s.len() > 0 {
        lemma_split_pieces(s.drop_last(), sep);
        lemma_split_char_nonempty(s.drop_last(), sep);
        let prev = split_char(s.drop_last(), sep);
        let r = split_char(s, sep);
        assert forall|k: int| 0 <= k < r.len() implies !(#[trigger] r[k]).contains(sep) by {
            if s.last() != sep && k == prev.len() - 1 {
                let piece = prev.last().push(s.last());
                assert(r[k] == piece);
                assert(!prev[prev.len() - 1].contains(sep));
                if piece.contains(sep) {
                    let j = choose|j: int| 0 <= j < piece.len() && piece[j] == sep;
                    if j < prev.last().len() {
                        assert(prev.last()[j] == sep);
                        assert(prev[prev.len() - 1].contains(sep));
                    }
                }
            } else if k < prev.len() {
                assert(r[k] == prev[k]);
            } else {
                assert(r[k] == Seq::<char>::empty());
            }
        }
    }
}

proof fn lemma_split_append(x: Seq<char>, b: Seq<char>, sep: char)
    requires
        !b.contains(sep),
    ensures
        split_char(x + b, sep) == split_char(x, sep).update(
            split_char(x, sep).len() - 1,
            split_char(x, sep).last() + b,
        ),
    decreases b.len(),
{
    lemma_split_char_nonempty(x, sep);
    if b.len() == 0 {
        assert(x + b =~= x);
        assert(split_char(x, sep).last() + b =~= split_char(x, sep).last());
        assert(split_char(x, sep).update(split_char(x, sep).len() - 1, split_char(x, sep).last()) =~= split_char(x, sep));
    } else {
        let bd = b.drop_last();
        assert(!bd.contains(sep)) by {
            if bd.contains(sep) {
                let j = choose|j: int| 0 <= j < bd.len() && bd[j] == sep;
                assert(b[j] == sep);
            }
        }
        lemma_split_append(x, bd, sep);
        assert((x + b).drop_last() =~= x + bd);
        assert((x + b).last() == b.last());
        assert(b.last() != sep) by {
            assert(b[b.len() - 1] == b.last());
        }
        let px = split_char(x, sep);
        let prev = split_char(x + bd, sep);
        assert(prev.len() == px.len());
        assert(prev.last() == px.last() + bd);
        assert((px.last() + bd).push(b.last()) =~= px.last() + b);
        assert(split_char(x + b, sep) == prev.update(prev.len() - 1, prev.last().push(b.last())));
        assert(split_char(x + b, sep) =~= px.update(px.len() - 1, px.last() + b));
    }
}

proof fn lemma_split_join(names: Seq<Seq<char>>)
    requires
        names.len() >= 1,
        forall|k: int| 0 <= k < names.len() ==> !(#[trigger] names[k]).contains('/'),
    ensures
        split_char(join(names, seq!['/']), '/') == names,
    decreases names.len(),
{
    if names.len() == 1 {
        lemma_split_append(Seq::empty(), names[0], '/');
        assert(Seq::<char>::empty() + names[0] =~= names[0]);
        assert(split_char(Seq::<char>::empty(), '/') == seq![Seq::<char>::empty()]);
        assert(Seq::<char>::empty() + names[0] =~= names[0]);
        assert(split_char(names[0], '/') =~= names);
    } else {
        let dl = names.drop_last();
        assert forall|k: int| 0 <= k < dl.len() implies !(#[trigger] dl[k]).contains('/') by {
            assert(dl[k] == names[k]);
        }
        lemma_split_join(dl);
        let a = join(dl, seq!['/']);
        let last = names.last();
        assert(!names[names.len() - 1].contains('/'));
        let with_sep = a + seq!['/'];
        assert(with_sep.drop_last() =~= a);
        assert(split_char(with_sep, '/') == dl.push(Seq::<char>::empty()));
        lemma_split_append(with_sep, last, '/');
        assert(join(names, seq!['/']) == with_sep + last);
        assert(Seq::<char>::empty() + last =~= last);
        assert(dl.push(Seq::<char>::empty()).update(dl.len() as int, Seq::<char>::empty() + last) =~= names);
    }
}

proof fn lemma_join_last(names: Seq<Seq<char>>)
    requires
        names.len() >= 1,
        names.last().len() > 0,
    ensures
        join(names, seq!['/']).len() > 0,
        join(names, seq!['/']).last() == names.last().last(),
{
    if names.len() > 1 {
        let j = join(names, seq!['/']);
        assert(j == join(names.drop_last(), seq!['/']) + seq!['/'] + names.last());
    }
}

proof fn lemma_collect_join(names: Seq<Seq<char>>)
    requires
        forall|k: int| 0 <= k < names.len() ==> plain_name(#[trigger] names[k]),
    ensures
        collect_pieces(names) == join(names, seq!['/']),
    decreases names.len(),
{
    if names.len() > 0 {
        let dl = names.drop_last();
        assert forall|k: int| 0 <= k < dl.len() implies plain_name(#[trigger] dl[k]) by {
            assert(dl[k] == names[k]);
        }
        lemma_collect_join(dl);
        let last = names.last();
        assert(plain_name(names[names.len() - 1]));
        assert(!starts_with_root(last)) by {
            if starts_with_root(last) {
                assert(last[0] == '/');
                assert(last.contains('/'));
            }
        }
        if dl.len() == 0 {
            assert(Seq::<char>::empty() + last =~= last);
        } else {
            lemma_join_last(dl);
            assert(plain_name(dl[dl.len() - 1]));
            let dlast = dl.last();
            assert(dlast.last() != '/') by {
                assert(dlast[dlast.len() - 1] == dlast.last());
                if dlast.last() == '/' {
                    assert(dlast.contains('/'));
                }
            }
        }
    }
}

proof fn lemma_seg_comps_plain(segs: Seq<Seq<char>>)
    requires
        forall|k: int| 0 <= k < segs.len() ==> plain_name(#[trigger] segs[k]),
    ensures
        seg_comps(segs) == segs.map_values(|n: Seq<char>| Comp::Normal(n)),
    decreases segs.len(),
{
    if segs.len() > 0 {
        let dl = segs.drop_last();
        assert forall|k: int| 0 <= k < dl.len() implies plain_name(#[trigger] dl[k]) by {
            assert(dl[k] == segs[k]);
        }
        lemma_seg_comps_plain(dl);
        assert(plain_name(segs[segs.len() - 1]));
        assert(segs.map_values(|n: Seq<char>| Comp::Normal(n)) =~= dl.map_values(|n: Seq<char>| Comp::Normal(n)).push(Comp::Normal(segs.last())));
    }
}

proof fn lemma_seg_comps_names(segs: Seq<Seq<char>>)
    requires
        forall|k: int| 0 <= k < segs.len() ==> !(#[trigger] segs[k]).contains('/'),
    ensures
        forall|k: int| 0 <= k < normal_names(seg_comps(segs)).len() ==> plain_name(#[trigger] normal_names(seg_comps(segs))[k]),
    decreases segs.len(),
{
    if segs.len() > 0 {
        let dl = segs.drop_last();
        assert forall|k: int| 0 <= k < dl.len() implies !(#[trigger] dl[k]).contains('/') by {
            assert(dl[k] == segs[k]);
        }
        lemma_seg_comps_names(dl);
        let prev = seg_comps(dl);
        let s = segs.last();
        assert(!segs[segs.len() - 1].contains('/'));
        if s.len() == 0 || s == dot() {
        } else if s == dotdot() {
            assert(prev.push(Comp::ParentDir).drop_last() =~= prev);
            assert(normal_names(prev.push(Comp::ParentDir)) == normal_names(prev));
        } else {
            assert(prev.push(Comp::Normal(s)).drop_last() =~= prev);
            assert(normal_names(prev.push(Comp::Normal(s))) == normal_names(prev).push(s));
            assert(plain_name(s));
            let nn = normal_names(prev.push(Comp::Normal(s)));
            assert forall|k: int| 0 <= k < nn.len() implies plain_name(#[trigger] nn[k]) by {
                if k < normal_names(prev).len() {
                    assert(nn[k] == normal_names(prev)[k]);
                }
            }
        }
    }
}

proof fn lemma_all_normal_names(cs: Seq<Comp>)
    requires
        forall|k: int| 0 <= k < cs.len() ==> (#[trigger] cs[k]) is Normal,
    ensures
        normal_names(cs).map_values(|n: Seq<char>| Comp::Normal(n)) == cs,
        normal_names(cs).len() == cs.len(),
    decreases cs.len(),
{
    if cs.len() > 0 {
        let dl = cs.drop_last();
        assert forall|k: int| 0 <= k < dl.len() implies (#[trigger] dl[k]) is Normal by {
            assert(dl[k] == cs[k]);
        }
        lemma_all_normal_names(dl);
        assert(cs[cs.len() - 1] is Normal);
        assert(cs.drop_last() == dl);
        match cs.last() {
            Comp::Normal(n) => {
                let m = normal_names(dl);
                assert(normal_names(cs) == m.push(n));
                assert(m.push(n).map_values(|x: Seq<char>| Comp::Normal(x)) =~= m.map_values(
                    |x: Seq<char>| Comp::Normal(x),
                ).push(Comp::Normal(n)));
                assert(m.map_values(|x: Seq<char>| Comp::Normal(x)) == dl);
                assert(dl.push(cs.last()) =~= cs);
            },
            _ => {},
        }
    }
}

/// Path round trip: for a path made only of normal components, reading its
/// portable text back (splitting at `/` and pushing the pieces, as
/// `portable_string_to_path` does) gives that text again, and it has the
/// same components as the path.
pub proof fn law_portable_path_round_trip(p: Seq<char>)
    requires
        forall|k: int| 0 <= k < components(p).len() ==> (#[trigger] components(p)[k]) is Normal,
    ensures
        collect_pieces(split_char(portable(p), '/')) == portable(p),
        components(portable(p)) == components(p),
{
    let segs = split_char(p, '/');
    lemma_split_pieces(p, '/');
    lemma_split_char_nonempty(p, '/');
    let head = if starts_with_root(p) {
        seq![Comp::RootDir]
    } else if segs[0] == dot() {
        seq![Comp::CurDir]
    } else {
        Seq::<Comp>::empty()
    };
    assert(components(p) == head + seg_comps(segs));
    if head.len() > 0 {
        assert(components(p)[0] == head[0]);
    }
    assert(head.len() == 0);
    assert(components(p) =~= seg_comps(segs));
    lemma_seg_comps_names(segs);
    let names = normal_names(components(p));
    lemma_all_normal_names(components(p));
    assert(forall|k: int| 0 <= k < names.len() ==> plain_name(#[trigger] names[k]));
    let text = join(names, seq!['/']);
    assert(portable(p) == text);
    lemma_collect_join(names);
    if names.len() == 0 {
        assert(text == Seq::<char>::empty());
        assert(split_char(text, '/') == seq![Seq::<char>::empty()]);
        assert(seq![Seq::<char>::empty()].drop_last() =~= Seq::<Seq<char>>::empty());
        assert(dot().len() == 1);
        assert(seg_comps(seq![Seq::<char>::empty()]) == seg_comps(Seq::<Seq<char>>::empty()));
        assert(collect_pieces(seq![Seq::<char>::empty()]) == push_path(Seq::<char>::empty(), Seq::<char>::empty()));
        assert(Seq::<char>::empty() + Seq::<char>::empty() =~= Seq::<char>::empty());
        assert(components(text) =~= Seq::<Comp>::empty());
        assert(components(p) =~= Seq::<Comp>::empty());
    } else {
        assert forall|k: int| 0 <= k < names.len() implies !(#[trigger] names[k]).contains('/') by {
            assert(plain_name(names[k]));
        }
        lemma_split_join(names);
        lemma_seg_comps_plain(names);
        assert(plain_name(names[0]));
        assert(!starts_with_root(text)) by {
            if names.len() == 1 {
                assert(text == names[0]);
            } else {
                lemma_join_first(names);
            }
            if text[0] == '/' {
                assert(names[0][0] == '/');
                assert(names[0].contains('/'));
            }
        }
        assert(components(text) =~= seg_comps(names));
    }
}

proof fn lemma_join_first(names: Seq<Seq<char>>)
    requires
        names.len() >= 1,
        names[0].len() > 0,
    ensures
        join(names, seq!['/']).len() > 0,
        join(names, seq!['/'])[0] == names[0][0],
    decreases names.len(),
{
    if names.len() > 1 {
        lemma_join_first(names.drop_last());
        assert(names.drop_last()[0] == names[0]);
    }
}

} // verus!
