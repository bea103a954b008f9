//! Locating a finished Soulseek download on disk.
//!
//! slskd receives remote paths such as `music\Artist\Album\track.flac` and
//! stores the file locally under the last two path components, with the
//! characters that are invalid in Windows file names replaced by `_`, and
//! sometimes with a `_<ticks>` suffix appended to the stem to avoid a name
//! collision. [`resolve_download_path`] turns a remote name into the ordered
//! list of places to look; the caller checks them against the file system
//! and takes the first hit. [`match_stem_entry`] decides, for one directory
//! entry, whether it is the expected file.
use vstd::prelude::*;

use crate::paths::{
    path_extension, path_file_name, path_file_stem, path_parent, spec_path_extension,
    spec_path_file_name, spec_path_file_stem, spec_path_parent,
};
use crate::text::{
    chars_of, is_prefix, join_from, join_spec, push_all, push_char, spec_lowercase, starts_with,
    str_eq, string_from_chars, to_lowercase, views,
};

verus! {

/// Characters that slskd replaces in file names: `< > : " / \ | ? *` and NUL.
pub open spec fn is_invalid_filename_char(c: char) -> bool {
    c == '<' || c == '>' || c == ':' || c == '"' || c == '/' || c == '\\' || c == '|' || c == '?'
        || c == '*' || c == '\0'
}

/// `name` with every invalid file-name character replaced by `_`.
pub open spec fn sanitize_spec(name: Seq<char>) -> Seq<char> {
    Seq::new(name.len(), |i: int| if is_invalid_filename_char(name[i]) { '_' } else { name[i] })
}

/// `name` with every backslash turned into a forward slash.
pub open spec fn unix_separators(name: Seq<char>) -> Seq<char> {
    Seq::new(name.len(), |i: int| if name[i] == '\\' { '/' } else { name[i] })
}

/// Splitting `s` at `sep`, left to right: the pieces completed so far (empty
/// pieces dropped) and the piece still being read.
pub open spec fn split_state(s: Seq<char>, sep: char) -> (Seq<Seq<char>>, Seq<char>)
    decreases s.len(),
{
    if s.len() == 0 {
        (Seq::empty(), Seq::empty())
    } else {
        let (done, cur) = split_state(s.drop_last(), sep);
        if s.last() == sep {
            (if cur.len() > 0 { done.push(cur) } else { done }, Seq::empty())
        } else {
            (done, cur.push(s.last()))
        }
    }
}

/// The non-empty pieces of `s` between occurrences of `sep`
/// (`s.split(sep).filter(|p| !p.is_empty())`).
pub open spec fn split_nonempty(s: Seq<char>, sep: char) -> Seq<Seq<char>> {
    let (done, cur) = split_state(s, sep);
    if cur.len() > 0 {
        done.push(cur)
    } else {
        done
    }
}

/// A place to look for a downloaded file, relative to the download directory.
#[derive(Clone, Debug, PartialEq, Eq)]
pub enum PathProbe {
    /// The file at this path (joined onto the download directory) exists.
    Exists(String),
    /// Directory `dir` (joined onto the download directory) holds a file that
    /// [`match_stem_entry`] accepts for the pattern of `file`.
    StemSearch { dir: String, file: String },
    /// Some directory below the download directory, at most
    /// [`MAX_SEARCH_DEPTH`] levels down, holds a file that
    /// [`match_stem_entry`] accepts for the pattern of this name.
    RecursiveSearch(String),
}

/// The characters of a [`PathProbe`].
pub enum PathProbeView {
    Exists(Seq<char>),
    StemSearch { dir: Seq<char>, file: Seq<char> },
    RecursiveSearch(Seq<char>),
}

impl View for PathProbe {
    type V = PathProbeView;

    open spec fn view(&self) -> PathProbeView {
        match self {
            PathProbe::Exists(p) => PathProbeView::Exists(p@),
            PathProbe::StemSearch { dir, file } => PathProbeView::StemSearch {
                dir: dir@,
                file: file@,
            },
            PathProbe::RecursiveSearch(f) => PathProbeView::RecursiveSearch(f@),
        }
    }
}

/// The views of a sequence of probes.
pub open spec fn probe_views(v: Seq<PathProbe>) -> Seq<PathProbeView> {
    v.map_values(|p: PathProbe| p@)
}

/// How deep the recursive search descends below the download directory.
pub const MAX_SEARCH_DEPTH: usize = 5;

/// The probes for the slskd file name `filename`, in the order they are tried:
///
/// 1. the last two components, sanitized (`Album/track.flac`), then the same
///    directory searched for a collision-suffixed name; or, for a bare file
///    name, that name sanitized;
/// 2. the whole name relative to the download directory;
/// 3. the name without a leading `@@user` component;
/// 4. the last three components (`Artist/Album/track.flac`);
/// 5. a recursive search for the sanitized file name.
///
/// No probe at all when the name has no components.
pub open spec fn download_probes(filename: Seq<char>) -> Seq<PathProbeView> {
    let f = unix_separators(filename);
    let comps = split_nonempty(f, '/');
    let n = comps.len();
    if n == 0 {
        Seq::empty()
    } else {
        let first = if n >= 2 {
            let dir = sanitize_spec(comps[n - 2]);
            let file = sanitize_spec(comps[n - 1]);
            seq![
                PathProbeView::Exists(dir + seq!['/'] + file),
                PathProbeView::StemSearch { dir: dir, file: file },
            ]
        } else {
            seq![PathProbeView::Exists(sanitize_spec(comps[0]))]
        };
        let whole = seq![PathProbeView::Exists(f)];
        let without_user = if is_prefix(seq!['@', '@'], comps[0]) && n > 1 {
            seq![PathProbeView::Exists(join_spec(comps.skip(1), seq!['/']))]
        } else {
            Seq::empty()
        };
        let last_three = if n >= 3 {
            seq![PathProbeView::Exists(join_spec(comps.skip(n - 3), seq!['/']))]
        } else {
            Seq::empty()
        };
        let recursive = match spec_path_file_name(f) {
            Some(name) => seq![PathProbeView::RecursiveSearch(sanitize_spec(name))],
            None => Seq::empty(),
        };
        first + whole + without_user + last_three + recursive
    }
}

/// Replace the characters that are invalid in file names with `_`, as slskd
/// does.
pub fn sanitize_filename(name: &str) -> (r: String)
    ensures
        r@ == sanitize_spec(name@),
{
    let cs = chars_of(name);
    let mut out: Vec<char> = Vec::new();
    let mut i: usize = 0;
    while i < cs.len()
        invariant
            cs@ == name@,
            i <= cs.len(),
            out@ == sanitize_spec(cs@.take(i as int)),
        decreases cs.len() - i,
    {
        let c = cs[i];
        if c == '<' || c == '>' || c == ':' || c == '"' || c == '/' || c == '\\' || c == '|' || c
            == '?' || c == '*' || c == '\0' {
            out.push('_');
        } else {
            out.push(c);
        }
        assert(sanitize_spec(cs@.take(i + 1)) =~= sanitize_spec(cs@.take(i as int)).push(
            out@.last(),
        ));
        i += 1;
    }
    assert(cs@.take(cs@.len() as int) =~= cs@);
    string_from_chars(&out)
}

/// `cs` with every backslash turned into a forward slash.
fn to_unix_separators(cs: &Vec<char>) -> (r: Vec<char>)
    ensures
        r@ == unix_separators(cs@),
{
    let mut out: Vec<char> = Vec::new();
    let mut i: usize = 0;
    while i < cs.len()
        invariant
            i <= cs.len(),
            out@ == unix_separators(cs@.take(i as int)),
        decreases cs.len() - i,
    {
        if cs[i] == '\\' {
            out.push('/');
        } else {
            out.push(cs[i]);
        }
        assert(unix_separators(cs@.take(i + 1)) =~= unix_separators(cs@.take(i as int)).push(
            out@.last(),
        ));
        i += 1;
    }
    assert(cs@.take(cs@.len() as int) =~= cs@);
    out
}

/// The non-empty pieces of `cs` between occurrences of `sep`.
pub fn split_nonempty_pieces(cs: &Vec<char>, sep: char) -> (r: Vec<String>)
    ensures
        views(r@) == split_nonempty(cs@, sep),
{
    let mut done: Vec<String> = Vec::new();
    let mut cur: Vec<char> = Vec::new();
    let mut i: usize = 0;
    while i < cs.len()
        invariant
            i <= cs.len(),
            (views(done@), cur@) == split_state(cs@.take(i as int), sep),
        decreases cs.len() - i,
    {
        assert(cs@.take(i + 1).drop_last() =~= cs@.take(i as int));
        if cs[i] == sep {
            if cur.len() > 0 {
                let piece = string_from_chars(&cur);
                done.push(piece);
                assert(views(done@) =~= views(done@.drop_last()).push(cur@));
            }
            cur = Vec::new();
        } else {
            cur.push(cs[i]);
        }
        i += 1;
    }
    assert(cs@.take(cs@.len() as int) =~= cs@);
    if cur.len() > 0 {
        let piece = string_from_chars(&cur);
        done.push(piece);
        assert(views(done@) =~= views(done@.drop_last()).push(cur@));
    }
    done
}

/// `a + "/" + b`.
fn slash_join(a: &str, b: &str) -> (r: String)
    ensures
        r@ == a@ + seq!['/'] + b@,
{
    let mut r = String::new();
    push_all(&mut r, a);
    push_char(&mut r, '/');
    push_all(&mut r, b);
    r
}

/// The places to look for the slskd download `filename`, in order (see
/// [`download_probes`]). The first probe that the file system confirms is the
/// resolved path; an empty list, or none confirmed, means the file cannot be
/// found.
pub fn resolve_download_path(filename: &str) -> (r: Vec<PathProbe>)
    ensures
        probe_views(r@) == download_probes(filename@),
{
    let raw = chars_of(filename);
    let f = to_unix_separators(&raw);
    let comps = split_nonempty_pieces(&f, '/');
    let n = comps.len();
    let ghost spec_comps = split_nonempty(unix_separators(filename@), '/');
    let mut probes: Vec<PathProbe> = Vec::new();
    if n == 0 {
        assert(probe_views(probes@) =~= download_probes(filename@));
        return probes;
    }
    assert(comps@[0]@ == spec_comps[0]);
    // Strategy 1: slskd keeps only the directory and the file name.
    if n >= 2 {
        assert(comps@[n - 2]@ == spec_comps[n - 2]);
        assert(comps@[n - 1]@ == spec_comps[n - 1]);
        let dir = sanitize_filename(comps[n - 2].as_str());
        let file = sanitize_filename(comps[n - 1].as_str());
        let joined = slash_join(dir.as_str(), file.as_str());
        probes.push(PathProbe::Exists(joined));
        probes.push(PathProbe::StemSearch { dir, file });
    } else {
        let file = sanitize_filename(comps[0].as_str());
        probes.push(PathProbe::Exists(file));
    }
    let ghost first = probe_views(probes@);
    // Strategy 2: the full remote structure under the download directory.
    let whole = string_from_chars(&f);
    probes.push(PathProbe::Exists(whole));
    let ghost upto_whole = probe_views(probes@);
    // Strategy 3: without a leading `@@user` component.
    let at_at = starts_with(comps[0].as_str(), "@@");
    proof {
        reveal_strlit("@@");
        assert("@@"@ =~= seq!['@', '@']);
    }
    if at_at && n > 1 {
        let rest = join_from(&comps, 1, "/");
        proof {
            reveal_strlit("/");
            assert("/"@ =~= seq!['/']);
            assert(views(comps@.skip(1)) =~= spec_comps.skip(1));
        }
        probes.push(PathProbe::Exists(rest));
    }
    let ghost upto_user = probe_views(probes@);
    // Strategy 4: artist/album/track.
    if n >= 3 {
        let three = join_from(&comps, n - 3, "/");
        proof {
            reveal_strlit("/");
            assert("/"@ =~= seq!['/']);
            assert(views(comps@.skip(n - 3)) =~= spec_comps.skip(n - 3));
        }
        probes.push(PathProbe::Exists(three));
    }
    let ghost upto_three = probe_views(probes@);
    // Strategy 5: recursive search for the file name.
    let whole_again = string_from_chars(&f);
    match path_file_name(whole_again.as_str()) {
        Some(name) => {
            let sanitized = sanitize_filename(name.as_str());
            probes.push(PathProbe::RecursiveSearch(sanitized));
        },
        None => {},
    }
    proof {
        let spec = download_probes(filename@);
        let fv = unix_separators(filename@);
        assert(whole@ == fv);
        assert(views(comps@.skip(1)) =~= spec_comps.skip(1));
        if n >= 3 {
            assert(views(comps@.skip(n - 3)) =~= spec_comps.skip(n - 3));
        }
        let sfirst = if n >= 2 {
            let dir = sanitize_spec(spec_comps[n - 2]);
            let file = sanitize_spec(spec_comps[n - 1]);
            seq![
                PathProbeView::Exists(dir + seq!['/'] + file),
                PathProbeView::StemSearch { dir: dir, file: file },
            ]
        } else {
            seq![PathProbeView::Exists(sanitize_spec(spec_comps[0]))]
        };
        assert(first =~= sfirst);
        assert(upto_whole =~= sfirst + seq![PathProbeView::Exists(fv)]);
        let suser = if is_prefix(seq!['@', '@'], spec_comps[0]) && n > 1 {
            seq![PathProbeView::Exists(join_spec(spec_comps.skip(1), seq!['/']))]
        } else {
            Seq::empty()
        };
        assert(upto_user =~= upto_whole + suser);
        let sthree = if n >= 3 {
            seq![PathProbeView::Exists(join_spec(spec_comps.skip(n - 3), seq!['/']))]
        } else {
            Seq::empty()
        };
        assert(upto_three =~= upto_user + sthree);
        assert(probe_views(probes@) =~= spec);
    }
    probes
}

/// The pattern that [`match_stem_entry`] compares directory entries against:
/// the expected file name, its stem and its extension, all lower-cased.
pub struct StemPattern {
    pub name: String,
    pub stem: String,
    pub extension: Option<String>,
}

/// The pattern for `expected_filename`, or `None` when the name has no stem
/// (then no entry can match).
pub fn stem_pattern(expected_filename: &str) -> (r: Option<StemPattern>)
    ensures
        match spec_path_file_stem(expected_filename@) {
            None => r is None,
            Some(stem) => r matches Some(p) && p.name@ == spec_lowercase(expected_filename@)
                && p.stem@ == spec_lowercase(stem) && match spec_path_extension(
                expected_filename@,
            ) {
                None => p.extension is None,
                Some(e) => p.extension matches Some(pe) && pe@ == spec_lowercase(e),
            },
        },
{
    let stem = match path_file_stem(expected_filename) {
        Some(s) => s,
        None => return None,
    };
    let extension = match path_extension(expected_filename) {
        Some(e) => Some(to_lowercase(e.as_str())),
        None => None,
    };
    Some(
        StemPattern {
            name: to_lowercase(expected_filename),
            stem: to_lowercase(stem.as_str()),
            extension,
        },
    )
}

/// The verdict on one directory entry.
#[derive(PartialEq, Eq, Structural, Clone, Copy, Debug)]
pub enum EntryMatch {
    /// The entry is the expected file.
    Found,
    /// The entry is some other file.
    NotFound,
    /// The entry has no file name or no stem: the whole search gives up.
    Abort,
}

/// Every character is an ASCII digit.
pub open spec fn all_ascii_digits(s: Seq<char>) -> bool {
    forall|i: int| 0 <= i < s.len() ==> '0' <= #[trigger] s[i] && s[i] <= '9'
}

/// `stem` is `expected` followed by `_` and one or more ASCII digits (the
/// `_<ticks>` collision suffix slskd appends).
pub open spec fn is_collision_stem(stem: Seq<char>, expected: Seq<char>) -> bool {
    &&& is_prefix(expected, stem)
    &&& stem.len() > expected.len() + 1
    &&& stem[expected.len() as int] == '_'
    &&& all_ascii_digits(stem.skip(expected.len() as int + 1))
}

/// The lower-cased extension of a path, if it has one.
pub open spec fn lower_extension(path: Seq<char>) -> Option<Seq<char>> {
    match spec_path_extension(path) {
        Some(e) => Some(spec_lowercase(e)),
        None => None,
    }
}

/// The verdict on the directory entry at `entry_path` for pattern `p`: found
/// when its lower-cased file name equals the expected one, or when it has
/// the same extension and its stem is the expected stem with a collision
/// suffix.
pub open spec fn stem_entry_verdict(
    name: Seq<char>,
    stem: Seq<char>,
    extension: Option<Seq<char>>,
    entry_path: Seq<char>,
) -> EntryMatch {
    match spec_path_file_name(entry_path) {
        None => EntryMatch::Abort,
        Some(n) => if spec_lowercase(n) == name {
            EntryMatch::Found
        } else {
            match spec_path_file_stem(entry_path) {
                None => EntryMatch::Abort,
                Some(s) => if lower_extension(entry_path) == extension && is_collision_stem(
                    spec_lowercase(s),
                    stem,
                ) {
                    EntryMatch::Found
                } else {
                    EntryMatch::NotFound
                },
            }
        },
    }
}

/// The view of an optional string.
pub open spec fn opt_view(o: Option<String>) -> Option<Seq<char>> {
    match o {
        Some(s) => Some(s@),
        None => None,
    }
}

/// Whether two optional strings are equal.
pub fn opt_str_eq(a: &Option<String>, b: &Option<String>) -> (r: bool)
    ensures
        r == (opt_view(*a) == opt_view(*b)),
{
    match (a, b) {
        (Some(x), Some(y)) => str_eq(x.as_str(), y.as_str()),
        (None, None) => true,
        _ => false,
    }
}

/// Whether `stem` is `expected` followed by `_` and one or more ASCII digits.
fn collision_stem(stem: &str, expected: &str) -> (r: bool)
    ensures
        r == is_collision_stem(stem@, expected@),
{
    if !starts_with(stem, expected) {
        return false;
    }
    let s = chars_of(stem);
    let e = chars_of(expected);
    if s.len() <= e.len() || s.len() - e.len() <= 1 || s[e.len()] != '_' {
        return false;
    }
    let mut i = e.len() + 1;
    while i < s.len()
        invariant
            s@ == stem@,
            e@ == expected@,
            e.len() + 1 <= i <= s.len(),
            forall|j: int| e.len() + 1 <= j < i ==> '0' <= #[trigger] s@[j] && s@[j] <= '9',
        decreases s.len() - i,
    {
        if s[i] < '0' || s[i] > '9' {
            assert(stem@.skip(e@.len() as int + 1)[i - e.len() - 1] == s@[i as int]);
            return false;
        }
        i += 1;
    }
    assert forall|j: int| 0 <= j < stem@.skip(e@.len() as int + 1).len() implies '0'
        <= #[trigger] stem@.skip(e@.len() as int + 1)[j] && stem@.skip(e@.len() as int + 1)[j] <= '9' by {
        assert(stem@.skip(e@.len() as int + 1)[j] == s@[j + e.len() + 1]);
    }
    true
}

/// Decide whether the directory entry at `entry_path` is the file that
/// pattern `p` expects (see [`stem_entry_verdict`]).
pub fn match_stem_entry(p: &StemPattern, entry_path: &str) -> (r: EntryMatch)
    ensures
        r == stem_entry_verdict(p.name@, p.stem@, opt_view(p.extension), entry_path@),
{
    let name = match path_file_name(entry_path) {
        Some(n) => n,
        None => return EntryMatch::Abort,
    };
    let lower_name = to_lowercase(name.as_str());
    if str_eq(lower_name.as_str(), p.name.as_str()) {
        return EntryMatch::Found;
    }
    let stem = match path_file_stem(entry_path) {
        Some(s) => s,
        None => return EntryMatch::Abort,
    };
    let lower_stem = to_lowercase(stem.as_str());
    let ext = match path_extension(entry_path) {
        Some(e) => Some(to_lowercase(e.as_str())),
        None => None,
    };
    if opt_str_eq(&ext, &p.extension) && collision_stem(lower_stem.as_str(), p.stem.as_str()) {
        EntryMatch::Found
    } else {
        EntryMatch::NotFound
    }
}

/// Whether the recursive search may look at a directory `depth` levels below
/// where it started.
pub fn search_depth_allowed(depth: usize) -> (r: bool)
    ensures
        r == (depth <= MAX_SEARCH_DEPTH),
{
    depth <= MAX_SEARCH_DEPTH
}

/// The album directory of a resolved file: its parent directory.
pub fn get_album_directory(resolved_path: &str) -> (r: Option<String>)
    ensures
        opt_view(r) == spec_path_parent(resolved_path@),
{
    path_parent(resolved_path)
}

/// Whether two files lie in the same album directory: both have a parent
/// directory, and the two parents are the same string.
pub open spec fn same_album_spec(path1: Seq<char>, path2: Seq<char>) -> bool {
    match (spec_path_parent(path1), spec_path_parent(path2)) {
        (Some(d1), Some(d2)) => d1 == d2,
        _ => false,
    }
}

/// Check if two paths are in the same album directory.
pub fn same_album_directory(path1: &str, path2: &str) -> (r: bool)
    ensures
        r == same_album_spec(path1@, path2@),
{
    match (get_album_directory(path1), get_album_directory(path2)) {
        (Some(dir1), Some(dir2)) => str_eq(dir1.as_str(), dir2.as_str()),
        _ => false,
    }
}

/// Sharing an album directory is symmetric, and a file shares its album
/// directory with itself exactly when it has a parent directory.
pub proof fn lemma_same_album_symmetric_reflexive(path1: Seq<char>, path2: Seq<char>)
    ensures
        same_album_spec(path1, path2) == same_album_spec(path2, path1),
        same_album_spec(path1, path1) == spec_path_parent(path1) is Some,
{
}

/// Sanitizing keeps the length, leaves no invalid character behind, and a
/// sanitized name is left unchanged by sanitizing it again.
pub proof fn lemma_sanitize_idempotent(name: Seq<char>)
    ensures
        sanitize_spec(name).len() == name.len(),
        forall|i: int|
            0 <= i < name.len() ==> !is_invalid_filename_char(#[trigger] sanitize_spec(name)[i]),
        sanitize_spec(sanitize_spec(name)) == sanitize_spec(name),
{
    assert(sanitize_spec(sanitize_spec(name)) =~= sanitize_spec(name));
}

/// slskd keeps only the last two components of a remote name, with the
/// characters invalid in file names (`< > : " / \\ | ? *` and NUL) replaced
/// by `_`: for a name with at least two components, the first probe is that
/// sanitized directory and file, and the second searches that same
/// directory for the sanitized file; for a bare name, the first probe is
/// the sanitized name.
pub proof fn lemma_first_probe_sanitized(filename: Seq<char>)
    ensures
        ({
            let comps = split_nonempty(unix_separators(filename), '/');
            let n = comps.len();
            let probes = download_probes(filename);
            let clean = |x: Seq<char>, y: Seq<char>|
                y.len() == x.len() && forall|i: int|
                    0 <= i < x.len() ==> #[trigger] y[i] == if x[i] == '<' || x[i] == '>' || x[i] == ':'
                        || x[i] == '"' || x[i] == '/' || x[i] == '\\' || x[i] == '|' || x[i] == '?'
                        || x[i] == '*' || x[i] == '\0' {
                        '_'
                    } else {
                        x[i]
                    };
            &&& n >= 2 ==> probes.len() >= 2 && exists|dir: Seq<char>, file: Seq<char>|
                #![trigger clean(comps[n - 2], dir), clean(comps[n - 1], file)]
                clean(comps[n - 2], dir) && clean(comps[n - 1], file) && probes[0]
                    == PathProbeView::Exists(dir + seq!['/'] + file) && probes[1]
                    == PathProbeView::StemSearch { dir, file }
            &&& n == 1 ==> probes.len() >= 1 && exists|file: Seq<char>|
                #![trigger clean(comps[0], file)]
                clean(comps[0], file) && probes[0] == PathProbeView::Exists(file)
            &&& n == 0 ==> probes.len() == 0
        }),
{
    let comps = split_nonempty(unix_separators(filename), '/');
    let n = comps.len();
    let clean = |x: Seq<char>, y: Seq<char>|
        y.len() == x.len() && forall|i: int|
            0 <= i < x.len() ==> #[trigger] y[i] == if x[i] == '<' || x[i] == '>' || x[i] == ':'
                || x[i] == '"' || x[i] == '/' || x[i] == '\\' || x[i] == '|' || x[i] == '?' || x[i]
                == '*' || x[i] == '\0' {
                '_'
            } else {
                x[i]
            };
    if n >= 2 {
        assert(clean(comps[n - 2], sanitize_spec(comps[n - 2])));
        assert(clean(comps[n - 1], sanitize_spec(comps[n - 1])));
    } else if n == 1 {
        assert(clean(comps[0], sanitize_spec(comps[0])));
    }
}

/// A collision copy's stem is the expected stem, `_`, and at least one
/// digit, with nothing but digits after the `_`: `track_.flac` or
/// `track_x.flac` is no copy of `track.flac`.
pub proof fn lemma_collision_needs_digit(stem: Seq<char>, expected: Seq<char>)
    ensures
        is_collision_stem(stem, expected) ==> stem.len() >= expected.len() + 2 && stem.subrange(
            0,
            expected.len() as int,
        ) == expected && stem[expected.len() as int] == '_' && forall|i: int|
            expected.len() < i < stem.len() ==> '0' <= #[trigger] stem[i] && stem[i] <= '9',
{
    if is_collision_stem(stem, expected) {
        assert forall|i: int| expected.len() < i < stem.len() implies '0' <= #[trigger] stem[i]
            && stem[i] <= '9' by {
            assert(stem.skip(expected.len() as int + 1)[i - expected.len() - 1] == stem[i]);
        }
    }
}

/// An entry whose name is exactly the expected file name is always found.
pub proof fn lemma_exact_name_found(
    name: Seq<char>,
    stem: Seq<char>,
    extension: Option<Seq<char>>,
    entry_path: Seq<char>,
)
    requires
        spec_path_file_name(entry_path) matches Some(n) && spec_lowercase(n) == name,
    ensures
        stem_entry_verdict(name, stem, extension, entry_path) == EntryMatch::Found,
{
}

} // verus!
