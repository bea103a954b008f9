//! Decisions of the Navidrome rating sync and library statistics: which
//! one-star tracks are deleted, which discovery tracks are promoted or
//! removed, how Navidrome's relative song paths are looked up on disk, and
//! the counts shown on the dashboard.
use vstd::prelude::*;

use crate::download::opt_view;
use crate::ranking::{
    lemma_same_multiset_contains, lemma_same_multiset_no_duplicates, sort_desc_by_count,
    sorted_desc, Counted,
};
use crate::paths::{
    path_extension, path_file_name, path_file_stem, path_first_component, path_parent, same_path,
    spec_path_extension, spec_path_file_name, spec_path_file_stem, spec_path_first_component,
    spec_path_parent, spec_same_path,
};
use crate::text::{
    chars_of, find_seq, is_prefix, leading_count, lemma_leading_count_exact,
    occurs_at, contains_seq, spec_lowercase, str_eq, string_from_range, to_lowercase, trim_from,
    trim_spec, trim_start_from, trim_start_spec, views,
};

verus! {

/// An ASCII decimal digit.
pub open spec fn is_ascii_digit(c: char) -> bool {
    '0' <= c && c <= '9'
}

/// The first position at which `needle` occurs in `s` (meaningful when it
/// occurs at all).
pub open spec fn first_occurrence(s: Seq<char>, needle: Seq<char>) -> int {
    choose|i: int| occurs_at(s, needle, i) && forall|j: int| 0 <= j < i ==> !occurs_at(s, needle, j)
}

/// A file-name stem without its track-number prefix: the text after the
/// first ` - `, trimmed; else, when the stem starts with digits, the rest
/// with leading white space removed; else the stem itself.
pub open spec fn strip_track_prefix_spec(stem: Seq<char>) -> Seq<char> {
    let sep = seq![' ', '-', ' '];
    if contains_seq(stem, sep) {
        trim_spec(stem.skip(first_occurrence(stem, sep) + 3))
    } else {
        let n = leading_count(stem, |c: char| is_ascii_digit(c));
        if n > 0 {
            trim_start_spec(stem.skip(n as int))
        } else {
            stem
        }
    }
}

/// Strip a track-number prefix from a file-name stem:
/// `01-12 - do you feel`, `12 do you feel` and `01 - do you feel` all give
/// `do you feel`.
pub fn strip_track_prefix(stem: &str) -> (r: String)
    ensures
        r@ == strip_track_prefix_spec(stem@),
{
    let cs = chars_of(stem);
    let sep = vec![' ', '-', ' '];
    proof {
        assert(sep@ =~= seq![' ', '-', ' ']);
    }
    match find_seq(&cs, &sep) {
        Some(idx) => {
            proof {
                let f = first_occurrence(stem@, seq![' ', '-', ' ']);
                assert(occurs_at(stem@, seq![' ', '-', ' '], idx as int));
                assert(contains_seq(stem@, seq![' ', '-', ' ']));
                if f != idx as int {
                    if f < idx as int {
                    } else {
                        assert(!occurs_at(stem@, seq![' ', '-', ' '], idx as int));
                    }
                }
            }
            assert(idx + 3 <= cs.len());
            trim_from(&cs, idx + 3)
        },
        None => {
            let ghost p = |c: char| is_ascii_digit(c);
            let mut n: usize = 0;
            while n < cs.len() && '0' <= cs[n] && cs[n] <= '9'
                invariant
                    cs@ == stem@,
                    n <= cs.len(),
                    forall|j: int| 0 <= j < n ==> is_ascii_digit(#[trigger] cs@[j]),
                decreases cs.len() - n,
            {
                n += 1;
            }
            proof {
                lemma_leading_count_exact(stem@, p, n as int);
            }
            if n > 0 {
                trim_start_from(&cs, n)
            } else {
                proof {
                    assert(cs@.subrange(0, cs@.len() as int) =~= cs@);
                }
                string_from_range(&cs, 0, cs.len())
            }
        },
    }
}

/// `path` is absolute: on Unix, it starts at the root `/`.
pub open spec fn is_absolute_spec(path: Seq<char>) -> bool {
    path.len() > 0 && path[0] == '/'
}

/// Whether a path is absolute (`Path::is_absolute` on Unix).
pub fn is_absolute_path(path: &str) -> (b: bool)
    ensures
        b == is_absolute_spec(path@),
{
    let cs = chars_of(path);
    cs.len() > 0 && cs[0] == '/'
}

/// What to look for when a song's path does not resolve directly: the
/// artist directory (the path's first component), the song's clean title and
/// its lower-cased extension.
pub struct SongPathQuery {
    pub artist_dir: String,
    pub clean_title: String,
    pub extension: String,
}

/// The lower-cased stem (empty when there is none) of a path.
pub open spec fn lower_stem_or_empty(path: Seq<char>) -> Seq<char> {
    match spec_path_file_stem(path) {
        Some(s) => spec_lowercase(s),
        None => Seq::empty(),
    }
}

/// The lower-cased extension (empty when there is none) of a path.
pub open spec fn lower_extension_or_empty(path: Seq<char>) -> Seq<char> {
    match spec_path_extension(path) {
        Some(e) => spec_lowercase(e),
        None => Seq::empty(),
    }
}

/// The lower-cased stem of a path, or the empty string.
fn lower_stem(path: &str) -> (s: String)
    ensures
        s@ == lower_stem_or_empty(path@),
{
    match path_file_stem(path) {
        Some(s) => to_lowercase(s.as_str()),
        None => String::new(),
    }
}

/// The lower-cased extension of a path, or the empty string.
fn lower_extension(path: &str) -> (s: String)
    ensures
        s@ == lower_extension_or_empty(path@),
{
    match path_extension(path) {
        Some(e) => to_lowercase(e.as_str()),
        None => String::new(),
    }
}

/// The fuzzy lookup for a Navidrome song path; `None` when the path has no
/// components at all.
pub fn song_path_query(path: &str) -> (q: Option<SongPathQuery>)
    ensures
        match spec_path_first_component(path@) {
            None => q is None,
            Some(first) => q matches Some(qq) && qq.artist_dir@ == first && qq.clean_title@
                == strip_track_prefix_spec(lower_stem_or_empty(path@)) && qq.extension@
                == lower_extension_or_empty(path@),
        },
{
    let first = match path_first_component(path) {
        Some(c) => c,
        None => return None,
    };
    let stem = lower_stem(path);
    let extension = lower_extension(path);
    let clean_title = strip_track_prefix(stem.as_str());
    Some(SongPathQuery { artist_dir: first, clean_title, extension })
}

/// Whether the file at `entry_path` is the song the query looks for: same
/// lower-cased extension, and the same title once its own track-number
/// prefix is stripped.
pub fn title_entry_matches(q: &SongPathQuery, entry_path: &str) -> (b: bool)
    ensures
        b == (lower_extension_or_empty(entry_path@) == q.extension@ && strip_track_prefix_spec(
            lower_stem_or_empty(entry_path@),
        ) == q.clean_title@),
{
    let ext = lower_extension(entry_path);
    if !str_eq(ext.as_str(), q.extension.as_str()) {
        return false;
    }
    let stem = lower_stem(entry_path);
    let title = strip_track_prefix(stem.as_str());
    str_eq(title.as_str(), q.clean_title.as_str())
}


/// `s` with each run of consecutive equal paths cut down to its first path
/// (`Vec::dedup` on path buffers).
pub open spec fn dedup_paths(s: Seq<Seq<char>>) -> Seq<Seq<char>>
    decreases s.len(),
{
    if s.len() == 0 {
        Seq::empty()
    } else {
        let d = dedup_paths(s.drop_last());
        if d.len() > 0 && spec_same_path(s.last(), d.last()) {
            d
        } else {
            d.push(s.last())
        }
    }
}

/// The parents of the paths that have one, in order.
pub open spec fn parents_of(paths: Seq<Seq<char>>) -> Seq<Seq<char>>
    decreases paths.len(),
{
    if paths.len() == 0 {
        Seq::empty()
    } else {
        let p = parents_of(paths.drop_last());
        match spec_path_parent(paths.last()) {
            Some(d) => p.push(d),
            None => p,
        }
    }
}

/// The candidate music roots, before duplicates are removed: the configured
/// root (when set and not empty), each library folder, then the parent of
/// each library folder.
pub open spec fn root_candidates(env_root: Option<Seq<char>>, folders: Seq<Seq<char>>) -> Seq<Seq<char>> {
    let first = match env_root {
        Some(r) => if r.len() > 0 {
            seq![r]
        } else {
            Seq::empty()
        },
        None => Seq::empty(),
    };
    first + folders + parents_of(folders)
}

/// Removing repeats keeps the first path, keeps only candidate paths in
/// their order, and leaves no path next to one it equals.
pub proof fn lemma_dedup_paths(s: Seq<Seq<char>>)
    ensures
        dedup_paths(s).len() <= s.len(),
        s.len() > 0 ==> dedup_paths(s).len() > 0 && dedup_paths(s)[0] == s[0],
        forall|i: int| 0 <= i < dedup_paths(s).len() ==> s.contains(#[trigger] dedup_paths(s)[i]),
        forall|i: int|
            0 < i < dedup_paths(s).len() ==> !spec_same_path(
                #[trigger] dedup_paths(s)[i],
                dedup_paths(s)[i - 1],
            ),
    decreases s.len(),
{
    if s.len() > 0 {
        let p = s.drop_last();
        lemma_dedup_paths(p);
        let d = dedup_paths(p);
        assert forall|i: int| 0 <= i < dedup_paths(s).len() implies s.contains(
            #[trigger] dedup_paths(s)[i],
        ) by {
            if i < d.len() {
                assert(dedup_paths(s)[i] == d[i]);
                let j = choose|j: int| 0 <= j < p.len() && p[j] == d[i];
                assert(s[j] == d[i]);
            } else {
                assert(s[s.len() - 1] == dedup_paths(s)[i]);
            }
        }
        assert forall|i: int| 0 < i < dedup_paths(s).len() implies !spec_same_path(
            #[trigger] dedup_paths(s)[i],
            dedup_paths(s)[i - 1],
        ) by {
            if i < d.len() {
                assert(dedup_paths(s)[i] == d[i] && dedup_paths(s)[i - 1] == d[i - 1]);
            }
        }
    }
}

/// Append `p` unless it equals the last path kept.
fn push_dedup(out: &mut Vec<String>, p: String)
    ensures
        views(final(out)@) == if old(out)@.len() > 0 && spec_same_path(p@, old(out)@.last()@) {
            views(old(out)@)
        } else {
            views(old(out)@).push(p@)
        },
{
    if out.len() > 0 && same_path(p.as_str(), out[out.len() - 1].as_str()) {
        return ;
    }
    let ghost before = views(out@);
    out.push(p);
    assert(views(out@) =~= before.push(out@.last()@));
}

/// The music roots against which Navidrome's relative song paths are
/// resolved, in the order they are tried.
pub fn music_roots(env_root: Option<String>, folder_paths: &Vec<String>) -> (r: Vec<String>)
    ensures
        views(r@) == dedup_paths(root_candidates(opt_view(env_root), views(folder_paths@))),
{
    let ghost cands = root_candidates(opt_view(env_root), views(folder_paths@));
    let ghost first: Seq<Seq<char>> = match opt_view(env_root) {
        Some(r) => if r.len() > 0 {
            seq![r]
        } else {
            Seq::empty()
        },
        None => Seq::empty(),
    };
    let mut out: Vec<String> = Vec::new();
    let ghost mut seen: Seq<Seq<char>> = Seq::empty();
    match env_root {
        Some(r) => {
            let nonempty = !str_eq(r.as_str(), "");
            proof {
                reveal_strlit("");
                assert(""@ =~= Seq::<char>::empty());
            }
            if nonempty {
                let ghost rv = r@;
                push_dedup(&mut out, r);
                proof {
                    if rv.len() == 0 {
                        assert(rv =~= Seq::<char>::empty());
                    }
                    assert(rv.len() > 0);
                    assert(opt_view(env_root) == Some(rv));
                    seen = seq![rv];
                    assert(seen =~= first);
                    assert(seen.drop_last() =~= Seq::<Seq<char>>::empty());
                    assert(views(out@) =~= seq![rv]);
                    assert(dedup_paths(seen.drop_last()) =~= Seq::<Seq<char>>::empty());
                    assert(dedup_paths(seen) =~= seq![rv]);
                }
            } else {
                proof {
                    assert(r@ =~= Seq::<char>::empty());
                    assert(first =~= Seq::<Seq<char>>::empty());
                }
            }
        },
        None => {},
    }
    proof {
        if seen.len() == 0 {
            assert(views(out@) =~= Seq::<Seq<char>>::empty());
        }
    }
    assert(views(out@) == dedup_paths(seen));
    assert(seen == first);
    let mut i: usize = 0;
    while i < folder_paths.len()
        invariant
            i <= folder_paths.len(),
            seen == first + views(folder_paths@.take(i as int)),
            views(out@) == dedup_paths(seen),
        decreases folder_paths.len() - i,
    {
        let ghost prev = seen;
        push_dedup(&mut out, folder_paths[i].clone());
        proof {
            seen = seen.push(folder_paths@[i as int]@);
            assert(seen.drop_last() =~= prev);
            assert(views(folder_paths@.take(i + 1)) =~= views(folder_paths@.take(i as int)).push(
                folder_paths@[i as int]@,
            ));
        }
        i += 1;
    }
    assert(folder_paths@.take(folder_paths@.len() as int) =~= folder_paths@);
    let mut k: usize = 0;
    while k < folder_paths.len()
        invariant
            k <= folder_paths.len(),
            seen == first + views(folder_paths@) + parents_of(views(folder_paths@.take(k as int))),
            views(out@) == dedup_paths(seen),
        decreases folder_paths.len() - k,
    {
        let ghost prev = seen;
        assert(views(folder_paths@.take(k + 1)).drop_last() =~= views(folder_paths@.take(k as int)));
        match path_parent(folder_paths[k].as_str()) {
            Some(parent) => {
                push_dedup(&mut out, parent);
                proof {
                    seen = seen.push(spec_path_parent(folder_paths@[k as int]@)->0);
                    assert(seen.drop_last() =~= prev);
                }
            },
            None => {},
        }
        k += 1;
    }
    assert(folder_paths@.take(folder_paths@.len() as int) =~= folder_paths@);
    out
}

/// What the sync does with a song under the one-star auto-delete rule.
#[derive(PartialEq, Eq, Structural, Clone, Copy, Debug)]
pub enum AutoDelete {
    /// Auto-delete is off, or the song is not rated exactly one star.
    NotApplicable,
    /// Another listener rated the song higher: it is kept.
    SkipSharedVeto,
    /// Navidrome gave no path for the song: it cannot be deleted.
    SkipNoPath,
    /// Resolve the song's path and delete the file.
    Delete,
}

/// The auto-delete verdict for a song with `user_rating`, where
/// `shared_veto` says that its average rating is above one star.
pub open spec fn auto_delete_spec(
    enabled: bool,
    user_rating: Option<u8>,
    shared_veto: bool,
    has_path: bool,
) -> AutoDelete {
    if enabled && user_rating == Some(1u8) {
        if shared_veto {
            AutoDelete::SkipSharedVeto
        } else if has_path {
            AutoDelete::Delete
        } else {
            AutoDelete::SkipNoPath
        }
    } else {
        AutoDelete::NotApplicable
    }
}

/// A song's file is deleted exactly when auto-delete is on, the user rated
/// it one star, no other listener rated it higher, and Navidrome gave its
/// path; a one-star song with a shared veto is kept whether or not it has a
/// path; without auto-delete or a one-star rating the rule does not apply.
pub proof fn lemma_auto_delete_rule(enabled: bool, user_rating: Option<u8>, shared_veto: bool, has_path: bool)
    ensures
        (auto_delete_spec(enabled, user_rating, shared_veto, has_path) == AutoDelete::Delete) <==> (
        enabled && user_rating == Some(1u8) && !shared_veto && has_path),
        (auto_delete_spec(enabled, user_rating, shared_veto, has_path) == AutoDelete::SkipSharedVeto)
            <==> (enabled && user_rating == Some(1u8) && shared_veto),
        (auto_delete_spec(enabled, user_rating, shared_veto, has_path) == AutoDelete::SkipNoPath) <==> (
        enabled && user_rating == Some(1u8) && !shared_veto && !has_path),
        (auto_delete_spec(enabled, user_rating, shared_veto, has_path) == AutoDelete::NotApplicable)
            <==> !(enabled && user_rating == Some(1u8)),
{
}

/// Decide what the auto-delete rule does with a song.
pub fn auto_delete_decision(
    enabled: bool,
    user_rating: Option<u8>,
    shared_veto: bool,
    has_path: bool,
) -> (d: AutoDelete)
    ensures
        d == auto_delete_spec(enabled, user_rating, shared_veto, has_path),
{
    if enabled {
        match user_rating {
            Some(rating) => {
                if rating == 1 {
                    if shared_veto {
                        return AutoDelete::SkipSharedVeto;
                    } else if has_path {
                        return AutoDelete::Delete;
                    } else {
                        return AutoDelete::SkipNoPath;
                    }
                }
            },
            None => {},
        }
    }
    AutoDelete::NotApplicable
}

/// What the sync does with a rated discovery track.
#[derive(PartialEq, Eq, Structural, Clone, Copy, Debug)]
pub enum DiscoveryAction {
    /// Rated at or above the threshold: move it into the library.
    Promote,
    /// Rated one star (and below the threshold): delete it.
    Remove,
    /// Leave it pending.
    Keep,
}

/// The verdict for a discovery track rated `user_rating`.
pub open spec fn discovery_action_spec(user_rating: u8, promote_threshold: u8) -> DiscoveryAction {
    if user_rating >= promote_threshold {
        DiscoveryAction::Promote
    } else if user_rating == 1 {
        DiscoveryAction::Remove
    } else {
        DiscoveryAction::Keep
    }
}

/// A discovery track is promoted exactly when its rating reaches the
/// promote threshold; below it, one star removes it and any other rating
/// keeps it pending.
pub proof fn lemma_discovery_action_threshold(user_rating: u8, promote_threshold: u8)
    ensures
        (discovery_action_spec(user_rating, promote_threshold) == DiscoveryAction::Promote)
            <==> user_rating >= promote_threshold,
        (discovery_action_spec(user_rating, promote_threshold) == DiscoveryAction::Remove) <==> (
        user_rating < promote_threshold && user_rating == 1),
        (discovery_action_spec(user_rating, promote_threshold) == DiscoveryAction::Keep) <==> (
        user_rating < promote_threshold && user_rating != 1),
{
}

/// Decide whether a rated discovery track is promoted, removed or kept.
pub fn discovery_action(user_rating: u8, promote_threshold: u8) -> (a: DiscoveryAction)
    ensures
        a == discovery_action_spec(user_rating, promote_threshold),
        (a == DiscoveryAction::Promote) <==> user_rating >= promote_threshold,
        (a == DiscoveryAction::Remove) <==> (user_rating < promote_threshold && user_rating == 1),
        (a == DiscoveryAction::Keep) <==> (user_rating < promote_threshold && user_rating != 1),
{
    if user_rating >= promote_threshold {
        DiscoveryAction::Promote
    } else if user_rating == 1 {
        DiscoveryAction::Remove
    } else {
        DiscoveryAction::Keep
    }
}

/// `s` with ASCII upper-case letters lower-cased (`OsStr::to_ascii_lowercase`).
pub open spec fn ascii_lower(s: Seq<char>) -> Seq<char> {
    Seq::new(s.len(), |i: int| if 'A' <= s[i] && s[i] <= 'Z' { ((s[i] as u32) + 32) as char } else { s[i] })
}

/// The ASCII-lower-cased file name of a path, if it has one.
pub open spec fn ascii_file_name(path: Seq<char>) -> Option<Seq<char>> {
    match spec_path_file_name(path) {
        Some(n) => Some(ascii_lower(n)),
        None => None,
    }
}

fn ascii_lowercase(s: &str) -> (r: Vec<char>)
    ensures
        r@ == ascii_lower(s@),
{
    let cs = chars_of(s);
    let mut out: Vec<char> = Vec::new();
    let mut i: usize = 0;
    while i < cs.len()
        invariant
            cs@ == s@,
            i <= cs.len(),
            out@ == ascii_lower(cs@.take(i as int)),
        decreases cs.len() - i,
    {
        let c = cs[i];
        if 'A' <= c && c <= 'Z' {
            let lower = ((c as u32) + 32) as u8;
            out.push(lower as char);
        } else {
            out.push(c);
        }
        assert(ascii_lower(cs@.take(i + 1)) =~= ascii_lower(cs@.take(i as int)).push(out@.last()));
        i += 1;
    }
    assert(cs@.take(cs@.len() as int) =~= cs@);
    out
}

fn chars_eq(a: &Vec<char>, b: &Vec<char>) -> (r: bool)
    ensures
        r == (a@ == b@),
{
    if a.len() != b.len() {
        return false;
    }
    let mut i: usize = 0;
    while i < a.len()
        invariant
            a.len() == b.len(),
            i <= a.len(),
            forall|j: int| 0 <= j < i ==> a@[j] == b@[j],
        decreases a.len() - i,
    {
        if a[i] != b[i] {
            return false;
        }
        i += 1;
    }
    assert(a@ =~= b@);
    true
}

/// The ASCII-lower-cased file name of a path.
fn ascii_name(path: &str) -> (r: Option<Vec<char>>)
    ensures
        match r {
            Some(v) => ascii_file_name(path@) == Some(v@),
            None => ascii_file_name(path@) is None,
        },
{
    match path_file_name(path) {
        Some(n) => Some(ascii_lowercase(n.as_str())),
        None => None,
    }
}

/// A discovery track awaiting a rating: its Navidrome song id once known,
/// and its path on disk.
pub struct PendingTrack {
    pub song_id: Option<String>,
    pub path: String,
}

/// Whether a pending discovery track is the rated song: by song id when the
/// track has one, else by ASCII-case-insensitive file name.
pub open spec fn track_matches_song(
    t: PendingTrack,
    song_id: Seq<char>,
    song_path: Option<Seq<char>>,
) -> bool {
    match t.song_id {
        Some(id) => id@ == song_id,
        None => match song_path {
            Some(p) => ascii_file_name(p) is Some && ascii_file_name(p) == ascii_file_name(t.path@),
            None => false,
        },
    }
}

/// The first pending discovery track that is the rated song, if any.
pub fn find_matching_track(pending: &Vec<PendingTrack>, song_id: &str, song_path: &Option<String>) -> (r:
    Option<usize>)
    ensures
        match r {
            Some(i) => i < pending.len() && track_matches_song(pending@[i as int], song_id@, opt_view(*song_path))
                && forall|j: int| 0 <= j < i ==> !track_matches_song(#[trigger] pending@[j], song_id@, opt_view(*song_path)),
            None => forall|j: int| 0 <= j < pending.len() ==> !track_matches_song(#[trigger] pending@[j], song_id@, opt_view(*song_path)),
        },
{
    let song_name = match song_path {
        Some(p) => ascii_name(p.as_str()),
        None => None,
    };
    let mut i: usize = 0;
    while i < pending.len()
        invariant
            i <= pending.len(),
            match song_path {
                Some(p) => match song_name {
                    Some(v) => ascii_file_name(p@) == Some(v@),
                    None => ascii_file_name(p@) is None,
                },
                None => song_name is None,
            },
            forall|j: int| 0 <= j < i ==> !track_matches_song(#[trigger] pending@[j], song_id@, opt_view(*song_path)),
        decreases pending.len() - i,
    {
        let t = &pending[i];
        let hit = match &t.song_id {
            Some(id) => str_eq(id.as_str(), song_id),
            None => match song_path {
                Some(_) => match &song_name {
                    Some(sn) => match ascii_name(t.path.as_str()) {
                        Some(tn) => chars_eq(sn, &tn),
                        None => false,
                    },
                    None => false,
                },
                None => false,
            },
        };
        if hit {
            return Some(i);
        }
        i += 1;
    }
    None
}


/// What the library statistics read of one song.
pub struct SongSummary {
    pub artist: Option<String>,
    pub genre: Option<String>,
    pub user_rating: Option<u8>,
}

/// A rating that counts: one to five stars.
pub open spec fn valid_rating(r: Option<u8>) -> bool {
    r matches Some(x) && 1 <= x <= 5
}

/// Number of songs rated one to five stars.
pub open spec fn rated_count(songs: Seq<SongSummary>) -> nat
    decreases songs.len(),
{
    if songs.len() == 0 {
        0
    } else {
        rated_count(songs.drop_last()) + if valid_rating(songs.last().user_rating) {
            1nat
        } else {
            0nat
        }
    }
}

/// Number of songs rated exactly `stars`.
pub open spec fn stars_count(songs: Seq<SongSummary>, stars: u8) -> nat
    decreases songs.len(),
{
    if songs.len() == 0 {
        0
    } else {
        stars_count(songs.drop_last(), stars) + if songs.last().user_rating == Some(stars) {
            1nat
        } else {
            0nat
        }
    }
}

/// Sum of the one-to-five-star ratings.
pub open spec fn rating_total(songs: Seq<SongSummary>) -> nat
    decreases songs.len(),
{
    if songs.len() == 0 {
        0
    } else {
        rating_total(songs.drop_last()) + match songs.last().user_rating {
            Some(x) => if 1 <= x <= 5 {
                x as nat
            } else {
                0nat
            },
            None => 0nat,
        }
    }
}

/// The rating part of the library statistics.
pub struct RatingCounts {
    pub rated: u32,
    pub sum: u64,
    /// Songs with one, two, three, four and five stars.
    pub distribution: [u32; 5],
}

/// Count the rated songs, their rating total and how many have each number
/// of stars.
pub fn rating_counts(songs: &Vec<SongSummary>) -> (c: RatingCounts)
    requires
        songs.len() <= u32::MAX,
    ensures
        c.rated == rated_count(songs@),
        c.sum == rating_total(songs@),
        forall|k: int| 0 <= k < 5 ==> #[trigger] c.distribution@[k] == stars_count(songs@, (k + 1) as u8),
{
    let mut rated: u32 = 0;
    let mut sum: u64 = 0;
    let mut dist: [u32; 5] = [0, 0, 0, 0, 0];
    let mut i: usize = 0;
    while i < songs.len()
        invariant
            songs.len() <= u32::MAX,
            i <= songs.len(),
            rated == rated_count(songs@.take(i as int)),
            rated <= i,
            sum == rating_total(songs@.take(i as int)),
            sum <= 5 * i,
            forall|k: int|
                0 <= k < 5 ==> #[trigger] dist@[k] == stars_count(songs@.take(i as int), (k + 1) as u8)
                    && dist@[k] <= i,
        decreases songs.len() - i,
    {
        assert(songs@.take(i + 1).drop_last() =~= songs@.take(i as int));
        assert(songs@.take(i + 1).last() == songs@[i as int]);
        let ghost before = dist@;
        match songs[i].user_rating {
            Some(r) => {
                if 1 <= r && r <= 5 {
                    rated = rated + 1;
                    sum = sum + r as u64;
                    let idx = (r - 1) as usize;
                    let v = dist[idx];
                    dist[idx] = v + 1;
                    assert forall|k: int| 0 <= k < 5 implies #[trigger] dist@[k] == stars_count(
                        songs@.take(i + 1),
                        (k + 1) as u8,
                    ) && dist@[k] <= i + 1 by {
                        if k != idx {
                            assert(dist@[k] == before[k]);
                            assert(songs@[i as int].user_rating != Some((k + 1) as u8));
                        }
                    }
                } else {
                    assert forall|k: int| 0 <= k < 5 implies #[trigger] dist@[k] == stars_count(
                        songs@.take(i + 1),
                        (k + 1) as u8,
                    ) && dist@[k] <= i + 1 by {
                        assert(songs@[i as int].user_rating != Some((k + 1) as u8));
                    }
                }
            },
            None => {
                assert forall|k: int| 0 <= k < 5 implies #[trigger] dist@[k] == stars_count(
                    songs@.take(i + 1),
                    (k + 1) as u8,
                ) && dist@[k] <= i + 1 by {}
            },
        }
        i += 1;
    }
    assert(songs@.take(songs@.len() as int) =~= songs@);
    RatingCounts { rated, sum, distribution: dist }
}

/// The lower-cased artist name of a song, if it has an artist.
pub open spec fn song_artist_key(s: SongSummary) -> Option<Seq<char>> {
    match s.artist {
        Some(n) => Some(spec_lowercase(n@)),
        None => None,
    }
}

/// The lower-cased names of the songs' artists.
pub open spec fn artist_set(songs: Seq<SongSummary>) -> Set<Seq<char>> {
    Set::new(
        |a: Seq<char>|
            exists|i: int| 0 <= i < songs.len() && song_artist_key(#[trigger] songs[i]) == Some(a),
    )
}

/// Count the distinct artists (by lower-cased name) of the songs.
pub fn distinct_artists(songs: &Vec<SongSummary>) -> (n: usize)
    ensures
        artist_set(songs@).finite(),
        n == artist_set(songs@).len(),
        n <= songs.len(),
{
    let ghost ss = songs@;
    let mut names: Vec<String> = Vec::new();
    let mut i: usize = 0;
    while i < songs.len()
        invariant
            ss == songs@,
            i <= songs.len(),
            names.len() <= i,
            views(names@).no_duplicates(),
            views(names@).to_set() == artist_set(ss.take(i as int)),
        decreases songs.len() - i,
    {
        let ghost before = views(names@);
        let ghost prev_set = artist_set(ss.take(i as int));
        let ghost next_set = artist_set(ss.take(i + 1));
        match &songs[i].artist {
            Some(a) => {
                let k = to_lowercase(a.as_str());
                let found = crate::engine::contains_string(&names, k.as_str());
                if !found {
                    names.push(k);
                    proof {
                        assert(views(names@) =~= before.push(k@));
                        assert forall|x: int, y: int| 0 <= x < y < views(names@).len() implies views(
                            names@,
                        )[x] != views(names@)[y] by {
                            if y == before.len() {
                                assert(views(names@)[x] == before[x]);
                                assert(names@[x]@ != k@);
                            } else {
                                assert(views(names@)[x] == before[x]);
                                assert(views(names@)[y] == before[y]);
                            }
                        }
                    }
                }
                proof {
                    assert forall|x: Seq<char>| next_set.contains(x) == views(names@).to_set().contains(x) by {
                        if next_set.contains(x) {
                            let j = choose|j: int| 0 <= j < i + 1 && song_artist_key(#[trigger] ss.take(i + 1)[j]) == Some(x);
                            if j < i {
                                assert(ss.take(i as int)[j] == ss.take(i + 1)[j]);
                                assert(prev_set.contains(x));
                                assert(before.contains(x));
                                let q = choose|q: int| 0 <= q < before.len() && before[q] == x;
                                assert(views(names@)[q] == x);
                                assert(views(names@).contains(x));
                            } else {
                                assert(x == k@);
                                if found {
                                    let q = choose|q: int| 0 <= q < names@.len() && #[trigger] names@[q]@ == k@;
                                    assert(views(names@)[q] == x);
                                } else {
                                    assert(views(names@)[before.len() as int] == x);
                                }
                                assert(views(names@).contains(x));
                            }
                        }
                        if views(names@).contains(x) {
                            let q = choose|q: int| 0 <= q < views(names@).len() && views(names@)[q] == x;
                            if q < before.len() {
                                assert(before[q] == x);
                                assert(before.contains(x));
                                assert(prev_set.contains(x));
                                let j = choose|j: int| 0 <= j < i && song_artist_key(#[trigger] ss.take(i as int)[j]) == Some(x);
                                assert(ss.take(i + 1)[j] == ss.take(i as int)[j]);
                            } else {
                                assert(x == k@);
                                assert(ss.take(i + 1)[i as int] == ss[i as int]);
                            }
                            assert(next_set.contains(x));
                        }
                    }
                    assert(next_set =~= views(names@).to_set());
                }
            },
            None => {
                proof {
                    assert forall|x: Seq<char>| next_set.contains(x) == prev_set.contains(x) by {
                        if next_set.contains(x) {
                            let j = choose|j: int| 0 <= j < i + 1 && song_artist_key(#[trigger] ss.take(i + 1)[j]) == Some(x);
                            assert(j != i);
                            assert(ss.take(i as int)[j] == ss.take(i + 1)[j]);
                        }
                        if prev_set.contains(x) {
                            let j = choose|j: int| 0 <= j < i && song_artist_key(#[trigger] ss.take(i as int)[j]) == Some(x);
                            assert(ss.take(i + 1)[j] == ss.take(i as int)[j]);
                        }
                    }
                    assert(next_set =~= prev_set);
                }
            },
        }
        i += 1;
    }
    proof {
        views(names@).unique_seq_to_set();
        assert(ss.take(ss.len() as int) =~= ss);
        vstd::seq_lib::seq_to_set_is_finite(views(names@));
    }
    names.len()
}


/// A genre and how many songs have it.
pub struct GenreCount {
    pub genre: String,
    pub count: u32,
}

impl Counted for GenreCount {
    open spec fn count_spec(&self) -> u64 {
        self.count as u64
    }

    fn count(&self) -> (c: u64) {
        self.count as u64
    }
}

/// Number of songs whose non-empty genre is exactly `g`.
pub open spec fn genre_songs(songs: Seq<SongSummary>, g: Seq<char>) -> nat
    decreases songs.len(),
{
    if songs.len() == 0 {
        0
    } else {
        genre_songs(songs.drop_last(), g) + if song_genre(songs.last()) == Some(g) {
            1nat
        } else {
            0nat
        }
    }
}

/// The genre of a song, when it has a non-empty one.
pub open spec fn song_genre(s: SongSummary) -> Option<Seq<char>> {
    match s.genre {
        Some(g) => if g@.len() > 0 {
            Some(g@)
        } else {
            None
        },
        None => None,
    }
}

/// Some entry of `r` is for genre `g`.
pub open spec fn has_genre(r: Seq<GenreCount>, g: Seq<char>) -> bool {
    exists|i: int| 0 <= i < r.len() && #[trigger] r[i].genre@ == g
}

/// How many genres the library statistics list.
pub const TOP_GENRES: usize = 20;

/// `r` lists the most common non-empty genres of the songs with their song
/// counts, most common first: at most twenty, distinct, and any genre left
/// out has no more songs than the last one listed.
pub open spec fn ranks_genres(r: Seq<GenreCount>, songs: Seq<SongSummary>) -> bool {
    &&& sorted_desc(r)
    &&& r.len() <= TOP_GENRES
    &&& forall|i: int, j: int| 0 <= i < j < r.len() ==> r[i].genre@ != r[j].genre@
    &&& forall|i: int|
        0 <= i < r.len() ==> r[i].genre@.len() > 0 && #[trigger] r[i].count == genre_songs(
            songs,
            r[i].genre@,
        ) && r[i].count >= 1
    &&& forall|k: int|
        0 <= k < songs.len() && #[trigger] song_genre(songs[k]) is Some ==> has_genre(
            r,
            song_genre(songs[k])->0,
        ) || (r.len() == TOP_GENRES && genre_songs(songs, song_genre(songs[k])->0)
            <= r[TOP_GENRES - 1].count)
}

/// Rank the songs' non-empty genres by how many songs have each, keeping the
/// top twenty.
pub fn top_genres(songs: &Vec<SongSummary>) -> (r: Vec<GenreCount>)
    requires
        songs.len() <= u32::MAX,
    ensures
        ranks_genres(r@, songs@),
{
    let ghost ss = songs@;
    let mut names: Vec<String> = Vec::new();
    let mut counts: Vec<u32> = Vec::new();
    let mut i: usize = 0;
    let ghost mut pos: Seq<int> = Seq::empty();
    while i < songs.len()
        invariant
            ss == songs@,
            songs.len() <= u32::MAX,
            i <= songs.len(),
            names.len() == counts.len(),
            forall|a: int, b: int| 0 <= a < b < names.len() ==> names@[a]@ != names@[b]@,
            forall|j: int|
                0 <= j < names.len() ==> #[trigger] counts@[j] == genre_songs(
                    ss.take(i as int),
                    names@[j]@,
                ) && counts@[j] >= 1 && counts@[j] <= i && names@[j]@.len() > 0,
            pos.len() == i,
            forall|k: int|
                0 <= k < i && song_genre(ss[k]) is Some ==> 0 <= #[trigger] pos[k] < names.len()
                    && Some(names@[pos[k]]@) == song_genre(ss[k]),
            forall|x: Seq<char>|
                (forall|j: int| 0 <= j < names.len() ==> #[trigger] names@[j]@ != x) ==> genre_songs(
                    ss.take(i as int),
                    x,
                ) == 0,
        decreases songs.len() - i,
    {
        let ghost prev_names = names@;
        let ghost prev_counts = counts@;
        assert(ss.take(i + 1).drop_last() =~= ss.take(i as int));
        assert(ss.take(i + 1).last() == ss[i as int]);
        let ghost sg = ss[i as int].genre;
        assert forall|x: Seq<char>| #[trigger] genre_songs(ss.take(i + 1), x) == genre_songs(
            ss.take(i as int),
            x,
        ) + if song_genre(ss[i as int]) == Some(x) {
            1nat
        } else {
            0nat
        } by {}
        let mut nonempty_genre = false;
        match &songs[i].genre {
            Some(g) => {
                if !str_eq(g.as_str(), "") {
                    nonempty_genre = true;
                }
                proof {
                    reveal_strlit("");
                }
                proof {
                    reveal_strlit("");
                    assert(""@ =~= Seq::<char>::empty());
                    if g@.len() == 0 {
                        assert(g@ =~= Seq::<char>::empty());
                    }
                }
            },
            None => {},
        }
        if nonempty_genre {
            let g = songs[i].genre.as_ref().unwrap();
            let ghost a = g@;
            match crate::profile::find_string(&names, g.as_str()) {
                Some(j) => {
                    let c = counts[j];
                    counts.set(j, c + 1);
                    assert forall|m: int| 0 <= m < names.len() implies #[trigger] counts@[m]
                        == genre_songs(ss.take(i + 1), names@[m]@) && counts@[m] >= 1 && counts@[m]
                        <= i + 1 && names@[m]@.len() > 0 by {
                        if m != j {
                            assert(names@[m]@ != names@[j as int]@);
                            assert(counts@[m] == prev_counts[m]);
                        }
                    }
                    proof {
                        pos = pos.push(j as int);
                    }
                },
                None => {
                    assert(genre_songs(ss.take(i as int), a) == 0);
                    names.push(g.clone());
                    counts.push(1);
                    assert forall|m: int| 0 <= m < names.len() implies #[trigger] counts@[m]
                        == genre_songs(ss.take(i + 1), names@[m]@) && counts@[m] >= 1 && counts@[m]
                        <= i + 1 && names@[m]@.len() > 0 by {
                        if m < prev_names.len() {
                            assert(names@[m] == prev_names[m]);
                            assert(counts@[m] == prev_counts[m]);
                            assert(prev_names[m]@ != a);
                        }
                    }
                    assert forall|p: int, q: int| 0 <= p < q < names.len() implies names@[p]@
                        != names@[q]@ by {
                        if q == prev_names.len() {
                            assert(names@[p] == prev_names[p]);
                            assert(prev_names[p]@ != a);
                        } else {
                            assert(names@[p] == prev_names[p]);
                            assert(names@[q] == prev_names[q]);
                        }
                    }
                    proof {
                        pos = pos.push(prev_names.len() as int);
                        assert forall|k: int|
                            0 <= k < i + 1 && song_genre(ss[k]) is Some implies 0 <= #[trigger] pos[k]
                            < names.len() && Some(names@[pos[k]]@) == song_genre(ss[k]) by {
                            if k < i {
                                assert(names@[pos[k]] == prev_names[pos[k]]);
                            }
                        }
                    }
                },
            }
            assert forall|x: Seq<char>|
                #![trigger genre_songs(ss.take(i + 1), x)]
                (forall|j: int| 0 <= j < names.len() ==> #[trigger] names@[j]@ != x) implies genre_songs(
                ss.take(i + 1),
                x,
            ) == 0 by {
                assert forall|j: int| 0 <= j < prev_names.len() implies #[trigger] prev_names[j]@ != x by {
                    assert(names@[j] == prev_names[j]);
                }
                assert(genre_songs(ss.take(i as int), x) == 0);
                if a == x {
                    assert(names@[pos[i as int]]@ == x);
                }
            }
        } else {
            proof {
                pos = pos.push(0);
                assert(song_genre(ss[i as int]) is None);
                assert forall|x: Seq<char>|
                    #![trigger genre_songs(ss.take(i + 1), x)]
                    (forall|j: int| 0 <= j < names.len() ==> #[trigger] names@[j]@ != x) implies genre_songs(
                    ss.take(i + 1),
                    x,
                ) == 0 by {
                    assert(genre_songs(ss.take(i as int), x) == 0);
                }
                assert forall|m: int| 0 <= m < names.len() implies #[trigger] counts@[m]
                    == genre_songs(ss.take(i + 1), names@[m]@) && counts@[m] >= 1 && counts@[m]
                    <= i + 1 && names@[m]@.len() > 0 by {

                }
                assert forall|k: int|
                    0 <= k < i + 1 && song_genre(ss[k]) is Some implies 0 <= #[trigger] pos[k]
                    < names.len() && Some(names@[pos[k]]@) == song_genre(ss[k]) by {
                    assert(k < i);
                }
            }
        }
        i += 1;
    }
    assert(ss.take(ss.len() as int) =~= ss);
    let mut built: Vec<GenreCount> = Vec::new();
    let mut j: usize = 0;
    while j < names.len()
        invariant
            ss == songs@,
            j <= names.len(),
            names.len() == counts.len(),
            built.len() == j,
            forall|a: int, b: int| 0 <= a < b < names.len() ==> names@[a]@ != names@[b]@,
            forall|m: int|
                0 <= m < names.len() ==> #[trigger] counts@[m] == genre_songs(ss, names@[m]@)
                    && counts@[m] >= 1 && names@[m]@.len() > 0,
            pos.len() == ss.len(),
            forall|k: int|
                0 <= k < ss.len() && song_genre(ss[k]) is Some ==> 0 <= #[trigger] pos[k] < names.len()
                    && Some(names@[pos[k]]@) == song_genre(ss[k]),
            forall|m: int|
                #![trigger built@[m]]
                0 <= m < j ==> built@[m].genre@ == names@[m]@ && built@[m].count == counts@[m],
        decreases names.len() - j,
    {
        let ghost prev = built@;
        let e = GenreCount { genre: names[j].clone(), count: counts[j] };
        built.push(e);
        assert forall|m: int| #![trigger built@[m]] 0 <= m < j + 1 implies built@[m].genre@
            == names@[m]@ && built@[m].count == counts@[m] by {
            if m < j {
                assert(built@[m] == prev[m]);
            }
        }
        j += 1;
    }
    let ghost b = built@;
    proof {
        assert forall|x: int, c: int| 0 <= x < c < b.len() implies b[x] != b[c] by {
            assert(x < j && c < j);
            assert(built@[x].genre@ == names@[x]@);
            assert(built@[c].genre@ == names@[c]@);
            assert(names@[x]@ != names@[c]@);
        }
        assert(b.no_duplicates());
    }
    let mut full = sort_desc_by_count(built);
    let ghost f = full@;
    proof {
        lemma_same_multiset_no_duplicates(b, f);
        assert forall|p: int, q: int| 0 <= p < q < f.len() implies f[p].genre@ != f[q].genre@ by {
            lemma_same_multiset_contains(b, f, f[p]);
            assert(f.contains(f[p]));
            lemma_same_multiset_contains(b, f, f[q]);
            assert(f.contains(f[q]));
            let mp = choose|m: int| 0 <= m < b.len() && b[m] == f[p];
            let mq = choose|m: int| 0 <= m < b.len() && b[m] == f[q];
            assert(b[mp].genre@ == names@[mp]@);
            assert(b[mq].genre@ == names@[mq]@);
            if mp != mq {
                if mp < mq {
                    assert(names@[mp]@ != names@[mq]@);
                } else {
                    assert(names@[mq]@ != names@[mp]@);
                }
            }
        }
        assert forall|x: int| 0 <= x < f.len() implies f[x].genre@.len() > 0 && #[trigger] f[x].count
            == genre_songs(ss, f[x].genre@) && f[x].count >= 1 by {
            lemma_same_multiset_contains(b, f, f[x]);
            assert(f.contains(f[x]));
            let m = choose|m: int| 0 <= m < b.len() && b[m] == f[x];
            assert(b[m].genre@ == names@[m]@);
            assert(b[m].count == counts@[m]);
        }
        assert forall|k: int| 0 <= k < ss.len() && #[trigger] song_genre(ss[k]) is Some implies exists|x: int|
            0 <= x < f.len() && f[x].genre@ == song_genre(ss[k])->0 by {
            let m = pos[k];
            assert(b[m].genre@ == names@[m]@);
            lemma_same_multiset_contains(b, f, b[m]);
            assert(b.contains(b[m]));
        }
    }
    full.truncate(TOP_GENRES);
    proof {
        let r = full@;
        assert(r =~= f.take(if f.len() < TOP_GENRES { f.len() as int } else { TOP_GENRES as int }));
        assert forall|k: int| 0 <= k < ss.len() && #[trigger] song_genre(ss[k]) is Some implies has_genre(
            r,
            song_genre(ss[k])->0,
        ) || (r.len() == TOP_GENRES && genre_songs(ss, song_genre(ss[k])->0) <= r[TOP_GENRES - 1].count) by {
            let x = choose|x: int| 0 <= x < f.len() && f[x].genre@ == song_genre(ss[k])->0;
            if x < r.len() {
                assert(r[x] == f[x]);
                assert(has_genre(r, song_genre(ss[k])->0));
            } else {
                assert(f[TOP_GENRES - 1].count_spec() >= f[x].count_spec());
                assert(r[TOP_GENRES - 1] == f[TOP_GENRES - 1]);
            }
        }
    }
    full
}


/// The integer library statistics shown on the dashboard (the average rating
/// is the rating total over the rated count).
pub struct LibraryCounts {
    pub total_tracks: u32,
    pub rated_tracks: u32,
    pub unrated_tracks: u32,
    pub rating_total: u64,
    pub rating_distribution: [u32; 5],
    pub total_artists: u32,
    pub genres: Vec<GenreCount>,
}

/// Every number is counted over the same songs: the rated ones, their
/// rating total and distribution, the distinct artists, and the top genres.
pub open spec fn counts_library(c: LibraryCounts, songs: Seq<SongSummary>) -> bool {
    &&& c.total_tracks == songs.len()
    &&& c.rated_tracks == rated_count(songs)
    &&& c.unrated_tracks == songs.len() - rated_count(songs)
    &&& c.rating_total == rating_total(songs)
    &&& forall|k: int| 0 <= k < 5 ==> #[trigger] c.rating_distribution@[k] == stars_count(songs, (k + 1) as u8)
    &&& c.total_artists == artist_set(songs).len()
    &&& ranks_genres(c.genres@, songs)
}

/// A song rated one to five stars counts once among the rated songs.
pub proof fn lemma_rated_bound(songs: Seq<SongSummary>)
    ensures
        rated_count(songs) <= songs.len(),
    decreases songs.len(),
{
    if songs.len() > 0 {
        lemma_rated_bound(songs.drop_last());
    }
}

/// The rating distribution adds up to the rated count, and the rating total
/// lies between one and five stars per rated song.
pub proof fn lemma_distribution_sums(songs: Seq<SongSummary>)
    ensures
        stars_count(songs, 1) + stars_count(songs, 2) + stars_count(songs, 3) + stars_count(songs, 4)
            + stars_count(songs, 5) == rated_count(songs),
        rated_count(songs) <= rating_total(songs) <= 5 * rated_count(songs),
    decreases songs.len(),
{
    if songs.len() > 0 {
        lemma_distribution_sums(songs.drop_last());
    }
}

/// Count the library statistics over all songs.
pub fn library_counts(songs: &Vec<SongSummary>) -> (c: LibraryCounts)
    requires
        songs.len() <= u32::MAX,
    ensures
        counts_library(c, songs@),
{
    let ratings = rating_counts(songs);
    let artists = distinct_artists(songs);
    let genres = top_genres(songs);
    proof {
        lemma_rated_bound(songs@);
    }
    let total = songs.len() as u32;
    LibraryCounts {
        total_tracks: total,
        rated_tracks: ratings.rated,
        unrated_tracks: total - ratings.rated,
        rating_total: ratings.sum,
        rating_distribution: ratings.distribution,
        total_artists: artists as u32,
        genres,
    }
}

} // verus!
