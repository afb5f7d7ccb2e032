//! Where the overlay finds the media files and fonts a scene uses.

use vstd::prelude::*;
use vstd::string::StringExecFns;
use crate::parser::{SceneItem, SceneItemView, item_view, items_view, lemma_items_view_push};
use crate::text::{
    after_last, chars_of, find_chars, find_from, has_prefix, join, joined, lemma_find_from_range,
    nat_decimal, replace_all, replace_text, spec_lowercase, spec_trim, starts_with, str_eq,
    string_from_chars, string_views, text_after_last, to_lowercase, trim, usize_to_decimal,
};
use crate::utils::{get_web_font, spec_web_font};
use crate::app::{media_files, media_files_items};

verus! {

/// Where one local media file ended up: its web path relative to the overlay,
/// or `None` when it could not be copied.
pub struct AssetEntry {
    pub file: String,
    pub web_path: Option<String>,
}

/// The view of an asset entry: the file and its web path.
pub open spec fn asset_view(e: AssetEntry) -> (Seq<char>, Option<Seq<char>>) {
    (e.file@, match e.web_path {
        Some(w) => Some(w@),
        None => None,
    })
}

/// The views of a list of asset entries.
pub open spec fn assets_view(v: Seq<AssetEntry>) -> Seq<(Seq<char>, Option<Seq<char>>)> {
    v.map_values(|e: AssetEntry| asset_view(e))
}

/// The index of the first entry, from `i` on, for `file`.
pub open spec fn asset_index_from(
    m: Seq<(Seq<char>, Option<Seq<char>>)>,
    file: Seq<char>,
    i: int,
) -> Option<int>
    decreases m.len() - i,
{
    if i < 0 || i >= m.len() {
        None
    } else if m[i].0 == file {
        Some(i)
    } else {
        asset_index_from(m, file, i + 1)
    }
}

/// A character with a backslash turned into a forward slash.
pub open spec fn slash(c: char) -> char {
    if c == '\\' {
        '/'
    } else {
        c
    }
}

/// A path with every backslash turned into a forward slash.
pub open spec fn forward_slashes(s: Seq<char>) -> Seq<char> {
    s.map_values(|c: char| slash(c))
}

/// Where the overlay loads a media file from: its copied web path when the
/// asset map has one, else the file's own path with forward slashes.
pub open spec fn spec_resolve_asset(file: Seq<char>, m: Seq<(Seq<char>, Option<Seq<char>>)>) -> Seq<
    char,
> {
    match asset_index_from(m, file, 0) {
        Some(i) => match m[i].1 {
            Some(w) => w,
            None => forward_slashes(file),
        },
        None => forward_slashes(file),
    }
}

fn forward_slashes_exec(file: &str) -> (r: String)
    ensures
        r@ == forward_slashes(file@),
{
    let chars = chars_of(file);
    let mut out: Vec<char> = Vec::new();
    let mut i: usize = 0;
    while i < chars.len()
        invariant
            i <= chars.len(),
            chars@ == file@,
            out@ =~= forward_slashes(chars@.take(i as int)),
        decreases chars.len() - i,
    {
        let c = chars[i];
        if c == '\\' {
            out.push('/');
        } else {
            out.push(c);
        }
        i = i + 1;
    }
    assert(chars@.take(chars.len() as int) =~= chars@);
    string_from_chars(out.as_slice())
}

/// Where the overlay loads a media file from.
pub fn resolve_asset(file: &str, asset_map: &Vec<AssetEntry>) -> (r: String)
    ensures
        r@ == spec_resolve_asset(file@, assets_view(asset_map@)),
{
    let ghost m = assets_view(asset_map@);
    let mut i: usize = 0;
    while i < asset_map.len()
        invariant
            i <= asset_map.len(),
            m == assets_view(asset_map@),
            asset_index_from(m, file@, 0) == asset_index_from(m, file@, i as int),
        decreases asset_map.len() - i,
    {
        if str_eq(asset_map[i].file.as_str(), file) {
            assert(asset_index_from(m, file@, i as int) == Some(i as int));
            match &asset_map[i].web_path {
                Some(w) => {
                    return w.clone();
                },
                None => {
                    return forward_slashes_exec(file);
                },
            }
        }
        i = i + 1;
    }
    forward_slashes_exec(file)
}


// ─── Local media ─────────────────────────────────────────────────────────────

/// The folder under `assets/` for a (lower-cased) file extension.
pub open spec fn spec_sub_dir(ext: Seq<char>) -> Seq<char> {
    if ext == "mp4"@ || ext == "webm"@ || ext == "avi"@ || ext == "mov"@ || ext == "mkv"@ || ext
        == "flv"@ {
        "videos"@
    } else if ext == "png"@ || ext == "jpg"@ || ext == "jpeg"@ || ext == "webp"@ || ext == "bmp"@
        || ext == "svg"@ || ext == "gif"@ {
        "images"@
    } else if ext == "mp3"@ || ext == "wav"@ || ext == "ogg"@ || ext == "flac"@ || ext == "aac"@ {
        "audio"@
    } else {
        "misc"@
    }
}

/// The folder under `assets/` for a (lower-cased) file extension.
pub fn get_sub_dir(ext: &str) -> (r: &'static str)
    ensures
        r@ == spec_sub_dir(ext@),
{
    if str_eq(ext, "mp4") || str_eq(ext, "webm") || str_eq(ext, "avi") || str_eq(ext, "mov")
        || str_eq(ext, "mkv") || str_eq(ext, "flv") {
        "videos"
    } else if str_eq(ext, "png") || str_eq(ext, "jpg") || str_eq(ext, "jpeg") || str_eq(ext, "webp")
        || str_eq(ext, "bmp") || str_eq(ext, "svg") || str_eq(ext, "gif") {
        "images"
    } else if str_eq(ext, "mp3") || str_eq(ext, "wav") || str_eq(ext, "ogg") || str_eq(ext, "flac")
        || str_eq(ext, "aac") {
        "audio"
    } else {
        "misc"
    }
}

/// A media path that names a local file: not empty and not starting with `http`.
pub open spec fn is_local_path(f: Seq<char>) -> bool {
    f.len() > 0 && !has_prefix(f, "http"@)
}

/// The local files that the media items among `items` show, nested ones included.
pub open spec fn local_files(items: Seq<SceneItemView>) -> Set<Seq<char>>
    decreases items,
{
    if items.len() == 0 {
        Set::empty()
    } else {
        local_files(items.drop_last()).union(item_local_files(items.last()))
    }
}

/// The local file that one item shows (for a group, those its children show).
pub open spec fn item_local_files(item: SceneItemView) -> Set<Seq<char>>
    decreases item,
{
    match item {
        SceneItemView::Image { file, .. } | SceneItemView::Video { file, .. } | SceneItemView::Gif {
            file,
            ..
        } | SceneItemView::Audio { file, .. } => if is_local_path(file) {
            set![file]
        } else {
            Set::empty()
        },
        SceneItemView::Group { items, .. } => local_files(items),
        _ => Set::empty(),
    }
}

fn push_unique(acc: &mut Vec<String>, s: &String)
    requires
        string_views(old(acc)@).no_duplicates(),
    ensures
        string_views(final(acc)@).no_duplicates(),
        string_views(final(acc)@).to_set() == string_views(old(acc)@).to_set().insert(s@),
{
    let ghost before = string_views(acc@);
    let mut i: usize = 0;
    while i < acc.len()
        invariant
            i <= acc.len(),
            before == string_views(acc@),
            acc@ == old(acc)@,
            before.no_duplicates(),
            forall|j: int| 0 <= j < i ==> before[j] != s@,
        decreases acc.len() - i,
    {
        if str_eq(acc[i].as_str(), s.as_str()) {
            assert(before[i as int] == s@);
            assert(before.to_set().insert(s@) =~= before.to_set());
            return ;
        }
        i = i + 1;
    }
    acc.push(s.clone());
    assert(string_views(acc@) =~= before.push(s@));
    proof {
        before.lemma_push_to_set_commute(s@);
        assert forall|a: int, b: int|
            0 <= a < string_views(acc@).len() && 0 <= b < string_views(acc@).len() && a
                != b implies string_views(acc@)[a] != string_views(acc@)[b] by {
            if a < before.len() && b < before.len() {
            } else if a == before.len() {
                assert(before[b] == string_views(acc@)[b]);
            } else {
                assert(before[a] == string_views(acc@)[a]);
            }
        }
    }
}

fn collect_local_files_into(items: &Vec<SceneItem>, acc: &mut Vec<String>)
    requires
        string_views(old(acc)@).no_duplicates(),
    ensures
        string_views(final(acc)@).no_duplicates(),
        string_views(final(acc)@).to_set() == string_views(old(acc)@).to_set().union(
            local_files(items_view(items@)),
        ),
    decreases items,
{
    let ghost start = string_views(acc@).to_set();
    let mut i: usize = 0;
    while i < items.len()
        invariant
            i <= items.len(),
            string_views(acc@).no_duplicates(),
            string_views(acc@).to_set() == start.union(local_files(items_view(items@.take(i as int)))),
        decreases items.len() - i,
    {
        let ghost prev = items_view(items@.take(i as int));
        let ghost cur = items_view(items@.take(i + 1));
        proof {
            lemma_items_view_push(items@.take(i as int), items@[i as int]);
            assert(items@.take(i as int).push(items@[i as int]) =~= items@.take(i + 1));
            assert(cur == prev.push(item_view(items@[i as int])));
            assert(cur.drop_last() =~= prev);
            assert(local_files(cur) == local_files(prev).union(
                item_local_files(item_view(items@[i as int])),
            ));
        }
        let ghost before = string_views(acc@).to_set();
        match &items[i] {
            SceneItem::Image { file, .. } | SceneItem::Video { file, .. } | SceneItem::Gif {
                file,
                ..
            } | SceneItem::Audio { file, .. } => {
                if !file.as_str().is_empty() && !starts_with(file.as_str(), "http") {
                    push_unique(acc, file);
                    assert(before.insert(file@) =~= before.union(set![file@]));
                } else {
                    assert(before.union(Set::<Seq<char>>::empty()) =~= before);
                }
            },
            SceneItem::Group { items: children, .. } => {
                assert(decreases_to!(items => items@[i as int]));
                collect_local_files_into(children, acc);
            },
            _ => {
                assert(before.union(Set::<Seq<char>>::empty()) =~= before);
            },
        }
        assert(string_views(acc@).to_set() =~= start.union(local_files(cur)));
        i = i + 1;
    }
    assert(items@.take(items.len() as int) =~= items@);
}

/// The local files that a scene's media items show, each once.
pub fn collect_local_files(items: &Vec<SceneItem>) -> (r: Vec<String>)
    ensures
        string_views(r@).no_duplicates(),
        string_views(r@).to_set() == local_files(items_view(items@)),
{
    let mut acc: Vec<String> = Vec::new();
    assert(string_views(acc@).to_set() =~= Set::empty());
    collect_local_files_into(items, &mut acc);
    assert(Set::<Seq<char>>::empty().union(local_files(items_view(items@))) =~= local_files(
        items_view(items@),
    ));
    acc
}

/// Where a copied media file goes, relative to the overlay.
pub struct AssetPlan {
    pub sub_dir: &'static str,
    pub file_name: String,
    pub web_path: String,
}

/// The folder, file name and web path of a copied media file, from its
/// extension and file name (`unknown` when it has none).
pub open spec fn spec_destination(ext: Option<Seq<char>>, file_name: Option<Seq<char>>) -> (
    Seq<char>,
    Seq<char>,
    Seq<char>,
) {
    let sub = spec_sub_dir(spec_lowercase(
        match ext {
            Some(e) => e,
            None => ""@,
        },
    ));
    let name = match file_name {
        Some(n) => n,
        None => "unknown"@,
    };
    (sub, name, "assets/"@ + sub + "/"@ + name)
}

/// The view of an asset plan.
pub open spec fn plan_view(p: AssetPlan) -> (Seq<char>, Seq<char>, Seq<char>) {
    (p.sub_dir@, p.file_name@, p.web_path@)
}

/// Where a media file with this extension and file name goes.
pub fn asset_destination(ext: Option<&str>, file_name: Option<&str>) -> (r: AssetPlan)
    ensures
        plan_view(r) == spec_destination(
            match ext {
                Some(e) => Some(e@),
                None => None::<Seq<char>>,
            },
            match file_name {
                Some(n) => Some(n@),
                None => None::<Seq<char>>,
            },
        ),
{
    let e = match ext {
        Some(e) => e,
        None => "",
    };
    let lower = to_lowercase(e);
    let sub_dir = get_sub_dir(lower.as_str());
    let name = match file_name {
        Some(n) => n,
        None => "unknown",
    };
    let mut web_path = String::from_str("assets/");
    web_path.append(sub_dir);
    web_path.append("/");
    web_path.append(name);
    AssetPlan { sub_dir, file_name: name.to_owned(), web_path }
}

/// A path whose final component every platform reads alike: the text after
/// its last `/` is a normal name (not empty, not `.` or `..`, without `:`),
/// the path holds no `\` and does not start with `//`.
pub open spec fn plain_path(path: Seq<char>) -> bool {
    let name = after_last(path, '/');
    &&& name.len() > 0
    &&& name != "."@
    &&& name != ".."@
    &&& !name.contains(':')
    &&& !path.contains('\\')
    &&& !has_prefix(path, "//"@)
}

/// The extension of a file name, as `Path::extension` documents it: the text
/// after its last `.` when a `.` comes after its first character, none
/// otherwise.
pub open spec fn name_extension(name: Seq<char>) -> Option<Seq<char>> {
    if exists|i: int| 1 <= i < name.len() && name[i] == '.' {
        Some(after_last(name, '.'))
    } else {
        None
    }
}

/// The view of an optional string.
pub open spec fn opt_view(o: Option<String>) -> Option<Seq<char>> {
    match o {
        Some(s) => Some(s@),
        None => None,
    }
}

/// The extension of the file a path names, as std's `Path::extension` finds
/// it: it holds no dot, and on a plain path it is the extension of the text
/// after the last `/`. On other paths it depends on the platform's
/// separators and prefixes, and is left unsaid.
#[verifier::external_body]
fn path_extension(p: &str) -> (r: Option<String>)
    ensures
        r matches Some(e) ==> !e@.contains('.'),
        plain_path(p@) ==> opt_view(r) == name_extension(after_last(p@, '/')),
{
    std::path::Path::new(p).extension().and_then(|e| e.to_str()).map(|e| e.to_string())
}

/// `part` occurs in `whole` as a run of consecutive characters.
pub open spec fn is_part_of(part: Seq<char>, whole: Seq<char>) -> bool {
    exists|i: int| 0 <= i && i + part.len() <= whole.len() && #[trigger] whole.subrange(i, i + part.len()) == part
}

/// The final component of a path, as std's `Path::file_name` finds it: a
/// normal component of the path, so a non-empty part of it without `/`
/// (a separator on every platform); on a plain path, the text after its last
/// `/`. On other paths which component it is depends on the platform's
/// separators and prefixes (`\` and `C:` count only on Windows), and is
/// left unsaid.
#[verifier::external_body]
fn path_file_name(p: &str) -> (r: Option<String>)
    ensures
        r matches Some(n) ==> n@.len() > 0 && !n@.contains('/') && is_part_of(n@, p@),
        plain_path(p@) ==> opt_view(r) == Some(after_last(p@, '/')),
{
    std::path::Path::new(p).file_name().and_then(|n| n.to_str()).map(|n| n.to_string())
}

/// Where a local media file is copied: the folder by its extension, its file
/// name, and its web path `assets/<folder>/<name>`.
pub fn plan_asset(file_path: &str) -> (r: AssetPlan)
    ensures
        exists|e: Option<Seq<char>>, n: Option<Seq<char>>|
            plan_view(r) == spec_destination(e, n) && (e matches Some(x) ==> !x.contains('.')),
        plain_path(file_path@) ==> plan_view(r) == spec_destination(
            name_extension(after_last(file_path@, '/')),
            Some(after_last(file_path@, '/')),
        ),
{
    let ext = path_extension(file_path);
    let name = path_file_name(file_path);
    let e = match &ext {
        Some(x) => Some(x.as_str()),
        None => None,
    };
    let n = match &name {
        Some(x) => Some(x.as_str()),
        None => None,
    };
    let r = asset_destination(e, n);
    let ghost ev = match e {
        Some(x) => Some(x@),
        None => None::<Seq<char>>,
    };
    let ghost nv = match n {
        Some(x) => Some(x@),
        None => None::<Seq<char>>,
    };
    assert(plan_view(r) == spec_destination(ev, nv));
    r
}

/// What a short name of `path` is: a part of the path that is either the
/// whole path or a non-empty name without `/`, and on a plain path the text
/// after its last `/`.
pub open spec fn short_name_of(path: Seq<char>, name: Seq<char>) -> bool {
    &&& is_part_of(name, path)
    &&& name == path || (name.len() > 0 && !name.contains('/'))
    &&& plain_path(path) ==> name == after_last(path, '/')
}

/// How copying one local media file went.
pub enum CopyOutcome {
    /// The file does not exist.
    Missing,
    /// Its folder under `assets/` could not be made; the error.
    FolderFailed(String),
    /// It was copied to its planned place.
    Copied,
    /// Copying failed; the error.
    CopyFailed(String),
}

/// The files of the entries of an asset map.
pub open spec fn asset_files(m: Seq<(Seq<char>, Option<Seq<char>>)>) -> Seq<Seq<char>> {
    m.map_values(|e: (Seq<char>, Option<Seq<char>>)| e.0)
}

/// The log line of a copy.
pub open spec fn copy_message(file: Seq<char>, file_name: Seq<char>, outcome: CopyOutcome) -> Seq<char> {
    match outcome {
        CopyOutcome::Missing => "✗ Não encontrado: "@ + file,
        CopyOutcome::FolderFailed(e) => "✗ Erro ao criar pasta: "@ + e@,
        CopyOutcome::Copied => "✓ Copiado: "@ + file_name,
        CopyOutcome::CopyFailed(e) => "✗ Erro ao copiar "@ + file_name + ": "@ + e@,
    }
}

/// Takes in how copying `file` by `plan` went: the asset map gains the file,
/// with its planned web path when it was copied and none otherwise. Gives
/// back the log line. A file new to a map whose files are distinct keeps
/// them distinct.
pub fn record_copy(asset_map: &mut Vec<AssetEntry>, file: String, plan: &AssetPlan, outcome: CopyOutcome) -> (msg:
    String)
    ensures
        assets_view(final(asset_map)@) == assets_view(old(asset_map)@).push(
            (
                file@,
                if outcome is Copied {
                    Some(plan.web_path@)
                } else {
                    None
                },
            ),
        ),
        msg@ == copy_message(file@, plan.file_name@, outcome),
        asset_files(assets_view(old(asset_map)@)).no_duplicates() && !asset_files(
            assets_view(old(asset_map)@),
        ).contains(file@) ==> asset_files(assets_view(final(asset_map)@)).no_duplicates(),
{
    let ghost before = assets_view(asset_map@);
    let msg = match &outcome {
        CopyOutcome::Missing => {
            let mut m = String::from_str("✗ Não encontrado: ");
            m.append(file.as_str());
            m
        },
        CopyOutcome::FolderFailed(e) => {
            let mut m = String::from_str("✗ Erro ao criar pasta: ");
            m.append(e.as_str());
            m
        },
        CopyOutcome::Copied => {
            let mut m = String::from_str("✓ Copiado: ");
            m.append(plan.file_name.as_str());
            m
        },
        CopyOutcome::CopyFailed(e) => {
            let mut m = String::from_str("✗ Erro ao copiar ");
            m.append(plan.file_name.as_str());
            m.append(": ");
            m.append(e.as_str());
            m
        },
    };
    let web_path = match &outcome {
        CopyOutcome::Copied => Some(plan.web_path.clone()),
        _ => None,
    };
    let ghost fv = file@;
    asset_map.push(AssetEntry { file, web_path });
    assert(assets_view(asset_map@) =~= before.push(asset_view(asset_map@.last())));
    proof {
        let a = asset_files(before);
        let b = asset_files(assets_view(asset_map@));
        assert(b =~= a.push(fv));
        if a.no_duplicates() && !a.contains(fv) {
            assert forall|i: int, j: int| 0 <= i < b.len() && 0 <= j < b.len() && i != j implies b[i] != b[j] by {
                if i < a.len() && j < a.len() {
                } else if i < a.len() {
                    assert(a.contains(b[i]));
                } else {
                    assert(a.contains(b[j]));
                }
            }
        }
    }
    msg
}

/// Short file name of a path for the log: its final component when std's
/// `Path::file_name` finds one (by the platform's separators), else the whole
/// path.
pub fn short_path(path: &str) -> (r: String)
    ensures
        short_name_of(path@, r@),
{
    match path_file_name(path) {
        Some(n) => n,
        None => {
            assert(is_part_of(path@, path@)) by {
                assert(path@.subrange(0int, 0int + path@.len()) =~= path@);
            }
            path.to_owned()
        },
    }
}

// ─── Counting ────────────────────────────────────────────────────────────────

/// How many of the first `n` entries were copied.
pub open spec fn copied_upto(m: Seq<(Seq<char>, Option<Seq<char>>)>, n: nat) -> nat
    decreases n,
{
    if n == 0 || n > m.len() {
        0
    } else {
        copied_upto(m, (n - 1) as nat) + if m[n - 1].1 is Some {
            1nat
        } else {
            0nat
        }
    }
}

/// How many of the first `n` entries could not be copied.
pub open spec fn missing_upto(m: Seq<(Seq<char>, Option<Seq<char>>)>, n: nat) -> nat
    decreases n,
{
    if n == 0 || n > m.len() {
        0
    } else {
        missing_upto(m, (n - 1) as nat) + if m[n - 1].1 is None {
            1nat
        } else {
            0nat
        }
    }
}

/// Among the first `n` entries, each is counted as copied or as missing.
pub proof fn lemma_counts_sum(m: Seq<(Seq<char>, Option<Seq<char>>)>, n: nat)
    requires
        n <= m.len(),
    ensures
        copied_upto(m, n) + missing_upto(m, n) == n,
    decreases n,
{
    if n > 0 {
        lemma_counts_sum(m, (n - 1) as nat);
    }
}

/// Every media file of an export is counted once: as copied or as not found.
pub proof fn law_assets_copied_or_missing(m: Seq<(Seq<char>, Option<Seq<char>>)>)
    ensures
        copied_upto(m, m.len()) + missing_upto(m, m.len()) == m.len(),
{
    lemma_counts_sum(m, m.len());
}

/// The overlay never loads a media file by a Windows path: when no web path
/// in the asset map has a backslash, neither has the path a file resolves to.
pub proof fn law_resolved_path_has_no_backslash(
    file: Seq<char>,
    m: Seq<(Seq<char>, Option<Seq<char>>)>,
)
    requires
        forall|i: int| 0 <= i < m.len() ==> (#[trigger] m[i].1 matches Some(w) ==> !w.contains('\\')),
    ensures
        !spec_resolve_asset(file, m).contains('\\'),
{
    let f = forward_slashes(file);
    assert(!f.contains('\\')) by {
        if f.contains('\\') {
            let i = choose|i: int| 0 <= i < f.len() && f[i] == '\\';
            assert(f[i] == slash(file[i]));
        }
    }
    lemma_asset_index_range(m, file, 0);
}

/// A found entry index lies inside the map.
proof fn lemma_asset_index_range(m: Seq<(Seq<char>, Option<Seq<char>>)>, file: Seq<char>, i: int)
    ensures
        asset_index_from(m, file, i) matches Some(k) ==> 0 <= k < m.len(),
    decreases m.len() - i,
{
    if 0 <= i < m.len() && m[i].0 != file {
        lemma_asset_index_range(m, file, i + 1);
    }
}

/// `dedup` keeps each element once and keeps exactly the elements there were.
proof fn lemma_dedup_distinct(s: Seq<Seq<char>>)
    ensures
        dedup(s).no_duplicates(),
        forall|x: Seq<char>| #[trigger] dedup(s).contains(x) <==> s.contains(x),
    decreases s.len(),
{
    if s.len() > 0 {
        lemma_dedup_distinct(s.drop_last());
        let d = dedup(s.drop_last());
        assert forall|x: Seq<char>| s.contains(x) <==> (s.drop_last().contains(x) || x == s.last()) by {
            if s.contains(x) {
                let i = choose|i: int| 0 <= i < s.len() && s[i] == x;
                if i < s.len() - 1 {
                    assert(s.drop_last()[i] == x);
                }
            }
            if s.drop_last().contains(x) {
                let i = choose|i: int| 0 <= i < s.drop_last().len() && s.drop_last()[i] == x;
                assert(s[i] == x);
            }
            if x == s.last() {
                assert(s[s.len() - 1] == x);
            }
        }
        if !d.contains(s.last()) {
            let e = d.push(s.last());
            assert forall|x: Seq<char>| e.contains(x) <==> (d.contains(x) || x == s.last()) by {
                if e.contains(x) {
                    let i = choose|i: int| 0 <= i < e.len() && e[i] == x;
                    if i < d.len() {
                        assert(d[i] == x);
                    }
                }
                if d.contains(x) {
                    let i = choose|i: int| 0 <= i < d.len() && d[i] == x;
                    assert(e[i] == x);
                }
                if x == s.last() {
                    assert(e[d.len() as int] == x);
                }
            }
            assert forall|i: int, j: int| 0 <= i < e.len() && 0 <= j < e.len() && i != j implies e[i] != e[j] by {
                if i < d.len() && j < d.len() {
                } else if i < d.len() {
                    assert(d.contains(e[i]));
                } else {
                    assert(d.contains(e[j]));
                }
            }
        }
    }
}

/// The font files to download are each named once, and each is one that the
/// stylesheet holds.
pub proof fn law_woff2_urls_distinct(css: Seq<char>)
    ensures
        spec_woff2_urls(css).no_duplicates(),
        forall|u: Seq<char>| #[trigger] spec_woff2_urls(css).contains(u) ==> woff2_scan(css, 0).contains(u),
{
    lemma_dedup_distinct(woff2_scan(css, 0));
}

/// How many media files were copied and how many could not be.
pub fn count_assets(asset_map: &Vec<AssetEntry>) -> (r: (usize, usize))
    ensures
        r.0 == copied_upto(assets_view(asset_map@), asset_map@.len()),
        r.1 == missing_upto(assets_view(asset_map@), asset_map@.len()),
{
    let ghost m = assets_view(asset_map@);
    let mut copied: usize = 0;
    let mut missing: usize = 0;
    let mut i: usize = 0;
    while i < asset_map.len()
        invariant
            i <= asset_map.len(),
            m == assets_view(asset_map@),
            copied == copied_upto(m, i as nat),
            missing == missing_upto(m, i as nat),
        decreases asset_map.len() - i,
    {
        proof {
            lemma_counts_sum(m, i as nat);
        }
        if asset_map[i].web_path.is_some() {
            copied = copied + 1;
        } else {
            missing = missing + 1;
        }
        i = i + 1;
    }
    (copied, missing)
}

/// The closing message of an export: how many files were copied and, when
/// some were not found, how many.
pub open spec fn summary_text(copied: nat, missing: nat) -> Seq<char> {
    "Pronto! "@ + nat_decimal(copied) + " asset(s) copiado(s)"@ + (if missing > 0 {
        ", "@ + nat_decimal(missing) + " não encontrado(s)"@
    } else {
        ""@
    }) + "."@
}

/// The closing message of an export.
pub fn export_summary(copied: usize, missing: usize) -> (r: String)
    ensures
        r@ == summary_text(copied as nat, missing as nat),
{
    let mut s = String::from_str("Pronto! ");
    let c = usize_to_decimal(copied);
    s.append(c.as_str());
    s.append(" asset(s) copiado(s)");
    if missing > 0 {
        let mut tail = String::from_str(", ");
        let m = usize_to_decimal(missing);
        tail.append(m.as_str());
        tail.append(" não encontrado(s)");
        s.append(tail.as_str());
    } else {
        s.append("");
    }
    s.append(".");
    s
}

/// The outcome of an export: always a success, with the copy counts and the
/// closing message.
pub struct ExportResult {
    pub success: bool,
    pub copied: usize,
    pub missing: usize,
    pub message: String,
}

/// The outcome of an export whose media files ended up as `asset_map` says.
pub fn export_result(asset_map: &Vec<AssetEntry>) -> (r: ExportResult)
    ensures
        r.success,
        r.copied == copied_upto(assets_view(asset_map@), asset_map@.len()),
        r.missing == missing_upto(assets_view(asset_map@), asset_map@.len()),
        r.message@ == summary_text(r.copied as nat, r.missing as nat),
{
    let (copied, missing) = count_assets(asset_map);
    let message = export_summary(copied, missing);
    ExportResult { success: true, copied, missing, message }
}


// ─── Fonts ───────────────────────────────────────────────────────────────────

/// The Google Fonts id to download for a font face, when it has one.
pub open spec fn google_font_of(face: Seq<char>) -> Option<Seq<char>> {
    match spec_web_font(face) {
        Some((_, Some(g))) => Some(g),
        _ => None,
    }
}

/// The faces among the first `n` that have a Google font, each with it.
pub open spec fn google_fonts_upto(faces: Seq<Seq<char>>, n: nat) -> Seq<(Seq<char>, Seq<char>)>
    decreases n,
{
    if n == 0 || n > faces.len() {
        seq![]
    } else {
        match google_font_of(faces[n - 1]) {
            Some(g) => google_fonts_upto(faces, (n - 1) as nat).push((faces[n - 1], g)),
            None => google_fonts_upto(faces, (n - 1) as nat),
        }
    }
}

/// The views of (face, Google font) pairs.
pub open spec fn pairs_view(v: Seq<(String, String)>) -> Seq<(Seq<char>, Seq<char>)> {
    v.map_values(|p: (String, String)| (p.0@, p.1@))
}

/// The font faces that have a Google Fonts equivalent, each with its id, in
/// the order of `font_faces`.
pub fn collect_google_fonts(font_faces: &Vec<String>) -> (r: Vec<(String, String)>)
    ensures
        pairs_view(r@) == google_fonts_upto(string_views(font_faces@), font_faces@.len()),
{
    let ghost faces = string_views(font_faces@);
    let mut out: Vec<(String, String)> = Vec::new();
    let mut i: usize = 0;
    while i < font_faces.len()
        invariant
            i <= font_faces.len(),
            faces == string_views(font_faces@),
            pairs_view(out@) == google_fonts_upto(faces, i as nat),
        decreases font_faces.len() - i,
    {
        let face = &font_faces[i];
        assert(faces[i as int] == face@);
        match get_web_font(face.as_str()) {
            Some(m) => {
                match m.google_font {
                    Some(g) => {
                        let ghost before = out@;
                        out.push((face.clone(), g.to_owned()));
                        assert(pairs_view(out@) =~= pairs_view(before).push((face@, g@)));
                    },
                    None => {},
                }
            },
            None => {},
        }
        i = i + 1;
    }
    out
}

/// The Google Fonts stylesheet URL of a font family id.
pub open spec fn font_css_url(google_font: Seq<char>) -> Seq<char> {
    "https://fonts.googleapis.com/css2?family="@ + google_font + "&display=swap"@
}

/// The Google Fonts stylesheet URL of a font family id.
pub fn google_fonts_css_url(google_font: &str) -> (r: String)
    ensures
        r@ == font_css_url(google_font@),
{
    let mut s = String::from_str("https://fonts.googleapis.com/css2?family=");
    s.append(google_font);
    s.append("&display=swap");
    s
}

/// The CSS that loads a font from Google's CDN, used when it could not be downloaded.
pub open spec fn font_fallback_css(google_font: Seq<char>) -> Seq<char> {
    "@import url('"@ + font_css_url(google_font) + "');"@
}

/// The CSS that loads a font from Google's CDN.
pub fn font_fallback_import(google_font: &str) -> (r: String)
    ensures
        r@ == font_fallback_css(google_font@),
{
    let mut s = String::from_str("@import url('");
    let url = google_fonts_css_url(google_font);
    s.append(url.as_str());
    s.append("');");
    s
}

/// Where Google serves font files.
pub open spec fn gstatic_prefix() -> Seq<char> {
    "https://fonts.gstatic.com/"@
}

/// The WOFF2 URLs in a stylesheet from index `from` on, in order, repeats
/// included: each runs from `https://fonts.gstatic.com/` to the next `.woff2`
/// inclusive, and the search goes on after it.
pub open spec fn woff2_scan(css: Seq<char>, from: int) -> Seq<Seq<char>>
    decreases css.len() + 1 - from,
{
    if from < 0 || from > css.len() {
        seq![]
    } else {
        match find_from(css, gstatic_prefix(), from) {
            None => seq![],
            Some(abs) => match find_from(css, ".woff2"@, abs) {
                None => seq![],
                Some(end) => {
                    proof {
                        lemma_find_from_range(css, gstatic_prefix(), from);
                        lemma_find_from_range(css, ".woff2"@, abs);
                        reveal_strlit(".woff2");
                    }
                    seq![css.subrange(abs, end + 6)] + woff2_scan(css, end + 6)
                },
            },
        }
    }
}

/// The first occurrence of each element, in order.
pub open spec fn dedup(s: Seq<Seq<char>>) -> Seq<Seq<char>>
    decreases s.len(),
{
    if s.len() == 0 {
        seq![]
    } else if dedup(s.drop_last()).contains(s.last()) {
        dedup(s.drop_last())
    } else {
        dedup(s.drop_last()).push(s.last())
    }
}

/// The distinct WOFF2 font URLs of a Google Fonts stylesheet, in the order
/// they first appear.
pub open spec fn spec_woff2_urls(css: Seq<char>) -> Seq<Seq<char>> {
    dedup(woff2_scan(css, 0))
}

fn contains_view(v: &Vec<String>, s: &String) -> (r: bool)
    ensures
        r == string_views(v@).contains(s@),
{
    let mut i: usize = 0;
    while i < v.len()
        invariant
            i <= v.len(),
            forall|j: int| 0 <= j < i ==> v@[j]@ != s@,
        decreases v.len() - i,
    {
        if str_eq(v[i].as_str(), s.as_str()) {
            assert(string_views(v@)[i as int] == s@);
            return true;
        }
        i = i + 1;
    }
    assert forall|j: int| 0 <= j < string_views(v@).len() implies string_views(v@)[j] != s@ by {}
    false
}

/// The distinct WOFF2 font URLs of a Google Fonts stylesheet, in the order
/// they first appear.
pub fn extract_woff2_urls(css: &str) -> (r: Vec<String>)
    ensures
        string_views(r@) == spec_woff2_urls(css@),
{
    let chars = chars_of(css);
    let prefix = chars_of("https://fonts.gstatic.com/");
    let suffix = chars_of(".woff2");
    proof {
        reveal_strlit(".woff2");
        reveal_strlit("https://fonts.gstatic.com/");
    }
    let mut out: Vec<String> = Vec::new();
    let mut from: usize = 0;
    let total = chars.len();
    let ghost mut scanned: Seq<Seq<char>> = seq![];
    loop
        invariant
            from <= chars@.len(),
            total == chars@.len(),
            chars@ == css@,
            prefix@ == gstatic_prefix(),
            suffix@ == ".woff2"@,
            suffix@.len() == 6,
            prefix@.len() > 0,
            woff2_scan(css@, 0) == scanned + woff2_scan(css@, from as int),
            string_views(out@) == dedup(scanned),
        decreases chars@.len() + 1 - from,
    {
        match find_chars(&chars, &prefix, from) {
            None => {
                assert(woff2_scan(css@, from as int) =~= Seq::<Seq<char>>::empty());
                assert(scanned + woff2_scan(css@, from as int) =~= scanned);
                return out;
            },
            Some(abs) => {
                proof {
                    lemma_find_from_range(css@, gstatic_prefix(), from as int);
                }
                match find_chars(&chars, &suffix, abs) {
                    None => {
                        assert(woff2_scan(css@, from as int) =~= Seq::<Seq<char>>::empty());
                        assert(scanned + woff2_scan(css@, from as int) =~= scanned);
                        return out;
                    },
                    Some(end) => {
                        proof {
                            lemma_find_from_range(css@, ".woff2"@, abs as int);
                        }
                        assert(end + 6 <= total);
                        let stop: usize = end + 6;
                        let mut url_chars: Vec<char> = Vec::new();
                        let mut k: usize = abs;
                        while k < stop
                            invariant
                                abs <= k <= stop,
                                stop == end + 6,
                                stop <= chars@.len(),
                                url_chars@ == chars@.subrange(abs as int, k as int),
                            decreases stop - k,
                        {
                            url_chars.push(chars[k]);
                            assert(chars@.subrange(abs as int, k + 1) =~= chars@.subrange(
                                abs as int,
                                k as int,
                            ).push(chars@[k as int]));
                            k = k + 1;
                        }
                        let url = string_from_chars(url_chars.as_slice());
                        let ghost prev = scanned;
                        proof {
                            scanned = scanned.push(url@);
                            assert(scanned.drop_last() =~= prev);
                            assert(woff2_scan(css@, from as int) == seq![url@] + woff2_scan(
                                css@,
                                end + 6,
                            ));
                            assert(prev + woff2_scan(css@, from as int) =~= scanned + woff2_scan(
                                css@,
                                end + 6,
                            ));
                        }
                        if !contains_view(&out, &url) {
                            let ghost before = out@;
                            out.push(url);
                            assert(string_views(out@) =~= string_views(before).push(
                                scanned.last(),
                            ));
                        }
                        from = stop;
                    },
                }
            },
        }
    }
}

/// A character of a font id with `+` turned into `_`.
pub open spec fn underscore(c: char) -> char {
    if c == '+' {
        '_'
    } else {
        c
    }
}

/// The local file name of a downloaded font file: the font id with `+` as
/// `_`, an underscore, and the last path segment of its URL.
pub open spec fn spec_font_file_name(google_font: Seq<char>, url: Seq<char>) -> Seq<char> {
    google_font.map_values(|c: char| underscore(c)) + "_"@ + after_last(url, '/')
}

/// The local file name of a downloaded font file.
pub fn font_file_name(google_font: &str, url: &str) -> (r: String)
    ensures
        r@ == spec_font_file_name(google_font@, url@),
{
    let chars = chars_of(google_font);
    let mut out: Vec<char> = Vec::new();
    let mut i: usize = 0;
    while i < chars.len()
        invariant
            i <= chars.len(),
            chars@ == google_font@,
            out@ =~= chars@.take(i as int).map_values(|c: char| underscore(c)),
        decreases chars.len() - i,
    {
        let c = chars[i];
        if c == '+' {
            out.push('_');
        } else {
            out.push(c);
        }
        i = i + 1;
    }
    assert(chars@.take(chars.len() as int) =~= chars@);
    let mut s = string_from_chars(out.as_slice());
    s.append("_");
    let tail = text_after_last(url, '/');
    s.append(tail.as_str());
    s
}

/// Where a downloaded font file is served from, relative to the overlay.
pub open spec fn local_font_path(file_name: Seq<char>) -> Seq<char> {
    "assets/fonts/"@ + file_name
}

/// The stylesheet with the remote URL of a downloaded font file replaced,
/// everywhere, by its local path.
pub fn localize_font_url(css: &str, url: &str, file_name: &str) -> (r: String)
    requires
        url@.len() > 0,
    ensures
        r@ == replace_all(css@, url@, local_font_path(file_name@)),
{
    let mut local = String::from_str("assets/fonts/");
    local.append(file_name);
    replace_text(css, url, local.as_str())
}

/// The stylesheet with the URL of each downloaded font file, in turn,
/// replaced everywhere by its local path (an empty URL replaces nothing).
pub open spec fn localized_css(css: Seq<char>, google_font: Seq<char>, urls: Seq<Seq<char>>) -> Seq<
    char,
>
    decreases urls.len(),
{
    if urls.len() == 0 {
        css
    } else {
        replace_all(
            localized_css(css, google_font, urls.drop_last()),
            urls.last(),
            local_font_path(spec_font_file_name(google_font, urls.last())),
        )
    }
}

/// The stylesheet of a font whose files `urls` were downloaded: each URL
/// replaced by the local path of its file, surrounding white space removed.
pub fn localize_font_css(css: &str, google_font: &str, urls: &Vec<String>) -> (r: String)
    ensures
        r@ == spec_trim(localized_css(css@, google_font@, string_views(urls@))),
{
    let ghost views = string_views(urls@);
    let mut out = String::from_str(css);
    let mut i: usize = 0;
    while i < urls.len()
        invariant
            i <= urls.len(),
            views == string_views(urls@),
            out@ == localized_css(css@, google_font@, views.take(i as int)),
        decreases urls.len() - i,
    {
        let url = urls[i].as_str();
        assert(views.take(i + 1).drop_last() =~= views.take(i as int));
        assert(views.take(i + 1).last() == url@);
        if !url.is_empty() {
            let name = font_file_name(google_font, url);
            out = localize_font_url(out.as_str(), url, name.as_str());
        }
        i = i + 1;
    }
    assert(views.take(urls.len() as int) =~= views);
    finish_font_css(out.as_str())
}

/// What came of downloading one Google font: its stylesheet, or the error.
pub enum FontOutcome {
    Downloaded(String),
    Failed(String),
}

/// Takes in the outcome of downloading the font `google_font` that stands
/// for `face`: its stylesheet joins the font CSS, or, when the download
/// failed, a CDN import of the font does. Gives back the log line.
pub fn record_font(
    blocks: &mut Vec<String>,
    face: &str,
    google_font: &str,
    outcome: FontOutcome,
) -> (msg: String)
    ensures
        match outcome {
            FontOutcome::Downloaded(css) => string_views(final(blocks)@) == string_views(
                old(blocks)@,
            ).push(css@) && msg@ == "✓ Fonte baixada: "@ + face@,
            FontOutcome::Failed(e) => string_views(final(blocks)@) == string_views(old(blocks)@).push(
                font_fallback_css(google_font@),
            ) && msg@ == "⚠ Falha ao baixar fonte ("@ + e@ + ") — usando CDN fallback"@,
        },
{
    let ghost before = blocks@;
    match outcome {
        FontOutcome::Downloaded(css) => {
            blocks.push(css);
            assert(string_views(blocks@) =~= string_views(before).push(blocks@.last()@));
            let mut m = String::from_str("✓ Fonte baixada: ");
            m.append(face);
            m
        },
        FontOutcome::Failed(e) => {
            let css = font_fallback_import(google_font);
            blocks.push(css);
            assert(string_views(blocks@) =~= string_views(before).push(blocks@.last()@));
            let mut m = String::from_str("⚠ Falha ao baixar fonte (");
            m.append(e.as_str());
            m.append(") — usando CDN fallback");
            m
        },
    }
}

/// The stylesheet of a downloaded font, without surrounding white space.
pub fn finish_font_css(css: &str) -> (r: String)
    ensures
        r@ == spec_trim(css@),
{
    trim(css)
}

/// The CSS blocks of the fonts, separated by blank lines.
pub fn join_font_css(blocks: &Vec<String>) -> (r: String)
    ensures
        r@ == joined(string_views(blocks@), "\n\n"@),
{
    join(blocks, "\n\n")
}

/// What the overlay needs from the asset step: where each local media file
/// went, and the CSS of the fonts.
pub struct AssetResult {
    pub asset_map: Vec<AssetEntry>,
    pub font_css: String,
}

/// The file a media item (image, video, GIF or sound) shows; none for
/// other items.
pub open spec fn media_file(item: SceneItemView) -> Option<Seq<char>> {
    match item {
        SceneItemView::Image { file, .. } => Some(file),
        SceneItemView::Video { file, .. } => Some(file),
        SceneItemView::Gif { file, .. } => Some(file),
        SceneItemView::Audio { file, .. } => Some(file),
        _ => None,
    }
}

/// The local files of one item are the local paths among its media files.
proof fn lemma_item_local_files(item: SceneItemView)
    ensures
        forall|f: Seq<char>| #[trigger] item_local_files(item).contains(f) <==> (media_files(item).contains(f)
            && is_local_path(f)),
    decreases item, 1nat,
{
    match item {
        SceneItemView::Group { items, .. } => {
            lemma_items_local_files(items);
            assert(item_local_files(item) == local_files(items));
            assert(media_files(item) == media_files_items(items));
            assert forall|f: Seq<char>| #[trigger] item_local_files(item).contains(f) <==> (media_files(
                item,
            ).contains(f) && is_local_path(f)) by {
                assert(local_files(items).contains(f) <==> (media_files_items(items).contains(f)
                    && is_local_path(f)));
            }
        },
        _ => {
            if let Some(file) = media_file(item) {
                assert forall|f: Seq<char>| media_files(item).contains(f) <==> f == file by {
                    if f == file {
                        assert(media_files(item)[0] == f);
                    }
                }
            }
        },
    }
}

/// The local files among items are the local paths among their media files.
proof fn lemma_items_local_files(items: Seq<SceneItemView>)
    ensures
        forall|f: Seq<char>| #[trigger] local_files(items).contains(f) <==> (media_files_items(items).contains(f)
            && is_local_path(f)),
    decreases items, 0nat,
{
    if items.len() > 0 {
        let last = items.last();
        assert(decreases_to!(items => items[items.len() - 1]));
        lemma_items_local_files(items.drop_last());
        lemma_item_local_files(last);
        let a = media_files_items(items.drop_last());
        let b = media_files(last);
        assert forall|f: Seq<char>| (a + b).contains(f) <==> (a.contains(f) || b.contains(f)) by {
            if (a + b).contains(f) {
                let k = choose|k: int| 0 <= k < (a + b).len() && (a + b)[k] == f;
                if k < a.len() {
                    assert(a[k] == f);
                } else {
                    assert(b[k - a.len()] == f);
                }
            }
            if a.contains(f) {
                let k = choose|k: int| 0 <= k < a.len() && a[k] == f;
                assert((a + b)[k] == f);
            }
            if b.contains(f) {
                let k = choose|k: int| 0 <= k < b.len() && b[k] == f;
                assert((a + b)[a.len() + k] == f);
            }
        }
        assert(media_files_items(items) == a + b);
        assert(local_files(items) == local_files(items.drop_last()).union(item_local_files(last)));
        assert forall|f: Seq<char>| #[trigger] local_files(items).contains(f) <==> (media_files_items(
            items,
        ).contains(f) && is_local_path(f)) by {
            assert(local_files(items.drop_last()).contains(f) <==> (a.contains(f) && is_local_path(f)));
            assert(item_local_files(last).contains(f) <==> (b.contains(f) && is_local_path(f)));
        }
    } else {
        assert forall|f: Seq<char>| #[trigger] local_files(items).contains(f) <==> (media_files_items(
            items,
        ).contains(f) && is_local_path(f)) by {
            assert(media_files_items(items) =~= Seq::<Seq<char>>::empty());
        }
    }
}

/// Every media item (image, video, GIF or sound, nested ones included) whose
/// file is a local path has that file collected for copying, and nothing
/// else is collected: the local files are exactly the local paths among the
/// media items' files. In particular each media item of the list itself
/// with a local path has its file collected.
pub proof fn law_local_files_are_media_files(items: Seq<SceneItemView>)
    ensures
        forall|f: Seq<char>| #[trigger] local_files(items).contains(f) <==> (media_files_items(items).contains(f)
            && is_local_path(f)),
        forall|k: int|
            0 <= k < items.len() ==> (#[trigger] media_file(items[k]) matches Some(file) ==> (is_local_path(
                file,
            ) ==> local_files(items).contains(file))),
{
    lemma_items_local_files(items);
    assert forall|k: int| 0 <= k < items.len() implies (#[trigger] media_file(items[k]) matches Some(file)
        ==> (is_local_path(file) ==> local_files(items).contains(file))) by {
        lemma_media_files_elem(items, k);
    }
}

/// The media files of an item are among those of a list that holds it.
proof fn lemma_media_files_elem(items: Seq<SceneItemView>, k: int)
    requires
        0 <= k < items.len(),
    ensures
        forall|f: Seq<char>| media_files(items[k]).contains(f) ==> #[trigger] media_files_items(items).contains(f),
        media_file(items[k]) matches Some(file) ==> media_files(items[k]).contains(file),
    decreases items.len(),
{
    let a = media_files_items(items.drop_last());
    let b = media_files(items.last());
    if k < items.len() - 1 {
        lemma_media_files_elem(items.drop_last(), k);
        assert(items.drop_last()[k] == items[k]);
        assert forall|f: Seq<char>| a.contains(f) implies #[trigger] (a + b).contains(f) by {
            let j = choose|j: int| 0 <= j < a.len() && a[j] == f;
            assert((a + b)[j] == f);
        }
    } else {
        assert(items[k] == items.last());
        assert forall|f: Seq<char>| b.contains(f) implies #[trigger] (a + b).contains(f) by {
            let j = choose|j: int| 0 <= j < b.len() && b[j] == f;
            assert((a + b)[a.len() + j] == f);
        }
    }
    if let Some(file) = media_file(items[k]) {
        assert(media_files(items[k])[0] == file);
    }
}

} // verus!
