//! The decisions of the workspace scanner, and of the handlers that deal
//! with paths: which directories to scan and when, which entries to
//! visit, and how the file of a definition is shown.
//!
//! The file system is not touched here. Whoever walks it hands over what
//! it found as plain values, and acts on the answers.

use crate::backend::Backend;
use crate::chars::{
    chars_eq_ignore_ascii_case, eq_ignore_ascii_case, from_chars, replace_char, replace_in_chars,
    slice_chars, str_eq, strings_view, to_chars,
};
use crate::hover::opt_str;
use crate::text::Range;
use crate::workspace::{rename_edits_view, RenameEdit, RenameEditView};
use vstd::prelude::*;

verus! {

// ---------------------------------------------------------------------------
// Lists without repetition
// ---------------------------------------------------------------------------

/// `list` without repetitions: of equal texts the first stays.
pub open spec fn distinct(list: Seq<Seq<char>>) -> Seq<Seq<char>>
    decreases list.len(),
{
    if list.len() == 0 {
        Seq::empty()
    } else {
        let before = distinct(list.drop_last());
        if before.contains(list.last()) {
            before
        } else {
            before.push(list.last())
        }
    }
}

/// Whether `list` holds a string with the text of `wanted`.
pub fn strings_contain(list: &Vec<String>, wanted: &str) -> (r: bool)
    ensures
        r == strings_view(list@).contains(wanted@),
{
    let mut k: usize = 0;
    while k < list.len()
        invariant
            k <= list.len(),
            forall|j: int| 0 <= j < k ==> strings_view(list@)[j] != wanted@,
        decreases list.len() - k,
    {
        if str_eq(list[k].as_str(), wanted) {
            proof {
                assert(strings_view(list@)[k as int] == wanted@);
            }
            return true;
        }
        k += 1;
    }
    false
}

/// `list` without repetitions: of equal strings the first stays.
pub fn distinct_strings(list: &Vec<String>) -> (r: Vec<String>)
    ensures
        strings_view(r@) == distinct(strings_view(list@)),
{
    let mut out: Vec<String> = Vec::new();
    let ghost all = strings_view(list@);
    let mut k: usize = 0;
    proof {
        assert(all.take(0) =~= Seq::<Seq<char>>::empty());
        assert(strings_view(out@) =~= Seq::<Seq<char>>::empty());
    }
    while k < list.len()
        invariant
            k <= list.len(),
            all == strings_view(list@),
            strings_view(out@) == distinct(all.take(k as int)),
        decreases list.len() - k,
    {
        let ghost before = strings_view(out@);
        proof {
            assert(all.take(k + 1).drop_last() =~= all.take(k as int));
            assert(all.take(k + 1).last() == list@[k as int]@);
        }
        if !strings_contain(&out, list[k].as_str()) {
            out.push(list[k].clone());
            proof {
                assert(strings_view(out@) =~= before.push(list@[k as int]@));
            }
        }
        k += 1;
    }
    proof {
        assert(all.take(list.len() as int) =~= all);
    }
    out
}

// ---------------------------------------------------------------------------
// When to scan
// ---------------------------------------------------------------------------

/// A point in time, as the file system reports it: whole seconds since the
/// first of January 1970, and the nanoseconds beyond them.
#[derive(Debug, Clone, Copy, PartialEq, Eq, Structural)]
pub struct Timestamp {
    pub seconds: i64,
    pub nanos: u32,
}

/// Whether a directory that was scanned when it had the modification time
/// `previous` has to be scanned again now that it has `current`: always,
/// unless both times are known and the same.
pub open spec fn rescan_needed(previous: Option<Timestamp>, current: Option<Timestamp>) -> bool {
    match (previous, current) {
        (Some(before), Some(now)) => before != now,
        _ => true,
    }
}

/// Whether a directory that was scanned when it had the modification time
/// `previous` has to be scanned again now that it has `current`.
pub fn needs_rescan(previous: Option<Timestamp>, current: Option<Timestamp>) -> (r: bool)
    ensures
        r == rescan_needed(previous, current),
{
    match (previous, current) {
        (None, _) => true,
        (Some(_), None) => true,
        (Some(before), Some(now)) => !(before.seconds == now.seconds && before.nanos == now.nanos),
    }
}

/// Whether a directory has to be scanned. `known` is the modification
/// time with which the directory was scanned last, or `None` where it
/// was never scanned; `modified` is the one it has now.
pub fn should_scan_directory(known: Option<Option<Timestamp>>, modified: Option<Timestamp>) -> (r:
    bool)
    ensures
        r == match known {
            Some(previous) => rescan_needed(previous, modified),
            None => true,
        },
{
    match known {
        Some(previous) => needs_rescan(previous, modified),
        None => true,
    }
}

/// Whether a directory of the name `name` is left out of a scan: it is
/// one of `.git`, `node_modules`, `target`, `dist` and `build`, whatever
/// the case of the letters.
pub open spec fn is_ignored_directory(name: Seq<char>) -> bool {
    eq_ignore_ascii_case(".git"@, name) || eq_ignore_ascii_case("node_modules"@, name)
        || eq_ignore_ascii_case("target"@, name) || eq_ignore_ascii_case("dist"@, name)
        || eq_ignore_ascii_case("build"@, name)
}

/// Whether the walk visits an entry: any entry but a directory whose name
/// is known and is one of those that are left out.
pub open spec fn visits_entry(is_directory: bool, name: Option<Seq<char>>) -> bool {
    !(is_directory && name is Some && is_ignored_directory(name->0))
}

/// Whether the walk visits an entry. `name` is the name of the entry
/// where it is valid text.
pub fn should_visit_entry(is_directory: bool, name: Option<&str>) -> (r: bool)
    ensures
        r == visits_entry(is_directory, opt_str(name)),
{
    if is_directory {
        match name {
            Some(text) => {
                let chars = to_chars(text);
                let ignored = chars_eq_ignore_ascii_case(&to_chars(".git"), &chars)
                    || chars_eq_ignore_ascii_case(&to_chars("node_modules"), &chars)
                    || chars_eq_ignore_ascii_case(&to_chars("target"), &chars)
                    || chars_eq_ignore_ascii_case(&to_chars("dist"), &chars)
                    || chars_eq_ignore_ascii_case(&to_chars("build"), &chars);
                return !ignored;
            },
            None => {},
        }
    }
    true
}

/// Whether a file with the extension `extension` is a script.
pub fn is_script_extension(extension: Option<&str>) -> (r: bool)
    ensures
        r == (opt_str(extension) == Some("amble"@)),
{
    match extension {
        Some(text) => str_eq(text, "amble"),
        None => false,
    }
}

/// The roots of `roots` that `under` marks.
pub open spec fn marked(roots: Seq<Seq<char>>, under: Seq<bool>) -> Seq<Seq<char>>
    decreases roots.len(),
{
    if roots.len() == 0 {
        Seq::empty()
    } else {
        let before = marked(roots.drop_last(), under);
        if roots.len() <= under.len() && under[roots.len() - 1] {
            before.push(roots.last())
        } else {
            before
        }
    }
}

/// The directories to scan for a file: the workspace roots under which
/// the file lies, each once; where it lies under none, the directory of
/// the file, if it has one.
pub open spec fn directories_to_scan(
    roots: Seq<Seq<char>>,
    under: Seq<bool>,
    parent: Option<Seq<char>>,
) -> Seq<Seq<char>> {
    if marked(roots, under).len() == 0 {
        match parent {
            Some(directory) => seq![directory],
            None => Seq::empty(),
        }
    } else {
        distinct(marked(roots, under))
    }
}

/// Where the file lies under none of the workspace roots, only its own
/// directory is scanned, however many roots there are.
pub proof fn lemma_scan_falls_back_to_parent(
    roots: Seq<Seq<char>>,
    under: Seq<bool>,
    parent: Option<Seq<char>>,
)
    requires
        forall|i: int| 0 <= i < roots.len() && i < under.len() ==> !under[i],
    ensures
        marked(roots, under).len() == 0,
        directories_to_scan(roots, under, parent) == (match parent {
            Some(directory) => seq![directory],
            None => Seq::empty(),
        }),
    decreases roots.len(),
{
    if roots.len() > 0 {
        lemma_scan_falls_back_to_parent(roots.drop_last(), under, parent);
    }
}

/// The directories to scan for a file. `under` says of each root, in
/// order, whether the file lies under it; `parent` is the directory of
/// the file.
pub fn scan_directories(roots: &Vec<String>, under: &Vec<bool>, parent: Option<&str>) -> (r: Vec<
    String,
>)
    ensures
        strings_view(r@) == directories_to_scan(strings_view(roots@), under@, opt_str(parent)),
{
    let mut matching: Vec<String> = Vec::new();
    let ghost all = strings_view(roots@);
    let mut k: usize = 0;
    proof {
        assert(all.take(0) =~= Seq::<Seq<char>>::empty());
        assert(strings_view(matching@) =~= Seq::<Seq<char>>::empty());
    }
    while k < roots.len()
        invariant
            k <= roots.len(),
            all == strings_view(roots@),
            strings_view(matching@) == marked(all.take(k as int), under@),
        decreases roots.len() - k,
    {
        let ghost before = strings_view(matching@);
        proof {
            assert(all.take(k + 1).drop_last() =~= all.take(k as int));
            assert(all.take(k + 1).last() == roots@[k as int]@);
        }
        if k < under.len() && under[k] {
            matching.push(roots[k].clone());
            proof {
                assert(strings_view(matching@) =~= before.push(roots@[k as int]@));
            }
        }
        k += 1;
    }
    proof {
        assert(all.take(roots.len() as int) =~= all);
    }
    if matching.len() > 0 {
        return distinct_strings(&matching);
    }
    let mut out: Vec<String> = Vec::new();
    match parent {
        Some(directory) => {
            out.push(from_chars(&to_chars(directory)));
            proof {
                assert(strings_view(out@) =~= seq![directory@]);
            }
        },
        None => {
            proof {
                assert(strings_view(out@) =~= Seq::<Seq<char>>::empty());
            }
        },
    }
    out
}

impl Backend {
    /// Whether the scanner reads and analyses a file that it came upon:
    /// it is a regular file, a script by its extension, and not analysed
    /// yet.
    pub fn should_load_file(&self, is_file: bool, extension: Option<&str>, uri: &str) -> (r: bool)
        ensures
            r == (is_file && opt_str(extension) == Some("amble"@) && !self@.documents.contains_key(
                uri@,
            )),
    {
        is_file && is_script_extension(extension) && !self.has_document(uri)
    }
}

// ---------------------------------------------------------------------------
// Showing paths
// ---------------------------------------------------------------------------

/// A workspace root under which a file lies.
#[derive(Debug)]
pub struct RootMatch {
    /// The number of components of the root.
    pub depth: usize,
    /// The path of the file from the root on.
    pub relative: String,
}

/// What a [`RootMatch`] holds.
pub struct RootMatchView {
    pub depth: int,
    pub relative: Seq<char>,
}

impl View for RootMatch {
    type V = RootMatchView;

    open spec fn view(&self) -> RootMatchView {
        RootMatchView { depth: self.depth as int, relative: self.relative@ }
    }
}

/// What the root matches of a list hold.
pub open spec fn root_matches_view(list: Seq<RootMatch>) -> Seq<RootMatchView> {
    Seq::new(list.len(), |i: int| list[i]@)
}

/// The index of the deepest root of `list`, the first of them where
/// several are equally deep; `-1` for an empty list.
pub open spec fn deepest_root(list: Seq<RootMatchView>) -> int
    decreases list.len(),
{
    if list.len() == 0 {
        -1
    } else {
        let before = deepest_root(list.drop_last());
        if before < 0 || list.last().depth > list[before].depth {
            list.len() - 1
        } else {
            before
        }
    }
}

/// `text` without the slashes at its beginning.
pub open spec fn without_leading_slashes(text: Seq<char>) -> Seq<char>
    decreases text.len(),
{
    if text.len() > 0 && text[0] == '/' {
        without_leading_slashes(text.drop_first())
    } else {
        text
    }
}

/// `path` with each backslash turned into a slash.
pub open spec fn with_forward_slashes(path: Seq<char>) -> Seq<char> {
    replace_char(path, '\\', seq!['/'])
}

/// The path under which a file is shown. Where the file lies under
/// workspace roots, its path from the deepest of them on, with forward
/// slashes and without a slash in front; where nothing is left of that,
/// the name of the file, or its full path where it has no name. Where it
/// lies under no root, its full path with forward slashes.
pub open spec fn display_path(
    matches: Seq<RootMatchView>,
    file_name: Option<Seq<char>>,
    full_path: Seq<char>,
) -> Seq<char> {
    if matches.len() == 0 {
        with_forward_slashes(full_path)
    } else {
        let relative = without_leading_slashes(
            with_forward_slashes(matches[deepest_root(matches)].relative),
        );
        if relative.len() > 0 {
            relative
        } else {
            match file_name {
                Some(name) => name,
                None => full_path,
            }
        }
    }
}

fn forward_slashes(path: &Vec<char>) -> (r: Vec<char>)
    ensures
        r@ == with_forward_slashes(path@),
{
    let mut slash: Vec<char> = Vec::new();
    slash.push('/');
    proof {
        assert(slash@ =~= seq!['/']);
    }
    replace_in_chars(path, '\\', &slash)
}

fn strip_leading_slashes(text: &Vec<char>) -> (r: Vec<char>)
    ensures
        r@ == without_leading_slashes(text@),
{
    let mut k: usize = 0;
    proof {
        assert(text@.skip(0) =~= text@);
    }
    while k < text.len() && text[k] == '/'
        invariant
            k <= text.len(),
            without_leading_slashes(text@) == without_leading_slashes(text@.skip(k as int)),
        decreases text.len() - k,
    {
        proof {
            assert(text@.skip(k as int).drop_first() =~= text@.skip(k + 1));
        }
        k += 1;
    }
    let out = slice_chars(text, k, text.len());
    proof {
        assert(text@.subrange(k as int, text.len() as int) =~= text@.skip(k as int));
    }
    out
}

/// The path under which a file is shown. `matches` holds the workspace
/// roots under which the file lies, in the order of the roots;
/// `file_name` is the last component of the path of the file, `full_path`
/// the whole of it.
pub fn definition_display_path(
    matches: &Vec<RootMatch>,
    file_name: Option<&str>,
    full_path: &str,
) -> (r: String)
    ensures
        r@ == display_path(root_matches_view(matches@), opt_str(file_name), full_path@),
{
    if matches.len() == 0 {
        return from_chars(&forward_slashes(&to_chars(full_path)));
    }
    let ghost all = root_matches_view(matches@);
    let mut best: usize = 0;
    let mut k: usize = 1;
    proof {
        assert(all.take(1).drop_last() =~= Seq::<RootMatchView>::empty());
        assert(all.take(1).len() == 1);
        assert(deepest_root(all.take(1).drop_last()) == -1);
        assert(deepest_root(all.take(1)) == 0);
    }
    while k < matches.len()
        invariant
            1 <= k <= matches.len(),
            best < k,
            all == root_matches_view(matches@),
            deepest_root(all.take(k as int)) == best,
        decreases matches.len() - k,
    {
        proof {
            assert(all.take(k + 1).drop_last() =~= all.take(k as int));
            assert(all.take(k + 1).last() == matches@[k as int]@);
            assert(all.take(k + 1)[best as int] == matches@[best as int]@);
        }
        if matches[k].depth > matches[best].depth {
            best = k;
        }
        k += 1;
    }
    proof {
        assert(all.take(matches.len() as int) =~= all);
    }
    let relative = strip_leading_slashes(
        &forward_slashes(&to_chars(matches[best].relative.as_str())),
    );
    if relative.len() > 0 {
        from_chars(&relative)
    } else {
        match file_name {
            Some(name) => from_chars(&to_chars(name)),
            None => from_chars(&to_chars(full_path)),
        }
    }
}

// ---------------------------------------------------------------------------
// The edits of a rename, document by document
// ---------------------------------------------------------------------------

/// The edits of a rename in one document.
#[derive(Debug)]
pub struct DocumentEdits {
    pub uri: String,
    pub edits: Vec<(Range, String)>,
}

/// The ranges and texts that a list of pairs holds.
pub open spec fn pairs_text(list: Seq<(Range, String)>) -> Seq<(Range, Seq<char>)> {
    Seq::new(list.len(), |i: int| (list[i].0, list[i].1@))
}

/// The edits of `list` that lie in the document `uri`, in order.
pub open spec fn edits_in(list: Seq<RenameEditView>, uri: Seq<char>) -> Seq<(Range, Seq<char>)>
    decreases list.len(),
{
    if list.len() == 0 {
        Seq::empty()
    } else {
        let before = edits_in(list.drop_last(), uri);
        if list.last().uri == uri {
            before.push((list.last().range, list.last().new_text))
        } else {
            before
        }
    }
}

/// The documents of the edits `list`.
pub open spec fn edit_uris(list: Seq<RenameEditView>) -> Seq<Seq<char>> {
    Seq::new(list.len(), |i: int| list[i].uri)
}

fn edits_of_document(edits: &Vec<RenameEdit>, uri: &str) -> (r: Vec<(Range, String)>)
    ensures
        pairs_text(r@) == edits_in(rename_edits_view(edits@), uri@),
{
    let mut out: Vec<(Range, String)> = Vec::new();
    let ghost all = rename_edits_view(edits@);
    let mut k: usize = 0;
    proof {
        assert(all.take(0) =~= Seq::<RenameEditView>::empty());
        assert(pairs_text(out@) =~= Seq::<(Range, Seq<char>)>::empty());
    }
    while k < edits.len()
        invariant
            k <= edits.len(),
            all == rename_edits_view(edits@),
            pairs_text(out@) == edits_in(all.take(k as int), uri@),
        decreases edits.len() - k,
    {
        let ghost before = pairs_text(out@);
        proof {
            assert(all.take(k + 1).drop_last() =~= all.take(k as int));
            assert(all.take(k + 1).last() == edits@[k as int]@);
        }
        if str_eq(edits[k].uri.as_str(), uri) {
            out.push((edits[k].range, edits[k].new_text.clone()));
            proof {
                assert(pairs_text(out@) =~= before.push(
                    (edits@[k as int]@.range, edits@[k as int]@.new_text),
                ));
            }
        }
        k += 1;
    }
    proof {
        assert(all.take(edits.len() as int) =~= all);
    }
    out
}

/// The edits of a rename, put together document by document: the
/// documents in the order in which they first occur, each once, and for
/// each document its edits in their order.
pub fn group_rename_edits(edits: &Vec<RenameEdit>) -> (r: Vec<DocumentEdits>)
    ensures
        r@.len() == distinct(edit_uris(rename_edits_view(edits@))).len(),
        forall|i: int|
            0 <= i < r@.len() ==> (#[trigger] r@[i]).uri@ == distinct(
                edit_uris(rename_edits_view(edits@)),
            )[i] && pairs_text(r@[i].edits@) == edits_in(rename_edits_view(edits@), r@[i].uri@),
{
    let mut uris: Vec<String> = Vec::new();
    let ghost all = edit_uris(rename_edits_view(edits@));
    let mut k: usize = 0;
    proof {
        assert(strings_view(uris@) =~= all.take(0));
    }
    while k < edits.len()
        invariant
            k <= edits.len(),
            all == edit_uris(rename_edits_view(edits@)),
            strings_view(uris@) == all.take(k as int),
        decreases edits.len() - k,
    {
        let ghost before = strings_view(uris@);
        uris.push(edits[k].uri.clone());
        proof {
            assert(strings_view(uris@) =~= before.push(edits@[k as int]@.uri));
            assert(all.take(k + 1) =~= all.take(k as int).push(edits@[k as int]@.uri));
        }
        k += 1;
    }
    proof {
        assert(all.take(edits.len() as int) =~= all);
    }
    let documents = distinct_strings(&uris);
    let ghost wanted = distinct(all);
    let mut out: Vec<DocumentEdits> = Vec::new();
    let mut j: usize = 0;
    while j < documents.len()
        invariant
            j <= documents.len(),
            strings_view(documents@) == wanted,
            out@.len() == j,
            forall|i: int|
                0 <= i < j ==> (#[trigger] out@[i]).uri@ == wanted[i] && pairs_text(out@[i].edits@)
                    == edits_in(rename_edits_view(edits@), out@[i].uri@),
        decreases documents.len() - j,
    {
        let uri = documents[j].clone();
        proof {
            assert(strings_view(documents@)[j as int] == documents@[j as int]@);
        }
        let list = edits_of_document(edits, uri.as_str());
        out.push(DocumentEdits { uri, edits: list });
        j += 1;
    }
    out
}

} // verus!
