//! The entries that a traversal yields, and the lists of paths drawn from
//! them. Every list keeps the order of the traversal.

use crate::dimensions::{dims_match, Dimensions, Range};
use crate::extension::{is_image, is_image_path};
use crate::metadata::ImageMetaView;
use crate::store::MetadataStore;
use vstd::prelude::*;

verus! {

/// The kind of a file system entry.
#[derive(Clone, Copy, Debug, PartialEq, Eq, Structural)]
pub enum FileType {
    File,
    Directory,
    Other,
}

/// One entry of a traversal: a path and the kind of what it names.
#[derive(Debug)]
pub struct Entry {
    pub path: String,
    pub file_type: FileType,
}

/// What an entry means, with its path as a sequence of characters.
pub struct EntryView {
    pub path: Seq<char>,
    pub file_type: FileType,
}

impl View for Entry {
    type V = EntryView;

    open spec fn view(&self) -> EntryView {
        EntryView { path: self.path@, file_type: self.file_type }
    }
}

impl DeepView for Entry {
    type V = EntryView;

    open spec fn deep_view(&self) -> EntryView {
        self@
    }
}

/// The paths of the entries whose path denotes an image, in their order.
/// The kind of an entry plays no part.
pub open spec fn images_of(entries: Seq<EntryView>) -> Seq<Seq<char>> {
    entries.filter(|entry: EntryView| is_image_path(entry.path)).map_values(
        |entry: EntryView| entry.path,
    )
}

/// The paths of the entries that are directories, in their order.
pub open spec fn directories_of(entries: Seq<EntryView>) -> Seq<Seq<char>> {
    entries.filter(|entry: EntryView| entry.file_type == FileType::Directory).map_values(
        |entry: EntryView| entry.path,
    )
}

/// The paths for which a store holds a record (`present`), or those for
/// which it holds none (`!present`), in their order.
pub open spec fn paths_by_presence(
    paths: Seq<Seq<char>>,
    store: Map<Seq<char>, ImageMetaView>,
    present: bool,
) -> Seq<Seq<char>> {
    paths.filter(|path: Seq<char>| store.contains_key(path) == present)
}

/// The paths whose probed size, as `sizes` gives it, passes the two ranges,
/// in their order.
pub open spec fn paths_by_dims(
    paths: Seq<Seq<char>>,
    sizes: spec_fn(Seq<char>) -> Option<Dimensions>,
    width_range: Option<Range>,
    height_range: Option<Range>,
) -> Seq<Seq<char>> {
    paths.filter(|path: Seq<char>| dims_match(sizes(path), width_range, height_range))
}

/// What one more entry adds to the images.
pub proof fn lemma_images_of_push(entries: Seq<EntryView>, entry: EntryView)
    ensures
        images_of(entries.push(entry)) == (if is_image_path(entry.path) {
            images_of(entries).push(entry.path)
        } else {
            images_of(entries)
        }),
{
    let wanted = |entry: EntryView| is_image_path(entry.path);
    entries.lemma_filter_push(entry, wanted);
    if is_image_path(entry.path) {
        assert(images_of(entries.push(entry)) =~= images_of(entries).push(entry.path));
    }
}

/// What one more entry adds to the directories.
pub proof fn lemma_directories_of_push(entries: Seq<EntryView>, entry: EntryView)
    ensures
        directories_of(entries.push(entry)) == (if entry.file_type == FileType::Directory {
            directories_of(entries).push(entry.path)
        } else {
            directories_of(entries)
        }),
{
    let wanted = |entry: EntryView| entry.file_type == FileType::Directory;
    entries.lemma_filter_push(entry, wanted);
    if entry.file_type == FileType::Directory {
        assert(directories_of(entries.push(entry)) =~= directories_of(entries).push(entry.path));
    }
}

/// What one more path adds to the paths chosen by presence in a store.
pub proof fn lemma_paths_by_presence_push(
    paths: Seq<Seq<char>>,
    path: Seq<char>,
    store: Map<Seq<char>, ImageMetaView>,
    present: bool,
)
    ensures
        paths_by_presence(paths.push(path), store, present) == (if store.contains_key(path)
            == present {
            paths_by_presence(paths, store, present).push(path)
        } else {
            paths_by_presence(paths, store, present)
        }),
{
    let wanted = |path: Seq<char>| store.contains_key(path) == present;
    paths.lemma_filter_push(path, wanted);
}

/// What one more path adds to the paths chosen by their size.
pub proof fn lemma_paths_by_dims_push(
    paths: Seq<Seq<char>>,
    path: Seq<char>,
    sizes: spec_fn(Seq<char>) -> Option<Dimensions>,
    width_range: Option<Range>,
    height_range: Option<Range>,
)
    ensures
        paths_by_dims(paths.push(path), sizes, width_range, height_range) == (if dims_match(
            sizes(path),
            width_range,
            height_range,
        ) {
            paths_by_dims(paths, sizes, width_range, height_range).push(path)
        } else {
            paths_by_dims(paths, sizes, width_range, height_range)
        }),
{
    let wanted = |path: Seq<char>| dims_match(sizes(path), width_range, height_range);
    paths.lemma_filter_push(path, wanted);
}

/// The paths chosen by presence in a store are those of the list for which
/// the store answers as asked.
pub proof fn lemma_paths_by_presence_members(
    paths: Seq<Seq<char>>,
    store: Map<Seq<char>, ImageMetaView>,
    present: bool,
    path: Seq<char>,
)
    ensures
        paths_by_presence(paths, store, present).contains(path) <==> paths.contains(path)
            && store.contains_key(path) == present,
{
    let wanted = |path: Seq<char>| store.contains_key(path) == present;
    let chosen = paths.filter(wanted);
    if chosen.contains(path) {
        let i = choose|i: int| 0 <= i < chosen.len() && chosen[i] == path;
        paths.lemma_filter_pred(wanted, i);
        paths.lemma_filter_contains_rev(wanted, path);
    }
    if paths.contains(path) && wanted(path) {
        let i = choose|i: int| 0 <= i < paths.len() && paths[i] == path;
        paths.lemma_filter_contains(wanted, i);
    }
}

/// The paths chosen by their size are those of the list whose size passes
/// the ranges.
pub proof fn lemma_paths_by_dims_members(
    paths: Seq<Seq<char>>,
    sizes: spec_fn(Seq<char>) -> Option<Dimensions>,
    width_range: Option<Range>,
    height_range: Option<Range>,
    path: Seq<char>,
)
    ensures
        paths_by_dims(paths, sizes, width_range, height_range).contains(path) <==> paths.contains(
            path,
        ) && dims_match(sizes(path), width_range, height_range),
{
    let wanted = |path: Seq<char>| dims_match(sizes(path), width_range, height_range);
    let chosen = paths.filter(wanted);
    if chosen.contains(path) {
        let i = choose|i: int| 0 <= i < chosen.len() && chosen[i] == path;
        paths.lemma_filter_pred(wanted, i);
        paths.lemma_filter_contains_rev(wanted, path);
    }
    if paths.contains(path) && wanted(path) {
        let i = choose|i: int| 0 <= i < paths.len() && paths[i] == path;
        paths.lemma_filter_contains(wanted, i);
    }
}

/// Lists the paths of the entries whose path denotes an image.
pub fn select_images(entries: &Vec<Entry>) -> (images: Vec<String>)
    ensures
        images.deep_view() == images_of(entries.deep_view()),
{
    let ghost all = entries.deep_view();
    let mut images: Vec<String> = Vec::new();
    assert(images.deep_view() =~= images_of(all.take(0))) by {
        reveal(Seq::filter);
    }
    let mut i: usize = 0;
    while i < entries.len()
        invariant
            i <= entries.len(),
            all == entries.deep_view(),
            images.deep_view() == images_of(all.take(i as int)),
        decreases entries.len() - i,
    {
        let ghost before = images.deep_view();
        proof {
            assert(all.take(i + 1) =~= all.take(i as int).push(all[i as int]));
            lemma_images_of_push(all.take(i as int), all[i as int]);
        }
        if is_image(entries[i].path.as_str()) {
            images.push(entries[i].path.clone());
            assert(images.deep_view() =~= before.push(all[i as int].path));
        }
        i += 1;
    }
    assert(all.take(entries.len() as int) =~= all);
    images
}

/// Lists the paths of the entries that are directories.
pub fn select_directories(entries: &Vec<Entry>) -> (directories: Vec<String>)
    ensures
        directories.deep_view() == directories_of(entries.deep_view()),
{
    let ghost all = entries.deep_view();
    let mut directories: Vec<String> = Vec::new();
    assert(directories.deep_view() =~= directories_of(all.take(0))) by {
        reveal(Seq::filter);
    }
    let mut i: usize = 0;
    while i < entries.len()
        invariant
            i <= entries.len(),
            all == entries.deep_view(),
            directories.deep_view() == directories_of(all.take(i as int)),
        decreases entries.len() - i,
    {
        let ghost before = directories.deep_view();
        proof {
            assert(all.take(i + 1) =~= all.take(i as int).push(all[i as int]));
            lemma_directories_of_push(all.take(i as int), all[i as int]);
        }
        if entries[i].file_type == FileType::Directory {
            directories.push(entries[i].path.clone());
            assert(directories.deep_view() =~= before.push(all[i as int].path));
        }
        i += 1;
    }
    assert(all.take(entries.len() as int) =~= all);
    directories
}

/// Lists the paths for which the store holds a record (`present`), or those
/// for which it holds none (`!present`).
pub fn select_by_presence(paths: &Vec<String>, store: &MetadataStore, present: bool) -> (chosen:
    Vec<String>)
    ensures
        chosen.deep_view() == paths_by_presence(paths.deep_view(), store@, present),
{
    let ghost all = paths.deep_view();
    let mut chosen: Vec<String> = Vec::new();
    assert(chosen.deep_view() =~= paths_by_presence(all.take(0), store@, present)) by {
        reveal(Seq::filter);
    }
    let mut i: usize = 0;
    while i < paths.len()
        invariant
            i <= paths.len(),
            all == paths.deep_view(),
            chosen.deep_view() == paths_by_presence(all.take(i as int), store@, present),
        decreases paths.len() - i,
    {
        let ghost before = chosen.deep_view();
        proof {
            assert(all.take(i + 1) =~= all.take(i as int).push(all[i as int]));
            lemma_paths_by_presence_push(all.take(i as int), all[i as int], store@, present);
        }
        if store.contains(&paths[i]) == present {
            chosen.push(paths[i].clone());
            assert(chosen.deep_view() =~= before.push(all[i as int]));
        }
        i += 1;
    }
    assert(all.take(paths.len() as int) =~= all);
    chosen
}

} // verus!
