//! Finding the images of a directory tree.

use crate::paths;
use crate::paths::FilePath;
use vstd::prelude::*;

verus! {

/// An entry of a directory: a file, a directory with its own entries, or
/// something else.
#[derive(Debug)]
pub enum DirEntry {
    File(FilePath),
    Dir(FilePath, Vec<DirEntry>),
    Other(FilePath),
}

/// Directories that are not searched: those whose name is text that starts with
/// an underscore.
pub open spec fn is_skipped(path: Seq<u8>) -> bool {
    paths::file_name_text(path) matches Some(name) && name.len() > 0 && name[0] == '_'
}

/// Files that are taken for images, by their extension.
pub open spec fn is_image(path: Seq<u8>) -> bool {
    paths::file_name(path) matches Some(name) && paths::is_image_name(name)
}

/// The images among some entries and below them, as they come.
pub open spec fn images_in(entries: Seq<DirEntry>) -> Seq<Seq<u8>>
    decreases entries,
{
    if entries.len() == 0 {
        Seq::empty()
    } else {
        images_in(entries.drop_last()) + images_at(entries.last())
    }
}

/// The images that an entry stands for.
pub open spec fn images_at(entry: DirEntry) -> Seq<Seq<u8>>
    decreases entry,
{
    match entry {
        DirEntry::File(path) => if is_image(path@) {
            seq![path@]
        } else {
            Seq::empty()
        },
        DirEntry::Dir(path, entries) => if is_skipped(path@) {
            Seq::empty()
        } else {
            images_in(entries@)
        },
        DirEntry::Other(_) => Seq::empty(),
    }
}

/// Whether a directory is left out of the search.
pub fn should_skip_dir(path: &FilePath) -> (skip: bool)
    ensures
        skip == is_skipped(path@),
{
    match path.file_name_text() {
        None => false,
        Some(name) => {
            let chars = crate::text::chars_of(name.as_str());
            chars.len() > 0 && chars[0] == '_'
        },
    }
}

/// Whether a file is taken for an image.
pub fn is_supported_image(path: &FilePath) -> (is: bool)
    ensures
        is == is_image(path@),
{
    match path.file_name() {
        None => false,
        Some(name) => paths::names_image(name.as_slice()),
    }
}

fn visit_dir(entries: &Vec<DirEntry>, images: &mut Vec<FilePath>)
    ensures
        paths::paths_view(final(images)@) == paths::paths_view(old(images)@) + images_in(entries@),
    decreases entries,
{
    let ghost before = paths::paths_view(images@);
    let mut i: usize = 0;
    proof {
        assert(entries@.take(0) =~= Seq::<DirEntry>::empty());
        assert(before + images_in(entries@.take(0)) =~= before);
    }
    while i < entries.len()
        invariant
            i <= entries@.len(),
            paths::paths_view(images@) == before + images_in(entries@.take(i as int)),
        decreases entries@.len() - i,
    {
        proof {
            assert(entries@.take(i + 1).drop_last() =~= entries@.take(i as int));
            assert(entries@.take(i + 1).last() == entries@[i as int]);
        }
        let ghost so_far = paths::paths_view(images@);
        match &entries[i] {
            DirEntry::File(path) => {
                if is_supported_image(path) {
                    images.push(path.clone());
                    assert(paths::paths_view(images@) =~= so_far + seq![path@]);
                }
            },
            DirEntry::Dir(path, below) => {
                if !should_skip_dir(path) {
                    assert(decreases_to!(entries => entries@[i as int]));
                    visit_dir(below, images);
                }
            },
            DirEntry::Other(_) => {},
        }
        assert(paths::paths_view(images@) =~= so_far + images_at(entries@[i as int]));
        assert(paths::paths_view(images@) =~= before + images_in(entries@.take(i + 1)));
        i += 1;
    }
    assert(entries@.take(i as int) =~= entries@);
}

/// Finds the images of a directory tree, in the order of their paths.
pub fn discover_images(entries: &Vec<DirEntry>) -> (images: Vec<FilePath>)
    ensures
        paths::paths_sorted(paths::paths_view(images@)),
        paths::paths_view(images@).to_multiset() == images_in(entries@).to_multiset(),
{
    let mut images: Vec<FilePath> = Vec::new();
    assert(paths::paths_view(images@) =~= Seq::<Seq<u8>>::empty());
    visit_dir(entries, &mut images);
    assert(Seq::<Seq<u8>>::empty() + images_in(entries@) =~= images_in(entries@));
    paths::sort_paths(&mut images);
    images
}

/// What is found does not depend on the order in which entries are listed.
pub proof fn found_in_any_order(entries: Seq<DirEntry>, more: Seq<DirEntry>)
    ensures
        images_in(entries + more).to_multiset() == images_in(more + entries).to_multiset(),
        images_in(entries + more) == images_in(entries) + images_in(more),
    decreases more.len(),
{
    lemma_images_of_both(entries, more);
    lemma_images_of_both(more, entries);
    vstd::seq_lib::lemma_multiset_commutative(images_in(entries), images_in(more));
    vstd::seq_lib::lemma_multiset_commutative(images_in(more), images_in(entries));
    assert(images_in(entries + more).to_multiset() =~= images_in(more + entries).to_multiset());
}

proof fn lemma_images_of_both(entries: Seq<DirEntry>, more: Seq<DirEntry>)
    ensures
        images_in(entries + more) == images_in(entries) + images_in(more),
    decreases more.len(),
{
    if more.len() == 0 {
        assert(entries + more =~= entries);
        assert(images_in(entries) + images_in(more) =~= images_in(entries));
    } else {
        lemma_images_of_both(entries, more.drop_last());
        assert((entries + more).drop_last() =~= entries + more.drop_last());
        assert((entries + more).last() == more.last());
        assert(images_in(entries) + (images_in(more.drop_last()) + images_at(more.last())) =~= (
        images_in(entries) + images_in(more.drop_last())) + images_at(more.last()));
    }
}

/// A marked folder is not searched: what it holds does not change what is found.
pub proof fn marked_folders_are_not_searched(entries: Seq<DirEntry>, at: int)
    requires
        0 <= at < entries.len(),
        entries[at] matches DirEntry::Dir(path, _) && is_skipped(path@),
    ensures
        images_in(entries) == images_in(entries.remove(at)),
    decreases entries.len(),
{
    if at == entries.len() - 1 {
        assert(entries.remove(at) =~= entries.drop_last());
        assert(images_in(entries.drop_last()) + images_at(entries.last()) =~= images_in(
            entries.drop_last(),
        ));
    } else {
        let rest = entries.remove(at);
        marked_folders_are_not_searched(entries.drop_last(), at);
        assert(rest.drop_last() =~= entries.drop_last().remove(at));
        assert(rest.last() == entries.last());
    }
}

/// What is found are images, and every image that is listed is found.
pub proof fn only_images_are_found(entries: Seq<DirEntry>, path: Seq<u8>)
    ensures
        images_in(entries).contains(path) ==> is_image(path),
        is_image(path) && (exists|i: int|
            0 <= i < entries.len() && ((#[trigger] entries[i]) matches DirEntry::File(p) && p@
                == path)) ==> images_in(entries).contains(path),
    decreases entries,
{
    if entries.len() > 0 {
        let rest = entries.drop_last();
        let last = entries.last();
        only_images_are_found(rest, path);
        assert(decreases_to!(entries => entries[entries.len() - 1]));
        if let DirEntry::Dir(name, below) = last {
            only_images_are_found(below@, path);
        }
        let found = images_in(entries);
        if found.contains(path) {
            let k = choose|k: int| 0 <= k < found.len() && found[k] == path;
            if k < images_in(rest).len() {
                assert(images_in(rest)[k] == path);
            } else {
                assert(images_at(last)[k - images_in(rest).len()] == path);
                assert(images_at(last).contains(path));
            }
        }
        if is_image(path) && (exists|i: int|
            0 <= i < entries.len() && ((#[trigger] entries[i]) matches DirEntry::File(p) && p@
                == path)) {
            let i = choose|i: int|
                0 <= i < entries.len() && ((#[trigger] entries[i]) matches DirEntry::File(p) && p@
                    == path);
            if i < rest.len() {
                assert(rest[i] == entries[i]);
                let k = choose|k: int| 0 <= k < images_in(rest).len() && images_in(rest)[k] == path;
                assert(found[k] == path);
            } else {
                assert(images_at(last) =~= seq![path]);
                assert(found[images_in(rest).len() as int] == path);
            }
        }
    }
}

/// A folder stands for the images in it and below, in their order, unless its name starts
/// with an underscore; then it stands for none. What is neither a file nor a folder stands
/// for none either.
pub proof fn folders_stand_for_their_images(path: FilePath, entries: Vec<DirEntry>)
    ensures
        paths::file_name_text(path@) matches Some(name) && name.len() > 0 && name[0] == '_'
            ==> images_in(seq![DirEntry::Dir(path, entries)]).len() == 0,
        !(paths::file_name_text(path@) matches Some(name) && name.len() > 0 && name[0] == '_')
            ==> images_in(seq![DirEntry::Dir(path, entries)]) == images_in(entries@),
        images_in(seq![DirEntry::Other(path)]).len() == 0,
        images_in(seq![DirEntry::File(path)]) == (if is_image(path@) {
            seq![path@]
        } else {
            Seq::empty()
        }),
{
    let none = Seq::<Seq<u8>>::empty();
    let dir = seq![DirEntry::Dir(path, entries)];
    let other = seq![DirEntry::Other(path)];
    let file = seq![DirEntry::File(path)];
    assert(dir.drop_last() =~= Seq::<DirEntry>::empty());
    assert(other.drop_last() =~= Seq::<DirEntry>::empty());
    assert(file.drop_last() =~= Seq::<DirEntry>::empty());
    assert(images_in(Seq::<DirEntry>::empty()) =~= none);
    assert(images_in(dir) =~= none + images_at(dir.last()));
    assert(images_in(other) =~= none + images_at(other.last()));
    assert(images_in(file) =~= none + images_at(file.last()));
    assert(none + images_at(dir.last()) =~= images_at(dir.last()));
    assert(none + images_at(file.last()) =~= images_at(file.last()));
}

}
