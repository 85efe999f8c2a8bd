//! Listings of the storage directory: every file name in one flat list, and the
//! tree of folders with the files directly in each.
//!
//! The caller walks the directory and hands over what it read, entry by entry in
//! the order the directory gave them; names that are not valid text are absent.

use vstd::prelude::*;
use crate::paths::{storage_dir, storage_dir_name};

verus! {

/// An entry of a directory: a file, with its name where that is text, or a
/// subdirectory.
#[derive(Debug)]
pub enum Entry {
    File(Option<String>),
    Dir(DirNode),
}

/// A directory as read: its name, where that is text, and its entries.
#[derive(Debug)]
pub struct DirNode {
    pub name: Option<String>,
    pub entries: Vec<Entry>,
}

/// The file names found at and below an entry, in reading order.
pub open spec fn entry_files(e: Entry) -> Seq<Seq<char>>
    decreases e,
{
    match e {
        Entry::File(Some(n)) => seq![n@],
        Entry::File(None) => Seq::empty(),
        Entry::Dir(d) => entries_files(d.entries@),
    }
}

/// The file names found in a run of entries and below them, in reading order.
pub open spec fn entries_files(es: Seq<Entry>) -> Seq<Seq<char>>
    decreases es,
{
    if es.len() == 0 {
        Seq::empty()
    } else {
        entries_files(es.drop_last()) + entry_files(es.last())
    }
}

/// The names of the strings in `v`.
pub open spec fn names(v: Seq<String>) -> Seq<Seq<char>> {
    v.map_values(|s: String| s@)
}

proof fn lemma_names_push(v: Seq<String>, s: String)
    ensures
        names(v.push(s)) == names(v).push(s@),
{
    assert(names(v.push(s)) =~= names(v).push(s@));
}

/// Appends the names of the files at and below `entries` to `out`.
fn push_files(entries: &Vec<Entry>, out: &mut Vec<String>)
    ensures
        names(final(out)@) == names(old(out)@) + entries_files(entries@),
    decreases entries,
{
    let n = entries.len();
    let mut i: usize = 0;
    assert(entries@.take(0) =~= Seq::<Entry>::empty());
    assert(names(out@) =~= names(old(out)@) + entries_files(entries@.take(0)));
    while i < n
        invariant
            n == entries.len(),
            i <= n,
            names(out@) == names(old(out)@) + entries_files(entries@.take(i as int)),
        decreases n - i,
    {
        let ghost before = out@;
        assert(entries@.take(i + 1).drop_last() =~= entries@.take(i as int));
        assert(entries@.take(i + 1).last() == entries@[i as int]);
        assert(entries_files(entries@.take(i + 1)) == entries_files(entries@.take(i as int))
            + entry_files(entries@[i as int]));
        match &entries[i] {
            Entry::File(Some(name)) => {
                out.push(name.clone());
                proof {
                    lemma_names_push(before, *name);
                }
                assert(names(out@) =~= names(old(out)@) + entries_files(entries@.take(i + 1)));
            },
            Entry::File(None) => {
                assert(names(out@) =~= names(old(out)@) + entries_files(entries@.take(i + 1)));
            },
            Entry::Dir(d) => {
                assert(decreases_to!(entries => entries@[i as int]));
                push_files(&d.entries, out);
                assert(names(out@) =~= names(old(out)@) + entries_files(entries@.take(i + 1)));
            },
        }
        i = i + 1;
    }
    assert(entries@.take(n as int) =~= entries@);
}

/// Every file name at and below the storage directory, in reading order; none
/// where the storage directory is absent.
pub fn file_list(storage: Option<&DirNode>) -> (files: Vec<String>)
    ensures
        names(files@) == (match storage {
            Some(d) => entries_files(d.entries@),
            None => Seq::empty(),
        }),
{
    let mut out: Vec<String> = Vec::new();
    if let Some(d) = storage {
        push_files(&d.entries, &mut out);
    }
    assert(names(out@) =~= match storage {
        Some(d) => entries_files(d.entries@),
        None => Seq::empty(),
    });
    out
}


/// A folder of the tree listing: its nesting level (the storage directory is at
/// level 1), its name, the files directly in it and its subfolders.
#[derive(Debug)]
pub struct Folder {
    pub level: usize,
    pub folder: String,
    pub files: Vec<String>,
    pub subfolders: Vec<Folder>,
}

/// The abstract folder.
pub struct FolderView {
    pub level: nat,
    pub folder: Seq<char>,
    pub files: Seq<Seq<char>>,
    pub subfolders: Seq<FolderView>,
}

/// The abstract folder of a folder.
pub open spec fn folder_view(f: Folder) -> FolderView
    decreases f,
{
    FolderView {
        level: f.level as nat,
        folder: f.folder@,
        files: names(f.files@),
        subfolders: folders_view(f.subfolders@),
    }
}

/// The abstract folders of a run of folders.
pub open spec fn folders_view(fs: Seq<Folder>) -> Seq<FolderView>
    decreases fs,
{
    if fs.len() == 0 {
        Seq::empty()
    } else {
        folders_view(fs.drop_last()).push(folder_view(fs.last()))
    }
}

/// The names of the files directly in a run of entries, in reading order.
pub open spec fn direct_files(es: Seq<Entry>) -> Seq<Seq<char>>
    decreases es.len(),
{
    if es.len() == 0 {
        Seq::empty()
    } else {
        direct_files(es.drop_last()) + match es.last() {
            Entry::File(Some(n)) => seq![n@],
            _ => Seq::empty(),
        }
    }
}

/// The folder that a directory read at nesting `level` is listed as: its name
/// (empty where it is not text), the files directly in it, and its
/// subdirectories as folders one level deeper, all in reading order.
pub open spec fn folder_of(d: DirNode, level: nat) -> FolderView
    decreases d,
{
    FolderView {
        level,
        folder: match d.name {
            Some(n) => n@,
            None => Seq::empty(),
        },
        files: direct_files(d.entries@),
        subfolders: subfolders_of(d.entries@, level + 1),
    }
}

/// The folders that the subdirectories among a run of entries are listed as, at
/// nesting `level`.
pub open spec fn subfolders_of(es: Seq<Entry>, level: nat) -> Seq<FolderView>
    decreases es,
{
    if es.len() == 0 {
        Seq::empty()
    } else {
        subfolders_of(es.drop_last(), level) + match es.last() {
            Entry::Dir(sub) => seq![folder_of(sub, level)],
            _ => Seq::empty(),
        }
    }
}

/// The folder that the storage directory is listed as: named after the storage
/// directory, at level 1.
pub open spec fn root_folder(d: DirNode) -> FolderView {
    let f = folder_of(d, 1);
    FolderView { level: f.level, folder: storage_dir(), files: f.files, subfolders: f.subfolders }
}

proof fn lemma_subfolder_levels(es: Seq<Entry>, level: nat)
    ensures
        forall|i: int| 0 <= i < subfolders_of(es, level).len() ==> #[trigger] subfolders_of(es, level)[i].level == level,
    decreases es.len(),
{
    if es.len() > 0 {
        lemma_subfolder_levels(es.drop_last(), level);
        let p = subfolders_of(es.drop_last(), level);
        let last: Seq<FolderView> = match es.last() {
            Entry::Dir(sub) => seq![folder_of(sub, level)],
            _ => Seq::empty(),
        };
        assert(subfolders_of(es, level) == p + last);
        assert forall|i: int| 0 <= i < subfolders_of(es, level).len() implies #[trigger] subfolders_of(
            es,
            level,
        )[i].level == level by {
            if i < p.len() {
                assert(subfolders_of(es, level)[i] == p[i]);
            } else {
                assert(subfolders_of(es, level)[i] == last[i - p.len()]);
            }
        }
    }
}

/// Each subfolder of a listed folder sits one level deeper than the folder, and
/// the storage directory's folder is at level 1, named after the directory.
pub proof fn lemma_folder_levels(d: DirNode, level: nat)
    ensures
        folder_of(d, level).level == level,
        forall|i: int| 0 <= i < folder_of(d, level).subfolders.len() ==>
            #[trigger] folder_of(d, level).subfolders[i].level == level + 1,
        root_folder(d).level == 1,
        root_folder(d).folder == storage_dir(),
        root_folder(d).subfolders == folder_of(d, 1).subfolders,
{
    lemma_subfolder_levels(d.entries@, level + 1);
    assert(folder_of(d, level).subfolders == subfolders_of(d.entries@, level + 1));
}

/// How many directories deep a directory nests below itself.
pub open spec fn dir_depth(d: DirNode) -> nat
    decreases d,
{
    entries_depth(d.entries@)
}

/// How many directories deep a run of entries nests.
pub open spec fn entries_depth(es: Seq<Entry>) -> nat
    decreases es,
{
    if es.len() == 0 {
        0
    } else {
        let rest = entries_depth(es.drop_last());
        let here: nat = match es.last() {
            Entry::Dir(sub) => 1 + dir_depth(sub),
            _ => 0,
        };
        if rest < here {
            here
        } else {
            rest
        }
    }
}

proof fn lemma_depth_bound(es: Seq<Entry>, i: int)
    requires
        0 <= i < es.len(),
    ensures
        es[i] matches Entry::Dir(sub) ==> 1 + dir_depth(sub) <= entries_depth(es),
        entries_depth(es.take(i)) <= entries_depth(es),
    decreases es.len(),
{
    if i < es.len() - 1 {
        lemma_depth_bound(es.drop_last(), i);
        assert(es.drop_last().take(i) =~= es.take(i));
    } else {
        assert(es.drop_last() =~= es.take(i));
    }
}

/// Lists a directory read at nesting `level` as a folder.
fn build_folder(d: &DirNode, level: usize) -> (f: Folder)
    requires
        level + dir_depth(*d) <= usize::MAX,
    ensures
        folder_view(f) == folder_of(*d, level as nat),
    decreases d,
{
    let name = match &d.name {
        Some(n) => n.clone(),
        None => String::new(),
    };
    let mut files: Vec<String> = Vec::new();
    let mut subfolders: Vec<Folder> = Vec::new();
    let n = d.entries.len();
    let mut i: usize = 0;
    assert(d.entries@.take(0) =~= Seq::<Entry>::empty());
    assert(names(files@) =~= Seq::<Seq<char>>::empty());
    assert(folders_view(subfolders@) =~= Seq::<FolderView>::empty());
    while i < n
        invariant
            n == d.entries.len(),
            i <= n,
            level + dir_depth(*d) <= usize::MAX,
            names(files@) == direct_files(d.entries@.take(i as int)),
            folders_view(subfolders@) == subfolders_of(d.entries@.take(i as int), level as nat + 1),
        decreases n - i,
    {
        let ghost es = d.entries@.take(i + 1);
        assert(es.drop_last() =~= d.entries@.take(i as int));
        assert(es.last() == d.entries@[i as int]);
        proof {
            lemma_depth_bound(d.entries@, i as int);
        }
        match &d.entries[i] {
            Entry::File(Some(file)) => {
                let ghost before = files@;
                files.push(file.clone());
                proof {
                    lemma_names_push(before, *file);
                }
                assert(names(files@) =~= direct_files(es));
                assert(subfolders_of(es, level as nat + 1) =~= subfolders_of(
                    es.drop_last(),
                    level as nat + 1,
                ));
            },
            Entry::File(None) => {
                assert(direct_files(es) =~= direct_files(es.drop_last()));
                assert(subfolders_of(es, level as nat + 1) =~= subfolders_of(
                    es.drop_last(),
                    level as nat + 1,
                ));
            },
            Entry::Dir(sub) => {
                assert(decreases_to!(d.entries => d.entries@[i as int]));
                let child = build_folder(sub, level + 1);
                let ghost before = subfolders@;
                subfolders.push(child);
                assert(subfolders@.drop_last() =~= before);
                assert(folders_view(subfolders@) =~= subfolders_of(es, level as nat + 1));
                assert(direct_files(es) =~= direct_files(es.drop_last()));
            },
        }
        i = i + 1;
    }
    assert(d.entries@.take(n as int) =~= d.entries@);
    Folder { level, folder: name, files, subfolders }
}

/// The tree listing of the storage directory: its folder at level 1, named
/// after the storage directory, or no folder where the storage directory is
/// absent.
pub fn folder_list(storage: Option<&DirNode>) -> (folders: Vec<Folder>)
    requires
        storage matches Some(d) ==> 1 + dir_depth(*d) <= usize::MAX,
    ensures
        folders_view(folders@) == (match storage {
            Some(d) => seq![root_folder(*d)],
            None => Seq::empty(),
        }),
{
    let mut out: Vec<Folder> = Vec::new();
    if let Some(d) = storage {
        let mut f = build_folder(d, 1);
        f.folder = storage_dir_name();
        assert(folder_view(f) == root_folder(*d));
        out.push(f);
        assert(out@.drop_last() =~= Seq::<Folder>::empty());
        assert(folders_view(Seq::<Folder>::empty()) =~= Seq::<FolderView>::empty());
        assert(folders_view(out@) == folders_view(out@.drop_last()).push(folder_view(out@.last())));
    } else {
        assert(folders_view(out@) =~= Seq::<FolderView>::empty());
    }
    assert(folders_view(out@) =~= match storage {
        Some(d) => seq![root_folder(*d)],
        None => Seq::empty(),
    });
    out
}


/// The file names in a folder and in all folders below it.
pub open spec fn tree_files(f: FolderView) -> Seq<Seq<char>>
    decreases f,
{
    f.files + forest_files(f.subfolders)
}

/// The file names in a run of folders and in all folders below them.
pub open spec fn forest_files(fs: Seq<FolderView>) -> Seq<Seq<char>>
    decreases fs,
{
    if fs.len() == 0 {
        Seq::empty()
    } else {
        forest_files(fs.drop_last()) + tree_files(fs.last())
    }
}

proof fn lemma_entries_files_in_tree(es: Seq<Entry>, level: nat)
    ensures
        entries_files(es).to_multiset() == (direct_files(es) + forest_files(
            subfolders_of(es, level),
        )).to_multiset(),
    decreases es,
{
    broadcast use vstd::seq_lib::lemma_multiset_commutative;
    broadcast use vstd::multiset::group_multiset_axioms;

    if es.len() == 0 {
        assert(direct_files(es) + forest_files(subfolders_of(es, level)) =~= Seq::<Seq<char>>::empty());
    } else {
        let p = es.drop_last();
        let e = es.last();
        lemma_entries_files_in_tree(p, level);
        let ef = entries_files(p);
        let df = direct_files(p);
        let ff = forest_files(subfolders_of(p, level));
        assert(entries_files(es) == ef + entry_files(e));
        match e {
            Entry::File(Some(n)) => {
                assert(subfolders_of(es, level) =~= subfolders_of(p, level));
                assert(entries_files(es).to_multiset() =~= ef.to_multiset().add(seq![n@].to_multiset()));
                assert((direct_files(es) + ff).to_multiset() =~= df.to_multiset().add(seq![n@].to_multiset()).add(ff.to_multiset()));
                assert((df + ff).to_multiset() =~= df.to_multiset().add(ff.to_multiset()));
                assert(entries_files(es).to_multiset() =~= (direct_files(es) + forest_files(subfolders_of(es, level))).to_multiset());
            },
            Entry::File(None) => {
                assert(subfolders_of(es, level) =~= subfolders_of(p, level));
                assert(direct_files(es) =~= df);
                assert(entry_files(e) =~= Seq::<Seq<char>>::empty());
                assert(entries_files(es) =~= ef);
            },
            Entry::Dir(sub) => {
                lemma_dir_files_in_tree(sub, level);
                let t = folder_of(sub, level);
                let sf = subfolders_of(es, level);
                assert(sf =~= subfolders_of(p, level).push(t));
                assert(sf.drop_last() =~= subfolders_of(p, level));
                assert(forest_files(sf) == ff + tree_files(t));
                assert(direct_files(es) =~= df);
                assert(entries_files(es) == ef + entries_files(sub.entries@));
                assert(entries_files(es).to_multiset() =~= ef.to_multiset().add(entries_files(sub.entries@).to_multiset()));
                assert((df + (ff + tree_files(t))).to_multiset() =~= df.to_multiset().add(ff.to_multiset().add(tree_files(t).to_multiset())));
                assert((df + ff).to_multiset() =~= df.to_multiset().add(ff.to_multiset()));
                assert(entries_files(es).to_multiset() =~= (direct_files(es) + forest_files(sf)).to_multiset());
            },
        }
    }
}

proof fn lemma_dir_files_in_tree(d: DirNode, level: nat)
    ensures
        entries_files(d.entries@).to_multiset() == tree_files(folder_of(d, level)).to_multiset(),
    decreases d,
{
    lemma_entries_files_in_tree(d.entries@, level + 1);
}

/// The flat listing and the tree listing name the same files, each as often:
/// every file of the flat list sits in exactly one folder of the tree.
pub proof fn lemma_listings_agree(storage: Option<DirNode>)
    ensures
        (match storage {
            Some(d) => entries_files(d.entries@),
            None => Seq::empty(),
        }).to_multiset() == forest_files(match storage {
            Some(d) => seq![root_folder(d)],
            None => Seq::empty(),
        }).to_multiset(),
{
    if let Some(d) = storage {
        lemma_dir_files_in_tree(d, 1);
        let fs = seq![root_folder(d)];
        assert(fs.drop_last() =~= Seq::<FolderView>::empty());
        assert(forest_files(fs.drop_last()) =~= Seq::<Seq<char>>::empty());
        assert(forest_files(fs) == forest_files(fs.drop_last()) + tree_files(fs.last()));
        assert(tree_files(root_folder(d)) == tree_files(folder_of(d, 1)));
        assert(forest_files(fs) =~= tree_files(folder_of(d, 1)));
    } else {
        assert(forest_files(Seq::<FolderView>::empty()) =~= Seq::<Seq<char>>::empty());
    }
}


/// The nesting depth of a run of entries, or none where it exceeds `usize::MAX`.
fn depth_of(entries: &Vec<Entry>) -> (r: Option<usize>)
    ensures
        match r {
            Some(n) => n == entries_depth(entries@),
            None => entries_depth(entries@) > usize::MAX,
        },
    decreases entries,
{
    let n = entries.len();
    let mut i: usize = 0;
    let mut deepest: usize = 0;
    assert(entries@.take(0) =~= Seq::<Entry>::empty());
    while i < n
        invariant
            n == entries.len(),
            i <= n,
            deepest == entries_depth(entries@.take(i as int)),
        decreases n - i,
    {
        let ghost es = entries@.take(i + 1);
        assert(es.drop_last() =~= entries@.take(i as int));
        assert(es.last() == entries@[i as int]);
        proof {
            lemma_depth_bound(entries@, i as int);
        }
        if let Entry::Dir(sub) = &entries[i] {
            assert(decreases_to!(entries => entries@[i as int]));
            match depth_of(&sub.entries) {
                Some(below) => {
                    if below == usize::MAX {
                        return None;
                    }
                    if deepest < below + 1 {
                        deepest = below + 1;
                    }
                },
                None => {
                    return None;
                },
            }
        }
        i = i + 1;
    }
    assert(entries@.take(n as int) =~= entries@);
    Some(deepest)
}

/// Whether a directory nests shallowly enough for its tree listing to number
/// its levels, the storage directory being at level 1.
pub fn dir_depth_fits(d: &DirNode) -> (b: bool)
    ensures
        b == (1 + dir_depth(*d) <= usize::MAX),
{
    match depth_of(&d.entries) {
        Some(depth) => depth < usize::MAX,
        None => false,
    }
}


/// Whether an entry is a subdirectory.
pub open spec fn is_dir_entry(e: Entry) -> bool {
    e is Dir
}

/// Whether an entry is a file whose name is text.
pub open spec fn is_named_file(e: Entry) -> bool {
    e matches Entry::File(Some(_))
}

/// The name of a file entry whose name is text.
pub open spec fn file_name_of(e: Entry) -> Seq<char> {
    match e {
        Entry::File(Some(n)) => n@,
        _ => Seq::empty(),
    }
}

proof fn lemma_subfolders_are_subdirs(es: Seq<Entry>, level: nat)
    ensures
        subfolders_of(es, level) == es.filter(|e: Entry| is_dir_entry(e)).map_values(
            |e: Entry| folder_of(e->Dir_0, level),
        ),
    decreases es.len(),
{
    reveal(Seq::filter);
    let pred = |e: Entry| is_dir_entry(e);
    let f = |e: Entry| folder_of(e->Dir_0, level);
    if es.len() == 0 {
        assert(es.filter(pred) =~= Seq::<Entry>::empty());
        assert(es.filter(pred).map_values(f) =~= Seq::<FolderView>::empty());
    } else {
        let p = es.drop_last();
        lemma_subfolders_are_subdirs(p, level);
        assert(es.filter(pred) == if pred(es.last()) {
            p.filter(pred).push(es.last())
        } else {
            p.filter(pred)
        });
        match es.last() {
            Entry::Dir(sub) => {
                assert(es.filter(pred).map_values(f) =~= p.filter(pred).map_values(f).push(
                    folder_of(sub, level),
                ));
                assert(subfolders_of(es, level) =~= subfolders_of(p, level).push(folder_of(sub, level)));
            },
            _ => {
                assert(subfolders_of(es, level) =~= subfolders_of(p, level));
            },
        }
    }
}

/// Every subdirectory of a listed directory is listed as exactly one
/// subfolder, in reading order, whatever it holds: the subfolders correspond
/// one to one to the directory entries, the k-th being the listing of the k-th
/// subdirectory, one level deeper and named after it.
pub proof fn lemma_every_subdirectory_listed(d: DirNode, level: nat)
    ensures
        ({
            let dirs = d.entries@.filter(|e: Entry| is_dir_entry(e));
            let subs = folder_of(d, level).subfolders;
            &&& subs.len() == dirs.len()
            &&& forall|k: int|
                0 <= k < dirs.len() ==> {
                    &&& #[trigger] subs[k] == folder_of(dirs[k]->Dir_0, level + 1)
                    &&& subs[k].level == level + 1
                    &&& subs[k].folder == match dirs[k]->Dir_0.name {
                        Some(n) => n@,
                        None => Seq::empty(),
                    }
                }
        }),
{
    lemma_subfolders_are_subdirs(d.entries@, level + 1);
    assert(folder_of(d, level).subfolders == subfolders_of(d.entries@, level + 1));
}

proof fn lemma_direct_files_are_named_files(es: Seq<Entry>)
    ensures
        direct_files(es) == es.filter(|e: Entry| is_named_file(e)).map_values(
            |e: Entry| file_name_of(e),
        ),
    decreases es.len(),
{
    reveal(Seq::filter);
    let pred = |e: Entry| is_named_file(e);
    let f = |e: Entry| file_name_of(e);
    if es.len() == 0 {
        assert(es.filter(pred) =~= Seq::<Entry>::empty());
        assert(es.filter(pred).map_values(f) =~= Seq::<Seq<char>>::empty());
        assert(direct_files(es) =~= Seq::<Seq<char>>::empty());
    } else {
        let p = es.drop_last();
        lemma_direct_files_are_named_files(p);
        assert(es.filter(pred) == if pred(es.last()) {
            p.filter(pred).push(es.last())
        } else {
            p.filter(pred)
        });
        match es.last() {
            Entry::File(Some(n)) => {
                assert(es.filter(pred).map_values(f) =~= p.filter(pred).map_values(f).push(n@));
                assert(direct_files(es) =~= direct_files(p).push(n@));
            },
            _ => {
                assert(direct_files(es) =~= direct_files(p));
            },
        }
    }
}

/// Every file whose name is text is listed by exactly its name, whatever the
/// name: a named file entry adds its name at the end of the flat listing, a file
/// whose name is not text adds nothing, and a subdirectory adds its own
/// listing. The files of a folder in the tree are the named file entries of its
/// directory, in reading order.
pub proof fn lemma_every_named_file_listed(es: Seq<Entry>, name: String, sub: DirNode)
    ensures
        entries_files(es.push(Entry::File(Some(name)))) == entries_files(es).push(name@),
        entries_files(es.push(Entry::File(None))) == entries_files(es),
        entries_files(es.push(Entry::Dir(sub))) == entries_files(es) + entries_files(sub.entries@),
        direct_files(es) == es.filter(|e: Entry| is_named_file(e)).map_values(
            |e: Entry| file_name_of(e),
        ),
        forall|j: int| 0 <= j < es.len() && is_named_file(es[j]) ==> #[trigger] entries_files(
            es,
        ).contains(file_name_of(es[j])),
{
    let e1 = es.push(Entry::File(Some(name)));
    assert(e1.drop_last() =~= es);
    assert(entries_files(e1) == entries_files(e1.drop_last()) + entry_files(e1.last()));
    assert(entry_files(e1.last()) == seq![name@]);
    assert(entries_files(e1) =~= entries_files(es).push(name@));
    let e2 = es.push(Entry::File(None));
    assert(e2.drop_last() =~= es);
    assert(entries_files(e2) == entries_files(e2.drop_last()) + entry_files(e2.last()));
    assert(entry_files(e2.last()) =~= Seq::<Seq<char>>::empty());
    assert(entries_files(e2) =~= entries_files(es));
    let e3 = es.push(Entry::Dir(sub));
    assert(e3.drop_last() =~= es);
    assert(entries_files(e3) == entries_files(e3.drop_last()) + entry_files(e3.last()));
    lemma_direct_files_are_named_files(es);
    assert forall|j: int| 0 <= j < es.len() && is_named_file(es[j]) implies #[trigger] entries_files(
        es,
    ).contains(file_name_of(es[j])) by {
        lemma_named_file_contained(es, j);
    }
}

proof fn lemma_named_file_contained(es: Seq<Entry>, j: int)
    requires
        0 <= j < es.len(),
        is_named_file(es[j]),
    ensures
        entries_files(es).contains(file_name_of(es[j])),
    decreases es.len(),
{
    let p = es.drop_last();
    assert(entries_files(es) == entries_files(p) + entry_files(es.last()));
    if j < es.len() - 1 {
        lemma_named_file_contained(p, j);
        assert(p[j] == es[j]);
        let k = choose|k: int| 0 <= k < entries_files(p).len() && entries_files(p)[k] == file_name_of(p[j]);
        assert(entries_files(es)[k] == entries_files(p)[k]);
    } else {
        let n = file_name_of(es[j]);
        assert(entry_files(es.last()) == seq![n]);
        assert(entries_files(es)[entries_files(p).len() as int] == n);
    }
}

} // verus!
