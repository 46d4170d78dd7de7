//! The file locator: of a directory listing, the files whose name begins
//! with `metrics` and ends with `.out`, at any depth, in listing order.

use crate::text::{ends_with, starts_with, to_chars, views};
use vstd::prelude::*;

verus! {

/// One entry of a directory listing.
pub enum FsEntry {
    /// A regular file, by its full path and the last component of that path.
    File { path: String, name: String },
    /// A directory with its entries, in the order in which they were listed.
    Dir { entries: Vec<FsEntry> },
    /// Anything that is neither a regular file nor a directory.
    Other,
}

/// A file of a listing: its full path and its name.
pub ghost struct ListedFile {
    pub path: Seq<char>,
    pub name: Seq<char>,
}

/// The name begins with `metrics` and ends with `.out`.
pub open spec fn is_metric_name(name: Seq<char>) -> bool {
    "metrics"@.is_prefix_of(name) && ".out"@.is_suffix_of(name)
}

/// Every file at or below an entry, depth first, in listing order.
pub open spec fn files_under(entry: FsEntry) -> Seq<ListedFile>
    decreases entry,
{
    match entry {
        FsEntry::File { path, name } => seq![ListedFile { path: path@, name: name@ }],
        FsEntry::Dir { entries } => files_among(entries, entries.len() as nat),
        FsEntry::Other => Seq::empty(),
    }
}

/// Every file at or below the first `n` of the entries.
pub open spec fn files_among(entries: Vec<FsEntry>, n: nat) -> Seq<ListedFile>
    decreases entries, n,
{
    if n == 0 || n > entries.len() {
        Seq::empty()
    } else {
        files_among(entries, (n - 1) as nat) + files_under(entries[n - 1])
    }
}

/// The paths of the files whose name matches, in the order of the files.
pub open spec fn selected(files: Seq<ListedFile>) -> Seq<Seq<char>>
    decreases files.len(),
{
    if files.len() == 0 {
        Seq::empty()
    } else {
        let before = selected(files.drop_last());
        if is_metric_name(files.last().name) {
            before.push(files.last().path)
        } else {
            before
        }
    }
}

/// Whether a file name begins with `metrics` and ends with `.out`.
pub fn is_metric_file_name(name: &str) -> (res: bool)
    ensures
        res == is_metric_name(name@),
{
    let chars = to_chars(name);
    let prefix = to_chars("metrics");
    let suffix = to_chars(".out");
    starts_with(&chars, &prefix) && ends_with(&chars, &suffix)
}

/// What is selected of two runs of files, one after the other, is what is
/// selected of the first followed by what is selected of the second.
pub proof fn lemma_selected_concat(a: Seq<ListedFile>, b: Seq<ListedFile>)
    ensures
        selected(a + b) == selected(a) + selected(b),
    decreases b.len(),
{
    if b.len() == 0 {
        assert(a + b =~= a);
        assert(selected(a) + selected(b) =~= selected(a));
    } else {
        lemma_selected_concat(a, b.drop_last());
        assert((a + b).drop_last() =~= a + b.drop_last());
        assert((a + b).last() == b.last());
        assert(selected(a + b) =~= selected(a) + selected(b));
    }
}

/// A path is selected exactly when a file with that path has a matching
/// name.
pub proof fn lemma_selected_exact(files: Seq<ListedFile>, path: Seq<char>)
    ensures
        selected(files).contains(path) <==> exists|i: int|
            0 <= i < files.len() && (#[trigger] files[i]).path == path && is_metric_name(
                files[i].name,
            ),
    decreases files.len(),
{
    if files.len() > 0 {
        let init = files.drop_last();
        let last = files.last();
        lemma_selected_exact(init, path);
        vstd::seq_lib::lemma_seq_contains_after_push(selected(init), last.path, path);
        if selected(files).contains(path) {
            if selected(init).contains(path) {
                let i = choose|i: int|
                    0 <= i < init.len() && (#[trigger] init[i]).path == path && is_metric_name(
                        init[i].name,
                    );
                assert(files[i] == init[i]);
            } else {
                assert(files[files.len() - 1] == last);
            }
        }
        if exists|i: int|
            0 <= i < files.len() && (#[trigger] files[i]).path == path && is_metric_name(
                files[i].name,
            ) {
            let i = choose|i: int|
                0 <= i < files.len() && (#[trigger] files[i]).path == path && is_metric_name(
                    files[i].name,
                );
            if i < init.len() {
                assert(init[i] == files[i]);
            }
        }
    }
}

/// A path is located at or below an entry exactly when a file at or below
/// it, at whatever depth, has that path and a matching name.
pub proof fn lemma_located_exact(entry: FsEntry, path: Seq<char>)
    ensures
        selected(files_under(entry)).contains(path) <==> exists|i: int|
            0 <= i < files_under(entry).len() && (#[trigger] files_under(entry)[i]).path == path
                && is_metric_name(files_under(entry)[i].name),
{
    lemma_selected_exact(files_under(entry), path);
}

/// Where no file has a matching name, and so where there is no file at
/// all, nothing is selected.
pub proof fn lemma_nothing_selected(files: Seq<ListedFile>)
    requires
        forall|i: int| 0 <= i < files.len() ==> !is_metric_name((#[trigger] files[i]).name),
    ensures
        selected(files) == Seq::<Seq<char>>::empty(),
    decreases files.len(),
{
    if files.len() > 0 {
        let init = files.drop_last();
        assert forall|i: int| 0 <= i < init.len() implies !is_metric_name(
            (#[trigger] init[i]).name,
        ) by {
            assert(init[i] == files[i]);
        }
        lemma_nothing_selected(init);
        assert(files[files.len() - 1] == files.last());
    }
}

/// The files of a directory hold the files of each of its entries, and so
/// those of any depth below it.
pub proof fn lemma_files_of_entry(entries: Vec<FsEntry>, k: int, file: ListedFile)
    requires
        0 <= k < entries.len(),
        files_under(entries[k]).contains(file),
    ensures
        files_under(FsEntry::Dir { entries }).contains(file),
{
    lemma_files_among_grow(entries, k + 1, entries.len() as int, file);
}

/// What is among the first `n` entries is among the first `m`, for `n <= m`.
proof fn lemma_files_among_grow(entries: Vec<FsEntry>, n: int, m: int, file: ListedFile)
    requires
        1 <= n <= m <= entries.len(),
        files_under(entries[n - 1]).contains(file),
    ensures
        files_among(entries, m as nat).contains(file),
    decreases m - n,
{
    if n == m {
        let a = files_among(entries, (m - 1) as nat);
        let b = files_under(entries[m - 1]);
        let i = choose|i: int| 0 <= i < b.len() && b[i] == file;
        assert((a + b)[a.len() + i] == file);
    } else {
        lemma_files_among_grow(entries, n, m - 1, file);
        let a = files_among(entries, (m - 1) as nat);
        let b = files_under(entries[m - 1]);
        let i = choose|i: int| 0 <= i < a.len() && a[i] == file;
        assert((a + b)[i] == file);
    }
}

/// Appends to `files` the paths of the matching files at or below `entry`,
/// depth first, in listing order.
pub fn craw_path_for_metric_files(entry: &FsEntry, files: &mut Vec<String>)
    ensures
        views(final(files)@) == views(old(files)@) + selected(files_under(*entry)),
    decreases entry,
{
    let ghost start = views(files@);
    match entry {
        FsEntry::File { path, name } => {
            proof {
                let only = seq![ListedFile { path: path@, name: name@ }];
                assert(only.drop_last() =~= Seq::<ListedFile>::empty());
                assert(selected(only.drop_last()) =~= Seq::<Seq<char>>::empty());
                assert(only.last() == ListedFile { path: path@, name: name@ });
            }
            if is_metric_file_name(name.as_str()) {
                files.push(path.clone());
                proof {
                    assert(views(files@) =~= start + seq![path@]);
                    assert(selected(files_under(*entry)) =~= seq![path@]);
                }
            } else {
                proof {
                    assert(selected(files_under(*entry)) =~= Seq::<Seq<char>>::empty());
                    assert(views(files@) =~= start + selected(files_under(*entry)));
                }
            }
        },
        FsEntry::Dir { entries } => {
            let mut i: usize = 0;
            proof {
                assert(views(files@) =~= start + selected(files_among(*entries, 0)));
            }
            while i < entries.len()
                invariant
                    i <= entries.len(),
                    *entry is Dir,
                    entry->entries == *entries,
                    views(files@) == start + selected(files_among(*entries, i as nat)),
                decreases entries.len() - i,
            {
                proof {
                    vstd::std_specs::vec::axiom_vec_index_decreases(*entries, i as int);
                    assert(decreases_to!(*entry => entry->entries));
                    assert(decreases_to!(*entries => entries@[i as int]));
                }
                craw_path_for_metric_files(&entries[i], files);
                proof {
                    lemma_selected_concat(
                        files_among(*entries, i as nat),
                        files_under(entries@[i as int]),
                    );
                    assert(views(files@) =~= start + selected(
                        files_among(*entries, (i + 1) as nat),
                    ));
                }
                i = i + 1;
            }
        },
        FsEntry::Other => {
            proof {
                assert(views(files@) =~= start + selected(files_under(*entry)));
            }
        },
    }
}

} // verus!
