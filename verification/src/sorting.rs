//! Ordering of the scanned entry sequence: a stable partition that groups
//! directories ahead of files, and a case-insensitive alphabetical sort.

use vstd::prelude::*;
use vstd::seq_lib::group_to_multiset_ensures;
use vstd::multiset::group_multiset_axioms;

use crate::casefold::{ci_le, ci_le_exec, lemma_ci_le_total, lemma_ci_le_trans};
use crate::entry::FileInfo;

verus! {

/// The subsequence of directory entries, in scan order.
pub open spec fn dirs_of(s: Seq<FileInfo>) -> Seq<FileInfo>
    decreases s.len(),
{
    if s.len() == 0 {
        Seq::empty()
    } else if s.last().file_is_directory {
        dirs_of(s.drop_last()).push(s.last())
    } else {
        dirs_of(s.drop_last())
    }
}

/// The subsequence of file (non-directory) entries, in scan order.
pub open spec fn files_of(s: Seq<FileInfo>) -> Seq<FileInfo>
    decreases s.len(),
{
    if s.len() == 0 {
        Seq::empty()
    } else if !s.last().file_is_directory {
        files_of(s.drop_last()).push(s.last())
    } else {
        files_of(s.drop_last())
    }
}

/// Every entry of `dirs_of` is a directory, every entry of `files_of` is
/// not, and their lengths sum to the whole.
pub proof fn lemma_partition_shape(s: Seq<FileInfo>)
    ensures
        dirs_of(s).len() + files_of(s).len() == s.len(),
        forall|p: int| 0 <= p < dirs_of(s).len() ==> (#[trigger] dirs_of(s)[p]).file_is_directory,
        forall|p: int|
            0 <= p < files_of(s).len() ==> !(#[trigger] files_of(s)[p]).file_is_directory,
    decreases s.len(),
{
    if s.len() > 0 {
        lemma_partition_shape(s.drop_last());
    }
}

/// Inserting an element anywhere in a sequence inserts it into the
/// sequence's multiset.
proof fn lemma_to_multiset_insert(s: Seq<FileInfo>, j: int, x: FileInfo)
    requires
        0 <= j <= s.len(),
    ensures
        s.insert(j, x).to_multiset() == s.to_multiset().insert(x),
{
    broadcast use group_to_multiset_ensures, group_multiset_axioms;

    let t = s.insert(j, x);
    assert(t.remove(j) =~= s);
    assert(t[j] == x);
    assert(t.to_multiset().remove(x) == s.to_multiset());
    assert(t.contains(x));
    assert(t.to_multiset().count(x) > 0);
    assert(t.to_multiset() =~= s.to_multiset().insert(x)) by {
        assert forall|a: FileInfo| t.to_multiset().count(a) == s.to_multiset().insert(x).count(
            a,
        ) by {
            if a == x {
                assert(s.to_multiset().count(x) == t.to_multiset().remove(x).count(x));
            }
        }
    }
}

/// The two halves of the partition together form a permutation of the
/// sequence.
pub proof fn lemma_partition_multiset(s: Seq<FileInfo>)
    ensures
        (dirs_of(s) + files_of(s)).to_multiset() == s.to_multiset(),
    decreases s.len(),
{
    broadcast use group_to_multiset_ensures, group_multiset_axioms;

    if s.len() == 0 {
        assert(dirs_of(s) + files_of(s) =~= s);
    } else {
        let t = s.drop_last();
        let e = s.last();
        lemma_partition_multiset(t);
        assert(s =~= t.push(e));
        let a = dirs_of(t);
        let b = files_of(t);
        if e.file_is_directory {
            assert(dirs_of(s) + files_of(s) =~= (a + b).insert(a.len() as int, e));
            lemma_to_multiset_insert(a + b, a.len() as int, e);
        } else {
            assert(dirs_of(s) + files_of(s) =~= (a + b).insert((a.len() + b.len()) as int, e));
            lemma_to_multiset_insert(a + b, (a.len() + b.len()) as int, e);
        }
    }
}

/// Inserts `x` into a sequence after every leading entry whose folded
/// name does not exceed `x`'s.
pub open spec fn insert_sorted(t: Seq<FileInfo>, x: FileInfo) -> Seq<FileInfo>
    decreases t.len(),
{
    if t.len() == 0 {
        seq![x]
    } else if ci_le(t.first().file_name@, x.file_name@) {
        seq![t.first()] + insert_sorted(t.drop_first(), x)
    } else {
        seq![x] + t
    }
}

/// The case-insensitive insertion sort of an entry sequence. It is
/// stable: each entry is placed after every earlier entry whose folded
/// name does not exceed its own, so entries with equal folded names keep
/// their relative order.
pub open spec fn spec_ci_sort(s: Seq<FileInfo>) -> Seq<FileInfo>
    decreases s.len(),
{
    if s.len() == 0 {
        Seq::empty()
    } else {
        insert_sorted(spec_ci_sort(s.drop_last()), s.last())
    }
}

proof fn lemma_insert_sorted_len(t: Seq<FileInfo>, x: FileInfo)
    ensures
        insert_sorted(t, x).len() == t.len() + 1,
    decreases t.len(),
{
    if t.len() > 0 && ci_le(t.first().file_name@, x.file_name@) {
        lemma_insert_sorted_len(t.drop_first(), x);
    }
}

proof fn lemma_ci_sort_len(s: Seq<FileInfo>)
    ensures
        spec_ci_sort(s).len() == s.len(),
    decreases s.len(),
{
    if s.len() > 0 {
        lemma_ci_sort_len(s.drop_last());
        lemma_insert_sorted_len(spec_ci_sort(s.drop_last()), s.last());
    }
}

/// Inserting at the first position whose entry's folded name exceeds the
/// new entry's is exactly what `insert_sorted` does.
proof fn lemma_insert_sorted_at(t: Seq<FileInfo>, x: FileInfo, j: int)
    requires
        0 <= j <= t.len(),
        forall|p: int| 0 <= p < j ==> ci_le((#[trigger] t[p]).file_name@, x.file_name@),
        j < t.len() ==> !ci_le(t[j].file_name@, x.file_name@),
    ensures
        insert_sorted(t, x) == t.insert(j, x),
    decreases j,
{
    if j == 0 {
        if t.len() == 0 {
            assert(insert_sorted(t, x) =~= t.insert(0, x));
        } else {
            assert(seq![x] + t =~= t.insert(0, x));
        }
    } else {
        assert(ci_le(t[0].file_name@, x.file_name@));
        assert forall|p: int| 0 <= p < j - 1 implies ci_le(
            (#[trigger] t.drop_first()[p]).file_name@,
            x.file_name@,
        ) by {
            assert(t.drop_first()[p] == t[p + 1]);
        }
        if j - 1 < t.drop_first().len() {
            assert(t.drop_first()[j - 1] == t[j]);
        }
        lemma_insert_sorted_at(t.drop_first(), x, j - 1);
        assert(seq![t.first()] + t.drop_first().insert(j - 1, x) =~= t.insert(j, x));
    }
}

/// Groups every directory entry ahead of every file entry while keeping
/// the relative scan order inside each group: the result is exactly the
/// directories, in order, followed by the files, in order. This is a
/// deliberate replacement of a comparator-driven grouping pass: a
/// comparator over extension presence is not a total order, so the
/// partition is stated (and proved) explicitly instead.
pub fn sort_directory_by_extension(contents: &mut Vec<FileInfo>)
    ensures
        final(contents)@ == dirs_of(old(contents)@) + files_of(old(contents)@),
{
    let ghost orig = contents@;
    let mut dirs: Vec<FileInfo> = Vec::new();
    let mut files: Vec<FileInfo> = Vec::new();
    proof {
        assert(orig.subrange(0, 0) =~= Seq::<FileInfo>::empty());
    }
    while contents.len() > 0
        invariant
            contents@.len() <= orig.len(),
            contents@ == orig.subrange(orig.len() - contents@.len(), orig.len() as int),
            dirs@ == dirs_of(orig.subrange(0, orig.len() - contents@.len())),
            files@ == files_of(orig.subrange(0, orig.len() - contents@.len())),
        decreases contents@.len(),
    {
        let ghost j = orig.len() - contents@.len();
        let e = contents.remove(0);
        proof {
            assert(e == orig[j]);
            assert(contents@ =~= orig.subrange(j + 1, orig.len() as int));
            assert(orig.subrange(0, j + 1).drop_last() =~= orig.subrange(0, j as int));
            assert(orig.subrange(0, j + 1).last() == orig[j]);
        }
        if e.file_is_directory {
            dirs.push(e);
        } else {
            files.push(e);
        }
    }
    proof {
        assert(orig.subrange(0, orig.len() as int) =~= orig);
    }
    dirs.append(&mut files);
    *contents = dirs;
}

/// Sorts the entries case-insensitively by name (ASCII case folding), as
/// a permutation of the input. The result is pinned to `spec_ci_sort`, a
/// stable insertion sort: entries with equal folded names keep their
/// relative order.
pub fn sort_directory_alphabetically(directories: &mut Vec<FileInfo>)
    ensures
        final(directories)@ == spec_ci_sort(old(directories)@),
        final(directories)@.len() == old(directories)@.len(),
        final(directories)@.to_multiset() == old(directories)@.to_multiset(),
        forall|p: int, q: int|
            0 <= p < q < final(directories)@.len() ==> ci_le(
                final(directories)@[p].file_name@,
                final(directories)@[q].file_name@,
            ),
{
    let ghost orig = directories@;
    if directories.len() <= 1 {
        proof {
            if orig.len() == 0 {
                assert(orig =~= Seq::<FileInfo>::empty());
                assert(spec_ci_sort(orig) =~= orig);
            } else {
                assert(orig.drop_last() =~= Seq::<FileInfo>::empty());
                assert(spec_ci_sort(Seq::<FileInfo>::empty()) =~= Seq::<FileInfo>::empty());
                assert(insert_sorted(Seq::<FileInfo>::empty(), orig.last()) =~= seq![orig.last()]);
                assert(spec_ci_sort(orig) =~= orig);
            }
        }
        return;
    }
    let mut i: usize = 1;
    proof {
        assert(orig.subrange(0, 1).drop_last() =~= Seq::<FileInfo>::empty());
        assert(orig.subrange(0, 1).last() == orig[0]);
        assert(spec_ci_sort(Seq::<FileInfo>::empty()) =~= Seq::<FileInfo>::empty());
        assert(insert_sorted(Seq::<FileInfo>::empty(), orig[0]) =~= seq![orig[0]]);
        assert(spec_ci_sort(orig.subrange(0, 1)) =~= seq![orig[0]]);
        assert(seq![orig[0]] + orig.skip(1) =~= orig);
    }
    while i < directories.len()
        invariant
            1 <= i,
            i <= orig.len(),
            directories@.len() == orig.len(),
            directories@.to_multiset() == orig.to_multiset(),
            directories@ == spec_ci_sort(orig.subrange(0, i as int)) + orig.skip(i as int),
            forall|p: int, q: int|
                0 <= p < q < i && q < directories@.len() ==> ci_le(
                    directories@[p].file_name@,
                    directories@[q].file_name@,
                ),
        decreases directories@.len() - i,
    {
        let ghost pre = directories@;
        let ghost sortedpre = spec_ci_sort(orig.subrange(0, i as int));
        let x = directories.remove(i);
        proof {
            broadcast use group_to_multiset_ensures, group_multiset_axioms;

            lemma_ci_sort_len(orig.subrange(0, i as int));
            assert(x == pre[i as int]);
            assert(x == orig[i as int]) by {
                assert(pre[i as int] == orig.skip(i as int)[0]);
            }
            assert(directories@ == pre.remove(i as int));
            assert(pre.remove(i as int) =~= sortedpre + orig.skip(i as int + 1));
            assert forall|p: int| 0 <= p < i implies directories@[p] == pre[p] by {}
        }
        let mut j: usize = 0;
        let mut go = true;
        while go && j < i
            invariant
                j <= i,
                i < pre.len(),
                directories@ == pre.remove(i as int),
                directories@.len() == pre.len() - 1,
                forall|p: int| 0 <= p < j ==> ci_le(directories@[p].file_name@, x.file_name@),
                !go ==> j < i && !ci_le(directories@[j as int].file_name@, x.file_name@),
            decreases i - j + (if go { 1int } else { 0int }),
        {
            if ci_le_exec(directories[j].file_name.as_str(), x.file_name.as_str()) {
                j = j + 1;
            } else {
                go = false;
            }
        }
        proof {
            let a = directories@;
            let b = a.insert(j as int, x);
            lemma_to_multiset_insert(a, j as int, x);
            broadcast use group_to_multiset_ensures, group_multiset_axioms;

            assert(pre.to_multiset().remove(x).insert(x) =~= pre.to_multiset()) by {
                assert(pre.contains(x));
                assert(pre.to_multiset().count(x) > 0);
            }
            // every element of the sorted prefix at or after j is above x
            assert forall|q: int| j <= q < i implies ci_le(x.file_name@, a[q].file_name@) by {
                if !go {
                    lemma_ci_le_total(a[j as int].file_name@, x.file_name@);
                    if q > j {
                        lemma_ci_le_trans(x.file_name@, a[j as int].file_name@, a[q].file_name@);
                    }
                }
            }
            assert forall|p: int, q: int| 0 <= p < q < i + 1 implies ci_le(
                b[p].file_name@,
                b[q].file_name@,
            ) by {
                if p < j && q > j {
                    lemma_ci_le_trans(a[p].file_name@, x.file_name@, a[q - 1].file_name@);
                }
            }
            // the insertion lands exactly where the spec insertion sort puts it
            lemma_ci_sort_len(orig.subrange(0, i as int));
            assert forall|p: int| 0 <= p < j implies ci_le(
                (#[trigger] sortedpre[p]).file_name@,
                x.file_name@,
            ) by {
                assert(a[p] == sortedpre[p]);
            }
            if j < i {
                assert(sortedpre[j as int] == a[j as int]);
            }
            lemma_insert_sorted_at(sortedpre, x, j as int);
            assert(a.insert(j as int, x) =~= sortedpre.insert(j as int, x) + orig.skip(
                i as int + 1,
            ));
            assert(orig.subrange(0, i as int + 1).drop_last() =~= orig.subrange(0, i as int));
            assert(orig.subrange(0, i as int + 1).last() == orig[i as int]);
            assert(spec_ci_sort(orig.subrange(0, i as int + 1)) == insert_sorted(sortedpre, x));
        }
        directories.insert(j, x);
        i = i + 1;
    }
    proof {
        assert(orig.subrange(0, orig.len() as int) =~= orig);
        assert(orig.skip(orig.len() as int) =~= Seq::<FileInfo>::empty());
        assert(spec_ci_sort(orig) + Seq::<FileInfo>::empty() =~= spec_ci_sort(orig));
    }
}

/// Position of the first entry that is not a directory, or the length if
/// every entry is one.
fn first_file_position(v: &Vec<FileInfo>) -> (r: usize)
    ensures
        r <= v@.len(),
        forall|p: int| 0 <= p < r ==> v@[p].file_is_directory,
        r < v@.len() ==> !v@[r as int].file_is_directory,
{
    let mut i: usize = 0;
    loop
        invariant
            i <= v@.len(),
            forall|p: int| 0 <= p < i ==> v@[p].file_is_directory,
        decreases v@.len() - i,
    {
        if i >= v.len() {
            return i;
        }
        if !v[i].file_is_directory {
            return i;
        }
        i = i + 1;
    }
}

/// The full ordering of the scanned sequence: directories first, sorted
/// case-insensitively among themselves, then the files in scan order.
pub fn order_directory_contents(contents: &mut Vec<FileInfo>)
    ensures
        final(contents)@.len() == old(contents)@.len(),
        final(contents)@.to_multiset() == old(contents)@.to_multiset(),
        // the file block is exactly the files, in scan order
        final(contents)@.skip(dirs_of(old(contents)@).len() as int) == files_of(old(contents)@),
        // the directory block is exactly the directories, sorted
        final(contents)@.subrange(0, dirs_of(old(contents)@).len() as int) == spec_ci_sort(
            dirs_of(old(contents)@),
        ),
        // directories appear in case-insensitive alphabetical order
        forall|p: int, q: int|
            0 <= p < q < final(contents)@.len() && final(contents)@[p].file_is_directory
                && final(contents)@[q].file_is_directory ==> ci_le(
                final(contents)@[p].file_name@,
                final(contents)@[q].file_name@,
            ),
{
    let ghost orig = contents@;
    sort_directory_by_extension(contents);
    let ghost ddd = dirs_of(orig);
    let ghost fff = files_of(orig);
    let ghost dlen = ddd.len() as int;
    proof {
        lemma_partition_shape(orig);
        assert forall|p: int| 0 <= p < dlen implies contents@[p].file_is_directory by {
            assert(contents@[p] == ddd[p]);
        }
        if dlen < contents@.len() {
            assert(contents@[dlen] == fff[0]);
        }
    }
    let cut = first_file_position(contents);
    proof {
        assert(cut == dlen) by {
            if (cut as int) < dlen {
                assert(contents@[cut as int].file_is_directory);
            }
            if (cut as int) > dlen {
                assert(contents@[dlen].file_is_directory);
            }
        }
    }
    let mut files = contents.split_off(cut);
    proof {
        assert(contents@ =~= ddd);
        assert(files@ =~= fff);
    }
    sort_directory_alphabetically(contents);
    let ghost sorted_dirs = contents@;
    proof {
        broadcast use group_to_multiset_ensures, group_multiset_axioms;

        lemma_partition_shape(orig);
        assert forall|p: int| 0 <= p < sorted_dirs.len() implies sorted_dirs[p].file_is_directory by {
            assert(sorted_dirs.contains(sorted_dirs[p]));
            assert(sorted_dirs.to_multiset().count(sorted_dirs[p]) > 0);
            assert(ddd.to_multiset().count(sorted_dirs[p]) > 0);
            assert(ddd.contains(sorted_dirs[p]));
            let w = choose|w: int| 0 <= w < ddd.len() && ddd[w] == sorted_dirs[p];
            assert(ddd[w].file_is_directory);
        }
    }
    contents.append(&mut files);
    proof {
        broadcast use group_to_multiset_ensures, group_multiset_axioms;

        assert(contents@ == sorted_dirs + fff);
        vstd::seq_lib::lemma_multiset_commutative(sorted_dirs, fff);
        vstd::seq_lib::lemma_multiset_commutative(ddd, fff);
        lemma_partition_multiset(orig);
        lemma_partition_shape(orig);
        assert(contents@.skip(dlen) =~= fff);
        assert(contents@.subrange(0, dlen) =~= sorted_dirs);
        assert forall|p: int, q: int|
            0 <= p < q < contents@.len() && contents@[p].file_is_directory
                && contents@[q].file_is_directory implies ci_le(
            contents@[p].file_name@,
            contents@[q].file_name@,
        ) by {
            if q >= dlen {
                assert(contents@[q] == fff[q - dlen]);
                assert(!contents@[q].file_is_directory);
            }
        }
    }
}

} // verus!
