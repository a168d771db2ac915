//! The entry type for one immediate child of the scanned directory, and the
//! rule that derives its recorded extension from its name.

use vstd::prelude::*;

verus! {

/// One immediate child of the scanned directory.
///
/// `file_size` is the logical (apparent) byte count and `file_disk_size`
/// the allocated (on-disk) byte count; for a directory both are the sums
/// over all regular files of its subtree. Neither bounds the other:
/// sparse files make the allocated count smaller, block rounding makes it
/// larger.
pub struct FileInfo {
    pub file_name: String,
    pub file_extension: Option<String>,
    pub file_size: u64,
    pub file_disk_size: u64,
    pub file_is_directory: bool,
}

impl FileInfo {
    /// A directory never carries an extension.
    pub open spec fn wf(&self) -> bool {
        self.file_is_directory ==> self.file_extension is None
    }
}

/// Index of the last `.` in a name that is not its leading character, if any.
pub open spec fn spec_rfind_dot(name: Seq<char>) -> Option<int>
    decreases name.len(),
{
    if name.len() <= 1 {
        None
    } else if name.last() == '.' {
        Some(name.len() - 1)
    } else {
        spec_rfind_dot(name.drop_last())
    }
}

/// A found dot lies strictly inside the name and is a dot.
pub proof fn lemma_rfind_dot_bounds(name: Seq<char>)
    ensures
        match spec_rfind_dot(name) {
            Some(i) => 1 <= i < name.len() && name[i] == '.',
            None => true,
        },
    decreases name.len(),
{
    if name.len() > 1 && name.last() != '.' {
        lemma_rfind_dot_bounds(name.drop_last());
    }
}

/// What a scanned entry records as its extension: a directory (or any
/// non-regular child) records none; a regular file records the part of its
/// name after the last interior dot, and falls back to its whole name when
/// no such dot exists.
pub open spec fn spec_entry_extension(name: Seq<char>, is_regular_file: bool) -> Option<Seq<char>> {
    if is_regular_file {
        match spec_rfind_dot(name) {
            Some(i) => Some(name.subrange(i + 1, name.len() as int)),
            None => Some(name),
        }
    } else {
        None
    }
}

fn rfind_dot(name: &str) -> (r: Option<usize>)
    ensures
        match r {
            Some(i) => spec_rfind_dot(name@) == Some(i as int),
            None => spec_rfind_dot(name@) is None,
        },
{
    let n = name.unicode_len();
    let mut i: usize = n;
    proof {
        assert(name@.subrange(0, n as int) =~= name@);
    }
    while i > 1
        invariant
            i <= n,
            n == name@.len(),
            spec_rfind_dot(name@.subrange(0, i as int)) == spec_rfind_dot(name@),
        decreases i,
    {
        let c = name.get_char(i - 1);
        proof {
            assert(name@.subrange(0, i as int).last() == name@[i - 1]);
            assert(name@.subrange(0, i as int).drop_last() =~= name@.subrange(0, i - 1));
        }
        if c == '.' {
            return Some(i - 1);
        }
        i = i - 1;
    }
    None
}

/// The recorded extension of a scanned child, per `spec_entry_extension`.
pub fn entry_extension(name: &str, is_regular_file: bool) -> (r: Option<String>)
    ensures
        r.deep_view() == spec_entry_extension(name@, is_regular_file),
{
    if !is_regular_file {
        return None;
    }
    let n = name.unicode_len();
    match rfind_dot(name) {
        Some(i) => {
            proof {
                lemma_rfind_dot_bounds(name@);
            }
            Some(name.substring_char(i + 1, n).to_owned())
        },
        None => Some(name.to_owned()),
    }
}

/// Builds the fully populated entry for one immediate child, deriving the
/// recorded extension from the name and the child's kind.
pub fn make_file_info(
    file_name: String,
    is_directory: bool,
    is_regular_file: bool,
    file_size: u64,
    file_disk_size: u64,
) -> (r: FileInfo)
    requires
        !(is_directory && is_regular_file),
    ensures
        r.file_name == file_name,
        r.file_is_directory == is_directory,
        r.file_size == file_size,
        r.file_disk_size == file_disk_size,
        r.file_extension.deep_view() == spec_entry_extension(file_name@, is_regular_file),
        r.wf(),
{
    let file_extension = entry_extension(file_name.as_str(), is_regular_file);
    FileInfo { file_name, file_extension, file_size, file_disk_size, file_is_directory: is_directory }
}

} // verus!
