//! The descriptive record of one directory entry, as every component of the
//! library consumes it. Records are built fresh from raw metadata values and
//! never mutated afterwards.

use vstd::prelude::*;
use crate::classifier::{classify_extension, spec_classify, FileCategory};
use crate::fmt::{format_size, spec_format_size};
use crate::text::{ascii_lower, ascii_lowercase, push_char};

verus! {

/// One directory entry: its location, normalized extension, size, rendered
/// timestamps, flags and category.
#[derive(Debug, Clone)]
pub struct FileInfo {
    pub path: String,
    pub name: String,
    pub extension: String,
    pub size: u64,
    pub size_formatted: String,
    pub created_at: String,
    pub modified_at: String,
    pub is_directory: bool,
    pub is_hidden: bool,
    pub category: FileCategory,
}

impl FileInfo {
    /// The derived fields agree with the stored ones: the category is the
    /// extension's, and the rendered size renders the byte size.
    pub open spec fn wf(self) -> bool {
        &&& self.category == spec_classify(self.extension@)
        &&& self.size_formatted@ == spec_format_size(self.size)
    }
}

/// The normalized form of a raw extension as a path yields it: a leading dot
/// and ASCII-lowercased characters; no extension becomes the empty string.
pub open spec fn spec_dotted_extension(raw: Option<Seq<char>>) -> Seq<char> {
    match raw {
        Some(e) => seq!['.'] + ascii_lower(e),
        None => Seq::empty(),
    }
}

/// The view of an optional raw extension.
pub open spec fn raw_ext_view(raw: Option<&str>) -> Option<Seq<char>> {
    match raw {
        Some(e) => Some(e@),
        None => None,
    }
}

/// Normalizes the extension a path yields: lowercased behind a leading dot,
/// or empty when the path has none.
pub fn dotted_extension(raw: Option<&str>) -> (r: String)
    ensures
        r@ == spec_dotted_extension(raw_ext_view(raw)),
{
    match raw {
        Some(e) => {
            let mut out = String::new();
            push_char(&mut out, '.');
            let low = ascii_lowercase(e);
            out.append(low.as_str());
            proof {
                assert(out@ =~= seq!['.'] + ascii_lower(e@));
            }
            out
        },
        None => String::new(),
    }
}

/// Two records agree in every field, comparing the text fields by their
/// characters.
pub open spec fn same_file_info(a: FileInfo, b: FileInfo) -> bool {
    &&& a.path@ == b.path@
    &&& a.name@ == b.name@
    &&& a.extension@ == b.extension@
    &&& a.size == b.size
    &&& a.size_formatted@ == b.size_formatted@
    &&& a.created_at@ == b.created_at@
    &&& a.modified_at@ == b.modified_at@
    &&& a.is_directory == b.is_directory
    &&& a.is_hidden == b.is_hidden
    &&& a.category == b.category
}

/// The positions are pairwise distinct and all lie below `n`: the shape of
/// a selection that repeats nothing.
pub open spec fn distinct_within(idxs: Seq<int>, n: int) -> bool {
    &&& forall|k: int| 0 <= k < idxs.len() ==> 0 <= #[trigger] idxs[k] < n
    &&& forall|k1: int, k2: int| 0 <= k1 < k2 < idxs.len() ==> idxs[k1] != idxs[k2]
}

/// Two record lists agree pointwise.
pub open spec fn same_file_seq(a: Seq<FileInfo>, b: Seq<FileInfo>) -> bool {
    a.len() == b.len() && forall|i: int| 0 <= i < a.len() ==> same_file_info(#[trigger] a[i], b[i])
}

/// An equal copy of a record, field by field.
pub fn clone_file_info(f: &FileInfo) -> (r: FileInfo)
    ensures
        same_file_info(r, *f),
{
    FileInfo {
        path: f.path.clone(),
        name: f.name.clone(),
        extension: f.extension.clone(),
        size: f.size,
        size_formatted: f.size_formatted.clone(),
        created_at: f.created_at.clone(),
        modified_at: f.modified_at.clone(),
        is_directory: f.is_directory,
        is_hidden: f.is_hidden,
        category: f.category,
    }
}

/// An equal copy of a whole list of records.
pub fn clone_file_infos(v: &Vec<FileInfo>) -> (r: Vec<FileInfo>)
    ensures
        same_file_seq(r@, v@),
{
    let mut out: Vec<FileInfo> = Vec::new();
    let n = v.len();
    let mut i: usize = 0;
    while i < n
        invariant
            i <= n,
            n == v@.len(),
            out@.len() == i,
            forall|j: int| 0 <= j < i ==> same_file_info(#[trigger] out@[j], v@[j]),
        decreases n - i,
    {
        out.push(clone_file_info(&v[i]));
        i = i + 1;
    }
    out
}

/// Whether a file name marks the entry hidden by convention: it starts with
/// a dot.
pub fn name_is_hidden(name: &str) -> (r: bool)
    ensures
        r == (name@.len() > 0 && name@[0] == '.'),
{
    if name.unicode_len() == 0 {
        return false;
    }
    name.get_char(0) == '.'
}

/// Builds the record of one entry from raw values: the extension is
/// normalized, the category and the rendered size are derived, everything
/// else is stored as given.
pub fn build_file_info(
    path: String,
    name: String,
    raw_extension: Option<&str>,
    size: u64,
    created_at: String,
    modified_at: String,
    is_directory: bool,
    is_hidden: bool,
) -> (r: FileInfo)
    ensures
        r.path == path,
        r.name == name,
        r.extension@ == spec_dotted_extension(raw_ext_view(raw_extension)),
        r.size == size,
        r.created_at == created_at,
        r.modified_at == modified_at,
        r.is_directory == is_directory,
        r.is_hidden == is_hidden,
        r.wf(),
{
    let extension = dotted_extension(raw_extension);
    let category = classify_extension(extension.as_str());
    let size_formatted = format_size(size);
    FileInfo {
        path,
        name,
        extension,
        size,
        size_formatted,
        created_at,
        modified_at,
        is_directory,
        is_hidden,
        category,
    }
}

} // verus!
