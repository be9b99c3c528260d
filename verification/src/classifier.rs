//! Maps a file extension (with its leading dot) to a category. The lookup is
//! total and case-insensitive in the ASCII range; anything unrecognized,
//! including the empty string, falls into `Others`.

use vstd::prelude::*;
use crate::text::{ascii_lower, ascii_lowercase, lemma_lower_idempotent, str_eq};

verus! {

/// The closed set of categories a file can belong to.
#[derive(Debug, Clone, Copy, PartialEq, Eq, Structural, Hash)]
pub enum FileCategory {
    Images,
    Documents,
    Videos,
    Music,
    Archives,
    Installers,
    Code,
    Others,
}

impl Default for FileCategory {
    /// An unclassified file belongs to `Others`.
    fn default() -> (r: Self)
        ensures
            r == FileCategory::Others,
    {
        FileCategory::Others
    }
}

/// `s` is one of the recognized image extensions, lowercased.
pub open spec fn is_image_ext(s: Seq<char>) -> bool {
    ||| s == ".jpg"@
    ||| s == ".jpeg"@
    ||| s == ".png"@
    ||| s == ".gif"@
    ||| s == ".bmp"@
    ||| s == ".svg"@
    ||| s == ".webp"@
    ||| s == ".ico"@
    ||| s == ".psd"@
    ||| s == ".ai"@
    ||| s == ".tiff"@
    ||| s == ".raw"@
    ||| s == ".heic"@
}

/// `s` is one of the recognized document extensions, lowercased.
pub open spec fn is_document_ext(s: Seq<char>) -> bool {
    ||| s == ".pdf"@
    ||| s == ".doc"@
    ||| s == ".docx"@
    ||| s == ".xls"@
    ||| s == ".xlsx"@
    ||| s == ".ppt"@
    ||| s == ".pptx"@
    ||| s == ".hwp"@
    ||| s == ".txt"@
    ||| s == ".rtf"@
    ||| s == ".odt"@
    ||| s == ".ods"@
    ||| s == ".odp"@
    ||| s == ".pages"@
    ||| s == ".numbers"@
    ||| s == ".key"@
    ||| s == ".epub"@
}

/// `s` is one of the recognized video extensions, lowercased.
pub open spec fn is_video_ext(s: Seq<char>) -> bool {
    ||| s == ".mp4"@
    ||| s == ".avi"@
    ||| s == ".mkv"@
    ||| s == ".mov"@
    ||| s == ".wmv"@
    ||| s == ".flv"@
    ||| s == ".webm"@
    ||| s == ".m4v"@
    ||| s == ".mpeg"@
    ||| s == ".mpg"@
    ||| s == ".3gp"@
}

/// `s` is one of the recognized music extensions, lowercased.
pub open spec fn is_music_ext(s: Seq<char>) -> bool {
    ||| s == ".mp3"@
    ||| s == ".wav"@
    ||| s == ".flac"@
    ||| s == ".aac"@
    ||| s == ".m4a"@
    ||| s == ".wma"@
    ||| s == ".ogg"@
    ||| s == ".opus"@
    ||| s == ".aiff"@
    ||| s == ".alac"@
}

/// `s` is one of the recognized archive extensions, lowercased.
pub open spec fn is_archive_ext(s: Seq<char>) -> bool {
    ||| s == ".zip"@
    ||| s == ".rar"@
    ||| s == ".7z"@
    ||| s == ".tar"@
    ||| s == ".gz"@
    ||| s == ".bz2"@
    ||| s == ".xz"@
    ||| s == ".lz"@
    ||| s == ".lzma"@
    ||| s == ".cab"@
    ||| s == ".iso"@
}

/// `s` is one of the recognized installer extensions, lowercased.
pub open spec fn is_installer_ext(s: Seq<char>) -> bool {
    ||| s == ".exe"@
    ||| s == ".msi"@
    ||| s == ".dmg"@
    ||| s == ".pkg"@
    ||| s == ".deb"@
    ||| s == ".rpm"@
    ||| s == ".app"@
    ||| s == ".apk"@
    ||| s == ".appx"@
}

/// `s` is one of the recognized code extensions, lowercased.
pub open spec fn is_code_ext(s: Seq<char>) -> bool {
    ||| s == ".py"@
    ||| s == ".js"@
    ||| s == ".ts"@
    ||| s == ".tsx"@
    ||| s == ".jsx"@
    ||| s == ".html"@
    ||| s == ".css"@
    ||| s == ".scss"@
    ||| s == ".sass"@
    ||| s == ".less"@
    ||| s == ".java"@
    ||| s == ".cpp"@
    ||| s == ".c"@
    ||| s == ".h"@
    ||| s == ".hpp"@
    ||| s == ".cs"@
    ||| s == ".rs"@
    ||| s == ".go"@
    ||| s == ".rb"@
    ||| s == ".php"@
    ||| s == ".swift"@
    ||| s == ".kt"@
    ||| s == ".scala"@
    ||| s == ".json"@
    ||| s == ".xml"@
    ||| s == ".yaml"@
    ||| s == ".yml"@
    ||| s == ".toml"@
    ||| s == ".md"@
    ||| s == ".sh"@
    ||| s == ".bash"@
    ||| s == ".zsh"@
    ||| s == ".ps1"@
    ||| s == ".sql"@
    ||| s == ".r"@
    ||| s == ".m"@
    ||| s == ".lua"@
    ||| s == ".pl"@
    ||| s == ".vim"@
    ||| s == ".vue"@
    ||| s == ".svelte"@
}

/// Category of an already-lowercased extension.
pub open spec fn spec_classify_lower(s: Seq<char>) -> FileCategory {
    if is_image_ext(s) {
        FileCategory::Images
    } else if is_document_ext(s) {
        FileCategory::Documents
    } else if is_video_ext(s) {
        FileCategory::Videos
    } else if is_music_ext(s) {
        FileCategory::Music
    } else if is_archive_ext(s) {
        FileCategory::Archives
    } else if is_installer_ext(s) {
        FileCategory::Installers
    } else if is_code_ext(s) {
        FileCategory::Code
    } else {
        FileCategory::Others
    }
}

/// Category of an extension as written, folding ASCII case first.
pub open spec fn spec_classify(s: Seq<char>) -> FileCategory {
    spec_classify_lower(ascii_lower(s))
}

/// Classification does not depend on ASCII case: an extension and its
/// lowercased form always land in the same category.
pub proof fn lemma_classify_case_insensitive(s: Seq<char>)
    ensures
        spec_classify(ascii_lower(s)) == spec_classify(s),
{
    lemma_lower_idempotent(s);
}

/// Category tag for a file extension. Total and pure: unknown or empty
/// extensions yield `Others`, and ASCII case is ignored.
pub fn classify_extension(extension: &str) -> (r: FileCategory)
    ensures
        r == spec_classify(extension@),
{
    let lowered = ascii_lowercase(extension);
    let low: &str = lowered.as_str();
    if str_eq(low, ".jpg") || str_eq(low, ".jpeg") || str_eq(low, ".png") || str_eq(low, ".gif")
        || str_eq(low, ".bmp") || str_eq(low, ".svg") || str_eq(low, ".webp")
        || str_eq(low, ".ico") || str_eq(low, ".psd") || str_eq(low, ".ai")
        || str_eq(low, ".tiff") || str_eq(low, ".raw") || str_eq(low, ".heic") {
        FileCategory::Images
    } else if str_eq(low, ".pdf") || str_eq(low, ".doc") || str_eq(low, ".docx")
        || str_eq(low, ".xls") || str_eq(low, ".xlsx") || str_eq(low, ".ppt")
        || str_eq(low, ".pptx") || str_eq(low, ".hwp") || str_eq(low, ".txt")
        || str_eq(low, ".rtf") || str_eq(low, ".odt") || str_eq(low, ".ods")
        || str_eq(low, ".odp") || str_eq(low, ".pages") || str_eq(low, ".numbers")
        || str_eq(low, ".key") || str_eq(low, ".epub") {
        FileCategory::Documents
    } else if str_eq(low, ".mp4") || str_eq(low, ".avi") || str_eq(low, ".mkv")
        || str_eq(low, ".mov") || str_eq(low, ".wmv") || str_eq(low, ".flv")
        || str_eq(low, ".webm") || str_eq(low, ".m4v") || str_eq(low, ".mpeg")
        || str_eq(low, ".mpg") || str_eq(low, ".3gp") {
        FileCategory::Videos
    } else if str_eq(low, ".mp3") || str_eq(low, ".wav") || str_eq(low, ".flac")
        || str_eq(low, ".aac") || str_eq(low, ".m4a") || str_eq(low, ".wma")
        || str_eq(low, ".ogg") || str_eq(low, ".opus") || str_eq(low, ".aiff")
        || str_eq(low, ".alac") {
        FileCategory::Music
    } else if str_eq(low, ".zip") || str_eq(low, ".rar") || str_eq(low, ".7z")
        || str_eq(low, ".tar") || str_eq(low, ".gz") || str_eq(low, ".bz2")
        || str_eq(low, ".xz") || str_eq(low, ".lz") || str_eq(low, ".lzma")
        || str_eq(low, ".cab") || str_eq(low, ".iso") {
        FileCategory::Archives
    } else if str_eq(low, ".exe") || str_eq(low, ".msi") || str_eq(low, ".dmg")
        || str_eq(low, ".pkg") || str_eq(low, ".deb") || str_eq(low, ".rpm")
        || str_eq(low, ".app") || str_eq(low, ".apk") || str_eq(low, ".appx") {
        FileCategory::Installers
    } else if str_eq(low, ".py") || str_eq(low, ".js") || str_eq(low, ".ts")
        || str_eq(low, ".tsx") || str_eq(low, ".jsx") || str_eq(low, ".html")
        || str_eq(low, ".css") || str_eq(low, ".scss") || str_eq(low, ".sass")
        || str_eq(low, ".less") || str_eq(low, ".java") || str_eq(low, ".cpp")
        || str_eq(low, ".c") || str_eq(low, ".h") || str_eq(low, ".hpp") || str_eq(low, ".cs")
        || str_eq(low, ".rs") || str_eq(low, ".go") || str_eq(low, ".rb") || str_eq(low, ".php")
        || str_eq(low, ".swift") || str_eq(low, ".kt") || str_eq(low, ".scala")
        || str_eq(low, ".json") || str_eq(low, ".xml") || str_eq(low, ".yaml")
        || str_eq(low, ".yml") || str_eq(low, ".toml") || str_eq(low, ".md")
        || str_eq(low, ".sh") || str_eq(low, ".bash") || str_eq(low, ".zsh")
        || str_eq(low, ".ps1") || str_eq(low, ".sql") || str_eq(low, ".r") || str_eq(low, ".m")
        || str_eq(low, ".lua") || str_eq(low, ".pl") || str_eq(low, ".vim")
        || str_eq(low, ".vue") || str_eq(low, ".svelte") {
        FileCategory::Code
    } else {
        FileCategory::Others
    }
}

/// Folder name of an already-lowercased extension's category.
pub open spec fn spec_category_folder(c: FileCategory) -> Seq<char> {
    match c {
        FileCategory::Images => "Images"@,
        FileCategory::Documents => "Documents"@,
        FileCategory::Videos => "Videos"@,
        FileCategory::Music => "Music"@,
        FileCategory::Archives => "Archives"@,
        FileCategory::Installers => "Installers"@,
        FileCategory::Code => "Code"@,
        FileCategory::Others => "Others"@,
    }
}

/// Destination folder name for a category; one entry per category.
pub fn get_category_folder(category: &FileCategory) -> (r: &'static str)
    ensures
        r@ == spec_category_folder(*category),
{
    match category {
        FileCategory::Images => "Images",
        FileCategory::Documents => "Documents",
        FileCategory::Videos => "Videos",
        FileCategory::Music => "Music",
        FileCategory::Archives => "Archives",
        FileCategory::Installers => "Installers",
        FileCategory::Code => "Code",
        FileCategory::Others => "Others",
    }
}

/// Localized display name of a category.
pub open spec fn spec_category_korean_name(c: FileCategory) -> Seq<char> {
    match c {
        FileCategory::Images => "이미지"@,
        FileCategory::Documents => "문서"@,
        FileCategory::Videos => "동영상"@,
        FileCategory::Music => "음악"@,
        FileCategory::Archives => "압축파일"@,
        FileCategory::Installers => "설치파일"@,
        FileCategory::Code => "코드"@,
        FileCategory::Others => "기타"@,
    }
}

/// Localized label for a category; one entry per category.
pub fn get_category_korean_name(category: &FileCategory) -> (r: &'static str)
    ensures
        r@ == spec_category_korean_name(*category),
{
    match category {
        FileCategory::Images => "이미지",
        FileCategory::Documents => "문서",
        FileCategory::Videos => "동영상",
        FileCategory::Music => "음악",
        FileCategory::Archives => "압축파일",
        FileCategory::Installers => "설치파일",
        FileCategory::Code => "코드",
        FileCategory::Others => "기타",
    }
}

/// Lowercase key under which a category is stored and matched against
/// per-category default rules.
pub open spec fn spec_category_key(c: FileCategory) -> Seq<char> {
    match c {
        FileCategory::Images => "images"@,
        FileCategory::Documents => "documents"@,
        FileCategory::Videos => "videos"@,
        FileCategory::Music => "music"@,
        FileCategory::Archives => "archives"@,
        FileCategory::Installers => "installers"@,
        FileCategory::Code => "code"@,
        FileCategory::Others => "others"@,
    }
}

/// Different categories are stored under different keys.
pub proof fn lemma_category_keys_distinct(c1: FileCategory, c2: FileCategory)
    requires
        c1 != c2,
    ensures
        spec_category_key(c1) != spec_category_key(c2),
{
    reveal_strlit("images");
    reveal_strlit("documents");
    reveal_strlit("videos");
    reveal_strlit("music");
    reveal_strlit("archives");
    reveal_strlit("installers");
    reveal_strlit("code");
    reveal_strlit("others");
    assert("images"@.len() == 6 && "documents"@.len() == 9 && "videos"@.len() == 6
        && "music"@.len() == 5 && "archives"@.len() == 8 && "installers"@.len() == 10
        && "code"@.len() == 4 && "others"@.len() == 6);
    assert("images"@[0] == 'i' && "videos"@[0] == 'v' && "others"@[0] == 'o');
}

/// Storage key for a category; one entry per category.
pub fn category_key(category: &FileCategory) -> (r: &'static str)
    ensures
        r@ == spec_category_key(*category),
{
    match category {
        FileCategory::Images => "images",
        FileCategory::Documents => "documents",
        FileCategory::Videos => "videos",
        FileCategory::Music => "music",
        FileCategory::Archives => "archives",
        FileCategory::Installers => "installers",
        FileCategory::Code => "code",
        FileCategory::Others => "others",
    }
}

} // verus!
