//! What the listing shows about a file: its kind, the key its icon is
//! cached under, and the names offered for a new file or folder.

use vstd::prelude::*;
use crate::text::{same_text, append_text, lowercase, uppercase, to_lowercase, to_uppercase};
use crate::path::{extension, path_extension, join, join_path};

verus! {

fn text(s: &str) -> (r: String)
    ensures
        r@ == s@,
{
    s.to_owned()
}

/// The uppercased extension followed by `suffix`.
fn suffixed(e: &str, suffix: &str) -> (r: String)
    ensures
        r@ == uppercase(e@) + suffix@,
{
    let u = to_uppercase(e);
    append_text(u.as_str(), suffix)
}

/// Extensions of the `excel` kind.
pub open spec fn is_excel_ext(e: Seq<char>) -> bool {
    e == "xlsx"@ || e == "xls"@ || e == "xlsm"@ || e == "xlsb"@
}

/// Extensions of the `word` kind.
pub open spec fn is_word_ext(e: Seq<char>) -> bool {
    e == "docx"@ || e == "doc"@
}

/// Extensions of the `powerpoint` kind.
pub open spec fn is_powerpoint_ext(e: Seq<char>) -> bool {
    e == "pptx"@ || e == "ppt"@
}

/// Extensions of the `pdf` kind.
pub open spec fn is_pdf_ext(e: Seq<char>) -> bool {
    e == "pdf"@
}

/// Extensions of the `text_doc` kind.
pub open spec fn is_text_doc_ext(e: Seq<char>) -> bool {
    e == "txt"@ || e == "md"@ || e == "rtf"@ || e == "log"@
}

/// Extensions of the `table` kind.
pub open spec fn is_table_ext(e: Seq<char>) -> bool {
    e == "csv"@ || e == "tsv"@
}

/// Extensions of the `dwg` kind.
pub open spec fn is_dwg_ext(e: Seq<char>) -> bool {
    e == "dwg"@
}

/// Extensions of the `dxf` kind.
pub open spec fn is_dxf_ext(e: Seq<char>) -> bool {
    e == "dxf"@
}

/// Extensions of the `jpeg` kind.
pub open spec fn is_jpeg_ext(e: Seq<char>) -> bool {
    e == "jpg"@ || e == "jpeg"@
}

/// Extensions of the `image` kind.
pub open spec fn is_image_ext(e: Seq<char>) -> bool {
    e == "png"@ || e == "gif"@ || e == "bmp"@ || e == "tiff"@ || e == "heic"@ || e == "webp"@ || e == "svg"@
}

/// Extensions of the `video` kind.
pub open spec fn is_video_ext(e: Seq<char>) -> bool {
    e == "mp4"@ || e == "mov"@ || e == "avi"@ || e == "mkv"@ || e == "webm"@ || e == "m4v"@
}

/// Extensions of the `audio` kind.
pub open spec fn is_audio_ext(e: Seq<char>) -> bool {
    e == "mp3"@ || e == "wav"@ || e == "flac"@ || e == "aac"@ || e == "m4a"@ || e == "ogg"@
}

/// Extensions of the `archive` kind.
pub open spec fn is_archive_ext(e: Seq<char>) -> bool {
    e == "zip"@ || e == "tar"@ || e == "gz"@ || e == "7z"@ || e == "rar"@ || e == "bz2"@ || e == "xz"@ || e == "dmg"@
}

/// Extensions of the `source` kind.
pub open spec fn is_source_ext(e: Seq<char>) -> bool {
    e == "rs"@ || e == "py"@ || e == "js"@ || e == "ts"@ || e == "tsx"@ || e == "jsx"@ || e == "c"@ || e == "cpp"@ || e == "h"@ || e == "hpp"@ || e == "go"@ || e == "java"@ || e == "rb"@ || e == "swift"@ || e == "zig"@ || e == "sh"@ || e == "json"@ || e == "toml"@ || e == "yaml"@ || e == "yml"@ || e == "html"@ || e == "css"@
}

/// Extensions of the `app` kind.
pub open spec fn is_app_ext(e: Seq<char>) -> bool {
    e == "app"@
}

/// The kind shown for a (lowercased) extension.
pub open spec fn ext_kind(e: Seq<char>) -> Seq<char> {
    if is_excel_ext(e) {
        "Microsoft Excel"@
    } else if is_word_ext(e) {
        "Microsoft Word"@
    } else if is_powerpoint_ext(e) {
        "Microsoft PowerPoint"@
    } else if is_pdf_ext(e) {
        "PDF Document"@
    } else if is_text_doc_ext(e) {
        "Text Document"@
    } else if is_table_ext(e) {
        "CSV File"@
    } else if is_dwg_ext(e) {
        "DWG File"@
    } else if is_dxf_ext(e) {
        "DXF File"@
    } else if is_jpeg_ext(e) {
        "JPEG Image"@
    } else if is_image_ext(e) {
        uppercase(e) + " Image"@
    } else if is_video_ext(e) {
        uppercase(e) + " Video"@
    } else if is_audio_ext(e) {
        uppercase(e) + " Audio"@
    } else if is_archive_ext(e) {
        uppercase(e) + " Archive"@
    } else if is_source_ext(e) {
        "Source Code"@
    } else if is_app_ext(e) {
        "Application"@
    } else {
        uppercase(e) + " File"@
    }
}

fn excel_ext(e: &str) -> (r: bool)
    ensures
        r == is_excel_ext(e@),
{
    same_text(e, "xlsx") || same_text(e, "xls") || same_text(e, "xlsm") || same_text(e, "xlsb")
}

fn word_ext(e: &str) -> (r: bool)
    ensures
        r == is_word_ext(e@),
{
    same_text(e, "docx") || same_text(e, "doc")
}

fn powerpoint_ext(e: &str) -> (r: bool)
    ensures
        r == is_powerpoint_ext(e@),
{
    same_text(e, "pptx") || same_text(e, "ppt")
}

fn pdf_ext(e: &str) -> (r: bool)
    ensures
        r == is_pdf_ext(e@),
{
    same_text(e, "pdf")
}

fn text_doc_ext(e: &str) -> (r: bool)
    ensures
        r == is_text_doc_ext(e@),
{
    same_text(e, "txt") || same_text(e, "md") || same_text(e, "rtf") || same_text(e, "log")
}

fn table_ext(e: &str) -> (r: bool)
    ensures
        r == is_table_ext(e@),
{
    same_text(e, "csv") || same_text(e, "tsv")
}

fn dwg_ext(e: &str) -> (r: bool)
    ensures
        r == is_dwg_ext(e@),
{
    same_text(e, "dwg")
}

fn dxf_ext(e: &str) -> (r: bool)
    ensures
        r == is_dxf_ext(e@),
{
    same_text(e, "dxf")
}

fn jpeg_ext(e: &str) -> (r: bool)
    ensures
        r == is_jpeg_ext(e@),
{
    same_text(e, "jpg") || same_text(e, "jpeg")
}

fn image_ext(e: &str) -> (r: bool)
    ensures
        r == is_image_ext(e@),
{
    same_text(e, "png") || same_text(e, "gif") || same_text(e, "bmp") || same_text(e, "tiff") || same_text(e, "heic") || same_text(e, "webp") || same_text(e, "svg")
}

fn video_ext(e: &str) -> (r: bool)
    ensures
        r == is_video_ext(e@),
{
    same_text(e, "mp4") || same_text(e, "mov") || same_text(e, "avi") || same_text(e, "mkv") || same_text(e, "webm") || same_text(e, "m4v")
}

fn audio_ext(e: &str) -> (r: bool)
    ensures
        r == is_audio_ext(e@),
{
    same_text(e, "mp3") || same_text(e, "wav") || same_text(e, "flac") || same_text(e, "aac") || same_text(e, "m4a") || same_text(e, "ogg")
}

fn archive_ext(e: &str) -> (r: bool)
    ensures
        r == is_archive_ext(e@),
{
    same_text(e, "zip") || same_text(e, "tar") || same_text(e, "gz") || same_text(e, "7z") || same_text(e, "rar") || same_text(e, "bz2") || same_text(e, "xz") || same_text(e, "dmg")
}

fn source_ext(e: &str) -> (r: bool)
    ensures
        r == is_source_ext(e@),
{
    same_text(e, "rs") || same_text(e, "py") || same_text(e, "js") || same_text(e, "ts") || same_text(e, "tsx") || same_text(e, "jsx") || same_text(e, "c") || same_text(e, "cpp") || same_text(e, "h") || same_text(e, "hpp") || same_text(e, "go") || same_text(e, "java") || same_text(e, "rb") || same_text(e, "swift") || same_text(e, "zig") || same_text(e, "sh") || same_text(e, "json") || same_text(e, "toml") || same_text(e, "yaml") || same_text(e, "yml") || same_text(e, "html") || same_text(e, "css")
}

fn app_ext(e: &str) -> (r: bool)
    ensures
        r == is_app_ext(e@),
{
    same_text(e, "app")
}

fn kind_of_ext(e: &str) -> (r: String)
    ensures
        r@ == ext_kind(e@),
{
    if excel_ext(e) {
        text("Microsoft Excel")
    } else if word_ext(e) {
        text("Microsoft Word")
    } else if powerpoint_ext(e) {
        text("Microsoft PowerPoint")
    } else if pdf_ext(e) {
        text("PDF Document")
    } else if text_doc_ext(e) {
        text("Text Document")
    } else if table_ext(e) {
        text("CSV File")
    } else if dwg_ext(e) {
        text("DWG File")
    } else if dxf_ext(e) {
        text("DXF File")
    } else if jpeg_ext(e) {
        text("JPEG Image")
    } else if image_ext(e) {
        suffixed(e, " Image")
    } else if video_ext(e) {
        suffixed(e, " Video")
    } else if audio_ext(e) {
        suffixed(e, " Audio")
    } else if archive_ext(e) {
        suffixed(e, " Archive")
    } else if source_ext(e) {
        text("Source Code")
    } else if app_ext(e) {
        text("Application")
    } else {
        suffixed(e, " File")
    }
}

/// The kind of an entry named `name`: directories are "Directory"; files
/// go by their lowercased extension, "Document" when they have none.
pub open spec fn kind_of(name: Seq<char>, is_dir: bool) -> Seq<char> {
    if is_dir {
        "Directory"@
    } else {
        match extension(name) {
            Some(e) => ext_kind(lowercase(e)),
            None => "Document"@,
        }
    }
}

/// `x` is one of the extensions the listing names a kind for.
pub open spec fn named_extension(x: Seq<char>) -> bool {
    x == "xlsx"@ || x == "xls"@ || x == "xlsm"@ || x == "xlsb"@ || x == "docx"@ || x == "doc"@ || x == "pptx"@ || x == "ppt"@ || x == "pdf"@ || x == "txt"@ || x == "md"@ || x == "rtf"@ || x == "log"@ || x == "csv"@ || x == "tsv"@ || x == "dwg"@ || x == "dxf"@ || x == "jpg"@ || x == "jpeg"@ || x == "png"@ || x == "gif"@ || x == "bmp"@ || x == "tiff"@ || x == "heic"@ || x == "webp"@ || x == "svg"@ || x == "mp4"@ || x == "mov"@ || x == "avi"@ || x == "mkv"@ || x == "webm"@ || x == "m4v"@ || x == "mp3"@ || x == "wav"@ || x == "flac"@ || x == "aac"@ || x == "m4a"@ || x == "ogg"@ || x == "zip"@ || x == "tar"@ || x == "gz"@ || x == "7z"@ || x == "rar"@ || x == "bz2"@ || x == "xz"@ || x == "dmg"@ || x == "rs"@ || x == "py"@ || x == "js"@ || x == "ts"@ || x == "tsx"@ || x == "jsx"@ || x == "c"@ || x == "cpp"@ || x == "h"@ || x == "hpp"@ || x == "go"@ || x == "java"@ || x == "rb"@ || x == "swift"@ || x == "zig"@ || x == "sh"@ || x == "json"@ || x == "toml"@ || x == "yaml"@ || x == "yml"@ || x == "html"@ || x == "css"@ || x == "app"@
}

/// The kinds the listing shows, extension by extension (compared
/// lowercased): Office documents by their application, PDF, text, CSV and
/// drawing files by fixed names, images, video, audio and archives by their
/// uppercased format, source files as "Source Code", `.app` bundles as
/// "Application", any other extension as its uppercased form with " File";
/// a file without extension is a "Document" and a directory a "Directory".
pub proof fn law_kind_labels(name: Seq<char>)
    ensures
        kind_of(name, true) == "Directory"@,
        extension(name) is None ==> kind_of(name, false) == "Document"@,
        extension(name) matches Some(e) ==> {
            let x = lowercase(e);
            let k = kind_of(name, false);
            &&& (x == "xlsx"@ || x == "xls"@ || x == "xlsm"@ || x == "xlsb"@) ==> k == "Microsoft Excel"@
            &&& (x == "docx"@ || x == "doc"@) ==> k == "Microsoft Word"@
            &&& (x == "pptx"@ || x == "ppt"@) ==> k == "Microsoft PowerPoint"@
            &&& (x == "pdf"@) ==> k == "PDF Document"@
            &&& (x == "txt"@ || x == "md"@ || x == "rtf"@ || x == "log"@) ==> k == "Text Document"@
            &&& (x == "csv"@ || x == "tsv"@) ==> k == "CSV File"@
            &&& (x == "dwg"@) ==> k == "DWG File"@
            &&& (x == "dxf"@) ==> k == "DXF File"@
            &&& (x == "jpg"@ || x == "jpeg"@) ==> k == "JPEG Image"@
            &&& (x == "png"@ || x == "gif"@ || x == "bmp"@ || x == "tiff"@ || x == "heic"@ || x == "webp"@ || x == "svg"@) ==> k == uppercase(x) + " Image"@
            &&& (x == "mp4"@ || x == "mov"@ || x == "avi"@ || x == "mkv"@ || x == "webm"@ || x == "m4v"@) ==> k == uppercase(x) + " Video"@
            &&& (x == "mp3"@ || x == "wav"@ || x == "flac"@ || x == "aac"@ || x == "m4a"@ || x == "ogg"@) ==> k == uppercase(x) + " Audio"@
            &&& (x == "zip"@ || x == "tar"@ || x == "gz"@ || x == "7z"@ || x == "rar"@ || x == "bz2"@ || x == "xz"@ || x == "dmg"@) ==> k == uppercase(x) + " Archive"@
            &&& (x == "rs"@ || x == "py"@ || x == "js"@ || x == "ts"@ || x == "tsx"@ || x == "jsx"@ || x == "c"@ || x == "cpp"@ || x == "h"@ || x == "hpp"@ || x == "go"@ || x == "java"@ || x == "rb"@ || x == "swift"@ || x == "zig"@ || x == "sh"@ || x == "json"@ || x == "toml"@ || x == "yaml"@ || x == "yml"@ || x == "html"@ || x == "css"@) ==> k == "Source Code"@
            &&& (x == "app"@) ==> k == "Application"@
            &&& !named_extension(x) ==> k == uppercase(x) + " File"@
        },
{
    reveal_strlit(" Archive");
    reveal_strlit(" Audio");
    reveal_strlit(" File");
    reveal_strlit(" Image");
    reveal_strlit(" Video");
    reveal_strlit("7z");
    reveal_strlit("Application");
    reveal_strlit("CSV File");
    reveal_strlit("DWG File");
    reveal_strlit("DXF File");
    reveal_strlit("Directory");
    reveal_strlit("Document");
    reveal_strlit("JPEG Image");
    reveal_strlit("Microsoft Excel");
    reveal_strlit("Microsoft PowerPoint");
    reveal_strlit("Microsoft Word");
    reveal_strlit("PDF Document");
    reveal_strlit("Source Code");
    reveal_strlit("Text Document");
    reveal_strlit("aac");
    reveal_strlit("app");
    reveal_strlit("avi");
    reveal_strlit("bmp");
    reveal_strlit("bz2");
    reveal_strlit("c");
    reveal_strlit("cpp");
    reveal_strlit("css");
    reveal_strlit("csv");
    reveal_strlit("dmg");
    reveal_strlit("doc");
    reveal_strlit("docx");
    reveal_strlit("dwg");
    reveal_strlit("dxf");
    reveal_strlit("flac");
    reveal_strlit("gif");
    reveal_strlit("go");
    reveal_strlit("gz");
    reveal_strlit("h");
    reveal_strlit("heic");
    reveal_strlit("hpp");
    reveal_strlit("html");
    reveal_strlit("java");
    reveal_strlit("jpeg");
    reveal_strlit("jpg");
    reveal_strlit("js");
    reveal_strlit("json");
    reveal_strlit("jsx");
    reveal_strlit("log");
    reveal_strlit("m4a");
    reveal_strlit("m4v");
    reveal_strlit("md");
    reveal_strlit("mkv");
    reveal_strlit("mov");
    reveal_strlit("mp3");
    reveal_strlit("mp4");
    reveal_strlit("ogg");
    reveal_strlit("pdf");
    reveal_strlit("png");
    reveal_strlit("ppt");
    reveal_strlit("pptx");
    reveal_strlit("py");
    reveal_strlit("rar");
    reveal_strlit("rb");
    reveal_strlit("rs");
    reveal_strlit("rtf");
    reveal_strlit("sh");
    reveal_strlit("svg");
    reveal_strlit("swift");
    reveal_strlit("tar");
    reveal_strlit("tiff");
    reveal_strlit("toml");
    reveal_strlit("ts");
    reveal_strlit("tsv");
    reveal_strlit("tsx");
    reveal_strlit("txt");
    reveal_strlit("wav");
    reveal_strlit("webm");
    reveal_strlit("webp");
    reveal_strlit("xls");
    reveal_strlit("xlsb");
    reveal_strlit("xlsm");
    reveal_strlit("xlsx");
    reveal_strlit("xz");
    reveal_strlit("yaml");
    reveal_strlit("yml");
    reveal_strlit("zig");
    reveal_strlit("zip");
    assert("7z"@[0] == '7');
    assert("7z"@.len() == 2);
    assert("7z"@[1] == 'z');
    assert("aac"@[0] == 'a');
    assert("aac"@.len() == 3);
    assert("aac"@[1] == 'a');
    assert("aac"@[2] == 'c');
    assert("app"@[0] == 'a');
    assert("app"@.len() == 3);
    assert("app"@[1] == 'p');
    assert("app"@[2] == 'p');
    assert("avi"@[0] == 'a');
    assert("avi"@.len() == 3);
    assert("avi"@[1] == 'v');
    assert("avi"@[2] == 'i');
    assert("bmp"@[0] == 'b');
    assert("bmp"@.len() == 3);
    assert("bmp"@[1] == 'm');
    assert("bmp"@[2] == 'p');
    assert("bz2"@[0] == 'b');
    assert("bz2"@.len() == 3);
    assert("bz2"@[1] == 'z');
    assert("bz2"@[2] == '2');
    assert("c"@[0] == 'c');
    assert("c"@.len() == 1);
    assert("cpp"@[0] == 'c');
    assert("cpp"@.len() == 3);
    assert("cpp"@[1] == 'p');
    assert("cpp"@[2] == 'p');
    assert("css"@[0] == 'c');
    assert("css"@.len() == 3);
    assert("css"@[1] == 's');
    assert("css"@[2] == 's');
    assert("csv"@[0] == 'c');
    assert("csv"@.len() == 3);
    assert("csv"@[1] == 's');
    assert("csv"@[2] == 'v');
    assert("dmg"@[0] == 'd');
    assert("dmg"@.len() == 3);
    assert("dmg"@[1] == 'm');
    assert("dmg"@[2] == 'g');
    assert("doc"@[0] == 'd');
    assert("doc"@.len() == 3);
    assert("doc"@[1] == 'o');
    assert("doc"@[2] == 'c');
    assert("docx"@[0] == 'd');
    assert("docx"@.len() == 4);
    assert("docx"@[1] == 'o');
    assert("docx"@[2] == 'c');
    assert("docx"@[3] == 'x');
    assert("dwg"@[0] == 'd');
    assert("dwg"@.len() == 3);
    assert("dwg"@[1] == 'w');
    assert("dwg"@[2] == 'g');
    assert("dxf"@[0] == 'd');
    assert("dxf"@.len() == 3);
    assert("dxf"@[1] == 'x');
    assert("dxf"@[2] == 'f');
    assert("flac"@[0] == 'f');
    assert("flac"@.len() == 4);
    assert("flac"@[1] == 'l');
    assert("flac"@[2] == 'a');
    assert("flac"@[3] == 'c');
    assert("gif"@[0] == 'g');
    assert("gif"@.len() == 3);
    assert("gif"@[1] == 'i');
    assert("gif"@[2] == 'f');
    assert("go"@[0] == 'g');
    assert("go"@.len() == 2);
    assert("go"@[1] == 'o');
    assert("gz"@[0] == 'g');
    assert("gz"@.len() == 2);
    assert("gz"@[1] == 'z');
    assert("h"@[0] == 'h');
    assert("h"@.len() == 1);
    assert("heic"@[0] == 'h');
    assert("heic"@.len() == 4);
    assert("heic"@[1] == 'e');
    assert("heic"@[2] == 'i');
    assert("heic"@[3] == 'c');
    assert("hpp"@[0] == 'h');
    assert("hpp"@.len() == 3);
    assert("hpp"@[1] == 'p');
    assert("hpp"@[2] == 'p');
    assert("html"@[0] == 'h');
    assert("html"@.len() == 4);
    assert("html"@[1] == 't');
    assert("html"@[2] == 'm');
    assert("html"@[3] == 'l');
    assert("java"@[0] == 'j');
    assert("java"@.len() == 4);
    assert("java"@[1] == 'a');
    assert("java"@[2] == 'v');
    assert("java"@[3] == 'a');
    assert("jpeg"@[0] == 'j');
    assert("jpeg"@.len() == 4);
    assert("jpeg"@[1] == 'p');
    assert("jpeg"@[2] == 'e');
    assert("jpeg"@[3] == 'g');
    assert("jpg"@[0] == 'j');
    assert("jpg"@.len() == 3);
    assert("jpg"@[1] == 'p');
    assert("jpg"@[2] == 'g');
    assert("js"@[0] == 'j');
    assert("js"@.len() == 2);
    assert("js"@[1] == 's');
    assert("json"@[0] == 'j');
    assert("json"@.len() == 4);
    assert("json"@[1] == 's');
    assert("json"@[2] == 'o');
    assert("json"@[3] == 'n');
    assert("jsx"@[0] == 'j');
    assert("jsx"@.len() == 3);
    assert("jsx"@[1] == 's');
    assert("jsx"@[2] == 'x');
    assert("log"@[0] == 'l');
    assert("log"@.len() == 3);
    assert("log"@[1] == 'o');
    assert("log"@[2] == 'g');
    assert("m4a"@[0] == 'm');
    assert("m4a"@.len() == 3);
    assert("m4a"@[1] == '4');
    assert("m4a"@[2] == 'a');
    assert("m4v"@[0] == 'm');
    assert("m4v"@.len() == 3);
    assert("m4v"@[1] == '4');
    assert("m4v"@[2] == 'v');
    assert("md"@[0] == 'm');
    assert("md"@.len() == 2);
    assert("md"@[1] == 'd');
    assert("mkv"@[0] == 'm');
    assert("mkv"@.len() == 3);
    assert("mkv"@[1] == 'k');
    assert("mkv"@[2] == 'v');
    assert("mov"@[0] == 'm');
    assert("mov"@.len() == 3);
    assert("mov"@[1] == 'o');
    assert("mov"@[2] == 'v');
    assert("mp3"@[0] == 'm');
    assert("mp3"@.len() == 3);
    assert("mp3"@[1] == 'p');
    assert("mp3"@[2] == '3');
    assert("mp4"@[0] == 'm');
    assert("mp4"@.len() == 3);
    assert("mp4"@[1] == 'p');
    assert("mp4"@[2] == '4');
    assert("ogg"@[0] == 'o');
    assert("ogg"@.len() == 3);
    assert("ogg"@[1] == 'g');
    assert("ogg"@[2] == 'g');
    assert("pdf"@[0] == 'p');
    assert("pdf"@.len() == 3);
    assert("pdf"@[1] == 'd');
    assert("pdf"@[2] == 'f');
    assert("png"@[0] == 'p');
    assert("png"@.len() == 3);
    assert("png"@[1] == 'n');
    assert("png"@[2] == 'g');
    assert("ppt"@[0] == 'p');
    assert("ppt"@.len() == 3);
    assert("ppt"@[1] == 'p');
    assert("ppt"@[2] == 't');
    assert("pptx"@[0] == 'p');
    assert("pptx"@.len() == 4);
    assert("pptx"@[1] == 'p');
    assert("pptx"@[2] == 't');
    assert("pptx"@[3] == 'x');
    assert("py"@[0] == 'p');
    assert("py"@.len() == 2);
    assert("py"@[1] == 'y');
    assert("rar"@[0] == 'r');
    assert("rar"@.len() == 3);
    assert("rar"@[1] == 'a');
    assert("rar"@[2] == 'r');
    assert("rb"@[0] == 'r');
    assert("rb"@.len() == 2);
    assert("rb"@[1] == 'b');
    assert("rs"@[0] == 'r');
    assert("rs"@.len() == 2);
    assert("rs"@[1] == 's');
    assert("rtf"@[0] == 'r');
    assert("rtf"@.len() == 3);
    assert("rtf"@[1] == 't');
    assert("rtf"@[2] == 'f');
    assert("sh"@[0] == 's');
    assert("sh"@.len() == 2);
    assert("sh"@[1] == 'h');
    assert("svg"@[0] == 's');
    assert("svg"@.len() == 3);
    assert("svg"@[1] == 'v');
    assert("svg"@[2] == 'g');
    assert("swift"@[0] == 's');
    assert("swift"@.len() == 5);
    assert("swift"@[1] == 'w');
    assert("swift"@[2] == 'i');
    assert("swift"@[3] == 'f');
    assert("swift"@[4] == 't');
    assert("tar"@[0] == 't');
    assert("tar"@.len() == 3);
    assert("tar"@[1] == 'a');
    assert("tar"@[2] == 'r');
    assert("tiff"@[0] == 't');
    assert("tiff"@.len() == 4);
    assert("tiff"@[1] == 'i');
    assert("tiff"@[2] == 'f');
    assert("tiff"@[3] == 'f');
    assert("toml"@[0] == 't');
    assert("toml"@.len() == 4);
    assert("toml"@[1] == 'o');
    assert("toml"@[2] == 'm');
    assert("toml"@[3] == 'l');
    assert("ts"@[0] == 't');
    assert("ts"@.len() == 2);
    assert("ts"@[1] == 's');
    assert("tsv"@[0] == 't');
    assert("tsv"@.len() == 3);
    assert("tsv"@[1] == 's');
    assert("tsv"@[2] == 'v');
    assert("tsx"@[0] == 't');
    assert("tsx"@.len() == 3);
    assert("tsx"@[1] == 's');
    assert("tsx"@[2] == 'x');
    assert("txt"@[0] == 't');
    assert("txt"@.len() == 3);
    assert("txt"@[1] == 'x');
    assert("txt"@[2] == 't');
    assert("wav"@[0] == 'w');
    assert("wav"@.len() == 3);
    assert("wav"@[1] == 'a');
    assert("wav"@[2] == 'v');
    assert("webm"@[0] == 'w');
    assert("webm"@.len() == 4);
    assert("webm"@[1] == 'e');
    assert("webm"@[2] == 'b');
    assert("webm"@[3] == 'm');
    assert("webp"@[0] == 'w');
    assert("webp"@.len() == 4);
    assert("webp"@[1] == 'e');
    assert("webp"@[2] == 'b');
    assert("webp"@[3] == 'p');
    assert("xls"@[0] == 'x');
    assert("xls"@.len() == 3);
    assert("xls"@[1] == 'l');
    assert("xls"@[2] == 's');
    assert("xlsb"@[0] == 'x');
    assert("xlsb"@.len() == 4);
    assert("xlsb"@[1] == 'l');
    assert("xlsb"@[2] == 's');
    assert("xlsb"@[3] == 'b');
    assert("xlsm"@[0] == 'x');
    assert("xlsm"@.len() == 4);
    assert("xlsm"@[1] == 'l');
    assert("xlsm"@[2] == 's');
    assert("xlsm"@[3] == 'm');
    assert("xlsx"@[0] == 'x');
    assert("xlsx"@.len() == 4);
    assert("xlsx"@[1] == 'l');
    assert("xlsx"@[2] == 's');
    assert("xlsx"@[3] == 'x');
    assert("xz"@[0] == 'x');
    assert("xz"@.len() == 2);
    assert("xz"@[1] == 'z');
    assert("yaml"@[0] == 'y');
    assert("yaml"@.len() == 4);
    assert("yaml"@[1] == 'a');
    assert("yaml"@[2] == 'm');
    assert("yaml"@[3] == 'l');
    assert("yml"@[0] == 'y');
    assert("yml"@.len() == 3);
    assert("yml"@[1] == 'm');
    assert("yml"@[2] == 'l');
    assert("zig"@[0] == 'z');
    assert("zig"@.len() == 3);
    assert("zig"@[1] == 'i');
    assert("zig"@[2] == 'g');
    assert("zip"@[0] == 'z');
    assert("zip"@.len() == 3);
    assert("zip"@[1] == 'i');
    assert("zip"@[2] == 'p');
}

/// A human-readable kind for a listing row (e.g. "Microsoft Excel").
pub fn kind_label(name: &str, is_dir: bool) -> (r: String)
    ensures
        r@ == kind_of(name@, is_dir),
{
    if is_dir {
        return text("Directory");
    }
    match path_extension(name) {
        Some(e) => {
            let l = to_lowercase(e.as_str());
            kind_of_ext(l.as_str())
        },
        None => text("Document"),
    }
}

/// The key a file's icon is cached under: its lowercased extension, when
/// it has a non-empty one.
pub open spec fn icon_key_of(path: Seq<char>) -> Option<Seq<char>> {
    match extension(path) {
        Some(e) => if lowercase(e).len() == 0 {
            None
        } else {
            Some(lowercase(e))
        },
        None => None,
    }
}

pub fn icon_key(path: &str) -> (r: Option<String>)
    ensures
        match icon_key_of(path@) {
            Some(k) => r matches Some(s) && s@ == k,
            None => r is None,
        },
{
    match path_extension(path) {
        Some(e) => {
            let l = to_lowercase(e.as_str());
            if l.as_str().is_empty() {
                None
            } else {
                Some(l)
            }
        },
        None => None,
    }
}

// ----- names for new entries ----------------------------------------------

/// The decimal digits of `n`.
pub open spec fn decimal(n: nat) -> Seq<char>
    decreases n,
{
    if n < 10 {
        seq![(('0' as int) + n) as char]
    } else {
        decimal(n / 10).push((('0' as int) + n % 10) as char)
    }
}

pub fn decimal_text(n: u64) -> (r: Vec<char>)
    ensures
        r@ == decimal(n as nat),
    decreases n,
{
    if n < 10 {
        let mut v: Vec<char> = Vec::new();
        v.push(((n as u8) + 48) as char);
        proof {
            assert(v@ =~= seq![(('0' as int) + n) as char]);
        }
        v
    } else {
        let mut v = decimal_text(n / 10);
        v.push((((n % 10) as u8) + 48) as char);
        v
    }
}

/// The name tried for a new entry at attempt `n`: `base` itself first
/// (`n` < 2), then `base 2`, `base 3`, ...
pub open spec fn candidate_name(base: Seq<char>, n: nat) -> Seq<char> {
    if n < 2 {
        base
    } else {
        base + seq![' '] + decimal(n)
    }
}

/// The path tried in `dir` for a new entry at attempt `n` (the caller tries
/// 1, 2, 3, ... until a path is free).
pub fn child_candidate(dir: &str, base: &str, n: u64) -> (r: String)
    ensures
        r@ == join(dir@, candidate_name(base@, n as nat)),
{
    if n < 2 {
        return join_path(dir, base);
    }
    let d = decimal_text(n);
    let mut name = crate::text::chars_of(base);
    name.push(' ');
    let mut i: usize = 0;
    let ghost start = name@;
    while i < d.len()
        invariant
            i <= d@.len(),
            name@ == start + d@.take(i as int),
        decreases d.len() - i,
    {
        name.push(d[i]);
        proof {
            assert(d@.take(i as int + 1) =~= d@.take(i as int).push(d@[i as int]));
        }
        i = i + 1;
    }
    proof {
        assert(d@.take(d@.len() as int) =~= d@);
    }
    let s = crate::text::string_of(name.as_slice());
    join_path(dir, s.as_str())
}

} // verus!
