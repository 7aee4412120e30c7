//! The parts of a `.docx` archive that the extractor reads.
use vstd::prelude::*;

use std::io::Cursor;
use std::io::Read;

use zip::result::ZipError;
use zip::ZipArchive;

use crate::error::{AppError, AppErrorView};
use crate::text::{has_prefix, opt_str_view, owned, str_chars, find_from, strings_view};

verus! {

pub const DOCUMENT_XML_PATH: &'static str = "word/document.xml";
pub const COMMENTS_XML_PATH: &'static str = "word/comments.xml";
pub const COMMENTS_EXTENDED_XML_PATH: &'static str = "word/commentsExtended.xml";

#[derive(Debug, Default, PartialEq, Eq)]
pub struct DocxParts {
    pub document_xml: Option<String>,
    pub comments_xml: Option<String>,
    pub comments_extended_xml: Option<String>,
}

#[derive(Debug, Default, PartialEq, Eq)]
pub struct ReadDocxParts {
    pub parts: DocxParts,
    pub missing_parts: Vec<String>,
}

pub struct ReadDocxPartsView {
    pub document_xml: Option<Seq<char>>,
    pub comments_xml: Option<Seq<char>>,
    pub comments_extended_xml: Option<Seq<char>>,
    pub missing_parts: Seq<Seq<char>>,
}

impl View for ReadDocxParts {
    type V = ReadDocxPartsView;

    open spec fn view(&self) -> ReadDocxPartsView {
        ReadDocxPartsView {
            document_xml: opt_str_view(self.parts.document_xml),
            comments_xml: opt_str_view(self.parts.comments_xml),
            comments_extended_xml: opt_str_view(self.parts.comments_extended_xml),
            missing_parts: strings_view(self.missing_parts@),
        }
    }
}

/// The parts read, or the error for a missing `comments.xml`; the optional parts that are
/// absent are listed as missing, `document.xml` first.
pub open spec fn spec_docx_parts(
    document_xml: Option<Seq<char>>,
    comments_xml: Option<Seq<char>>,
    comments_extended_xml: Option<Seq<char>>,
) -> Result<ReadDocxPartsView, AppErrorView> {
    match comments_xml {
        None => Err(AppErrorView::MissingRequiredPart(COMMENTS_XML_PATH@)),
        Some(c) => Ok(ReadDocxPartsView {
            document_xml,
            comments_xml: Some(c),
            comments_extended_xml,
            missing_parts: (if document_xml is None { seq![DOCUMENT_XML_PATH@] } else { Seq::empty() })
                + (if comments_extended_xml is None { seq![COMMENTS_EXTENDED_XML_PATH@] } else { Seq::empty() }),
        }),
    }
}

pub fn docx_parts_from(
    document_xml: Option<String>,
    comments_xml: Option<String>,
    comments_extended_xml: Option<String>,
) -> (res: Result<ReadDocxParts, AppError>)
    ensures
        match res {
            Ok(r) => spec_docx_parts(opt_str_view(document_xml), opt_str_view(comments_xml), opt_str_view(comments_extended_xml)) == Ok::<ReadDocxPartsView, AppErrorView>(r@),
            Err(e) => spec_docx_parts(opt_str_view(document_xml), opt_str_view(comments_xml), opt_str_view(comments_extended_xml)) == Err::<ReadDocxPartsView, AppErrorView>(e@),
        },
{
    let comments_xml = match comments_xml {
        Some(c) => c,
        None => {
            return Err(AppError::MissingRequiredPart(COMMENTS_XML_PATH));
        },
    };
    let mut missing_parts: Vec<String> = Vec::new();
    if document_xml.is_none() {
        missing_parts.push(owned(DOCUMENT_XML_PATH));
    }
    if comments_extended_xml.is_none() {
        missing_parts.push(owned(COMMENTS_EXTENDED_XML_PATH));
    }
    let res = ReadDocxParts {
        parts: DocxParts { document_xml, comments_xml: Some(comments_xml), comments_extended_xml },
        missing_parts,
    };
    assert(res@.missing_parts =~= (if opt_str_view(res.parts.document_xml) is None { seq![DOCUMENT_XML_PATH@] } else { Seq::empty() })
        + (if opt_str_view(res.parts.comments_extended_xml) is None { seq![COMMENTS_EXTENDED_XML_PATH@] } else { Seq::empty() }));
    Ok(res)
}

/// ASCII letters lowered, everything else kept (`str::to_ascii_lowercase`).
pub open spec fn spec_ascii_lowercase(s: Seq<char>) -> Seq<char> {
    s.map_values(|c: char| if 'A' <= c <= 'Z' { ((c as u8) + 32) as char } else { c })
}

fn ascii_lowercase(s: &str) -> (res: Vec<char>)
    ensures
        res@ == spec_ascii_lowercase(s@),
{
    let chars = str_chars(s);
    let mut out: Vec<char> = Vec::new();
    let mut k: usize = 0;
    while k < chars.len()
        invariant
            k <= chars@.len(),
            chars@ == s@,
            out@ == spec_ascii_lowercase(chars@.take(k as int)),
        decreases chars@.len() - k,
    {
        let c = chars[k];
        let lowered = if 'A' <= c && c <= 'Z' { ((c as u8) + 32) as char } else { c };
        out.push(lowered);
        assert(out@ =~= spec_ascii_lowercase(chars@.take(k + 1)));
        k = k + 1;
    }
    assert(chars@.take(k as int) =~= chars@);
    out
}

/// A `.xml` part under `word/`.
pub open spec fn spec_is_word_xml_part(name: Seq<char>) -> bool {
    has_prefix(name, "word/"@) && name.len() >= ".xml"@.len() && name.skip(name.len() - ".xml"@.len()) == ".xml"@
}

pub fn is_word_xml_part(name: &str) -> (res: bool)
    ensures
        res == spec_is_word_xml_part(name@),
{
    let chars = str_chars(name);
    let suffix = str_chars(".xml");
    assert(chars@.skip(0) =~= chars@);
    if !crate::text::starts_with_at(&chars, 0, "word/") {
        return false;
    }
    if chars.len() < suffix.len() {
        return false;
    }
    let from = chars.len() - suffix.len();
    let ends = crate::text::starts_with_at(&chars, from, ".xml");
    assert(chars@.skip(from as int).take(suffix@.len() as int) =~= chars@.skip(from as int));
    ends
}

/// The lowered name is `word/<stem>.xml` or begins with `word/<stem>`.
pub open spec fn spec_file_stem_matches(name: Seq<char>, stem: Seq<char>) -> bool {
    let lower = spec_ascii_lowercase(name);
    lower == "word/"@ + stem + ".xml"@ || has_prefix(lower, "word/"@ + stem)
}

pub fn file_stem_matches(name: &str, stem: &str) -> (res: bool)
    ensures
        res == spec_file_stem_matches(name@, stem@),
{
    let lower = ascii_lowercase(name);
    let mut full = owned("word/");
    full.append(stem);
    let mut exact = full.clone();
    exact.append(".xml");
    let exact_chars = str_chars(exact.as_str());
    assert(lower@.skip(0) =~= lower@);
    crate::text::chars_equal(&lower, &exact_chars) || crate::text::starts_with_at(&lower, 0, full.as_str())
}

/// Which part a fallback name is looked for.
#[derive(Clone, Copy, Debug, PartialEq, Eq, Structural)]
pub enum PartKind {
    Comments,
    CommentsExtended,
}

/// Whether an archive entry can stand in for the part of this kind.
pub open spec fn spec_fallback_matches(kind: PartKind, name: Seq<char>) -> bool {
    match kind {
        PartKind::Comments => spec_is_word_xml_part(name) && spec_file_stem_matches(name, "comments"@),
        PartKind::CommentsExtended => spec_is_word_xml_part(name) && (
            find_from(spec_ascii_lowercase(name), "commentsextended"@, 0) is Some
            || find_from(spec_ascii_lowercase(name), "commentsex"@, 0) is Some),
    }
}

fn contains_chars(hay: &Vec<char>, needle: &str) -> (res: bool)
    ensures
        res == (find_from(hay@, needle@, 0) is Some),
{
    let n = str_chars(needle);
    let h = hay.len();
    if n.len() > h {
        return false;
    }
    let last = h - n.len();
    let mut k: usize = 0;
    while k <= last
        invariant
            h == hay@.len(),
            n@ == needle@,
            n@.len() <= h,
            last == h - n@.len(),
            k <= last + 1,
            find_from(hay@, needle@, k as int) == find_from(hay@, needle@, 0),
        decreases last + 1 - k,
    {
        if crate::text::starts_with_at(hay, k, needle) {
            assert(hay@.skip(k as int).take(n@.len() as int) =~= hay@.subrange(k as int, k + n@.len()));
            return true;
        }
        assert(hay@.skip(k as int).take(n@.len() as int) =~= hay@.subrange(k as int, k + n@.len()));
        if k == last {
            assert(find_from(hay@, needle@, k + 1) is None);
            return false;
        }
        k = k + 1;
    }
    false
}

pub fn fallback_matches(kind: PartKind, name: &str) -> (res: bool)
    ensures
        res == spec_fallback_matches(kind, name@),
{
    match kind {
        PartKind::Comments => is_word_xml_part(name) && file_stem_matches(name, "comments"),
        PartKind::CommentsExtended => {
            if !is_word_xml_part(name) {
                return false;
            }
            let lower = ascii_lowercase(name);
            contains_chars(&lower, "commentsextended") || contains_chars(&lower, "commentsex")
        },
    }
}

/// The first entry name, in archive order, that can stand in for the part of this kind.
pub open spec fn spec_select_fallback(names: Seq<Option<Seq<char>>>, kind: PartKind) -> Option<Seq<char>>
    decreases names.len(),
{
    if names.len() == 0 {
        None
    } else {
        match names[0] {
            Some(n) => if spec_fallback_matches(kind, n) { Some(n) } else { spec_select_fallback(names.drop_first(), kind) },
            None => spec_select_fallback(names.drop_first(), kind),
        }
    }
}

pub open spec fn names_view(names: Seq<Option<String>>) -> Seq<Option<Seq<char>>> {
    names.map_values(|n: Option<String>| opt_str_view(n))
}

pub fn select_fallback(names: &Vec<Option<String>>, kind: PartKind) -> (res: Option<String>)
    ensures
        opt_str_view(res) == spec_select_fallback(names_view(names@), kind),
{
    let ghost nv = names_view(names@);
    let mut k: usize = 0;
    assert(nv.skip(0) =~= nv);
    while k < names.len()
        invariant
            k <= names@.len() == nv.len(),
            nv == names_view(names@),
            spec_select_fallback(nv.skip(k as int), kind) == spec_select_fallback(nv, kind),
        decreases names@.len() - k,
    {
        assert(nv.skip(k as int)[0] == opt_str_view(names@[k as int]));
        assert(nv.skip(k as int).drop_first() =~= nv.skip(k + 1));
        if let Some(n) = &names[k] {
            if fallback_matches(kind, n.as_str()) {
                return Some(n.clone());
            }
        }
        k = k + 1;
    }
    assert(nv.skip(k as int).len() == 0);
    None
}

/// `std::io::Cursor`, carried through opaquely.
#[verifier::external_type_specification]
#[verifier::external_body]
#[verifier::reject_recursive_types(T)]
pub struct ExCursor<T>(Cursor<T>);

/// `zip::ZipArchive`, carried through opaquely.
#[verifier::external_type_specification]
#[verifier::external_body]
#[verifier::reject_recursive_types(R)]
pub struct ExZipArchive<R>(ZipArchive<R>);

/// Whether `zip::ZipArchive::new` opens these bytes as an archive.
pub uninterp spec fn zip_archive_opens(archive: Seq<u8>) -> bool;

/// What the archive in these bytes holds, by entry name (as `zip_entries` gives it for the
/// archive that `zip::ZipArchive::new` opens from them).
pub uninterp spec fn zip_entries_of(archive: Seq<u8>) -> Map<Seq<char>, EntryRead>;

/// The entry names of the archive in these bytes (as `zip_entry_names` gives them for the
/// archive that `zip::ZipArchive::new` opens from them).
pub uninterp spec fn zip_names_of(archive: Seq<u8>) -> Seq<Option<Seq<char>>>;

/// Opens the archive held in memory with `zip::ZipArchive::new`. Whether it opens, and what
/// the opened archive holds, are functions of the bytes alone.
#[verifier::external_body]
fn zip_open<'a>(archive: &'a [u8]) -> (res: Result<ZipArchive<Cursor<&'a [u8]>>, ZipError>)
    ensures
        res is Ok <==> zip_archive_opens(archive@),
        res matches Ok(z) ==> zip_entries(z) == zip_entries_of(archive@) && zip_entry_names(z) == zip_names_of(archive@),
{
    ZipArchive::new(Cursor::new(archive))
}

/// What reading one archive entry as text gives: its text, a failure of the zip reader, or a
/// failure of the read itself (such as text that is not UTF-8).
pub enum EntryRead {
    Text(Seq<char>),
    ZipFailure,
    ReadFailure,
}

/// What the archive holds, by entry name: the names that `ZipArchive::by_name` finds, each with
/// what looking it up and reading it as text gives.
pub uninterp spec fn zip_entries(archive: ZipArchive<Cursor<&[u8]>>) -> Map<Seq<char>, EntryRead>;

/// The entry names of the archive in archive order, as `ZipArchive::file_names` gives them;
/// `None` for a name that does not decode.
pub uninterp spec fn zip_entry_names(archive: ZipArchive<Cursor<&[u8]>>) -> Seq<Option<Seq<char>>>;

/// The entry names, in archive order, from `ZipArchive::file_names`; a name that does not
/// decode becomes `None`.
#[verifier::external_body]
fn zip_file_names(archive: &ZipArchive<Cursor<&[u8]>>) -> (res: Vec<Option<String>>)
    ensures
        names_view(res@) == zip_entry_names(*archive),
{
    archive.file_names().map(|name| name.ok().map(|name| name.into_owned())).collect()
}

/// Looks the entry up with `ZipArchive::by_name` and reads its text (`Read::read_to_string`).
/// `by_name` gives `ZipError::FileNotFound` exactly for a name it does not find, and this is
/// `Ok(None)`; otherwise the result is the lookup's other error, or the read's error, or the
/// text. Looking up and reading leave what the archive holds as it was.
#[verifier::external_body]
fn zip_read_entry(archive: &mut ZipArchive<Cursor<&[u8]>>, name: &str) -> (res: Result<Option<Result<String, std::io::Error>>, ZipError>)
    ensures
        zip_entries(*final(archive)) == zip_entries(*old(archive)),
        zip_entry_names(*final(archive)) == zip_entry_names(*old(archive)),
        match res {
            Ok(None) => !zip_entries(*old(archive)).contains_key(name@),
            Ok(Some(Ok(text))) => zip_entries(*old(archive)).contains_key(name@)
                && zip_entries(*old(archive))[name@] == EntryRead::Text(text@),
            Ok(Some(Err(_))) => zip_entries(*old(archive)).contains_key(name@)
                && zip_entries(*old(archive))[name@] == EntryRead::ReadFailure,
            Err(_) => zip_entries(*old(archive)).contains_key(name@)
                && zip_entries(*old(archive))[name@] == EntryRead::ZipFailure,
        },
{
    match archive.by_name(name) {
        Ok(mut file) => {
            let mut contents = String::new();
            Ok(Some(file.read_to_string(&mut contents).map(|_| contents)))
        },
        Err(ZipError::FileNotFound) => Ok(None),
        Err(error) => Err(error),
    }
}

/// What reading part `path` out of entries `entries` gives: nothing for an absent entry, its
/// text, or the error of the reader or of the read.
pub open spec fn part_outcome(entries: Map<Seq<char>, EntryRead>, path: Seq<char>) -> Result<Option<Seq<char>>, AppErrorView> {
    if !entries.contains_key(path) {
        Ok(None)
    } else {
        match entries[path] {
            EntryRead::Text(text) => Ok(Some(text)),
            EntryRead::ZipFailure => Err(AppErrorView::Zip),
            EntryRead::ReadFailure => Err(AppErrorView::Io),
        }
    }
}

/// What reading a part with a fallback gives: the preferred entry when it is there (or its
/// error), else the first entry name, in archive order, that can stand in for the part.
pub open spec fn fallback_outcome(
    entries: Map<Seq<char>, EntryRead>,
    names: Seq<Option<Seq<char>>>,
    preferred: Seq<char>,
    kind: PartKind,
) -> Result<Option<Seq<char>>, AppErrorView> {
    match part_outcome(entries, preferred) {
        Ok(None) => match spec_select_fallback(names, kind) {
            Some(path) => part_outcome(entries, path),
            None => Ok(None),
        },
        other => other,
    }
}

pub open spec fn part_result_view(r: Result<Option<String>, AppError>) -> Result<Option<Seq<char>>, AppErrorView> {
    match r {
        Ok(o) => Ok(opt_str_view(o)),
        Err(e) => Err(e@),
    }
}

fn read_optional_part(archive: &mut ZipArchive<Cursor<&[u8]>>, path: &str) -> (res: Result<Option<String>, AppError>)
    ensures
        res matches Err(e) ==> (e@ is Io || e@ is Zip),
        part_result_view(res) == part_outcome(zip_entries(*old(archive)), path@),
        zip_entries(*final(archive)) == zip_entries(*old(archive)),
        zip_entry_names(*final(archive)) == zip_entry_names(*old(archive)),
{
    match zip_read_entry(archive, path) {
        Ok(Some(Ok(contents))) => Ok(Some(contents)),
        Ok(Some(Err(error))) => Err(AppError::Io(error)),
        Ok(None) => Ok(None),
        Err(error) => Err(AppError::Zip(error)),
    }
}

fn read_part_with_fallback(
    archive: &mut ZipArchive<Cursor<&[u8]>>,
    preferred_path: &str,
    kind: PartKind,
) -> (res: Result<Option<String>, AppError>)
    ensures
        res matches Err(e) ==> (e@ is Io || e@ is Zip),
        part_result_view(res) == fallback_outcome(zip_entries(*old(archive)), zip_entry_names(*old(archive)), preferred_path@, kind),
        zip_entries(*final(archive)) == zip_entries(*old(archive)),
        zip_entry_names(*final(archive)) == zip_entry_names(*old(archive)),
{
    if let Some(contents) = read_optional_part(archive, preferred_path)? {
        return Ok(Some(contents));
    }
    let names = zip_file_names(archive);
    match select_fallback(&names, kind) {
        Some(path) => read_optional_part(archive, path.as_str()),
        None => Ok(None),
    }
}

/// The parts read out of an archive's entries: `document.xml` by its name, `comments.xml` and
/// `commentsExtended.xml` by their names or else by the first fitting entry name; the first
/// read that fails decides, and a missing `comments.xml` is an error.
pub open spec fn spec_read_docx(entries: Map<Seq<char>, EntryRead>, names: Seq<Option<Seq<char>>>) -> Result<ReadDocxPartsView, AppErrorView> {
    match part_outcome(entries, DOCUMENT_XML_PATH@) {
        Err(e) => Err(e),
        Ok(document_xml) => match fallback_outcome(entries, names, COMMENTS_XML_PATH@, PartKind::Comments) {
            Err(e) => Err(e),
            Ok(comments_xml) => match fallback_outcome(entries, names, COMMENTS_EXTENDED_XML_PATH@, PartKind::CommentsExtended) {
                Err(e) => Err(e),
                Ok(comments_extended_xml) => spec_docx_parts(document_xml, comments_xml, comments_extended_xml),
            },
        },
    }
}

pub open spec fn parts_result_view(r: Result<ReadDocxParts, AppError>) -> Result<ReadDocxPartsView, AppErrorView> {
    match r {
        Ok(p) => Ok(p@),
        Err(e) => Err(e@),
    }
}

/// Reads `document.xml`, `comments.xml` and `commentsExtended.xml` out of the archive bytes,
/// falling back to another `word/` entry whose name fits when the usual one is absent.
pub fn read_docx_parts(archive: &[u8]) -> (res: Result<ReadDocxParts, AppError>)
    ensures
        match res {
            Ok(r) => spec_docx_parts(r@.document_xml, r@.comments_xml, r@.comments_extended_xml) == Ok::<ReadDocxPartsView, AppErrorView>(r@),
            Err(e) => e@ is Io || e@ is Zip || e@ == AppErrorView::MissingRequiredPart(COMMENTS_XML_PATH@),
        },
        !zip_archive_opens(archive@) ==> (res matches Err(e) && e@ is Zip),
        zip_archive_opens(archive@) ==> parts_result_view(res) == spec_read_docx(zip_entries_of(archive@), zip_names_of(archive@)),
{
    let mut zip = match zip_open(archive) {
        Ok(z) => z,
        Err(error) => {
            return Err(AppError::Zip(error));
        },
    };
    let document_xml = read_optional_part(&mut zip, DOCUMENT_XML_PATH)?;
    let comments_xml = read_part_with_fallback(&mut zip, COMMENTS_XML_PATH, PartKind::Comments)?;
    let comments_extended_xml = read_part_with_fallback(&mut zip, COMMENTS_EXTENDED_XML_PATH, PartKind::CommentsExtended)?;
    let res = docx_parts_from(document_xml, comments_xml, comments_extended_xml);
    res
}

} // verus!
