//! Laws of the answers of the Python registry: what is too new is neither among
//! the releases nor among the URLs, everything else stays, and what cannot be read
//! is blocked.

use vstd::prelude::*;

use super::words;
use crate::headers;
use crate::instant;
use crate::json;
use crate::listing;
use crate::order;
use crate::registry;
use crate::registry::pypi;
use crate::registry::Ecosystem;
use crate::target;
use crate::text;

verus! {

/// The instant at which a file was uploaded, if it tells: what its member
/// `upload_time_iso_8601` reads as.
pub open spec fn uploaded(file: json::Json) -> Option<int> {
    match file {
        json::Json::Object(f) => if f.dom().contains("upload_time_iso_8601"@) {
            match f["upload_time_iso_8601"@] {
                json::Json::Text(s) => instant::instant_of(s),
                _ => None,
            }
        } else {
            None
        },
        _ => None,
    }
}

/// Whether a release with these files is too new: one of them was uploaded later
/// than the cutoff, or there are files and none tells when it was.
pub open spec fn too_new(cutoff: int, files: Seq<json::Json>) -> bool {
    ||| exists|i: int|
        0 <= i < files.len() && (uploaded(#[trigger] files[i]) matches Some(t) && t > cutoff)
    ||| files.len() > 0 && forall|i: int|
        0 <= i < files.len() ==> uploaded(#[trigger] files[i]) is None
}

/// Whether a member is missing, null or a text.
pub open spec fn text_or_none(m: Map<Seq<char>, json::Json>, name: Seq<char>) -> bool {
    !m.dom().contains(name) || m[name] is Null || m[name] is Text
}

/// The text that a member is, if it is there and is one.
pub open spec fn text_of(doc: json::Json, name: Seq<char>) -> Option<Seq<char>> {
    match doc {
        json::Json::Object(m) => if m.dom().contains(name) && m[name] is Text {
            Some(m[name]->Text_0)
        } else {
            None
        },
        _ => None,
    }
}

/// Whether a document describes a file: it has a name and a type, and what else is
/// known of files is of its kind where it is there.
pub open spec fn is_file(file: json::Json) -> bool {
    match file {
        json::Json::Object(f) => {
            &&& f.dom().contains("filename"@) && f["filename"@] is Text
            &&& f.dom().contains("packagetype"@) && f["packagetype"@] is Text
            &&& text_or_none(f, "upload_time_iso_8601"@)
            &&& text_or_none(f, "md5_digest"@)
            &&& text_or_none(f, "yanked_reason"@)
            &&& text_or_none(f, "requires_python"@)
            &&& f.dom().contains("yanked"@) ==> f["yanked"@] is Bool
            &&& f.dom().contains("size"@) ==> f["size"@] is Null || (f["size"@] is Integer
                && i64::MIN <= f["size"@]->Integer_0 <= i64::MAX)
            &&& f.dom().contains("digests"@) ==> f["digests"@] is Null || (f["digests"@] is Object
                && text_or_none(f["digests"@]->Object_0, "sha256"@) && text_or_none(
                f["digests"@]->Object_0,
                "md5"@,
            ) && text_or_none(f["digests"@]->Object_0, "blake2b_256"@))
        },
        _ => false,
    }
}

/// Whether a document describes the files of a release.
pub open spec fn are_files(files: json::Json) -> bool {
    match files {
        json::Json::Array(a) => forall|i: int| 0 <= i < a.len() ==> is_file(#[trigger] a[i]),
        _ => false,
    }
}

/// Whether a text writes a document with these members, and these releases among
/// them.
pub open spec fn tells_of(
    body: Seq<u8>,
    doc: Map<Seq<char>, json::Json>,
    releases: Map<Seq<char>, json::Json>,
) -> bool {
    &&& json::parsed_json(body) == Some(json::Json::Object(doc))
    &&& doc.dom().contains("releases"@) && doc["releases"@] == json::Json::Object(releases)
    &&& releases.dom().finite()
    &&& forall|v: Seq<char>| #[trigger] releases.dom().contains(v) ==> are_files(releases[v])
}

/// Whether an answer to a request for this URL is read as JSON: it is metadata,
/// names no encoding, or one that is none, and says that it is JSON and not that it
/// is HTML.
pub open spec fn is_read(url: target::UrlView, fields: Map<Seq<char>, Seq<Seq<u8>>>) -> bool {
    &&& registry::asks_for_metadata(Ecosystem::Python, url)
    &&& fields.dom().contains("content-encoding"@) ==> match headers::visible_text(
        fields["content-encoding"@][0],
    ) {
        Some(encoding) => encoding == "none"@ || encoding == "identity"@,
        None => true,
    }
    &&& fields.dom().contains("content-type"@)
    &&& headers::visible_text(fields["content-type"@][0]) matches Some(kind) && text::occurs(
        kind,
        "json"@,
    ) && !text::occurs(kind, "html"@)
}

/// Whether the name of a file is that of a file of this version: a wheel has it
/// between its first two hyphens, a source archive behind its last one, and the
/// metadata beside either is named after it.
pub open spec fn is_file_of(filename: Seq<char>, v: Seq<char>) -> bool {
    &&& v.len() > 0
    &&& v != "latest"@
    &&& !v.contains('-')
    &&& {
        ||| exists|project: Seq<char>, tags: Seq<char>|
            !project.contains('-') && (tags.len() == 0 || tags[0] == '-') && (filename == #[trigger] (
            project + seq!['-'] + v + tags) + ".whl"@ || filename == (project + seq!['-'] + v + tags)
                + ".whl.metadata"@)
        ||| exists|project: Seq<char>|
            {
                let stem = #[trigger] (project + seq!['-'] + v);
                ||| filename == stem + ".tar.gz"@
                ||| filename == stem + ".zip"@
                ||| filename == stem + ".tar.bz2"@
                ||| filename == stem + ".tar.xz"@
                ||| filename == stem + ".tar.gz.metadata"@
                ||| filename == stem + ".zip.metadata"@
                ||| filename == stem + ".tar.bz2.metadata"@
                ||| filename == stem + ".tar.xz.metadata"@
            }
    }
}

proof fn lemma_endings()
    ensures
        ".whl"@.len() == 4 && ".whl"@[3] == 'l',
        ".whl.metadata"@.len() == 13 && ".whl.metadata"@[12] == 'a' && ".whl.metadata"@[3] == 'l',
        ".tar.gz.metadata"@.len() == 16 && ".tar.gz.metadata"@[15] == 'a' && ".tar.gz.metadata"@[6]
            == 'z' && ".tar.gz.metadata"@[5] == 'g',
        ".zip.metadata"@.len() == 13 && ".zip.metadata"@[12] == 'a' && ".zip.metadata"@[3] == 'p',
        ".tar.bz2.metadata"@.len() == 17 && ".tar.bz2.metadata"@[16] == 'a'
            && ".tar.bz2.metadata"@[7] == '2',
        ".tar.xz.metadata"@.len() == 16 && ".tar.xz.metadata"@[15] == 'a' && ".tar.xz.metadata"@[6]
            == 'z' && ".tar.xz.metadata"@[5] == 'x',
        ".tar.gz"@.len() == 7 && ".tar.gz"@[6] == 'z' && ".tar.gz"@[5] == 'g',
        ".zip"@.len() == 4 && ".zip"@[3] == 'p',
        ".tar.bz2"@.len() == 8 && ".tar.bz2"@[7] == '2',
        ".tar.xz"@.len() == 7 && ".tar.xz"@[6] == 'z' && ".tar.xz"@[5] == 'x',
{
    reveal_strlit(".whl");
    reveal_strlit(".whl.metadata");
    reveal_strlit(".tar.gz.metadata");
    reveal_strlit(".zip.metadata");
    reveal_strlit(".tar.bz2.metadata");
    reveal_strlit(".tar.xz.metadata");
    reveal_strlit(".tar.gz");
    reveal_strlit(".zip");
    reveal_strlit(".tar.bz2");
    reveal_strlit(".tar.xz");
}

/// The `k`th character from the end of a text with this ending is that of the
/// ending.
proof fn lemma_end_char(s: Seq<char>, ending: Seq<char>, k: int)
    requires
        text::ends(s, ending),
        1 <= k <= ending.len(),
    ensures
        s.len() >= ending.len(),
        s[s.len() - k] == ending[ending.len() - k],
{
    let at = s.len() - ending.len();
    assert(s.subrange(at, at + ending.len())[ending.len() - k] == ending[ending.len() - k]);
}

proof fn lemma_one_ending(s: Seq<char>)
    ensures
        text::ends(s, ".whl.metadata"@) ==> !text::ends(s, ".whl"@),
        text::ends(s, ".tar.gz.metadata"@) ==> !text::ends(s, ".whl"@) && !text::ends(
            s,
            ".whl.metadata"@,
        ),
        text::ends(s, ".zip.metadata"@) ==> !text::ends(s, ".whl"@) && !text::ends(
            s,
            ".whl.metadata"@,
        ) && !text::ends(s, ".tar.gz.metadata"@),
        text::ends(s, ".tar.bz2.metadata"@) ==> !text::ends(s, ".whl"@) && !text::ends(
            s,
            ".whl.metadata"@,
        ) && !text::ends(s, ".tar.gz.metadata"@) && !text::ends(s, ".zip.metadata"@),
        text::ends(s, ".tar.xz.metadata"@) ==> !text::ends(s, ".whl"@) && !text::ends(
            s,
            ".whl.metadata"@,
        ) && !text::ends(s, ".tar.gz.metadata"@) && !text::ends(s, ".zip.metadata"@) && !text::ends(
            s,
            ".tar.bz2.metadata"@,
        ),
        text::ends(s, ".tar.gz"@) || text::ends(s, ".zip"@) || text::ends(s, ".tar.bz2"@)
            || text::ends(s, ".tar.xz"@) ==> !text::ends(s, ".whl"@) && !text::ends(
            s,
            ".whl.metadata"@,
        ) && !text::ends(s, ".tar.gz.metadata"@) && !text::ends(s, ".zip.metadata"@) && !text::ends(
            s,
            ".tar.bz2.metadata"@,
        ) && !text::ends(s, ".tar.xz.metadata"@),
        text::ends(s, ".zip"@) ==> !text::ends(s, ".tar.gz"@),
        text::ends(s, ".tar.bz2"@) ==> !text::ends(s, ".tar.gz"@) && !text::ends(s, ".zip"@),
        text::ends(s, ".tar.xz"@) ==> !text::ends(s, ".tar.gz"@) && !text::ends(s, ".zip"@)
            && !text::ends(s, ".tar.bz2"@),
{
    lemma_endings();
    if text::ends(s, ".whl"@) {
        lemma_end_char(s, ".whl"@, 1);
    }
    if text::ends(s, ".whl.metadata"@) {
        lemma_end_char(s, ".whl.metadata"@, 1);
        lemma_end_char(s, ".whl.metadata"@, 10);
    }
    if text::ends(s, ".tar.gz.metadata"@) {
        lemma_end_char(s, ".tar.gz.metadata"@, 1);
        lemma_end_char(s, ".tar.gz.metadata"@, 10);
        lemma_end_char(s, ".tar.gz.metadata"@, 11);
    }
    if text::ends(s, ".zip.metadata"@) {
        lemma_end_char(s, ".zip.metadata"@, 1);
        lemma_end_char(s, ".zip.metadata"@, 10);
    }
    if text::ends(s, ".tar.bz2.metadata"@) {
        lemma_end_char(s, ".tar.bz2.metadata"@, 1);
        lemma_end_char(s, ".tar.bz2.metadata"@, 10);
    }
    if text::ends(s, ".tar.xz.metadata"@) {
        lemma_end_char(s, ".tar.xz.metadata"@, 1);
        lemma_end_char(s, ".tar.xz.metadata"@, 10);
        lemma_end_char(s, ".tar.xz.metadata"@, 11);
    }
    if text::ends(s, ".tar.gz"@) {
        lemma_end_char(s, ".tar.gz"@, 1);
        lemma_end_char(s, ".tar.gz"@, 2);
    }
    if text::ends(s, ".zip"@) {
        lemma_end_char(s, ".zip"@, 1);
    }
    if text::ends(s, ".tar.bz2"@) {
        lemma_end_char(s, ".tar.bz2"@, 1);
    }
    if text::ends(s, ".tar.xz"@) {
        lemma_end_char(s, ".tar.xz"@, 1);
        lemma_end_char(s, ".tar.xz"@, 2);
    }
}

proof fn lemma_wheel(stem: Seq<char>, v: Seq<char>)
    ensures
        pypi::wheel_version(stem) == Some(v) <==> v.len() > 0 && v != "latest"@ && !v.contains('-')
            && exists|project: Seq<char>, tags: Seq<char>|
            !project.contains('-') && (tags.len() == 0 || tags[0] == '-') && stem == #[trigger] (
            project + seq!['-'] + v + tags),
{
    let dash = text::position(stem, '-');
    text::lemma_position(stem, '-');
    let rest = stem.skip(dash + 1);
    let next = text::position(rest, '-');
    text::lemma_position(rest, '-');
    if pypi::wheel_version(stem) == Some(v) {
        let project = stem.take(dash);
        let tags = rest.skip(next);
        assert(v == rest.take(next));
        assert(!project.contains('-')) by {
            if project.contains('-') {
                let j = choose|j: int| 0 <= j < project.len() && project[j] == '-';
                assert(stem[j] == '-');
            }
        }
        assert(!v.contains('-')) by {
            if v.contains('-') {
                let j = choose|j: int| 0 <= j < v.len() && v[j] == '-';
                assert(rest[j] == '-');
            }
        }
        assert(stem =~= project + seq!['-'] + v + tags);
    }
    if v.len() > 0 && v != "latest"@ && !v.contains('-') && exists|
        project: Seq<char>,
        tags: Seq<char>,
    |
        !project.contains('-') && (tags.len() == 0 || tags[0] == '-') && stem == #[trigger] (project
            + seq!['-'] + v + tags) {
        let (project, tags) = choose|project: Seq<char>, tags: Seq<char>|
            !project.contains('-') && (tags.len() == 0 || tags[0] == '-') && stem == #[trigger] (
            project + seq!['-'] + v + tags);
        assert(stem[project.len() as int] == '-');
        if dash < project.len() {
            assert(project[dash] == '-');
            assert(project.contains('-'));
        }
        assert(dash == project.len());
        assert(rest =~= v + tags);
        if next < v.len() {
            assert(v[next] == '-');
            assert(v.contains('-'));
        }
        if tags.len() > 0 {
            assert(rest[v.len() as int] == '-');
        }
        assert(next == v.len());
        assert(rest.take(next) =~= v);
    }
}

proof fn lemma_archive(stem: Seq<char>, v: Seq<char>)
    ensures
        pypi::archive_version(stem) == Some(v) <==> v.len() > 0 && v != "latest"@ && !v.contains('-')
            && exists|project: Seq<char>| stem == #[trigger] (project + seq!['-'] + v),
{
    let dash = text::last_position(stem, '-');
    text::lemma_last_position(stem, '-');
    if pypi::archive_version(stem) == Some(v) {
        let project = stem.take(dash);
        assert(v == stem.skip(dash + 1));
        if v.contains('-') {
            let j = choose|j: int| 0 <= j < v.len() && v[j] == '-';
            assert(stem[dash + 1 + j] == '-');
        }
        assert(stem =~= project + seq!['-'] + v);
    }
    if v.len() > 0 && v != "latest"@ && !v.contains('-') && exists|project: Seq<char>|
        stem == #[trigger] (project + seq!['-'] + v) {
        let project = choose|project: Seq<char>| stem == #[trigger] (project + seq!['-'] + v);
        assert(stem[project.len() as int] == '-');
        assert(dash >= project.len());
        if dash > project.len() {
            assert(v[dash - project.len() - 1] == '-');
            assert(v.contains('-'));
        }
        assert(stem.skip(dash + 1) =~= v);
    }
}

/// What a text with an ending is without it.
proof fn lemma_cut(stem: Seq<char>, ending: Seq<char>, s: Seq<char>)
    ensures
        text::ends(stem + ending, ending),
        (stem + ending).take((stem + ending).len() - ending.len()) == stem,
        text::ends(s, ending) ==> s == s.take(s.len() - ending.len()) + ending,
{
    words::law_occurs(stem, ending, seq![], s);
    assert((stem + ending).take(stem.len() as int) =~= stem);
}

/// The version of a file is the one that its name gives it, as wheels, source
/// archives and the metadata beside them are named; other names give none.
pub proof fn law_versions_in_file_names(filename: Seq<char>, v: Seq<char>)
    ensures
        pypi::filename_version(filename) == Some(v) <==> is_file_of(filename, v),
{
    if pypi::filename_version(filename) == Some(v) {
        lemma_version_is_named(filename, v);
    }
    if is_file_of(filename, v) {
        lemma_named_is_version(filename, v);
    }
}

proof fn lemma_version_is_named(filename: Seq<char>, v: Seq<char>)
    requires
        pypi::filename_version(filename) == Some(v),
    ensures
        is_file_of(filename, v),
{
    lemma_by_ending(filename);
    lemma_wheel_cut(filename, ".whl.metadata"@, v);
    lemma_wheel_cut(filename, ".whl"@, v);
    lemma_archive_cut(filename, ".tar.gz.metadata"@, v);
    lemma_archive_cut(filename, ".zip.metadata"@, v);
    lemma_archive_cut(filename, ".tar.bz2.metadata"@, v);
    lemma_archive_cut(filename, ".tar.xz.metadata"@, v);
    lemma_archive_cut(filename, ".tar.gz"@, v);
    lemma_archive_cut(filename, ".zip"@, v);
    lemma_archive_cut(filename, ".tar.bz2"@, v);
    lemma_archive_cut(filename, ".tar.xz"@, v);
}

proof fn lemma_wheel_cut(filename: Seq<char>, ending: Seq<char>, v: Seq<char>)
    ensures
        text::ends(filename, ending) && pypi::wheel_version(
            filename.take(filename.len() - ending.len()),
        ) == Some(v) ==> v.len() > 0 && v != "latest"@ && !v.contains('-') && exists|
            project: Seq<char>,
            tags: Seq<char>,
        |
            !project.contains('-') && (tags.len() == 0 || tags[0] == '-') && filename == #[trigger] (
            project + seq!['-'] + v + tags) + ending,
{
    let stem = filename.take(filename.len() - ending.len());
    lemma_wheel(stem, v);
    lemma_cut(stem, ending, filename);
}

proof fn lemma_archive_cut(filename: Seq<char>, ending: Seq<char>, v: Seq<char>)
    ensures
        text::ends(filename, ending) && pypi::archive_version(
            filename.take(filename.len() - ending.len()),
        ) == Some(v) ==> v.len() > 0 && v != "latest"@ && !v.contains('-') && exists|
            project: Seq<char>,
        |
            filename == #[trigger] (project + seq!['-'] + v) + ending,
{
    let stem = filename.take(filename.len() - ending.len());
    lemma_archive(stem, v);
    lemma_cut(stem, ending, filename);
}

/// Which ending decides how a version is read off a name.
proof fn lemma_by_ending(filename: Seq<char>)
    ensures
        ({
            let n = filename.len();
            let got = pypi::filename_version(filename);
            &&& text::ends(filename, ".whl.metadata"@) ==> got == pypi::wheel_version(
                filename.take(n - ".whl.metadata"@.len()),
            )
            &&& text::ends(filename, ".whl"@) ==> got == pypi::wheel_version(
                filename.take(n - ".whl"@.len()),
            )
            &&& text::ends(filename, ".tar.gz.metadata"@) ==> got == pypi::archive_version(
                filename.take(n - ".tar.gz.metadata"@.len()),
            )
            &&& text::ends(filename, ".zip.metadata"@) ==> got == pypi::archive_version(
                filename.take(n - ".zip.metadata"@.len()),
            )
            &&& text::ends(filename, ".tar.bz2.metadata"@) ==> got == pypi::archive_version(
                filename.take(n - ".tar.bz2.metadata"@.len()),
            )
            &&& text::ends(filename, ".tar.xz.metadata"@) ==> got == pypi::archive_version(
                filename.take(n - ".tar.xz.metadata"@.len()),
            )
            &&& text::ends(filename, ".tar.gz"@) ==> got == pypi::archive_version(
                filename.take(n - ".tar.gz"@.len()),
            )
            &&& text::ends(filename, ".zip"@) ==> got == pypi::archive_version(
                filename.take(n - ".zip"@.len()),
            )
            &&& text::ends(filename, ".tar.bz2"@) ==> got == pypi::archive_version(
                filename.take(n - ".tar.bz2"@.len()),
            )
            &&& text::ends(filename, ".tar.xz"@) ==> got == pypi::archive_version(
                filename.take(n - ".tar.xz"@.len()),
            )
            &&& got is Some ==> text::ends(filename, ".whl.metadata"@) || text::ends(
                filename,
                ".whl"@,
            ) || text::ends(filename, ".tar.gz.metadata"@) || text::ends(filename, ".zip.metadata"@)
                || text::ends(filename, ".tar.bz2.metadata"@) || text::ends(
                filename,
                ".tar.xz.metadata"@,
            ) || text::ends(filename, ".tar.gz"@) || text::ends(filename, ".zip"@) || text::ends(
                filename,
                ".tar.bz2"@,
            ) || text::ends(filename, ".tar.xz"@)
        }),
{
    lemma_one_ending(filename);
    reveal_with_fuel(pypi::version_before, 9);
    let all = pypi::archive_endings();
    assert(all[0] == ".tar.gz.metadata"@);
    assert(all.drop_first()[0] == ".zip.metadata"@);
    assert(all.drop_first().drop_first()[0] == ".tar.bz2.metadata"@);
    assert(all.drop_first().drop_first().drop_first()[0] == ".tar.xz.metadata"@);
    let last = all.drop_first().drop_first().drop_first().drop_first();
    assert(last[0] == ".tar.gz"@);
    assert(last.drop_first()[0] == ".zip"@);
    assert(last.drop_first().drop_first()[0] == ".tar.bz2"@);
    assert(last.drop_first().drop_first().drop_first()[0] == ".tar.xz"@);
    assert(last.drop_first().drop_first().drop_first().drop_first().len() == 0);
}

proof fn lemma_named_is_version(filename: Seq<char>, v: Seq<char>)
    requires
        is_file_of(filename, v),
    ensures
        pypi::filename_version(filename) == Some(v),
{
    lemma_by_ending(filename);
    if exists|project: Seq<char>, tags: Seq<char>|
        !project.contains('-') && (tags.len() == 0 || tags[0] == '-') && (filename == #[trigger] (
        project + seq!['-'] + v + tags) + ".whl"@ || filename == (project + seq!['-'] + v + tags)
            + ".whl.metadata"@) {
        let (project, tags) = choose|project: Seq<char>, tags: Seq<char>|
            !project.contains('-') && (tags.len() == 0 || tags[0] == '-') && (filename == #[trigger] (
            project + seq!['-'] + v + tags) + ".whl"@ || filename == (project + seq!['-'] + v + tags)
                + ".whl.metadata"@);
        let stem = project + seq!['-'] + v + tags;
        lemma_cut(stem, ".whl"@, filename);
        lemma_cut(stem, ".whl.metadata"@, filename);
        lemma_wheel(stem, v);
    } else {
        let project = choose|project: Seq<char>|
            {
                let stem = #[trigger] (project + seq!['-'] + v);
                ||| filename == stem + ".tar.gz"@
                ||| filename == stem + ".zip"@
                ||| filename == stem + ".tar.bz2"@
                ||| filename == stem + ".tar.xz"@
                ||| filename == stem + ".tar.gz.metadata"@
                ||| filename == stem + ".zip.metadata"@
                ||| filename == stem + ".tar.bz2.metadata"@
                ||| filename == stem + ".tar.xz.metadata"@
            };
        let stem = project + seq!['-'] + v;
        lemma_archive(stem, v);
        lemma_cut(stem, ".tar.gz"@, filename);
        lemma_cut(stem, ".zip"@, filename);
        lemma_cut(stem, ".tar.bz2"@, filename);
        lemma_cut(stem, ".tar.xz"@, filename);
        lemma_cut(stem, ".tar.gz.metadata"@, filename);
        lemma_cut(stem, ".zip.metadata"@, filename);
        lemma_cut(stem, ".tar.bz2.metadata"@, filename);
        lemma_cut(stem, ".tar.xz.metadata"@, filename);
    }
}

/// Whether an entry among the URLs names a file of this version: the file at its
/// name below the packages of the registry has a name that gives the version.
pub open spec fn names(entry: json::Json, v: Seq<char>) -> bool {
    let filename = match entry {
        json::Json::Object(m) => if m.dom().contains("filename"@) && m["filename"@] is Text {
            m["filename"@]->Text_0
        } else {
            seq![]
        },
        _ => seq![],
    };
    match target::url_of("https://files.pythonhosted.org/packages/"@ + filename) {
        Some(url) => url.path.len() > 0 && url.path[0] == '/' && is_file_of(
            match target::percent_decoded(text::split_on(url.path.skip(1), '/').last()) {
                Some(s) => s,
                None => seq![],
            },
            v,
        ),
        None => false,
    }
}

proof fn lemma_names(entry: json::Json, v: Seq<char>)
    ensures
        names(entry, v) <==> pypi::entry_version(entry) == Some(v),
{
    let filename = match json::as_text(json::member(entry, "filename"@)) {
        Some(s) => s,
        None => seq![],
    };
    match target::url_of("https://files.pythonhosted.org/packages/"@ + filename) {
        Some(url) => {
            if url.path.len() > 0 && url.path[0] == '/' {
                let last = match target::percent_decoded(
                    text::split_on(url.path.skip(1), '/').last(),
                ) {
                    Some(s) => s,
                    None => seq![],
                };
                law_versions_in_file_names(last, v);
            }
        },
        None => {},
    }
}

/// A file is read exactly if the document describes one, and each part of it is
/// what the member of that name says.
pub proof fn law_files(doc: json::Json)
    ensures
        pypi::file_of(doc) is Some <==> is_file(doc),
        pypi::file_of(doc) matches Some(f) ==> {
            let m = doc->Object_0;
            &&& text_of(doc, "filename"@) == Some(f.filename)
            &&& text_of(doc, "packagetype"@) == Some(f.packagetype)
            &&& f.upload_time == text_of(doc, "upload_time_iso_8601"@)
            &&& f.md5_digest == text_of(doc, "md5_digest"@)
            &&& f.yanked_reason == text_of(doc, "yanked_reason"@)
            &&& f.requires_python == text_of(doc, "requires_python"@)
            &&& f.yanked <==> m.dom().contains("yanked"@) && m["yanked"@] == json::Json::Bool(true)
            &&& f.size is Some <==> m.dom().contains("size"@) && m["size"@] is Integer
            &&& f.size matches Some(n) ==> m["size"@] == json::Json::Integer(n as int)
            &&& f.digests is Some <==> m.dom().contains("digests"@) && m["digests"@] is Object
            &&& f.digests matches Some(d) ==> {
                &&& d.sha256 == text_of(m["digests"@], "sha256"@)
                &&& d.md5 == text_of(m["digests"@], "md5"@)
                &&& d.blake2b_256 == text_of(m["digests"@], "blake2b_256"@)
            }
        },
{
}

/// A file and its digests stand for all of their parts.
pub proof fn law_file_parts(file: pypi::PyPIFile, digests: pypi::Digests, s: String)
    ensures
        file@.filename == file.filename@,
        file@.packagetype == file.packagetype@,
        file@.yanked == file.yanked,
        file@.size == file.size,
        file.upload_time_iso_8601 is None <==> file@.upload_time is None,
        file.upload_time_iso_8601 == Some(s) ==> file@.upload_time == Some(s@),
        file.md5_digest is None <==> file@.md5_digest is None,
        file.md5_digest == Some(s) ==> file@.md5_digest == Some(s@),
        file.yanked_reason is None <==> file@.yanked_reason is None,
        file.yanked_reason == Some(s) ==> file@.yanked_reason == Some(s@),
        file.requires_python is None <==> file@.requires_python is None,
        file.requires_python == Some(s) ==> file@.requires_python == Some(s@),
        file.digests is None <==> file@.digests is None,
        file.digests == Some(digests) ==> file@.digests == Some(digests@),
        digests.sha256 is None <==> digests@.sha256 is None,
        digests.sha256 == Some(s) ==> digests@.sha256 == Some(s@),
        digests.md5 is None <==> digests@.md5 is None,
        digests.md5 == Some(s) ==> digests@.md5 == Some(s@),
        digests.blake2b_256 is None <==> digests@.blake2b_256 is None,
        digests.blake2b_256 == Some(s) ==> digests@.blake2b_256 == Some(s@),
{
}

/// What counts of files is when each was uploaded, whatever else they are.
pub proof fn law_upload_instants(files: Seq<pypi::FileView>, i: int)
    requires
        0 <= i < files.len(),
    ensures
        pypi::upload_instants(files).len() == files.len(),
        pypi::upload_instants(files)[i] == match files[i].upload_time {
            Some(s) => instant::instant_of(s),
            None => None,
        },
{
}

/// A release is held back if one of its instants is later than the cutoff, or if
/// it has some and none is known.
pub proof fn law_held_back(cutoff: int, instants: Seq<Option<int>>)
    ensures
        pypi::held_back(cutoff, instants) <==> {
            ||| exists|i: int|
                0 <= i < instants.len() && (#[trigger] instants[i] matches Some(t) && t > cutoff)
            ||| instants.len() > 0 && forall|i: int|
                0 <= i < instants.len() ==> (#[trigger] instants[i]) is None
        },
{
    pypi::lemma_latest(instants);
    match pypi::latest(instants) {
        Some(t) => {
            let i = choose|i: int| 0 <= i < instants.len() && instants[i] == Some(t);
            assert(instants[i] is Some);
        },
        None => {},
    }
}

/// Of any list of versions and the instants of their files, those are withheld
/// that are too new, in the order of the list.
pub proof fn law_withheld(cutoff: int, uploaded: Seq<(Seq<char>, Seq<Option<int>>)>)
    ensures
        pypi::withheld(cutoff, uploaded) == uploaded.filter(
            |p: (Seq<char>, Seq<Option<int>>)|
                {
                    ||| exists|i: int|
                        0 <= i < p.1.len() && (#[trigger] p.1[i] matches Some(t) && t > cutoff)
                    ||| p.1.len() > 0 && forall|i: int|
                        0 <= i < p.1.len() ==> (#[trigger] p.1[i]) is None
                },
        ).map_values(|p: (Seq<char>, Seq<Option<int>>)| p.0),
{
    let bad = |p: (Seq<char>, Seq<Option<int>>)| pypi::held_back(cutoff, p.1);
    let own = |p: (Seq<char>, Seq<Option<int>>)|
        {
            ||| exists|i: int|
                0 <= i < p.1.len() && (#[trigger] p.1[i] matches Some(t) && t > cutoff)
            ||| p.1.len() > 0 && forall|i: int|
                0 <= i < p.1.len() ==> (#[trigger] p.1[i]) is None
        };
    assert forall|p: (Seq<char>, Seq<Option<int>>)| #[trigger] bad(p) == own(p) by {
        law_held_back(cutoff, p.1);
    }
    assert(bad =~= own);
}

/// A package counts as checked whatever becomes of it. If some of its versions are
/// withheld, they are recorded under its name and taken out of its document.
pub proof fn law_reviewed(
    registry: registry::RegistryView,
    doc: json::Json,
    uploaded: Seq<(Seq<char>, Seq<Option<int>>)>,
)
    ensures
        ({
            let (after, left) = pypi::reviewed(registry, doc, uploaded);
            let gone = pypi::withheld(registry.cutoff, uploaded);
            &&& after.cutoff == registry.cutoff
            &&& after.checked == registry.checked + 1
            &&& gone.len() == 0 ==> left is None && after.quarantined == registry.quarantined
            &&& gone.len() > 0 ==> left == Some(pypi::pruned(doc, gone)) && after.quarantined
                == registry.quarantined.push(
                registry::Quarantined { name: pypi::package_name(doc), versions: gone },
            )
        }),
{
}

/// What is read of such a document.
proof fn lemma_read(
    cutoff: int,
    body: Seq<u8>,
    doc: Map<Seq<char>, json::Json>,
    releases: Map<Seq<char>, json::Json>,
)
    requires
        tells_of(body, doc, releases),
    ensures
        ({
            let read = json::Json::Object(doc);
            let m = pypi::document_releases(read)->Some_0;
            &&& pypi::document_releases(read) is Some
            &&& pypi::describes_releases(read)
            &&& m.dom() == releases.dom()
            &&& forall|v: Seq<char>| #[trigger]
                releases.dom().contains(v) ==> pypi::held_back(cutoff, pypi::upload_instants(m[v]))
                    == too_new(cutoff, releases[v]->Array_0)
        }),
{
    let object = json::Json::Object(releases);
    assert forall|v: Seq<char>| #[trigger] releases.dom().contains(v) implies pypi::files_of(
        releases[v],
    ) is Some by {
        let a = releases[v]->Array_0;
        assert(are_files(releases[v]));
        assert forall|i: int| 0 <= i < a.len() implies pypi::file_of(#[trigger] a[i]) is Some by {
            law_files(a[i]);
        }
    }
    let m = pypi::releases_of(object)->Some_0;
    assert(m.dom() =~= releases.dom());
    assert forall|v: Seq<char>| #[trigger] releases.dom().contains(v) implies pypi::held_back(
        cutoff,
        pypi::upload_instants(m[v]),
    ) == too_new(cutoff, releases[v]->Array_0) by {
        let a = releases[v]->Array_0;
        assert(are_files(releases[v]));
        let instants = pypi::upload_instants(m[v]);
        assert(pypi::files_of(releases[v]) is Some);
        assert(m[v].len() == a.len());
        assert forall|i: int| 0 <= i < a.len() implies #[trigger] instants[i] == uploaded(a[i]) by {
            law_files(a[i]);
            assert(is_file(a[i]));
            assert(m[v][i] == pypi::file_of(a[i])->Some_0);
        }
        law_held_back(cutoff, instants);
        if pypi::held_back(cutoff, instants) {
            if exists|i: int|
                0 <= i < instants.len() && (#[trigger] instants[i] matches Some(t) && t > cutoff) {
                let i = choose|i: int|
                    0 <= i < instants.len() && (#[trigger] instants[i] matches Some(t) && t > cutoff);
                assert(uploaded(a[i]) == instants[i]);
            } else {
                assert forall|i: int| 0 <= i < a.len() implies uploaded(#[trigger] a[i]) is None by {
                    assert(instants[i] == uploaded(a[i]));
                }
            }
        }
        if too_new(cutoff, a) {
            if exists|i: int|
                0 <= i < a.len() && (uploaded(#[trigger] a[i]) matches Some(t) && t > cutoff) {
                let i = choose|i: int|
                    0 <= i < a.len() && (uploaded(#[trigger] a[i]) matches Some(t) && t > cutoff);
                assert(instants[i] == uploaded(a[i]));
            } else {
                assert forall|i: int| 0 <= i < instants.len() implies (
                #[trigger] instants[i]) is None by {
                    assert(uploaded(a[i]) is None);
                }
            }
        }
    }
}

proof fn lemma_gone(
    cutoff: int,
    body: Seq<u8>,
    doc: Map<Seq<char>, json::Json>,
    releases: Map<Seq<char>, json::Json>,
)
    requires
        tells_of(body, doc, releases),
    ensures
        ({
            let m = pypi::document_releases(json::Json::Object(doc))->Some_0;
            let gone = pypi::withheld(cutoff, pypi::uploads(m));
            &&& forall|v: Seq<char>|
                gone.contains(v) <==> #[trigger] releases.dom().contains(v) && too_new(
                    cutoff,
                    releases[v]->Array_0,
                )
            &&& order::ascending(gone)
        }),
{
    lemma_read(cutoff, body, doc, releases);
    let read = json::Json::Object(doc);
    pypi::lemma_withheld(cutoff, read);
    let m = pypi::document_releases(read)->Some_0;
    let gone = pypi::withheld(cutoff, pypi::uploads(m));
    assert forall|v: Seq<char>|
        gone.contains(v) <==> #[trigger] releases.dom().contains(v) && too_new(
            cutoff,
            releases[v]->Array_0,
        ) by {
        assert(gone.contains(v) <==> m.dom().contains(v) && pypi::held_back(
            cutoff,
            pypi::upload_instants(m[v]),
        ));
        assert(m.dom().contains(v) == releases.dom().contains(v));
    }
}

proof fn lemma_is_read(url: target::UrlView, fields: Map<Seq<char>, Seq<Seq<u8>>>)
    requires
        is_read(url, fields),
    ensures
        pypi::reads_body(url, fields),
{
}

proof fn lemma_members()
    ensures
        "releases"@ != "urls"@,
        "releases"@ != "info"@,
        "urls"@ != "info"@,
{
    reveal_strlit("releases");
    reveal_strlit("urls");
    reveal_strlit("info");
    assert("releases"@[0] == 'r');
    assert("urls"@[0] == 'u');
    assert("info"@[0] == 'i');
}

/// What is handed on, part by part.
proof fn lemma_handed_on(
    cutoff: int,
    body: Seq<u8>,
    doc: Map<Seq<char>, json::Json>,
    releases: Map<Seq<char>, json::Json>,
)
    requires
        tells_of(body, doc, releases),
    ensures
        ({
            let out = registry::handed_on(Ecosystem::Python, cutoff, body);
            let m = pypi::document_releases(json::Json::Object(doc))->Some_0;
            let gone = pypi::withheld(cutoff, pypi::uploads(m));
            &&& out is Object
            &&& out->Object_0.dom() == doc.dom()
            &&& out->Object_0["releases"@] == json::Json::Object(listing::without(releases, gone))
            &&& forall|k: Seq<char>| #[trigger]
                doc.dom().contains(k) && k != "releases"@ && k != "urls"@ ==> out->Object_0[k]
                    == doc[k]
            &&& doc.dom().contains("urls"@) ==> out->Object_0["urls"@] == match doc["urls"@] {
                json::Json::Array(entries) => json::Json::Array(pypi::urls_left(entries, gone)),
                other => other,
            }
        }),
{
    lemma_members();
    let m = pypi::document_releases(json::Json::Object(doc))->Some_0;
    let gone = pypi::withheld(cutoff, pypi::uploads(m));
    let out = registry::handed_on(Ecosystem::Python, cutoff, body);
    assert(out == pypi::pruned(json::Json::Object(doc), gone));
    assert(out->Object_0.dom() =~= doc.dom());
}

/// A release with a file that was uploaded later than the cutoff, or with files
/// none of which tells when it was, is not among the releases that are handed on,
/// nor is a file of it among the URLs, and it is recorded under the name of its
/// package.
pub proof fn law_new_releases_go(
    registry: registry::RegistryView,
    url: target::UrlView,
    fields: Map<Seq<char>, Seq<Seq<u8>>>,
    body: Seq<u8>,
    doc: Map<Seq<char>, json::Json>,
    releases: Map<Seq<char>, json::Json>,
    v: Seq<char>,
)
    requires
        is_read(url, fields),
        tells_of(body, doc, releases),
        releases.dom().contains(v),
        too_new(registry.cutoff, releases[v]->Array_0),
    ensures
        ({
            let (after, action) = registry::answered(
                Ecosystem::Python,
                registry,
                url,
                fields,
                body,
            );
            let out = registry::handed_on(Ecosystem::Python, registry.cutoff, body);
            &&& action is Rewrite
            &&& out is Object
            &&& out->Object_0["releases"@] is Object
            &&& !out->Object_0["releases"@]->Object_0.dom().contains(v)
            &&& doc.dom().contains("urls"@) && doc["urls"@] is Array ==> {
                &&& out->Object_0["urls"@] is Array
                &&& forall|i: int|
                    0 <= i < out->Object_0["urls"@]->Array_0.len() ==> !names(
                        #[trigger] out->Object_0["urls"@]->Array_0[i],
                        v,
                    )
            }
            &&& after.cutoff == registry.cutoff
            &&& after.checked == registry.checked + 1
            &&& after.quarantined.len() == registry.quarantined.len() + 1
            &&& after.quarantined.drop_last() == registry.quarantined
            &&& after.quarantined.last().versions.contains(v)
            &&& after.quarantined.last().name == (if doc.dom().contains("info"@) && doc["info"@] is Object
                && doc["info"@]->Object_0.dom().contains("name"@)
                && doc["info"@]->Object_0["name"@] is Text {
                doc["info"@]->Object_0["name"@]->Text_0
            } else {
                "unknown"@
            })
        }),
{
    let cutoff = registry.cutoff;
    lemma_is_read(url, fields);
    lemma_read(cutoff, body, doc, releases);
    lemma_gone(cutoff, body, doc, releases);
    lemma_handed_on(cutoff, body, doc, releases);
    let m = pypi::document_releases(json::Json::Object(doc))->Some_0;
    let gone = pypi::withheld(cutoff, pypi::uploads(m));
    assert(gone.contains(v));
    let after = registry::answered(Ecosystem::Python, registry, url, fields, body).0;
    assert(after.quarantined.drop_last() =~= registry.quarantined);
    if doc.dom().contains("urls"@) && doc["urls"@] is Array {
        let entries = doc["urls"@]->Array_0;
        let left = pypi::urls_left(entries, gone);
        let good = |entry: json::Json| pypi::entry_stays(entry, gone);
        listing::lemma_filter_has(entries, good);
        assert forall|i: int| 0 <= i < left.len() implies !names(#[trigger] left[i], v) by {
            lemma_names(left[i], v);
            assert(left.contains(left[i]));
            assert(good(left[i]));
        }
    }
}

/// Whatever is no release that is too new stays as it is, and is not recorded; so
/// does every member but the releases and the URLs, and none is added.
pub proof fn law_the_rest_stays(
    registry: registry::RegistryView,
    url: target::UrlView,
    fields: Map<Seq<char>, Seq<Seq<u8>>>,
    body: Seq<u8>,
    doc: Map<Seq<char>, json::Json>,
    releases: Map<Seq<char>, json::Json>,
    k: Seq<char>,
)
    requires
        is_read(url, fields),
        tells_of(body, doc, releases),
        releases.dom().contains(k) ==> !too_new(registry.cutoff, releases[k]->Array_0),
    ensures
        ({
            let (after, action) = registry::answered(
                Ecosystem::Python,
                registry,
                url,
                fields,
                body,
            );
            let out = registry::handed_on(Ecosystem::Python, registry.cutoff, body);
            &&& out is Object
            &&& out->Object_0.dom() == doc.dom()
            &&& forall|m: Seq<char>| #[trigger]
                doc.dom().contains(m) && m != "releases"@ && m != "urls"@ ==> out->Object_0[m]
                    == doc[m]
            &&& out->Object_0["releases"@] is Object
            &&& out->Object_0["releases"@]->Object_0.dom().contains(k) == releases.dom().contains(k)
            &&& releases.dom().contains(k) ==> out->Object_0["releases"@]->Object_0[k] == releases[k]
            &&& action is Rewrite ==> !after.quarantined.last().versions.contains(k)
        }),
{
    let cutoff = registry.cutoff;
    lemma_is_read(url, fields);
    lemma_read(cutoff, body, doc, releases);
    lemma_gone(cutoff, body, doc, releases);
    lemma_handed_on(cutoff, body, doc, releases);
    let m = pypi::document_releases(json::Json::Object(doc))->Some_0;
    let gone = pypi::withheld(cutoff, pypi::uploads(m));
    assert(!gone.contains(k)) by {
        if gone.contains(k) {
            assert(releases.dom().contains(k));
        }
    }
}

/// Of the URLs, those stay, in their order, that name no file of a release that is
/// too new; what is no list of URLs stays as it is.
pub proof fn law_urls(
    cutoff: int,
    body: Seq<u8>,
    doc: Map<Seq<char>, json::Json>,
    releases: Map<Seq<char>, json::Json>,
)
    requires
        tells_of(body, doc, releases),
        doc.dom().contains("urls"@),
    ensures
        registry::handed_on(Ecosystem::Python, cutoff, body)->Object_0["urls"@]
            == match doc["urls"@] {
            json::Json::Array(entries) => json::Json::Array(
                entries.filter(
                    |entry: json::Json|
                        forall|v: Seq<char>| #[trigger]
                            releases.dom().contains(v) && too_new(cutoff, releases[v]->Array_0)
                                ==> !names(entry, v),
                ),
            ),
            other => other,
        },
{
    lemma_gone(cutoff, body, doc, releases);
    lemma_handed_on(cutoff, body, doc, releases);
    let m = pypi::document_releases(json::Json::Object(doc))->Some_0;
    let gone = pypi::withheld(cutoff, pypi::uploads(m));
    let good = |entry: json::Json| pypi::entry_stays(entry, gone);
    let own = |entry: json::Json|
        forall|v: Seq<char>| #[trigger]
            releases.dom().contains(v) && too_new(cutoff, releases[v]->Array_0) ==> !names(
                entry,
                v,
            );
    assert forall|entry: json::Json| #[trigger] good(entry) == own(entry) by {
        if good(entry) {
            assert forall|v: Seq<char>| #[trigger]
                releases.dom().contains(v) && too_new(cutoff, releases[v]->Array_0) implies !names(
                entry,
                v,
            ) by {
                lemma_names(entry, v);
                assert(gone.contains(v));
            }
        } else {
            let v = pypi::entry_version(entry)->Some_0;
            assert(gone.contains(v));
            lemma_names(entry, v);
            assert(releases.dom().contains(v));
            assert(names(entry, v));
        }
    }
    assert(good =~= own);
}

/// Where nothing is too new, the answer passes as it is, is counted, and nothing
/// is recorded.
pub proof fn law_old_answers_pass(
    registry: registry::RegistryView,
    url: target::UrlView,
    fields: Map<Seq<char>, Seq<Seq<u8>>>,
    body: Seq<u8>,
    doc: Map<Seq<char>, json::Json>,
    releases: Map<Seq<char>, json::Json>,
)
    requires
        is_read(url, fields),
        tells_of(body, doc, releases),
        forall|v: Seq<char>| #[trigger]
            releases.dom().contains(v) ==> !too_new(registry.cutoff, releases[v]->Array_0),
    ensures
        registry::answered(Ecosystem::Python, registry, url, fields, body) == (
            registry::RegistryView {
                cutoff: registry.cutoff,
                checked: registry.checked + 1,
                quarantined: registry.quarantined,
            },
            registry::Action::Passthrough,
        ),
{
    let cutoff = registry.cutoff;
    lemma_is_read(url, fields);
    lemma_read(cutoff, body, doc, releases);
    lemma_gone(cutoff, body, doc, releases);
    let m = pypi::document_releases(json::Json::Object(doc))->Some_0;
    let gone = pypi::withheld(cutoff, pypi::uploads(m));
    if gone.len() > 0 {
        let v = gone[0];
        assert(gone.contains(v));
        assert(releases.dom().contains(v));
    }
}

/// What is recorded of a package names each version once.
pub proof fn law_recorded_once(
    registry: registry::RegistryView,
    url: target::UrlView,
    fields: Map<Seq<char>, Seq<Seq<u8>>>,
    body: Seq<u8>,
    doc: Map<Seq<char>, json::Json>,
    releases: Map<Seq<char>, json::Json>,
)
    requires
        is_read(url, fields),
        tells_of(body, doc, releases),
        registry::answered(Ecosystem::Python, registry, url, fields, body).1 is Rewrite,
    ensures
        ({
            let after = registry::answered(Ecosystem::Python, registry, url, fields, body).0;
            let versions = after.quarantined.last().versions;
            &&& versions.len() > 0
            &&& forall|i: int, j: int|
                0 <= i < j < versions.len() ==> (#[trigger] versions[i]) != (#[trigger] versions[j])
                    && order::text_le(versions[i], versions[j])
        }),
{
    lemma_is_read(url, fields);
    lemma_read(registry.cutoff, body, doc, releases);
    lemma_gone(registry.cutoff, body, doc, releases);
    let after = registry::answered(Ecosystem::Python, registry, url, fields, body).0;
    let versions = after.quarantined.last().versions;
    assert forall|i: int, j: int| 0 <= i < j < versions.len() implies (#[trigger] versions[i]) != (
    #[trigger] versions[j]) && order::text_le(versions[i], versions[j]) by {
        assert(order::text_lt(versions[i], versions[j]));
    }
}

/// What cannot be read is blocked and not counted: what is no JSON, and releases
/// some of which have something else than files. A document without releases
/// passes, and is not counted either.
pub proof fn law_unreadable_answers_are_blocked(
    registry: registry::RegistryView,
    url: target::UrlView,
    fields: Map<Seq<char>, Seq<Seq<u8>>>,
    body: Seq<u8>,
)
    requires
        is_read(url, fields),
    ensures
        match json::parsed_json(body) {
            None => registry::answered(Ecosystem::Python, registry, url, fields, body) == (
                registry,
                registry::Action::Block,
            ),
            Some(json::Json::Object(doc)) => if !doc.dom().contains("releases"@) {
                registry::answered(Ecosystem::Python, registry, url, fields, body) == (
                    registry,
                    registry::Action::Passthrough,
                )
            } else {
                doc["releases"@] !is Object || (exists|v: Seq<char>| #[trigger]
                    doc["releases"@]->Object_0.dom().contains(v) && !are_files(
                        doc["releases"@]->Object_0[v],
                    )) ==> registry::answered(Ecosystem::Python, registry, url, fields, body) == (
                    registry,
                    registry::Action::Block,
                )
            },
            Some(_) => registry::answered(Ecosystem::Python, registry, url, fields, body) == (
                registry,
                registry::Action::Passthrough,
            ),
        },
{
    lemma_is_read(url, fields);
    match json::parsed_json(body) {
        Some(json::Json::Object(doc)) => {
            if doc.dom().contains("releases"@) && doc["releases"@] is Object && exists|
                v: Seq<char>,
            | #[trigger]
                doc["releases"@]->Object_0.dom().contains(v) && !are_files(
                    doc["releases"@]->Object_0[v],
                ) {
                let m = doc["releases"@]->Object_0;
                let v = choose|v: Seq<char>| #[trigger]
                    m.dom().contains(v) && !are_files(m[v]);
                assert(pypi::files_of(m[v]) is None) by {
                    match m[v] {
                        json::Json::Array(a) => {
                            let i = choose|i: int| 0 <= i < a.len() && !is_file(#[trigger] a[i]);
                            law_files(a[i]);
                            assert(pypi::file_of(a[i]) is None);
                        },
                        _ => {},
                    }
                }
                assert(pypi::releases_of(doc["releases"@]) is None);
            }
        },
        _ => {},
    }
}

/// Metadata that says that it is HTML, or does not say that it is JSON, is blocked
/// and not counted.
pub proof fn law_only_json_is_read(
    registry: registry::RegistryView,
    url: target::UrlView,
    fields: Map<Seq<char>, Seq<Seq<u8>>>,
    body: Seq<u8>,
)
    requires
        registry::asks_for_metadata(Ecosystem::Python, url),
        !fields.dom().contains("content-type"@) || match headers::visible_text(
            fields["content-type"@][0],
        ) {
            Some(kind) => text::occurs(kind, "html"@) || !text::occurs(kind, "json"@),
            None => true,
        },
    ensures
        registry::answered(Ecosystem::Python, registry, url, fields, body) == (
            registry,
            registry::Action::Block,
        ),
{
    let nothing = Seq::<char>::empty();
    reveal_strlit("json");
    assert("json"@.len() == 4);
    assert(!text::occurs(nothing, "json"@)) by {
        if text::occurs(nothing, "json"@) {
            let at = choose|at: int| text::occurs_at(nothing, "json"@, at);
            assert(text::occurs_at(nothing, "json"@, at));
        }
    }
    assert(pypi::content_type(fields) == nothing || fields.dom().contains("content-type"@));
}

/// Metadata is asked for by the paths below `simple`, and by those below `pypi`
/// that end in `json`.
pub proof fn law_metadata_urls(url: target::UrlView, rest: Seq<char>)
    ensures
        url.path == seq!['/'] + rest ==> (registry::asks_for_metadata(Ecosystem::Python, url) <==> {
            let pieces = text::split_on(rest, '/');
            ||| pieces.len() >= 2 && pieces[0] == "simple"@
            ||| pieces.len() >= 3 && pieces[0] == "pypi"@ && pieces[pieces.len() - 1] == "json"@
        }),
        url.path.len() == 0 || url.path[0] != '/' ==> !registry::asks_for_metadata(
            Ecosystem::Python,
            url,
        ),
{
    if url.path == seq!['/'] + rest {
        assert(url.path.skip(1) =~= rest);
    }
}

} // verus!
