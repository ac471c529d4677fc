//! The Python registry.

use vstd::prelude::*;

use super::{
    arg, reject_compressed, InterceptDecision, QuarantinedPackage, RegistryState, RegistryStats,
    ResponseAction, ToolName,
};
use crate::headers;
use crate::instant;
use crate::instant::{parse_instant, CutoffChecker};
use crate::json;
use crate::listing;
use crate::order;
use crate::registry;
use crate::rule::Rules;
use crate::target;
use crate::target::{decoded_or_empty, Url};
use crate::text;
use crate::text::{after_last, find_from, mentions, range_text, same, strip_end, to_chars};

verus! {

/// Whether `pipx` installs something under this subcommand.
pub open spec fn pipx_installs(s: Seq<char>) -> bool {
    ||| s == "install"@
    ||| s == "run"@
    ||| s == "upgrade"@
    ||| s == "upgrade-all"@
    ||| s == "inject"@
    ||| s == "reinstall"@
    ||| s == "reinstall-all"@
}

/// Whether `poetry` installs or resolves something under this subcommand.
pub open spec fn poetry_installs(s: Seq<char>) -> bool {
    s == "install"@ || s == "add"@ || s == "update"@ || s == "lock"@
}

/// Whether `uv` installs or resolves something under these arguments.
pub open spec fn uv_installs(args: Seq<Seq<char>>) -> bool {
    let first = registry::arg_at(args, 0);
    ||| first == "sync"@
    ||| first == "lock"@
    ||| first == "add"@
    ||| first == "pip"@ && registry::arg_at(args, 1) == "install"@
}

/// What to do with a call of a tool of the Python family. Other tools pass.
pub open spec fn decision(tool: ToolName, args: Seq<Seq<char>>) -> registry::Decision {
    let first = registry::arg_at(args, 0);
    let installs = match tool {
        ToolName::Uvx => true,
        ToolName::Pip | ToolName::Pip3 => first == "install"@,
        ToolName::Uv => uv_installs(args),
        ToolName::Pipx => pipx_installs(first),
        ToolName::Poetry => poetry_installs(first),
        _ => false,
    };
    if tool == ToolName::Uv && first == "run"@ {
        registry::Decision::Intercept(seq!["--frozen"@] + args)
    } else if installs {
        registry::Decision::Intercept(args)
    } else {
        registry::Decision::Passthrough(args)
    }
}

/// `run` is none of the other subcommands of `uv` that are intercepted.
pub proof fn lemma_uv_words_differ()
    ensures
        "run"@ != "sync"@,
        "run"@ != "lock"@,
        "run"@ != "add"@,
        "run"@ != "pip"@,
{
    reveal_strlit("run");
    reveal_strlit("sync");
    reveal_strlit("lock");
    reveal_strlit("add");
    reveal_strlit("pip");
    assert("run"@[0] == 'r');
    assert("sync"@[0] == 's');
    assert("lock"@[0] == 'l');
    assert("add"@[0] == 'a');
    assert("pip"@[0] == 'p');
}

/// What to do with a call of a tool of the Python family.
pub fn decide(tool: ToolName, args: Vec<String>) -> (r: InterceptDecision)
    ensures
        r@ == decision(tool, text::texts(args@)),
{
    proof {
        lemma_uv_words_differ();
    }
    let first = arg(&args, 0);
    let installs = match tool {
        ToolName::Uvx => true,
        ToolName::Pip | ToolName::Pip3 => same(first, "install"),
        ToolName::Uv => {
            if same(first, "run") {
                let mut hardened: Vec<String> = vec!["--frozen".to_string()];
                let mut rest = args;
                let ghost tail = rest@;
                hardened.append(&mut rest);
                assert(text::texts(hardened@) =~= seq!["--frozen"@] + text::texts(tail));
                return InterceptDecision::Intercept(hardened);
            }
            same(first, "sync") || same(first, "lock") || same(first, "add") || (same(first, "pip")
                && same(arg(&args, 1), "install"))
        },
        ToolName::Pipx => {
            same(first, "install") || same(first, "run") || same(first, "upgrade") || same(
                first,
                "upgrade-all",
            ) || same(first, "inject") || same(first, "reinstall") || same(first, "reinstall-all")
        },
        ToolName::Poetry => {
            same(first, "install") || same(first, "add") || same(first, "update") || same(
                first,
                "lock",
            )
        },
        _ => false,
    };
    if installs {
        InterceptDecision::Intercept(args)
    } else {
        InterceptDecision::Passthrough(args)
    }
}

/// The version that a part of a file name gives, if it gives one.
pub open spec fn given_version(part: Seq<char>) -> Option<Seq<char>> {
    if part == "latest"@ || part.len() == 0 {
        None
    } else {
        Some(part)
    }
}

/// The version in the name of a wheel without its ending: what stands between
/// the first hyphen and the second.
pub open spec fn wheel_version(base: Seq<char>) -> Option<Seq<char>> {
    let dash = text::position(base, '-');
    if dash == base.len() {
        None
    } else {
        let rest = base.skip(dash + 1);
        given_version(rest.take(text::position(rest, '-')))
    }
}

/// The version in the name of a source archive without its ending: what stands
/// behind the last hyphen.
pub open spec fn archive_version(stem: Seq<char>) -> Option<Seq<char>> {
    let dash = text::last_position(stem, '-');
    if dash < 0 {
        None
    } else {
        given_version(stem.skip(dash + 1))
    }
}

/// The endings of source archives and of the metadata beside them.
pub open spec fn archive_endings() -> Seq<Seq<char>> {
    seq![
        ".tar.gz.metadata"@,
        ".zip.metadata"@,
        ".tar.bz2.metadata"@,
        ".tar.xz.metadata"@,
        ".tar.gz"@,
        ".zip"@,
        ".tar.bz2"@,
        ".tar.xz"@,
    ]
}

/// The version in the name of a file that has one of these endings.
pub open spec fn version_before(filename: Seq<char>, endings: Seq<Seq<char>>) -> Option<Seq<char>>
    decreases endings.len(),
{
    if endings.len() == 0 {
        None
    } else if text::ends(filename, endings[0]) {
        archive_version(filename.take(filename.len() - endings[0].len()))
    } else {
        version_before(filename, endings.drop_first())
    }
}

/// The version in the name of a file.
pub open spec fn filename_version(filename: Seq<char>) -> Option<Seq<char>> {
    if text::ends(filename, ".whl.metadata"@) {
        wheel_version(filename.take(filename.len() - ".whl.metadata"@.len()))
    } else if text::ends(filename, ".whl"@) {
        wheel_version(filename.take(filename.len() - ".whl"@.len()))
    } else {
        version_before(filename, archive_endings())
    }
}

/// The file name that a URL ends with, its percent escapes resolved.
pub open spec fn url_filename(url: target::UrlView) -> Option<Seq<char>> {
    match target::segments_of(url.path) {
        Some(segments) => Some(
            match target::percent_decoded(segments.last()) {
                Some(s) => s,
                None => seq![],
            },
        ),
        None => None,
    }
}

/// The version of the file that a URL leads to.
pub open spec fn url_version(url: target::UrlView) -> Option<Seq<char>> {
    match url_filename(url) {
        Some(filename) => filename_version(filename),
        None => None,
    }
}

fn version_given(part: String) -> (r: Option<String>)
    ensures
        target::text_view(r) == given_version(part@),
{
    if same(part.as_str(), "latest") || part.as_str().is_empty() {
        None
    } else {
        Some(part)
    }
}

/// The version in the name of a wheel without its ending.
pub fn parse_wheel_version(base: &str) -> (r: Option<String>)
    ensures
        target::text_view(r) == wheel_version(base@),
{
    let chars = to_chars(base);
    let first = find_from(&chars, 0, '-');
    assert(chars@.skip(0) =~= chars@);
    if first == chars.len() {
        return None;
    }
    let second = find_from(&chars, first + 1, '-');
    let version = range_text(&chars, first + 1, second);
    assert(version@ =~= chars@.skip(first + 1).take(second - first - 1));
    version_given(version)
}

fn parse_archive_version(stem: &str) -> (r: Option<String>)
    ensures
        target::text_view(r) == archive_version(stem@),
{
    let chars = to_chars(stem);
    let start = after_last(&chars, '-');
    if start == 0 {
        return None;
    }
    let version = range_text(&chars, start, chars.len());
    assert(version@ =~= chars@.skip(start as int));
    version_given(version)
}

/// The version in the name of a file.
pub fn parse_version_from_filename(filename: &str) -> (r: Option<String>)
    ensures
        target::text_view(r) == filename_version(filename@),
{
    match strip_end(filename, ".whl.metadata") {
        Some(stem) => {
            return parse_wheel_version(stem.as_str());
        },
        None => {},
    }
    match strip_end(filename, ".whl") {
        Some(stem) => {
            return parse_wheel_version(stem.as_str());
        },
        None => {},
    }
    let endings: Vec<&'static str> = vec![
        ".tar.gz.metadata",
        ".zip.metadata",
        ".tar.bz2.metadata",
        ".tar.xz.metadata",
        ".tar.gz",
        ".zip",
        ".tar.bz2",
        ".tar.xz",
    ];
    let mut i: usize = 0;
    proof {
        assert(archive_endings().skip(0) =~= archive_endings());
    }
    while i < endings.len()
        invariant
            i <= endings@.len() == archive_endings().len(),
            forall|j: int| 0 <= j < endings@.len() ==> (#[trigger] endings@[j])@ == archive_endings()[j],
            !text::ends(filename@, ".whl.metadata"@),
            !text::ends(filename@, ".whl"@),
            version_before(filename@, archive_endings()) == version_before(
                filename@,
                archive_endings().skip(i as int),
            ),
        decreases endings.len() - i,
    {
        proof {
            let left = archive_endings().skip(i as int);
            assert(left.drop_first() =~= archive_endings().skip(i + 1));
            assert(left[0] == endings@[i as int]@);
        }
        match strip_end(filename, endings[i]) {
            Some(stem) => {
                return parse_archive_version(stem.as_str());
            },
            None => {},
        }
        i += 1;
    }
    None
}

/// The digests of a file.
#[derive(Debug, Clone)]
pub struct Digests {
    pub sha256: Option<String>,
    pub md5: Option<String>,
    pub blake2b_256: Option<String>,
}

/// A file of a release.
#[derive(Debug, Clone)]
pub struct PyPIFile {
    pub filename: String,
    pub upload_time_iso_8601: Option<String>,
    pub digests: Option<Digests>,
    pub md5_digest: Option<String>,
    pub yanked: bool,
    pub yanked_reason: Option<String>,
    pub packagetype: String,
    pub size: Option<i64>,
    pub requires_python: Option<String>,
}

/// The digests of a file.
pub struct DigestsView {
    pub sha256: Option<Seq<char>>,
    pub md5: Option<Seq<char>>,
    pub blake2b_256: Option<Seq<char>>,
}

/// A file of a release.
pub struct FileView {
    pub filename: Seq<char>,
    pub upload_time: Option<Seq<char>>,
    pub digests: Option<DigestsView>,
    pub md5_digest: Option<Seq<char>>,
    pub yanked: bool,
    pub yanked_reason: Option<Seq<char>>,
    pub packagetype: Seq<char>,
    pub size: Option<i64>,
    pub requires_python: Option<Seq<char>>,
}

impl View for Digests {
    type V = DigestsView;

    open spec fn view(&self) -> DigestsView {
        DigestsView {
            sha256: target::text_view(self.sha256),
            md5: target::text_view(self.md5),
            blake2b_256: target::text_view(self.blake2b_256),
        }
    }
}

impl View for PyPIFile {
    type V = FileView;

    open spec fn view(&self) -> FileView {
        FileView {
            filename: self.filename@,
            upload_time: target::text_view(self.upload_time_iso_8601),
            digests: match self.digests {
                Some(d) => Some(d@),
                None => None,
            },
            md5_digest: target::text_view(self.md5_digest),
            yanked: self.yanked,
            yanked_reason: target::text_view(self.yanked_reason),
            packagetype: self.packagetype@,
            size: self.size,
            requires_python: target::text_view(self.requires_python),
        }
    }
}

/// The files that the records stand for.
pub open spec fn file_views(v: Seq<PyPIFile>) -> Seq<FileView> {
    v.map_values(|f: PyPIFile| f@)
}

/// The text under a name, where it may be missing or null. There is no reading
/// of anything else.
pub open spec fn optional_text(doc: json::Json, name: Seq<char>) -> Option<Option<Seq<char>>> {
    match json::member(doc, name) {
        None => Some(None),
        Some(json::Json::Null) => Some(None),
        Some(json::Json::Text(s)) => Some(Some(s)),
        Some(_) => None,
    }
}

/// The 64-bit integer under a name, where it may be missing or null.
pub open spec fn optional_integer(doc: json::Json, name: Seq<char>) -> Option<Option<i64>> {
    match json::member(doc, name) {
        None => Some(None),
        Some(json::Json::Null) => Some(None),
        Some(json::Json::Integer(n)) => if i64::MIN <= n <= i64::MAX {
            Some(Some(n as i64))
        } else {
            None
        },
        Some(_) => None,
    }
}

/// The Boolean under a name, false where it is missing.
pub open spec fn flag(doc: json::Json, name: Seq<char>) -> Option<bool> {
    match json::member(doc, name) {
        None => Some(false),
        Some(json::Json::Bool(b)) => Some(b),
        Some(_) => None,
    }
}

/// The digests that an object gives.
pub open spec fn digests_of(doc: json::Json) -> Option<DigestsView> {
    match (
        optional_text(doc, "sha256"@),
        optional_text(doc, "md5"@),
        optional_text(doc, "blake2b_256"@),
    ) {
        (Some(sha256), Some(md5), Some(blake2b_256)) if doc is Object => Some(
            DigestsView { sha256, md5, blake2b_256 },
        ),
        _ => None,
    }
}

/// The digests under a name, where they may be missing or null.
pub open spec fn optional_digests(doc: json::Json, name: Seq<char>) -> Option<Option<DigestsView>> {
    match json::member(doc, name) {
        None => Some(None),
        Some(json::Json::Null) => Some(None),
        Some(x) => match digests_of(x) {
            Some(d) => Some(Some(d)),
            None => None,
        },
    }
}

/// The file that an object describes, if every member that a file has is there
/// in its kind.
pub open spec fn file_of(doc: json::Json) -> Option<FileView> {
    let filename = json::as_text(json::member(doc, "filename"@));
    let upload_time = optional_text(doc, "upload_time_iso_8601"@);
    let digests = optional_digests(doc, "digests"@);
    let md5_digest = optional_text(doc, "md5_digest"@);
    let yanked = flag(doc, "yanked"@);
    let yanked_reason = optional_text(doc, "yanked_reason"@);
    let packagetype = json::as_text(json::member(doc, "packagetype"@));
    let size = optional_integer(doc, "size"@);
    let requires_python = optional_text(doc, "requires_python"@);
    if doc is Object && filename is Some && upload_time is Some && digests is Some && md5_digest is Some
        && yanked is Some && yanked_reason is Some && packagetype is Some && size is Some
        && requires_python is Some {
        Some(
            FileView {
                filename: filename->Some_0,
                upload_time: upload_time->Some_0,
                digests: digests->Some_0,
                md5_digest: md5_digest->Some_0,
                yanked: yanked->Some_0,
                yanked_reason: yanked_reason->Some_0,
                packagetype: packagetype->Some_0,
                size: size->Some_0,
                requires_python: requires_python->Some_0,
            },
        )
    } else {
        None
    }
}

/// The files that an array describes, if each of its elements describes one.
pub open spec fn files_of(doc: json::Json) -> Option<Seq<FileView>> {
    match doc {
        json::Json::Array(a) => if forall|i: int|
            0 <= i < a.len() ==> file_of(#[trigger] a[i]) is Some {
            Some(a.map_values(|x: json::Json| file_of(x)->Some_0))
        } else {
            None
        },
        _ => None,
    }
}

/// The releases that an object describes, if each of its members is an array of files.
pub open spec fn releases_of(doc: json::Json) -> Option<Map<Seq<char>, Seq<FileView>>> {
    match doc {
        json::Json::Object(m) => if forall|k: Seq<char>| #[trigger]
            m.dom().contains(k) ==> files_of(m[k]) is Some {
            Some(
                Map::new(|k: Seq<char>| m.dom().contains(k), |k: Seq<char>| files_of(m[k])->Some_0),
            )
        } else {
            None
        },
        _ => None,
    }
}

fn read_optional_text(doc: &serde_json::Value, name: &str) -> (r: Option<Option<String>>)
    ensures
        match optional_text(json::json_of(*doc), name@) {
            Some(s) => r is Some && target::text_view(r->Some_0) == s,
            None => r is None,
        },
{
    match json::get(doc, name) {
        None => Some(None),
        Some(x) => if json::is_null(x) {
            Some(None)
        } else {
            match json::as_str(x) {
                Some(s) => Some(Some(s.to_string())),
                None => None,
            }
        },
    }
}

fn read_text(doc: &serde_json::Value, name: &str) -> (r: Option<String>)
    ensures
        target::text_view(r) == json::as_text(json::member(json::json_of(*doc), name@)),
{
    match json::get(doc, name) {
        Some(x) => match json::as_str(x) {
            Some(s) => Some(s.to_string()),
            None => None,
        },
        None => None,
    }
}

fn read_optional_integer(doc: &serde_json::Value, name: &str) -> (r: Option<Option<i64>>)
    ensures
        r == optional_integer(json::json_of(*doc), name@),
{
    match json::get(doc, name) {
        None => Some(None),
        Some(x) => if json::is_null(x) {
            Some(None)
        } else {
            match json::as_i64(x) {
                Some(n) => Some(Some(n)),
                None => None,
            }
        },
    }
}

fn read_flag(doc: &serde_json::Value, name: &str) -> (r: Option<bool>)
    ensures
        r == flag(json::json_of(*doc), name@),
{
    match json::get(doc, name) {
        None => Some(false),
        Some(x) => json::as_bool(x),
    }
}

fn read_optional_digests(doc: &serde_json::Value, name: &str) -> (r: Option<Option<Digests>>)
    ensures
        match optional_digests(json::json_of(*doc), name@) {
            Some(d) => r is Some && match d {
                Some(d) => r->Some_0 is Some && r->Some_0->Some_0@ == d,
                None => r->Some_0 is None,
            },
            None => r is None,
        },
{
    match json::get(doc, name) {
        None => Some(None),
        Some(x) => if json::is_null(x) {
            Some(None)
        } else if !json::is_object(x) {
            None
        } else {
            match (
                read_optional_text(x, "sha256"),
                read_optional_text(x, "md5"),
                read_optional_text(x, "blake2b_256"),
            ) {
                (Some(sha256), Some(md5), Some(blake2b_256)) => Some(
                    Some(Digests { sha256, md5, blake2b_256 }),
                ),
                _ => None,
            }
        },
    }
}

/// Reads the file that an object describes.
fn read_file(doc: &serde_json::Value) -> (r: Option<PyPIFile>)
    ensures
        match file_of(json::json_of(*doc)) {
            Some(f) => r is Some && r->Some_0@ == f,
            None => r is None,
        },
{
    if !json::is_object(doc) {
        return None;
    }
    let filename = read_text(doc, "filename");
    let upload_time = read_optional_text(doc, "upload_time_iso_8601");
    let digests = read_optional_digests(doc, "digests");
    let md5_digest = read_optional_text(doc, "md5_digest");
    let yanked = read_flag(doc, "yanked");
    let yanked_reason = read_optional_text(doc, "yanked_reason");
    let packagetype = read_text(doc, "packagetype");
    let size = read_optional_integer(doc, "size");
    let requires_python = read_optional_text(doc, "requires_python");
    match (filename, upload_time, digests, md5_digest) {
        (Some(filename), Some(upload_time_iso_8601), Some(digests), Some(md5_digest)) => {
            match (yanked, yanked_reason, packagetype, size, requires_python) {
                (
                    Some(yanked),
                    Some(yanked_reason),
                    Some(packagetype),
                    Some(size),
                    Some(requires_python),
                ) => Some(
                    PyPIFile {
                        filename,
                        upload_time_iso_8601,
                        digests,
                        md5_digest,
                        yanked,
                        yanked_reason,
                        packagetype,
                        size,
                        requires_python,
                    },
                ),
                _ => None,
            }
        },
        _ => None,
    }
}

/// Reads the files that an array describes.
fn read_files(doc: &serde_json::Value) -> (r: Option<Vec<PyPIFile>>)
    ensures
        match files_of(json::json_of(*doc)) {
            Some(f) => r is Some && file_views(r->Some_0@) == f,
            None => r is None,
        },
{
    match json::as_array(doc) {
        None => None,
        Some(elements) => {
            let ghost all = json::jsons(elements@);
            let mut out: Vec<PyPIFile> = Vec::new();
            let mut i: usize = 0;
            while i < elements.len()
                invariant
                    i <= elements@.len(),
                    all == json::jsons(elements@),
                    json::json_of(*doc) == json::Json::Array(all),
                    out@.len() == i,
                    forall|j: int| 0 <= j < i ==> file_of(all[j]) == Some((#[trigger] out@[j])@),
                decreases elements.len() - i,
            {
                assert(all[i as int] == json::json_of(elements@[i as int]));
                match read_file(&elements[i]) {
                    Some(f) => {
                        out.push(f);
                    },
                    None => {
                        return None;
                    },
                }
                i += 1;
            }
            proof {
                assert forall|j: int| 0 <= j < all.len() implies file_of(#[trigger] all[j]) is Some by {
                    assert(file_of(all[j]) == Some(out@[j]@));
                }
                let want = all.map_values(|x: json::Json| file_of(x)->Some_0);
                assert forall|j: int| 0 <= j < all.len() implies file_views(out@)[j] == want[j] by {
                    assert(file_of(all[j]) == Some(out@[j]@));
                }
                assert(file_views(out@) =~= want);
            }
            Some(out)
        },
    }
}

/// The releases that the records stand for.
pub open spec fn release_views(v: Seq<(String, Vec<PyPIFile>)>) -> Seq<(Seq<char>, Seq<FileView>)> {
    v.map_values(|p: (String, Vec<PyPIFile>)| (p.0@, file_views(p.1@)))
}

/// Reads the releases that an object describes, in ascending order of the versions.
fn read_releases(doc: &serde_json::Value) -> (r: Option<Vec<(String, Vec<PyPIFile>)>>)
    ensures
        match releases_of(json::json_of(*doc)) {
            Some(m) => r is Some && listing::lists(release_views(r->Some_0@), m),
            None => r is None,
        },
{
    match json::keys(doc) {
        None => None,
        Some(versions) => {
            let ghost o = json::json_of(*doc)->Object_0;
            let ghost all = text::texts(versions@);
            let mut out: Vec<(String, Vec<PyPIFile>)> = Vec::new();
            let mut i: usize = 0;
            while i < versions.len()
                invariant
                    i <= versions@.len(),
                    all == text::texts(versions@),
                    json::json_of(*doc) == json::Json::Object(o),
                    forall|k: Seq<char>| all.contains(k) <==> #[trigger] o.dom().contains(k),
                    out@.len() == i,
                    forall|j: int|
                        0 <= j < i ==> (#[trigger] out@[j]).0@ == all[j] && files_of(o[all[j]]) == Some(
                            file_views(out@[j].1@),
                        ),
                decreases versions.len() - i,
            {
                let ghost k = all[i as int];
                assert(all.contains(k));
                assert(o.dom().contains(k));
                let files = match json::get(doc, versions[i].as_str()) {
                    Some(x) => read_files(x),
                    None => None,
                };
                match files {
                    Some(f) => {
                        out.push((versions[i].clone(), f));
                    },
                    None => {
                        return None;
                    },
                }
                i += 1;
            }
            proof {
                let s = release_views(out@);
                listing::lemma_firsts(s);
                assert(listing::firsts(s) =~= all) by {
                    assert forall|j: int| 0 <= j < all.len() implies listing::firsts(s)[j] == all[j] by {
                        assert(out@[j].0@ == all[j]);
                    }
                }
                assert forall|k: Seq<char>| #[trigger] o.dom().contains(k) implies files_of(
                    o[k],
                ) is Some by {
                    let j = choose|j: int| 0 <= j < all.len() && all[j] == k;
                    assert(out@[j].0@ == all[j]);
                }
                let m = releases_of(json::json_of(*doc))->Some_0;
                assert forall|j: int| 0 <= j < s.len() implies m.dom().contains((#[trigger] s[j]).0)
                    && m[s[j].0] == s[j].1 by {
                    assert(out@[j].0@ == all[j]);
                    assert(all.contains(all[j]));
                }
                assert(listing::lists(s, m));
            }
            Some(out)
        },
    }
}

/// The instants at which files were uploaded, where they are known.
pub open spec fn upload_instants(files: Seq<FileView>) -> Seq<Option<int>> {
    files.map_values(
        |f: FileView|
            match f.upload_time {
                Some(s) => instant::instant_of(s),
                None => None,
            },
    )
}

/// The latest of the instants that are known.
pub open spec fn latest(instants: Seq<Option<int>>) -> Option<int>
    decreases instants.len(),
{
    if instants.len() == 0 {
        None
    } else {
        match (latest(instants.drop_last()), instants.last()) {
            (Some(a), Some(b)) => Some(if a < b {
                b
            } else {
                a
            }),
            (Some(a), None) => Some(a),
            (None, b) => b,
        }
    }
}

/// The latest instant is one of those known, and none of them is later.
pub proof fn lemma_latest(instants: Seq<Option<int>>)
    ensures
        match latest(instants) {
            Some(t) => {
                &&& instants.contains(Some(t))
                &&& forall|i: int|
                    0 <= i < instants.len() ==> match #[trigger] instants[i] {
                        Some(u) => u <= t,
                        None => true,
                    }
            },
            None => forall|i: int| 0 <= i < instants.len() ==> (#[trigger] instants[i]) is None,
        },
    decreases instants.len(),
{
    if instants.len() > 0 {
        let rest = instants.drop_last();
        lemma_latest(rest);
        assert(forall|i: int| 0 <= i < rest.len() ==> #[trigger] instants[i] == rest[i]);
        assert(instants[instants.len() - 1] == instants.last());
        if latest(rest) is Some {
            let j = choose|j: int| 0 <= j < rest.len() && rest[j] == latest(rest);
            assert(instants[j] == latest(rest));
        }
    }
}

/// Instants as mathematical numbers.
pub open spec fn instants_view(v: Seq<Option<i128>>) -> Seq<Option<int>> {
    v.map_values(|t: Option<i128>| instant::instant_view(t))
}

/// Versions, and for each the instants at which its files were uploaded.
pub open spec fn uploads_view(v: Seq<(String, Vec<Option<i128>>)>) -> Seq<
    (Seq<char>, Seq<Option<int>>),
> {
    v.map_values(|p: (String, Vec<Option<i128>>)| (p.0@, instants_view(p.1@)))
}

/// The releases of a package with the instants of their files, in ascending
/// order of the versions.
pub open spec fn uploads(releases: Map<Seq<char>, Seq<FileView>>) -> Seq<
    (Seq<char>, Seq<Option<int>>),
> {
    listing::listing(releases).map_values(
        |p: (Seq<char>, Seq<FileView>)| (p.0, upload_instants(p.1)),
    )
}

/// Whether a release with these files is held back: one without files never is.
pub open spec fn held_back(cutoff: int, instants: Seq<Option<int>>) -> bool {
    instants.len() > 0 && !instant::old_enough(cutoff, latest(instants))
}

/// The versions among those uploaded that are too new, or of no known time.
pub open spec fn withheld(cutoff: int, uploaded: Seq<(Seq<char>, Seq<Option<int>>)>) -> Seq<
    Seq<char>,
> {
    listing::firsts(
        uploaded.filter(|p: (Seq<char>, Seq<Option<int>>)| held_back(cutoff, p.1)),
    )
}

/// The latest of the instants that are known.
pub fn latest_instant(instants: &Vec<Option<i128>>) -> (r: Option<i128>)
    ensures
        instant::instant_view(r) == latest(instants_view(instants@)),
{
    let ghost all = instants_view(instants@);
    let mut best: Option<i128> = None;
    let mut i: usize = 0;
    while i < instants.len()
        invariant
            i <= instants@.len(),
            all == instants_view(instants@),
            instant::instant_view(best) == latest(all.take(i as int)),
        decreases instants.len() - i,
    {
        assert(all.take(i + 1).drop_last() =~= all.take(i as int));
        assert(all.take(i + 1).last() == instant::instant_view(instants@[i as int]));
        match instants[i] {
            Some(t) => match best {
                Some(b) => {
                    if b < t {
                        best = Some(t);
                    }
                },
                None => {
                    best = Some(t);
                },
            },
            None => {},
        }
        i += 1;
    }
    assert(all.take(instants@.len() as int) =~= all);
    best
}

fn read_instants(files: &Vec<PyPIFile>) -> (r: Vec<Option<i128>>)
    ensures
        instants_view(r@) == upload_instants(file_views(files@)),
{
    let ghost want = upload_instants(file_views(files@));
    let mut out: Vec<Option<i128>> = Vec::new();
    let mut i: usize = 0;
    while i < files.len()
        invariant
            i <= files@.len(),
            want == upload_instants(file_views(files@)),
            instants_view(out@) == want.take(i as int),
        decreases files.len() - i,
    {
        let t = match &files[i].upload_time_iso_8601 {
            Some(s) => parse_instant(s.as_str()),
            None => None,
        };
        let ghost before = instants_view(out@);
        out.push(t);
        assert(instants_view(out@) =~= before.push(want[i as int]));
        assert(want.take(i + 1) =~= before.push(want[i as int]));
        i += 1;
    }
    assert(want.take(files@.len() as int) =~= want);
    out
}

fn read_uploads(releases: &Vec<(String, Vec<PyPIFile>)>) -> (r: Vec<(String, Vec<Option<i128>>)>)
    ensures
        uploads_view(r@) == release_views(releases@).map_values(
            |p: (Seq<char>, Seq<FileView>)| (p.0, upload_instants(p.1)),
        ),
{
    let ghost want = release_views(releases@).map_values(
        |p: (Seq<char>, Seq<FileView>)| (p.0, upload_instants(p.1)),
    );
    let mut out: Vec<(String, Vec<Option<i128>>)> = Vec::new();
    let mut i: usize = 0;
    while i < releases.len()
        invariant
            i <= releases@.len(),
            want == release_views(releases@).map_values(
                |p: (Seq<char>, Seq<FileView>)| (p.0, upload_instants(p.1)),
            ),
            uploads_view(out@) == want.take(i as int),
        decreases releases.len() - i,
    {
        let ghost before = uploads_view(out@);
        out.push((releases[i].0.clone(), read_instants(&releases[i].1)));
        assert(uploads_view(out@) =~= before.push(want[i as int]));
        assert(want.take(i + 1) =~= before.push(want[i as int]));
        i += 1;
    }
    assert(want.take(releases@.len() as int) =~= want);
    out
}

/// The versions among those uploaded that are too new, or of no known time.
pub fn withheld_versions(
    checker: &CutoffChecker,
    uploaded: &Vec<(String, Vec<Option<i128>>)>,
) -> (r: Vec<String>)
    ensures
        text::texts(r@) == withheld(checker.spec_cutoff(), uploads_view(uploaded@)),
{
    let ghost all = uploads_view(uploaded@);
    let ghost bad = |p: (Seq<char>, Seq<Option<int>>)| held_back(checker.spec_cutoff(), p.1);
    let mut out: Vec<String> = Vec::new();
    let mut i: usize = 0;
    proof {
        listing::lemma_filter_ends(all, bad);
        assert(text::texts(out@) =~= listing::firsts(all.take(0).filter(bad)));
    }
    while i < uploaded.len()
        invariant
            i <= uploaded@.len(),
            all == uploads_view(uploaded@),
            bad == (|p: (Seq<char>, Seq<Option<int>>)| held_back(checker.spec_cutoff(), p.1)),
            text::texts(out@) == listing::firsts(all.take(i as int).filter(bad)),
        decreases uploaded.len() - i,
    {
        let instants = &uploaded[i].1;
        proof {
            listing::lemma_filter_step(all, i as int, bad);
        }
        let ghost before = text::texts(out@);
        let ghost kept = all.take(i as int).filter(bad);
        if instants.len() > 0 && !checker.is_old_enough(latest_instant(instants)) {
            out.push(uploaded[i].0.clone());
            assert(text::texts(out@) =~= before.push(all[i as int].0));
            assert(listing::firsts(kept.push(all[i as int])) =~= listing::firsts(kept).push(
                all[i as int].0,
            ));
        }
        i += 1;
    }
    proof {
        listing::lemma_filter_ends(all, bad);
    }
    out
}

/// The document without the members of these names, if it is an object.
pub open spec fn object_without(doc: json::Json, removed: Seq<Seq<char>>) -> json::Json {
    match doc {
        json::Json::Object(m) => json::Json::Object(listing::without(m, removed)),
        other => other,
    }
}

/// The version of the file that an entry of `urls` names.
pub open spec fn entry_version(entry: json::Json) -> Option<Seq<char>> {
    let filename = match json::as_text(json::member(entry, "filename"@)) {
        Some(s) => s,
        None => seq![],
    };
    match target::url_of("https://files.pythonhosted.org/packages/"@ + filename) {
        Some(url) => url_version(url),
        None => None,
    }
}

/// Whether an entry of `urls` stays: it names no file of a withheld version.
pub open spec fn entry_stays(entry: json::Json, removed: Seq<Seq<char>>) -> bool {
    match entry_version(entry) {
        Some(v) => !removed.contains(v),
        None => true,
    }
}

/// The entries of `urls` that stay.
pub open spec fn urls_left(entries: Seq<json::Json>, removed: Seq<Seq<char>>) -> Seq<json::Json> {
    entries.filter(|entry: json::Json| entry_stays(entry, removed))
}

/// The document with another member under a name that it has.
pub open spec fn with_member(doc: json::Json, name: Seq<char>, value: json::Json) -> json::Json {
    json::Json::Object(doc->Object_0.insert(name, value))
}

/// The document without these versions among its releases.
pub open spec fn releases_pruned(doc: json::Json, removed: Seq<Seq<char>>) -> json::Json {
    match json::member(doc, "releases"@) {
        Some(releases) => with_member(doc, "releases"@, object_without(releases, removed)),
        None => doc,
    }
}

/// The document without the files of these versions among its URLs.
pub open spec fn urls_pruned(doc: json::Json, removed: Seq<Seq<char>>) -> json::Json {
    match json::member(doc, "urls"@) {
        Some(json::Json::Array(entries)) => with_member(
            doc,
            "urls"@,
            json::Json::Array(urls_left(entries, removed)),
        ),
        _ => doc,
    }
}

/// The document without these versions.
pub open spec fn pruned(doc: json::Json, removed: Seq<Seq<char>>) -> json::Json {
    urls_pruned(releases_pruned(doc, removed), removed)
}

/// A bounded document stays so without some of the versions.
proof fn lemma_pruned_is_bounded(doc: json::Json, removed: Seq<Seq<char>>)
    requires
        json::bounded(doc, 127),
    ensures
        json::bounded(pruned(doc, removed), 127),
{
    let part = releases_pruned(doc, removed);
    match json::member(doc, "releases"@) {
        Some(releases) => {
            let all = doc->Object_0;
            assert(all.dom().contains("releases"@));
            match releases {
                json::Json::Object(m) => {
                    json::lemma_bounded_submap(m, listing::without(m, removed), 126);
                },
                _ => {},
            }
            json::lemma_bounded_insert(all, "releases"@, object_without(releases, removed), 127);
        },
        None => {},
    }
    match json::member(part, "urls"@) {
        Some(json::Json::Array(entries)) => {
            let all = part->Object_0;
            assert(all.dom().contains("urls"@));
            json::lemma_bounded_filter(
                entries,
                |entry: json::Json| entry_stays(entry, removed),
                126,
            );
            json::lemma_bounded_insert(
                all,
                "urls"@,
                json::Json::Array(urls_left(entries, removed)),
                127,
            );
        },
        _ => {},
    }
}

/// The name of the package that a document describes.
pub open spec fn package_name(doc: json::Json) -> Seq<char> {
    match json::member(doc, "info"@) {
        Some(info) => match json::as_text(json::member(info, "name"@)) {
            Some(name) => name,
            None => "unknown"@,
        },
        None => "unknown"@,
    }
}

fn remove_members(doc: &mut serde_json::Value, removed: &Vec<String>)
    ensures
        json::json_of(*final(doc)) == object_without(
            json::json_of(*old(doc)),
            text::texts(removed@),
        ),
{
    let ghost before = json::json_of(*doc);
    let ghost gone = text::texts(removed@);
    let mut i: usize = 0;
    proof {
        if before is Object {
            assert(listing::without(before->Object_0, gone.take(0)) =~= before->Object_0);
        }
    }
    while i < removed.len()
        invariant
            i <= removed@.len(),
            gone == text::texts(removed@),
            json::json_of(*doc) == object_without(before, gone.take(i as int)),
        decreases removed.len() - i,
    {
        json::remove(doc, removed[i].as_str());
        proof {
            let a = gone.take(i as int);
            let b = gone.take(i + 1);
            let k = gone[i as int];
            assert(b =~= a.push(k));
            assert forall|x: Seq<char>| b.contains(x) <==> a.contains(x) || x == k by {
                if a.contains(x) {
                    let j = choose|j: int| 0 <= j < a.len() && a[j] == x;
                    assert(b[j] == x);
                }
                assert(b[i as int] == k);
            }
            if before is Object {
                let m = before->Object_0;
                assert(listing::without(m, b) =~= listing::without(m, a).remove(k));
                if !listing::without(m, a).dom().contains(k) {
                    assert(listing::without(m, b) =~= listing::without(m, a));
                }
            }
        }
        i += 1;
    }
    assert(gone.take(removed@.len() as int) =~= gone);
}

fn read_entry_version(entry: &serde_json::Value) -> (r: Option<String>)
    ensures
        target::text_view(r) == entry_version(json::json_of(*entry)),
{
    let mut raw = "https://files.pythonhosted.org/packages/".to_string();
    match json::get(entry, "filename") {
        Some(x) => match json::as_str(x) {
            Some(filename) => {
                raw.append(filename);
            },
            None => {},
        },
        None => {},
    }
    assert(raw@ =~= "https://files.pythonhosted.org/packages/"@ + (match json::as_text(
        json::member(json::json_of(*entry), "filename"@),
    ) {
        Some(s) => s,
        None => seq![],
    }));
    match Url::parse(raw.as_str()) {
        Some(url) => PyPIRegistry::parse_version_from_url(&url),
        None => None,
    }
}

fn retain_entries(entries: &mut Vec<serde_json::Value>, removed: &Vec<String>)
    ensures
        json::jsons(final(entries)@) == urls_left(
            json::jsons(old(entries)@),
            text::texts(removed@),
        ),
{
    let ghost all = json::jsons(entries@);
    let ghost gone = text::texts(removed@);
    let ghost good = |entry: json::Json| entry_stays(entry, gone);
    let ghost mut seen: int = 0;
    let mut i: usize = 0;
    proof {
        listing::lemma_filter_ends(all, good);
        assert(all.take(0).filter(good) + all.skip(0) =~= all);
    }
    while i < entries.len()
        invariant
            0 <= seen <= all.len(),
            i <= entries@.len(),
            gone == text::texts(removed@),
            i == all.take(seen).filter(good).len(),
            json::jsons(entries@) == all.take(seen).filter(good) + all.skip(seen),
            good == (|entry: json::Json| entry_stays(entry, gone)),
        decreases entries.len() - i,
    {
        proof {
            listing::lemma_filter_step(all, seen, good);
            assert(json::jsons(entries@).len() == entries@.len());
            assert(json::jsons(entries@)[i as int] == json::json_of(entries@[i as int]));
            assert(json::jsons(entries@)[i as int] == all[seen]);
        }
        let ghost before = entries@;
        let stays = match read_entry_version(&entries[i]) {
            Some(version) => !text::listed(removed, version.as_str()),
            None => true,
        };
        if stays {
            i += 1;
            assert(json::jsons(entries@) =~= all.take(seen + 1).filter(good) + all.skip(seen + 1));
        } else {
            entries.remove(i);
            assert(json::jsons(entries@) =~= json::jsons(before).remove(i as int));
            assert(json::jsons(entries@) =~= all.take(seen + 1).filter(good) + all.skip(seen + 1));
        }
        proof {
            seen = seen + 1;
        }
    }
    proof {
        assert(json::jsons(entries@).len() == entries@.len());
        assert(seen == all.len());
        listing::lemma_filter_ends(all, good);
        assert(json::jsons(entries@) =~= all.filter(good));
    }
}

/// Takes versions out of a document.
fn prune(doc: &mut serde_json::Value, removed: &Vec<String>)
    ensures
        json::json_of(*final(doc)) == pruned(json::json_of(*old(doc)), text::texts(removed@)),
{
    let ghost first = json::json_of(*doc);
    match json::get_mut(doc, "releases") {
        Some(releases) => {
            remove_members(releases, removed);
        },
        None => {},
    }
    let ghost second = json::json_of(*doc);
    assert(second == releases_pruned(first, text::texts(removed@)));
    match json::get_mut(doc, "urls") {
        Some(urls) => match json::as_array_mut(urls) {
            Some(entries) => {
                retain_entries(entries, removed);
            },
            None => {},
        },
        None => {},
    }
    proof {
        if second is Object && json::member(second, "urls"@) is Some {
            let m = second->Object_0;
            assert(m.insert("urls"@, m["urls"@]) =~= m);
        }
    }
}

fn read_package_name(doc: &serde_json::Value) -> (r: String)
    ensures
        r@ == package_name(json::json_of(*doc)),
{
    match json::get(doc, "info") {
        Some(info) => match read_text(info, "name") {
            Some(name) => name,
            None => "unknown".to_string(),
        },
        None => "unknown".to_string(),
    }
}

/// Whether a URL asks for what the registry says of a package, not for a download.
pub open spec fn asks_for_metadata(url: target::UrlView) -> bool {
    match target::segments_of(url.path) {
        Some(segments) => {
            ||| segments.len() >= 2 && segments[0] == "simple"@
            ||| segments.len() >= 3 && segments[0] == "pypi"@ && segments.last() == "json"@
        },
        None => false,
    }
}

/// The hosts of the registry.
pub open spec fn hosts() -> Seq<Seq<char>> {
    seq!["pypi.org"@, "files.pythonhosted.org"@, "pypi.python.org"@, "pythonhosted.org"@]
}

/// The header fields of a request for metadata: it asks for the whole of it, uncompressed.
pub open spec fn prepared(fields: Map<Seq<char>, Seq<Seq<u8>>>) -> Map<Seq<char>, Seq<Seq<u8>>> {
    fields.remove("if-none-match"@).remove("if-modified-since"@).remove("accept-encoding"@)
}

/// The variables that send the tools through the proxy and let them trust it.
pub open spec fn proxy_variables(proxy_url: Seq<char>, ca_cert_path: Seq<char>) -> Seq<
    (Seq<char>, Seq<char>),
> {
    seq![
        ("HTTP_PROXY"@, proxy_url),
        ("HTTPS_PROXY"@, proxy_url),
        ("http_proxy"@, proxy_url),
        ("https_proxy"@, proxy_url),
        ("REQUESTS_CA_BUNDLE"@, ca_cert_path),
        ("SSL_CERT_FILE"@, ca_cert_path),
        ("PIP_CERT"@, ca_cert_path),
    ]
}

/// What the registry remembers once it has seen a package with these uploads, and
/// the document to hand on in place of what came, if versions were withheld.
pub open spec fn reviewed(
    registry: registry::RegistryView,
    doc: json::Json,
    uploaded: Seq<(Seq<char>, Seq<Option<int>>)>,
) -> (registry::RegistryView, Option<json::Json>) {
    let removed = withheld(registry.cutoff, uploaded);
    if removed.len() == 0 {
        (registry::RegistryView { checked: registry.checked + 1, ..registry }, None)
    } else {
        (
            registry::RegistryView {
                checked: registry.checked + 1,
                quarantined: registry.quarantined.push(
                    registry::Quarantined { name: package_name(doc), versions: removed },
                ),
                ..registry
            },
            Some(pruned(doc, removed)),
        )
    }
}

/// What the registry remembers of a JSON answer, and what becomes of the answer.
pub open spec fn answered_json(registry: registry::RegistryView, doc: Option<json::Json>) -> (
    registry::RegistryView,
    registry::Action,
) {
    match doc {
        None => (registry, registry::Action::Block),
        Some(doc) => match json::member(doc, "releases"@) {
            None => (registry, registry::Action::Passthrough),
            Some(releases) => match releases_of(releases) {
                None => (registry, registry::Action::Block),
                Some(releases) => {
                    let (after, left) = reviewed(registry, doc, uploads(releases));
                    match left {
                        Some(rest) => (
                            after,
                            registry::Action::Rewrite(json::rendered_json(rest)),
                        ),
                        None => (after, registry::Action::Passthrough),
                    }
                },
            },
        },
    }
}

/// What kind of content an answer says it has.
pub open spec fn content_type(fields: Map<Seq<char>, Seq<Seq<u8>>>) -> Seq<char> {
    match headers::field_text(fields, "content-type"@) {
        Some(s) => s,
        None => seq![],
    }
}

/// Whether the registry reads what an answer to a request for this URL holds.
pub open spec fn reads_body(url: target::UrlView, fields: Map<Seq<char>, Seq<Seq<u8>>>) -> bool {
    &&& asks_for_metadata(url)
    &&& !registry::is_compressed(fields)
    &&& !text::occurs(content_type(fields), "html"@)
    &&& text::occurs(content_type(fields), "json"@)
}

/// What the registry remembers of an answer, and what becomes of the answer.
pub open spec fn answered(
    registry: registry::RegistryView,
    url: target::UrlView,
    fields: Map<Seq<char>, Seq<Seq<u8>>>,
    doc: Option<json::Json>,
) -> (registry::RegistryView, registry::Action) {
    if !asks_for_metadata(url) {
        (registry, registry::Action::Passthrough)
    } else if registry::is_compressed(fields) {
        (registry, registry::Action::Block)
    } else if text::occurs(content_type(fields), "html"@) {
        (registry, registry::Action::Block)
    } else if text::occurs(content_type(fields), "json"@) {
        answered_json(registry, doc)
    } else {
        (registry, registry::Action::Block)
    }
}

/// Whether a registry counts a document, lets it pass, and withholds nothing of it.
pub open spec fn passed_again(registry: registry::RegistryView, doc: json::Json) -> bool {
    answered_json(registry, Some(doc)) == (
        registry::RegistryView { checked: registry.checked + 1, ..registry },
        registry::Action::Passthrough,
    )
}

/// Whether every registry with this cutoff counts a document and lets it pass,
/// whatever it has seen, and withholds nothing of it.
pub open spec fn passes_again(cutoff: int, doc: json::Json) -> bool {
    forall|later: registry::RegistryView|
        later.cutoff == cutoff ==> #[trigger] passed_again(later, doc)
}

/// The registry of the Python tools.
#[derive(Debug)]
pub struct PyPIRegistry {
    checker: CutoffChecker,
    state: RegistryState,
}

impl View for PyPIRegistry {
    type V = registry::RegistryView;

    closed spec fn view(&self) -> registry::RegistryView {
        registry::RegistryView {
            cutoff: self.checker.spec_cutoff(),
            checked: self.state.packages_checked as int,
            quarantined: registry::quarantined_views(self.state.quarantined@),
        }
    }
}

impl PyPIRegistry {
    /// A registry that withholds what is younger than the rules allow, by the
    /// clock of the machine. There is none if the rules reach back too far.
    pub fn new(rules: Rules) -> (r: Option<PyPIRegistry>)
        ensures
            exists|now: int|
                {
                    &&& instant::FIRST_INSTANT <= now <= instant::LAST_INSTANT
                    &&& match #[trigger] instant::hours_before(now, rules.age() as int) {
                        Some(t) => r is Some && r->Some_0@ == registry::fresh(t),
                        None => r is None,
                    }
                },
    {
        match CutoffChecker::new(rules.min_age_hours()) {
            Some(checker) => Some(PyPIRegistry::with_checker(checker)),
            None => None,
        }
    }

    /// A registry that withholds what the checker does not find old enough.
    pub fn with_checker(checker: CutoffChecker) -> (r: PyPIRegistry)
        ensures
            r@ == registry::fresh(checker.spec_cutoff()),
    {
        let r = PyPIRegistry { checker, state: RegistryState::new() };
        assert(registry::quarantined_views(r.state.quarantined@) =~= seq![]);
        r
    }

    /// Whether a URL asks for what the registry says of a package, not for a download.
    pub fn is_metadata_url(url: &Url) -> (r: bool)
        ensures
            r == asks_for_metadata(url@),
    {
        match url.path_segments() {
            Some(segments) => {
                let n = segments.len();
                assert(text::texts(segments@).last() == segments@[n - 1]@);
                assert(text::texts(segments@)[0] == segments@[0]@);
                (n >= 2 && same(segments[0].as_str(), "simple")) || (n >= 3 && same(
                    segments[0].as_str(),
                    "pypi",
                ) && same(segments[n - 1].as_str(), "json"))
            },
            None => false,
        }
    }

    /// The latest instant at which one of the files was uploaded.
    pub fn version_timestamp(files: &Vec<PyPIFile>) -> (r: Option<i128>)
        ensures
            instant::instant_view(r) == latest(upload_instants(file_views(files@))),
    {
        latest_instant(&read_instants(files))
    }

    /// The version of the file that a URL leads to.
    pub fn parse_version_from_url(url: &Url) -> (r: Option<String>)
        ensures
            target::text_view(r) == url_version(url@),
    {
        match url.path_segments() {
            Some(segments) => {
                let last: usize = segments.len() - 1;
                assert(text::texts(segments@).last() == segments@[last as int]@);
                let filename = decoded_or_empty(segments[last].as_str());
                parse_version_from_filename(filename.as_str())
            },
            None => None,
        }
    }

    /// The hosts of the registry.
    pub fn known_hosts(&self) -> (r: Vec<&'static str>)
        ensures
            r@.map_values(|s: &'static str| s@) == hosts(),
    {
        let r = vec!["pypi.org", "files.pythonhosted.org", "pypi.python.org", "pythonhosted.org"];
        assert(r@.map_values(|s: &'static str| s@) =~= hosts());
        r
    }

    /// Makes a request for metadata ask for the whole of it, uncompressed.
    pub fn prepare_request(&self, url: &Url, headers: &mut http::HeaderMap<http::HeaderValue>)
        ensures
            headers::fields_of(*final(headers)) == if asks_for_metadata(url@) {
                prepared(headers::fields_of(*old(headers)))
            } else {
                headers::fields_of(*old(headers))
            },
    {
        if !PyPIRegistry::is_metadata_url(url) {
            return;
        }
        proof {
            reveal_strlit("if-none-match");
            reveal_strlit("if-modified-since");
            reveal_strlit("accept-encoding");
        }
        headers::remove(headers, "if-none-match");
        headers::remove(headers, "if-modified-since");
        headers::remove(headers, "accept-encoding");
    }

    /// Counts a package with these uploads, and takes the versions that are too
    /// new out of its document, if there are any.
    pub fn review(
        &mut self,
        doc: serde_json::Value,
        uploaded: &Vec<(String, Vec<Option<i128>>)>,
    ) -> (r: Option<serde_json::Value>)
        requires
            old(self)@.checked < usize::MAX,
        ensures
            ({
                let (after, left) = reviewed(
                    old(self)@,
                    json::json_of(doc),
                    uploads_view(uploaded@),
                );
                &&& final(self)@ == after
                &&& match left {
                    Some(rest) => r is Some && json::json_of(r->Some_0) == rest,
                    None => r is None,
                }
            }),
    {
        let removed = withheld_versions(&self.checker, uploaded);
        self.state.packages_checked += 1;
        if removed.len() == 0 {
            return None;
        }
        let ghost before = registry::quarantined_views(self.state.quarantined@);
        let name = read_package_name(&doc);
        let mut rest = doc;
        prune(&mut rest, &removed);
        let package = QuarantinedPackage { name, quarantined_versions: removed };
        self.state.quarantined.push(package);
        assert(registry::quarantined_views(self.state.quarantined@) =~= before.push(package@));
        Some(rest)
    }

    /// Decides what becomes of a JSON answer. What is too new is taken out of
    /// it. One that cannot be read is withheld.
    pub fn handle_json_response(&mut self, body: &[u8]) -> (r: ResponseAction)
        requires
            old(self)@.checked < usize::MAX,
        ensures
            (final(self)@, r@) == answered_json(old(self)@, json::parsed_json(body@)),
            registry::finite_releases(registry::Ecosystem::Python, body@),
            r is Rewrite ==> json::reads_as(
                r->body@,
                quarantined(old(self)@.cutoff, json::parsed_json(body@)->Some_0),
            ),
            r is Rewrite ==> passes_again(
                old(self)@.cutoff,
                json::parsed_json(r->body@)->Some_0,
            ),
    {
        let doc = match json::parse(body) {
            Ok(doc) => doc,
            Err(_) => {
                return ResponseAction::Block;
            },
        };
        let releases = match json::get(&doc, "releases") {
            Some(releases) => match read_releases(releases) {
                Some(releases) => releases,
                None => {
                    return ResponseAction::Block;
                },
            },
            None => {
                return ResponseAction::Passthrough;
            },
        };
        let uploaded = read_uploads(&releases);
        proof {
            let m = releases_of(json::member(json::json_of(doc), "releases"@)->Some_0)->Some_0;
            listing::lemma_listing(release_views(releases@), m);
            listing::lemma_listed_is_finite(release_views(releases@), m);
        }
        let ghost read = json::json_of(doc);
        proof {
            lemma_pruned_is_bounded(read, withheld(self@.cutoff, uploads_view(uploaded@)));
        }
        match self.review(doc, &uploaded) {
            Some(rest) => match json::render(&rest) {
                Ok(body) => {
                    proof {
                        let again = json::parsed_json(body@)->Some_0;
                        assert forall|later: registry::RegistryView|
                            later.cutoff == old(self)@.cutoff implies passed_again(
                            later,
                            again,
                        ) by {
                            lemma_second_pass(later, read, again);
                        }
                    }
                    ResponseAction::Rewrite { body }
                },
                Err(_) => ResponseAction::Block,
            },
            None => ResponseAction::Passthrough,
        }
    }

    /// Decides what becomes of an answer. Of metadata, only uncompressed JSON
    /// gets through, without what is too new; what is not metadata passes.
    pub fn handle_response(
        &mut self,
        url: &Url,
        _status: u16,
        response_headers: &http::HeaderMap<http::HeaderValue>,
        body: &[u8],
    ) -> (r: ResponseAction)
        requires
            reads_body(url@, headers::fields_of(*response_headers)) ==> old(self)@.checked
                < usize::MAX,
        ensures
            (final(self)@, r@) == answered(
                old(self)@,
                url@,
                headers::fields_of(*response_headers),
                json::parsed_json(body@),
            ),
            reads_body(url@, headers::fields_of(*response_headers)) ==> registry::finite_releases(
                registry::Ecosystem::Python,
                body@,
            ),
            r is Rewrite ==> json::reads_as(
                r->body@,
                quarantined(old(self)@.cutoff, json::parsed_json(body@)->Some_0),
            ),
            r is Rewrite ==> registry::passes_again(
                registry::Ecosystem::Python,
                old(self)@.cutoff,
                url@,
                headers::fields_of(*response_headers),
                r->body@,
            ),
    {
        if !PyPIRegistry::is_metadata_url(url) {
            return ResponseAction::Passthrough;
        }
        match reject_compressed(response_headers) {
            Some(action) => {
                return action;
            },
            None => {},
        }
        proof {
            reveal_strlit("content-type");
            reveal_strlit("");
            assert(""@ =~= seq![]);
        }
        let kind = match headers::field(response_headers, "content-type") {
            Some(s) => s,
            None => "",
        };
        if mentions(kind, "html") {
            return ResponseAction::Block;
        }
        if mentions(kind, "json") {
            let action = self.handle_json_response(body);
            proof {
                if action is Rewrite {
                    let again = json::parsed_json(action->body@)->Some_0;
                    assert forall|later: registry::RegistryView|
                        later.cutoff == old(self)@.cutoff implies registry::passed_again(
                        registry::Ecosystem::Python,
                        later,
                        url@,
                        headers::fields_of(*response_headers),
                        action->body@,
                    ) by {
                        assert(passed_again(later, again));
                    }
                }
            }
            return action;
        }
        ResponseAction::Block
    }

    /// What the registry has done so far.
    pub fn stats(&self) -> (r: RegistryStats)
        ensures
            r.connections_tunneled == 0,
            r.packages_checked == self@.checked,
            registry::quarantined_views(r.packages_quarantined@) == self@.quarantined,
            r.downloads_blocked@.len() == 0,
    {
        self.state.stats()
    }

    /// The variables that send the tools through the proxy and let them trust it.
    pub fn proxy_env_vars(&self, proxy_url: &str, ca_cert_path: &str) -> (r: Vec<(String, String)>)
        ensures
            text::pairs(r@) == proxy_variables(proxy_url@, ca_cert_path@),
    {
        let r = vec![
            ("HTTP_PROXY".to_string(), proxy_url.to_string()),
            ("HTTPS_PROXY".to_string(), proxy_url.to_string()),
            ("http_proxy".to_string(), proxy_url.to_string()),
            ("https_proxy".to_string(), proxy_url.to_string()),
            ("REQUESTS_CA_BUNDLE".to_string(), ca_cert_path.to_string()),
            ("SSL_CERT_FILE".to_string(), ca_cert_path.to_string()),
            ("PIP_CERT".to_string(), ca_cert_path.to_string()),
        ];
        assert(text::pairs(r@) =~= proxy_variables(proxy_url@, ca_cert_path@));
        r
    }
}

/// The releases that a document describes, if it describes any.
pub open spec fn document_releases(doc: json::Json) -> Option<Map<Seq<char>, Seq<FileView>>> {
    match json::member(doc, "releases"@) {
        Some(releases) => releases_of(releases),
        None => None,
    }
}

/// The document without what is too new.
pub open spec fn quarantined(cutoff: int, doc: json::Json) -> json::Json {
    pruned(doc, withheld(cutoff, uploads(document_releases(doc)->Some_0)))
}

/// Whether a document describes a finite number of releases, as all documents do
/// that are read.
pub open spec fn describes_releases(doc: json::Json) -> bool {
    document_releases(doc) is Some && document_releases(doc)->Some_0.dom().finite()
}

/// Exactly those versions with files are withheld whose youngest file is too
/// new, or none of whose files has a time that can be read; each is named once,
/// in ascending order.
pub proof fn lemma_withheld(cutoff: int, doc: json::Json)
    requires
        describes_releases(doc),
    ensures
        ({
            let releases = document_releases(doc)->Some_0;
            &&& forall|v: Seq<char>|
                withheld(cutoff, uploads(releases)).contains(v) <==> releases.dom().contains(v)
                    && held_back(cutoff, upload_instants(releases[v]))
            &&& order::ascending(withheld(cutoff, uploads(releases)))
        }),
{
    let m = document_releases(doc)->Some_0;
    let s = listing::listing(m);
    listing::lemma_finite_listing(m);
    listing::lemma_firsts(s);
    let all = uploads(m);
    let bad = |p: (Seq<char>, Seq<Option<int>>)| held_back(cutoff, p.1);
    let kept = all.filter(bad);
    listing::lemma_filter_has(all, bad);
    listing::lemma_firsts(kept);
    listing::lemma_firsts(all);
    assert(listing::firsts(all) =~= listing::firsts(s));
    listing::lemma_filter_ascending(all, bad);
    assert forall|v: Seq<char>|
        withheld(cutoff, all).contains(v) <==> m.dom().contains(v) && held_back(
            cutoff,
            upload_instants(m[v]),
        ) by {
        if withheld(cutoff, all).contains(v) {
            let i = choose|i: int|
                0 <= i < listing::firsts(kept).len() && listing::firsts(kept)[i] == v;
            assert(kept.contains(kept[i]));
            assert(all.contains(kept[i]) && bad(kept[i]));
            let j = choose|j: int| 0 <= j < all.len() && all[j] == kept[i];
            assert(all[j] == (s[j].0, upload_instants(s[j].1)));
            assert(m.dom().contains(s[j].0) && m[s[j].0] == s[j].1);
        }
        if m.dom().contains(v) && held_back(cutoff, upload_instants(m[v])) {
            let j = choose|j: int| 0 <= j < listing::firsts(s).len() && listing::firsts(s)[j] == v;
            assert(m[s[j].0] == s[j].1);
            assert(all[j] == (v, upload_instants(m[v])));
            assert(all.contains(all[j]) && bad(all[j]));
            assert(kept.contains(all[j]));
            let i = choose|i: int| 0 <= i < kept.len() && kept[i] == all[j];
            assert(listing::firsts(kept)[i] == v);
        }
    }
}

proof fn lemma_members_differ()
    ensures
        "releases"@ != "urls"@,
        "releases"@ != "info"@,
        "urls"@ != "info"@,
{
    reveal_strlit("releases");
    reveal_strlit("urls");
    reveal_strlit("info");
    assert("releases"@[0] == 'r');
    assert("urls"@[0] == 'u');
    assert("info"@[0] == 'i');
}

/// The releases of a document from which versions were taken are the others.
proof fn lemma_releases_left(doc: json::Json, removed: Seq<Seq<char>>)
    requires
        document_releases(doc) is Some,
    ensures
        document_releases(pruned(doc, removed)) == Some(
            listing::without(document_releases(doc)->Some_0, removed),
        ),
{
    lemma_members_differ();
    let old_object = json::member(doc, "releases"@)->Some_0->Object_0;
    let new_object = listing::without(old_object, removed);
    assert(json::member(pruned(doc, removed), "releases"@) == Some(json::Json::Object(new_object)));
    assert forall|k: Seq<char>| #[trigger] new_object.dom().contains(k) implies files_of(
        new_object[k],
    ) is Some by {
        assert(old_object.dom().contains(k));
    }
    assert(releases_of(json::Json::Object(new_object))->Some_0 =~= listing::without(
        document_releases(doc)->Some_0,
        removed,
    ));
}

/// Every release that is handed on has no files, or is old enough, and none of
/// its files that have a known time is younger than the cutoff.
pub proof fn lemma_only_old_stays(cutoff: int, doc: json::Json, v: Seq<char>)
    requires
        describes_releases(doc),
        document_releases(quarantined(cutoff, doc))->Some_0.dom().contains(v),
    ensures
        ({
            let files = document_releases(quarantined(cutoff, doc))->Some_0[v];
            &&& !held_back(cutoff, upload_instants(files))
            &&& forall|i: int|
                0 <= i < files.len() ==> match #[trigger] upload_instants(files)[i] {
                    Some(t) => t <= cutoff,
                    None => true,
                }
        }),
{
    let removed = withheld(cutoff, uploads(document_releases(doc)->Some_0));
    lemma_releases_left(doc, removed);
    lemma_withheld(cutoff, doc);
    lemma_latest(upload_instants(document_releases(doc)->Some_0[v]));
}

/// A release whose files are all old enough, or that has none, stays as it is.
pub proof fn lemma_old_stays(cutoff: int, doc: json::Json, v: Seq<char>)
    requires
        describes_releases(doc),
        document_releases(doc)->Some_0.dom().contains(v),
        !held_back(cutoff, upload_instants(document_releases(doc)->Some_0[v])),
    ensures
        document_releases(quarantined(cutoff, doc)) is Some,
        document_releases(quarantined(cutoff, doc))->Some_0.dom().contains(v),
        document_releases(quarantined(cutoff, doc))->Some_0[v] == document_releases(
            doc,
        )->Some_0[v],
{
    let removed = withheld(cutoff, uploads(document_releases(doc)->Some_0));
    lemma_releases_left(doc, removed);
    lemma_withheld(cutoff, doc);
}

/// A release that is too new, or of no known time, is not among the releases
/// that are handed on, nor is a file of it among the URLs.
pub proof fn lemma_new_goes(cutoff: int, doc: json::Json, v: Seq<char>)
    requires
        describes_releases(doc),
        document_releases(doc)->Some_0.dom().contains(v),
        held_back(cutoff, upload_instants(document_releases(doc)->Some_0[v])),
    ensures
        ({
            let rest = quarantined(cutoff, doc);
            &&& document_releases(rest) is Some
            &&& !document_releases(rest)->Some_0.dom().contains(v)
            &&& match json::member(rest, "urls"@) {
                Some(json::Json::Array(entries)) => forall|i: int|
                    0 <= i < entries.len() ==> entry_version(#[trigger] entries[i]) != Some(v),
                _ => true,
            }
        }),
{
    let removed = withheld(cutoff, uploads(document_releases(doc)->Some_0));
    lemma_members_differ();
    lemma_releases_left(doc, removed);
    lemma_withheld(cutoff, doc);
    match json::member(doc, "urls"@) {
        Some(json::Json::Array(entries)) => {
            let good = |entry: json::Json| entry_stays(entry, removed);
            let left = urls_left(entries, removed);
            listing::lemma_filter_has(entries, good);
            assert forall|i: int| 0 <= i < left.len() implies entry_version(#[trigger] left[i])
                != Some(v) by {
                assert(left.contains(left[i]));
                assert(entries.contains(left[i]) && good(left[i]));
            }
        },
        _ => {},
    }
}

/// An entry among the URLs that names no file of a withheld version stays.
pub proof fn lemma_other_urls_stay(cutoff: int, doc: json::Json, entry: json::Json)
    requires
        describes_releases(doc),
        json::member(doc, "urls"@) matches Some(json::Json::Array(entries)) && entries.contains(
            entry,
        ),
        match entry_version(entry) {
            Some(v) => document_releases(doc)->Some_0.dom().contains(v) ==> !held_back(
                cutoff,
                upload_instants(document_releases(doc)->Some_0[v]),
            ),
            None => true,
        },
    ensures
        json::member(quarantined(cutoff, doc), "urls"@) matches Some(json::Json::Array(left))
            && left.contains(entry),
{
    let removed = withheld(cutoff, uploads(document_releases(doc)->Some_0));
    lemma_members_differ();
    lemma_withheld(cutoff, doc);
    let entries = json::member(doc, "urls"@)->Some_0->Array_0;
    listing::lemma_filter_has(entries, |e: json::Json| entry_stays(e, removed));
}

/// Everything but the releases and the URLs stays as it is.
pub proof fn lemma_rest_unchanged(cutoff: int, doc: json::Json, name: Seq<char>)
    requires
        name != "releases"@,
        name != "urls"@,
    ensures
        json::member(quarantined(cutoff, doc), name) == json::member(doc, name),
{
}

/// Documents that are alike have the same texts, integers and flags.
proof fn lemma_alike_parts(a: json::Json, b: json::Json, depth: nat, name: Seq<char>)
    requires
        json::alike(a, b, depth),
    ensures
        json::as_text(json::member(a, name)) == json::as_text(json::member(b, name)),
        optional_text(a, name) == optional_text(b, name),
        optional_integer(a, name) == optional_integer(b, name),
        flag(a, name) == flag(b, name),
{
    json::lemma_alike_member(a, b, depth, name);
}

proof fn lemma_alike_digests(a: json::Json, b: json::Json, depth: nat, name: Seq<char>)
    requires
        json::alike(a, b, depth),
    ensures
        optional_digests(a, name) == optional_digests(b, name),
{
    json::lemma_alike_member(a, b, depth, name);
    match (json::member(a, name), json::member(b, name)) {
        (Some(x), Some(y)) => {
            let below = (depth - 1) as nat;
            lemma_alike_parts(x, y, below, "sha256"@);
            lemma_alike_parts(x, y, below, "md5"@);
            lemma_alike_parts(x, y, below, "blake2b_256"@);
        },
        _ => {},
    }
}

proof fn lemma_alike_file(a: json::Json, b: json::Json, depth: nat)
    requires
        json::alike(a, b, depth),
    ensures
        file_of(a) == file_of(b),
{
    lemma_alike_parts(a, b, depth, "filename"@);
    lemma_alike_parts(a, b, depth, "upload_time_iso_8601"@);
    lemma_alike_digests(a, b, depth, "digests"@);
    lemma_alike_parts(a, b, depth, "md5_digest"@);
    lemma_alike_parts(a, b, depth, "yanked"@);
    lemma_alike_parts(a, b, depth, "yanked_reason"@);
    lemma_alike_parts(a, b, depth, "packagetype"@);
    lemma_alike_parts(a, b, depth, "size"@);
    lemma_alike_parts(a, b, depth, "requires_python"@);
}

proof fn lemma_alike_files(a: json::Json, b: json::Json, depth: nat)
    requires
        json::alike(a, b, depth),
    ensures
        files_of(a) == files_of(b),
{
    match (a, b) {
        (json::Json::Array(x), json::Json::Array(y)) => {
            assert forall|i: int| 0 <= i < x.len() implies file_of(#[trigger] x[i]) == file_of(
                y[i],
            ) by {
                lemma_alike_file(x[i], y[i], (depth - 1) as nat);
            }
            assert forall|i: int| 0 <= i < x.len() implies file_of(x[i]) == file_of(
                #[trigger] y[i],
            ) by {
                assert(file_of(x[i]) == file_of(y[i]));
            }
            assert(x.map_values(|d: json::Json| file_of(d)->Some_0) =~= y.map_values(
                |d: json::Json| file_of(d)->Some_0,
            ));
        },
        _ => {},
    }
}

/// Documents that are alike describe the same releases.
proof fn lemma_alike_releases(a: json::Json, b: json::Json, depth: nat)
    requires
        json::alike(a, b, depth),
    ensures
        document_releases(a) == document_releases(b),
{
    json::lemma_alike_member(a, b, depth, "releases"@);
    match (json::member(a, "releases"@), json::member(b, "releases"@)) {
        (Some(json::Json::Object(m)), Some(json::Json::Object(n))) => {
            assert forall|k: Seq<char>| #[trigger] m.dom().contains(k) implies files_of(m[k])
                == files_of(n[k]) by {
                lemma_alike_files(m[k], n[k], (depth - 2) as nat);
            }
            if releases_of(json::Json::Object(m)) is Some {
                assert(releases_of(json::Json::Object(m))->Some_0 =~= releases_of(
                    json::Json::Object(n),
                )->Some_0);
            }
        },
        _ => {},
    }
}

/// A document that is alike one from which everything too new was taken is
/// counted and passes unchanged, and nothing is withheld of it.
pub proof fn lemma_second_pass(
    registry: registry::RegistryView,
    doc: json::Json,
    again: json::Json,
)
    requires
        describes_releases(doc),
        json::alike(again, quarantined(registry.cutoff, doc), 127),
    ensures
        passed_again(registry, again),
{
    let cutoff = registry.cutoff;
    let removed = withheld(cutoff, uploads(document_releases(doc)->Some_0));
    let m = document_releases(doc)->Some_0;
    let left = listing::without(m, removed);
    lemma_releases_left(doc, removed);
    lemma_withheld(cutoff, doc);
    lemma_alike_releases(again, quarantined(cutoff, doc), 127);
    assert(left.dom().subset_of(m.dom()));
    vstd::set_lib::lemma_len_subset(left.dom(), m.dom());
    assert(document_releases(again) == Some(left));
    assert(describes_releases(again));
    lemma_withheld(cutoff, again);
    let more = withheld(cutoff, uploads(left));
    if more.len() > 0 {
        let v = more[0];
        assert(more.contains(v));
        assert(left.dom().contains(v));
        assert(held_back(cutoff, upload_instants(left[v])));
        assert(!removed.contains(v));
    }
}

} // verus!
