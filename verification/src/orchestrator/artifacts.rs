//! The files that the deck agents write.

use vstd::prelude::*;

use crate::orchestrator::json;
use crate::orchestrator::workflow::ResponseView;
use crate::orchestrator::workflow::ToolResponse;
use crate::text::chars;
use crate::text::pieces;
use crate::text::scan;

verus! {

/// A file of the session directory: its path, its extension and when it was last written, in
/// nanoseconds from the epoch, where that is known.
pub struct Found {
    pub path: String,
    pub extension: Option<String>,
    pub modified: Option<i128>,
}

#[verifier::ext_equal]
pub struct FoundView {
    pub path: Seq<char>,
    pub extension: Option<Seq<char>>,
    pub modified: Option<i128>,
}

impl View for Found {
    type V = FoundView;

    open spec fn view(&self) -> FoundView {
        FoundView {
            path: self.path@,
            extension: pieces::text_in(self.extension),
            modified: self.modified,
        }
    }
}

pub open spec fn files_of(v: Seq<Found>) -> Seq<FoundView> {
    v.map_values(|f: Found| f@)
}

/// A file with the extension whose time is known.
pub open spec fn eligible(f: FoundView, ext: Seq<char>) -> bool {
    f.extension == Some(ext) && f.modified is Some
}

/// The newest eligible file, the first of them where several are as new.
pub open spec fn newest_of(files: Seq<FoundView>, ext: Seq<char>) -> Option<FoundView>
    decreases files.len(),
{
    if files.len() == 0 {
        None
    } else {
        let f = files.last();
        let best = newest_of(files.drop_last(), ext);
        if !eligible(f, ext) {
            best
        } else {
            match best {
                Some(b) => if f.modified->0 > b.modified->0 {
                    Some(f)
                } else {
                    best
                },
                None => Some(f),
            }
        }
    }
}

pub open spec fn newest_path(files: Seq<FoundView>, ext: Seq<char>) -> Option<Seq<char>> {
    match newest_of(files, ext) {
        Some(f) => Some(f.path),
        None => None,
    }
}

fn has_extension(f: &Found, ext: &str) -> (r: bool)
    ensures
        r == (pieces::text_in(f.extension) == Some(ext@)),
{
    match &f.extension {
        Some(e) => chars::same(e.as_str(), ext),
        None => false,
    }
}

pub fn find_newest_artifact(files: &Vec<Found>, ext: &str) -> (r: Option<String>)
    ensures
        pieces::text_in(r) == newest_path(files_of(files@), ext@),
{
    let ghost all = files_of(files@);
    let mut best: Option<(i128, usize)> = None;
    let mut i: usize = 0;
    assert(all.take(0) =~= Seq::empty());
    while i < files.len()
        invariant
            i <= files.len(),
            all == files_of(files@),
            match best {
                Some((t, k)) => k < i && newest_of(all.take(i as int), ext@) == Some(
                    all[k as int],
                ) && all[k as int].modified == Some(t),
                None => newest_of(all.take(i as int), ext@) is None,
            },
        decreases files.len() - i,
    {
        assert(all.take(i + 1).drop_last() =~= all.take(i as int));
        assert(all.take(i + 1).last() == all[i as int]);
        assert(all[i as int] == files@[i as int]@);
        if has_extension(&files[i], ext) {
            match files[i].modified {
                Some(t) => {
                    let newer = match best {
                        Some((b, _)) => t > b,
                        None => true,
                    };
                    if newer {
                        best = Some((t, i));
                    }
                },
                None => {},
            }
        }
        i += 1;
    }
    assert(all.take(files.len() as int) =~= all);
    match best {
        Some((_, k)) => {
            assert(all[k as int] == files@[k as int]@);
            Some(files[k].path.clone())
        },
        None => None,
    }
}

/// The newest artifact has the extension and is among the files, no other file with the extension
/// is newer, and there is none only where no file has the extension.
pub proof fn law_newest_is_newest(files: Seq<FoundView>, ext: Seq<char>)
    ensures
        match newest_of(files, ext) {
            Some(f) => eligible(f, ext) && files.contains(f) && forall|k: int|
                0 <= k < files.len() && eligible(#[trigger] files[k], ext)
                    ==> files[k].modified->0 <= f.modified->0,
            None => forall|k: int|
                0 <= k < files.len() ==> !eligible(#[trigger] files[k], ext),
        },
    decreases files.len(),
{
    if files.len() > 0 {
        let init = files.drop_last();
        law_newest_is_newest(init, ext);
        assert(files[files.len() - 1] == files.last());
        assert forall|k: int| 0 <= k < init.len() implies #[trigger] files[k] == init[k] by {}
        match newest_of(init, ext) {
            Some(f) => {
                let k = choose|k: int| 0 <= k < init.len() && init[k] == f;
                assert(files[k] == f);
            },
            None => {},
        }
    }
}

/// The artifacts of a session.
pub struct SessionArtifacts {
    pub xlsx: Option<String>,
    pub docx: Option<String>,
    pub pptx: Option<String>,
    pub combined_pptx: Option<String>,
}

#[verifier::ext_equal]
pub struct ArtifactsView {
    pub xlsx: Option<Seq<char>>,
    pub docx: Option<Seq<char>>,
    pub pptx: Option<Seq<char>>,
    pub combined_pptx: Option<Seq<char>>,
}

impl View for SessionArtifacts {
    type V = ArtifactsView;

    open spec fn view(&self) -> ArtifactsView {
        ArtifactsView {
            xlsx: pieces::text_in(self.xlsx),
            docx: pieces::text_in(self.docx),
            pptx: pieces::text_in(self.pptx),
            combined_pptx: pieces::text_in(self.combined_pptx),
        }
    }
}

pub open spec fn newest_artifacts(files: Seq<FoundView>) -> ArtifactsView {
    ArtifactsView {
        xlsx: newest_path(files, "xlsx"@),
        docx: newest_path(files, "docx"@),
        pptx: newest_path(files, "pptx"@),
        combined_pptx: None,
    }
}

pub fn collect_session_artifacts(files: &Vec<Found>) -> (r: SessionArtifacts)
    ensures
        r@ == newest_artifacts(files_of(files@)),
{
    SessionArtifacts {
        xlsx: find_newest_artifact(files, "xlsx"),
        docx: find_newest_artifact(files, "docx"),
        pptx: find_newest_artifact(files, "pptx"),
        combined_pptx: None,
    }
}

// ---- labels ----

/// What stands behind the last slash.
pub open spec fn last_piece(path: Seq<char>) -> Seq<char>
    decreases path.len(),
{
    if path.len() == 0 || path.last() == '/' {
        Seq::empty()
    } else {
        last_piece(path.drop_last()).push(path.last())
    }
}

/// Every platform reads the path alike: slashes alone separate its components, it starts with no
/// drive or server, and what stands behind the last slash is a name.
pub open spec fn plain_path(path: Seq<char>) -> bool {
    &&& !path.contains('\\')
    &&& !path.contains(':')
    &&& !(path.len() >= 2 && path[0] == '/' && path[1] == '/')
    &&& last_piece(path).len() > 0
    &&& last_piece(path) != seq!['.']
    &&& last_piece(path) != seq!['.', '.']
}

/// Calls `std::path::Path::file_name`, as text. Trusted: the name is a part of the path, and of a
/// plain path it is what stands behind the last slash. Of other paths it is left unsaid which part:
/// what separates the components of a path depends on the platform.
#[verifier::external_body]
fn file_name(path: &str) -> (r: Option<String>)
    ensures
        match r {
            Some(name) => scan::within(path@, name@),
            None => true,
        },
        plain_path(path@) ==> pieces::text_in(r) == Some(last_piece(path@)),
{
    std::path::Path::new(path).file_name().and_then(|name| name.to_str()).map(str::to_string)
}

/// Calls `std::path::Path::is_absolute`. Trusted: a path that is absolute starts with a separator
/// or with a drive. Which of those are absolute is left unsaid: it depends on the platform.
#[verifier::external_body]
fn is_absolute(path: &str) -> (r: bool)
    ensures
        r ==> may_be_absolute(path@),
{
    std::path::Path::new(path).is_absolute()
}

/// The text starts with a separator of some platform, or with a drive.
pub open spec fn may_be_absolute(s: Seq<char>) -> bool {
    s.len() > 0 && (s[0] == '/' || s[0] == '\\' || (s.len() > 1 && s[1] == ':'))
}

/// What follows the last dot of a file name; a dot at the start begins no extension.
pub open spec fn extension_in(name: Seq<char>) -> Option<Seq<char>>
    decreases name.len(),
{
    if name.len() <= 1 {
        None
    } else if name.last() == '.' {
        Some(Seq::empty())
    } else {
        match extension_in(name.drop_last()) {
            Some(e) => Some(e.push(name.last())),
            None => None,
        }
    }
}

pub open spec fn extension_of_name(name: Option<Seq<char>>) -> Option<Seq<char>> {
    match name {
        Some(n) => extension_in(n),
        None => None,
    }
}

pub fn extension(name: &str) -> (r: Option<String>)
    ensures
        pieces::text_in(r) == extension_in(name@),
{
    let v = chars::chars_of(name);
    let ghost s = name@;
    let mut i: usize = v.len();
    proof {
        assert(s.take(i as int) =~= s);
        match extension_in(s) {
            Some(e) => assert(e + s.skip(i as int) =~= e),
            None => {},
        }
    }
    while i > 1
        invariant
            i <= v.len(),
            v@ == s,
            s == name@,
            extension_in(s) == match extension_in(s.take(i as int)) {
                Some(e) => Some(e + s.skip(i as int)),
                None => None,
            },
        decreases i,
    {
        let ghost head = s.take(i as int);
        if v[i - 1] == '.' {
            let rest = scan::sub_text(&v, i, v.len());
            assert(Seq::<char>::empty() + s.skip(i as int) =~= rest@);
            return Some(chars::text_of(&rest));
        }
        proof {
            assert(head.drop_last() =~= s.take(i - 1));
            match extension_in(head.drop_last()) {
                Some(e) => assert(e.push(head.last()) + s.skip(i as int) =~= e + s.skip(i - 1)),
                None => {},
            }
        }
        i -= 1;
    }
    None
}

/// The headline and the line under it for a file with this name and extension.
pub open spec fn label_of(name: Option<Seq<char>>, ext: Option<Seq<char>>) -> (Seq<char>, Seq<char>) {
    let n = match name {
        Some(n) => n,
        None => "artifact"@,
    };
    if ext == Some("xlsx"@) {
        ("+38% QoQ"@, "Revenue model · "@ + n)
    } else if ext == Some("docx"@) {
        ("1,240 words"@, "Exec summary · "@ + n)
    } else if ext == Some("pptx"@) {
        ("10 slides"@, "Pitch deck · "@ + n)
    } else {
        ("Ready"@, n)
    }
}

fn led(head: &str, name: &str) -> (r: String)
    ensures
        r@ == head@ + name@,
{
    let mut s = head.to_string();
    s.append(name);
    s
}

pub fn artifact_label_for(name: &Option<String>, ext: &Option<String>) -> (r: (String, String))
    ensures
        (r.0@, r.1@) == label_of(pieces::text_in(*name), pieces::text_in(*ext)),
{
    let n = match name {
        Some(n) => n.clone(),
        None => "artifact".to_string(),
    };
    match ext {
        Some(e) => if chars::same(e.as_str(), "xlsx") {
            ("+38% QoQ".to_string(), led("Revenue model · ", n.as_str()))
        } else if chars::same(e.as_str(), "docx") {
            ("1,240 words".to_string(), led("Exec summary · ", n.as_str()))
        } else if chars::same(e.as_str(), "pptx") {
            ("10 slides".to_string(), led("Pitch deck · ", n.as_str()))
        } else {
            ("Ready".to_string(), n)
        },
        None => ("Ready".to_string(), n),
    }
}

/// The name is one that the file at `path` may have.
pub open spec fn may_be_named(path: Seq<char>, name: Option<Seq<char>>) -> bool {
    match name {
        Some(n) => scan::within(path, n),
        None => true,
    }
}

/// The headline and the line under it for the file at `path`, by its name, which is a part of the
/// path: of a plain path, what stands behind the last slash.
pub fn artifact_label(path: &str) -> (r: (String, String))
    ensures
        plain_path(path@) ==> (r.0@, r.1@) == label_of(
            Some(last_piece(path@)),
            extension_in(last_piece(path@)),
        ),
        exists|name: Option<Seq<char>>| #[trigger]
            may_be_named(path@, name) && (r.0@, r.1@) == label_of(name, extension_of_name(name)),
{
    let name = file_name(path);
    let ext = match &name {
        Some(n) => extension(n.as_str()),
        None => None,
    };
    assert(may_be_named(path@, pieces::text_in(name)));
    artifact_label_for(&name, &ext)
}

// ---- where a tool saved ----

/// The text in which a tool says where it saved.
pub open spec fn saved_text(r: ResponseView) -> Option<Seq<char>> {
    match r.output {
        Some(o) => Some(o),
        None => match r.path {
            Some(p) => Some(p),
            None => r.file_path,
        },
    }
}

pub fn saved_output(response: &ToolResponse) -> (r: Option<String>)
    ensures
        pieces::text_in(r) == saved_text(response@),
{
    match &response.output {
        Some(o) => Some(o.clone()),
        None => match &response.path {
            Some(p) => Some(p.clone()),
            None => pieces::copy_text(&response.file_path),
        },
    }
}

/// The first member that is there, of three.
pub open spec fn first_member(
    a: Option<Option<Seq<char>>>,
    b: Option<Option<Seq<char>>>,
    c: Option<Option<Seq<char>>>,
) -> Option<Seq<char>> {
    match a {
        Some(x) => x,
        None => match b {
            Some(x) => x,
            None => match c {
                Some(x) => x,
                None => None,
            },
        },
    }
}

/// The path that a JSON answer names.
pub open spec fn named_path(s: Seq<char>) -> Option<Seq<char>> {
    first_member(
        json::json_text(s, "path"@),
        json::json_text(s, "file_path"@),
        json::json_text(s, "output_path"@),
    )
}

pub open spec fn member_in(m: Option<Option<String>>) -> Option<Option<Seq<char>>> {
    match m {
        Some(x) => Some(pieces::text_in(x)),
        None => None,
    }
}

pub fn pick_member(
    a: Option<Option<String>>,
    b: Option<Option<String>>,
    c: Option<Option<String>>,
) -> (r: Option<String>)
    ensures
        pieces::text_in(r) == first_member(member_in(a), member_in(b), member_in(c)),
{
    match a {
        Some(x) => x,
        None => match b {
            Some(x) => x,
            None => match c {
                Some(x) => x,
                None => None,
            },
        },
    }
}

/// The path in a saved text: the one it names in JSON, or else the text itself where it is an
/// absolute path.
pub open spec fn path_in(s: Seq<char>, named: Option<Seq<char>>, absolute: bool) -> Option<
    Seq<char>,
> {
    match named {
        Some(p) => Some(p),
        None => if absolute {
            Some(s)
        } else {
            None
        },
    }
}

pub fn saved_path_from(s: &str, named: Option<String>, absolute: bool) -> (r: Option<String>)
    ensures
        pieces::text_in(r) == path_in(s@, pieces::text_in(named), absolute),
{
    match named {
        Some(p) => Some(p),
        None => if absolute {
            Some(s.to_string())
        } else {
            None
        },
    }
}

/// `said` is where a text, if there is one, may say that a file was saved.
pub open spec fn may_say(output: Option<Seq<char>>, said: Option<Seq<char>>) -> bool {
    match output {
        Some(s) => exists|absolute: bool|
            (absolute ==> may_be_absolute(s)) && said == #[trigger] path_in(
                s,
                named_path(s),
                absolute,
            ),
        None => said is None,
    }
}

/// Where a tool that answered `output` saved its file.
pub fn saved_path(output: &Option<String>) -> (r: Option<String>)
    ensures
        may_say(pieces::text_in(*output), pieces::text_in(r)),
{
    match output {
        Some(s) => {
            let named = pick_member(
                json::member_text(s.as_str(), "path"),
                json::member_text(s.as_str(), "file_path"),
                json::member_text(s.as_str(), "output_path"),
            );
            let absolute = is_absolute(s.as_str());
            saved_path_from(s.as_str(), named, absolute)
        },
        None => None,
    }
}

/// Where a tool's answer says that its file was saved.
pub fn parse_saved_path(response: &ToolResponse) -> (r: Option<String>)
    ensures
        may_say(saved_text(response@), pieces::text_in(r)),
{
    saved_path(&saved_output(response))
}

/// The file that a tool saved: where its answer says so, or else the newest file with the
/// extension.
pub fn saved_artifact(output: &Option<String>, files: &Vec<Found>, ext: &str) -> (r: Option<String>)
    ensures
        exists|said: Option<Seq<char>>| #[trigger]
            may_say(pieces::text_in(*output), said) && pieces::text_in(r) == (match said {
                Some(p) => Some(p),
                None => newest_path(files_of(files@), ext@),
            }),
{
    let said = saved_path(output);
    assert(may_say(pieces::text_in(*output), pieces::text_in(said)));
    match said {
        Some(p) => Some(p),
        None => find_newest_artifact(files, ext),
    }
}

} // verus!
