//! Decisions taken while mirroring a course's modules: what an item links to,
//! and where a linked file is found or stored.

use vstd::prelude::*;
use crate::files::file_key;
use crate::model::File;
use crate::naming::{is_ascii_word_char, sanitize_file_name, sanitize_folder_name, spec_sanitize_file_name, spec_sanitize_folder_name};
use crate::numbers::{parse_i32, spec_parse_i32};
use crate::registry::{lookup, PathRegistry};
use crate::text::{
    contains_seq, contains_str, extract_number_after, lemma_first_occurrence, push_str,
    spec_extract_after, to_owned_string,
};
use crate::time::Timestamp;

verus! {

/// The kind of content a module item's URL points at.
#[derive(Debug, Clone, Copy, PartialEq, Eq, Structural)]
pub enum ModuleLink {
    Assignment,
    Discussion,
    File,
    Quiz,
    Page,
    Unknown,
}

/// The kind of a module item's URL: the first of `/assignments/`,
/// `/discussion_topics/`, `/files/`, `/quizzes/`, `/pages/` that occurs in it.
pub open spec fn spec_module_link(url: Seq<char>) -> ModuleLink {
    if contains_seq(url, "/assignments/"@) {
        ModuleLink::Assignment
    } else if contains_seq(url, "/discussion_topics/"@) {
        ModuleLink::Discussion
    } else if contains_seq(url, "/files/"@) {
        ModuleLink::File
    } else if contains_seq(url, "/quizzes/"@) {
        ModuleLink::Quiz
    } else if contains_seq(url, "/pages/"@) {
        ModuleLink::Page
    } else {
        ModuleLink::Unknown
    }
}

/// What a module item's URL links to.
pub fn classify_module_url(url: &str) -> (r: ModuleLink)
    ensures
        r == spec_module_link(url@),
{
    if contains_str(url, "/assignments/") {
        ModuleLink::Assignment
    } else if contains_str(url, "/discussion_topics/") {
        ModuleLink::Discussion
    } else if contains_str(url, "/files/") {
        ModuleLink::File
    } else if contains_str(url, "/quizzes/") {
        ModuleLink::Quiz
    } else if contains_str(url, "/pages/") {
        ModuleLink::Page
    } else {
        ModuleLink::Unknown
    }
}

/// The directory of a module: `<course_dir>/modules/<safe module name>`.
pub open spec fn spec_module_directory(course_dir: Seq<char>, module_name: Seq<char>) -> Seq<char> {
    course_dir + "/modules/"@ + spec_sanitize_folder_name(module_name)
}

/// Where a module is mirrored.
pub fn module_directory(course_dir: &str, module_name: &str) -> (r: String)
    ensures
        r@ == spec_module_directory(course_dir@, module_name@),
        forall|i: int| course_dir@.len() + 9 <= i < r@.len() && (#[trigger] r@[i] as int) < 128 ==> is_ascii_word_char(
            r@[i],
        ) || r@[i] == '/',
{
    let n = sanitize_folder_name(module_name);
    let mut d = to_owned_string(course_dir);
    push_str(&mut d, "/modules/");
    push_str(&mut d, n.as_str());
    proof {
        reveal_strlit("/modules/");
    }
    assert forall|i: int| course_dir@.len() + 9 <= i < d@.len() && (#[trigger] d@[i] as int) < 128 implies is_ascii_word_char(
        d@[i],
    ) || d@[i] == '/' by {
        assert(d@[i] == n@[i - course_dir@.len() - 9]);
    }
    d
}

/// The path of a module item's entry: `<module_dir>/<safe item title>`.
pub fn module_item_path(module_dir: &str, title: &str) -> (r: String)
    ensures
        r@ == module_dir@ + "/"@ + spec_sanitize_file_name(title@),
{
    let name = sanitize_file_name(title);
    let mut r = to_owned_string(module_dir);
    push_str(&mut r, "/");
    push_str(&mut r, name.as_str());
    r
}

/// The identifier of the file a URL links to: the segment after `/files/`
/// read as an integer, or 0 where it does not read as one.
pub open spec fn spec_linked_file_id(url: Seq<char>) -> i32 {
    match spec_extract_after(url, "/files/"@) {
        Some(seg) => match spec_parse_i32(seg) {
            Some(n) => n,
            None => 0,
        },
        None => 0,
    }
}

/// The identifier of the file that a file link points at.
pub fn linked_file_id(url: &str) -> (r: i32)
    requires
        contains_seq(url@, "/files/"@),
    ensures
        r == spec_linked_file_id(url@),
        spec_extract_after(url@, "/files/"@) is Some,
{
    proof {
        lemma_first_occurrence(url@, "/files/"@);
    }
    match extract_number_after(url, "/files/") {
        Some(seg) => match parse_i32(seg) {
            Some(n) => n,
            None => 0,
        },
        None => 0,
    }
}

/// What is done for a module item that links a file.
#[derive(Debug)]
pub enum ModuleFileAction {
    /// The file is already mirrored at this path; the item links to it.
    LinkExisting { path: String },
    /// The file is fetched first; the item then links to the path registered
    /// for `file_identifier`.
    FetchThenLink { file_identifier: i32 },
}

/// A file link reuses the registered path of its file where the link names a
/// file (a non-zero identifier) that is registered; otherwise it is fetched.
pub fn module_file_action(registry: &PathRegistry, course_id: i32, url: &str) -> (r: ModuleFileAction)
    requires
        contains_seq(url@, "/files/"@),
    ensures
        ({
            let id = spec_linked_file_id(url@);
            match r {
                ModuleFileAction::LinkExisting { path } => id != 0 && lookup(registry@, course_id, id)
                    == Some(path@),
                ModuleFileAction::FetchThenLink { file_identifier } => file_identifier == id && (id == 0
                    || lookup(registry@, course_id, id) is None),
            }
        }),
{
    let id = linked_file_id(url);
    if id != 0 {
        match registry.get_file_path(course_id, id) {
            Some(p) => {
                return ModuleFileAction::LinkExisting { path: p };
            },
            None => {},
        }
    }
    ModuleFileAction::FetchThenLink { file_identifier: id }
}

/// What is done with the answer to a linked-file request.
#[derive(Debug)]
pub enum LinkedFilePlan {
    /// No file came back.
    NoneFound,
    /// More than one file came back.
    TooMany,
    /// The one file is fetched into `dest_path` and registered there.
    Fetch { file_id: i32, dest_path: String, url: String, modified: Option<Timestamp> },
}

/// The path of a linked file: in its folder's registered path where there is
/// one, else in the fallback directory, under its safe display name.
pub open spec fn spec_linked_file_destination(
    registry: Map<(i32, i32), Seq<char>>,
    course_id: i32,
    folder_id: i32,
    display_name: Seq<char>,
    fallback: Seq<char>,
) -> Seq<char> {
    let base = match lookup(registry, course_id, folder_id) {
        Some(p) => p,
        None => fallback,
    };
    base + "/"@ + spec_sanitize_file_name(display_name)
}

/// Decides what to do with the files a linked-file request returned: exactly
/// one is expected.
pub fn linked_file_plan(registry: &PathRegistry, course_id: i32, files: &Vec<File>, fallback_path: &str) -> (r: LinkedFilePlan)
    requires
        files@.len() == 1 ==> files@[0].display_name is Some && files@[0].url is Some,
    ensures
        match r {
            LinkedFilePlan::NoneFound => files@.len() == 0,
            LinkedFilePlan::TooMany => files@.len() > 1,
            LinkedFilePlan::Fetch { file_id, dest_path, url, modified } => {
                let f = files@[0];
                &&& files@.len() == 1
                &&& file_id == f.id
                &&& dest_path@ == spec_linked_file_destination(registry@, course_id, f.folder_id, f.display_name->0@, fallback_path@)
                &&& url@ == f.url->0@
                &&& modified == file_key(f)
            },
        },
{
    if files.len() > 1 {
        return LinkedFilePlan::TooMany;
    }
    if files.len() == 0 {
        return LinkedFilePlan::NoneFound;
    }
    let target = &files[0];
    let display = match &target.display_name {
        Some(d) => d,
        None => {
            return LinkedFilePlan::NoneFound;
        },
    };
    let url = match &target.url {
        Some(u) => to_owned_string(u.as_str()),
        None => {
            return LinkedFilePlan::NoneFound;
        },
    };
    let name = sanitize_file_name(display.as_str());
    let mut dest_path = match registry.get_folder_path(course_id, target.folder_id) {
        Some(p) => p,
        None => to_owned_string(fallback_path),
    };
    push_str(&mut dest_path, "/");
    push_str(&mut dest_path, name.as_str());
    let modified = target.parsed_modified_at();
    LinkedFilePlan::Fetch { file_id: target.id, dest_path, url, modified }
}

} // verus!
