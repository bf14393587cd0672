//! The records that the course service returns, as the library reads them.

use vstd::prelude::*;
use crate::time::{parse_modified, spec_parse_modified, Timestamp};

verus! {

/// A course.
#[derive(Debug)]
pub struct Course {
    pub id: i32,
    pub name: Option<String>,
    pub account_id: Option<i32>,
    pub default_view: Option<String>,
    pub course_code: Option<String>,
}

/// A folder of a course's files.
#[derive(Debug)]
pub struct Folder {
    pub id: i32,
    pub full_name: Option<String>,
}

/// A file of a course.
#[derive(Debug)]
pub struct File {
    pub id: i32,
    pub folder_id: i32,
    pub filename: Option<String>,
    pub url: Option<String>,
    pub modified_at: Option<String>,
    pub locked_for_user: bool,
    pub lock_explaination: Option<String>,
    pub display_name: Option<String>,
}

/// A wiki page of a course.
#[derive(Debug)]
pub struct Page {
    pub url: String,
    pub updated_at: Option<String>,
}

/// The contents of a wiki page.
#[derive(Debug)]
pub struct PageContent {
    pub body: Option<String>,
    pub locked_for_user: Option<bool>,
}

/// An announcement of a course.
#[derive(Debug)]
pub struct Announcement {
    pub id: String,
    pub title: String,
    pub created_at: Option<String>,
    pub message: String,
}

/// A module of a course.
#[derive(Debug)]
pub struct Module {
    pub id: i32,
    pub name: String,
    pub position: i32,
    pub unlock_at: Option<String>,
    pub require_sequential_progress: bool,
    pub publish_final_grade: bool,
    pub prerequisite_module_ids: Vec<i32>,
    pub state: Option<String>,
    pub completed_at: Option<String>,
    pub items_count: i32,
    pub items_url: String,
}

/// An item of a module.
#[derive(Debug)]
pub struct ModuleItem {
    pub id: i32,
    pub title: String,
    pub position: i32,
    pub indent: i32,
    pub item_type: String,
    pub module_id: i32,
    pub html_url: Option<String>,
    pub content_id: Option<i32>,
    pub url: Option<String>,
    pub external_url: Option<String>,
}

/// A user.
#[derive(Debug)]
pub struct User {
    pub id: i32,
    pub name: String,
}

/// The upload part of a submission.
#[derive(Debug)]
pub struct UploadData {
    pub attachments: Option<Vec<UploadAttachment>>,
}

/// A question of a quiz.
#[derive(Debug)]
pub struct QuizQuestion {
    pub id: i32,
    pub question_name: String,
    pub question_type: String,
    pub question_text: String,
}

/// Whether a quiz answer was correct: a flag, or a text.
#[derive(Debug)]
pub enum CorrectValue {
    Bool(bool),
    String(String),
}

/// A file attached to a submission.
#[derive(Debug)]
pub struct UploadAttachment {
    pub id: i32,
    pub display_name: String,
    pub filename: String,
    pub url: String,
    pub modified_at: Option<String>,
}

/// A response that holds one record or a list of them.
#[derive(Debug)]
pub enum DataWrapper<T> {
    Single(T),
    Multiple(Vec<T>),
}

impl<T> DataWrapper<T> {
    /// The records, as a list.
    pub open spec fn spec_get(self) -> Seq<T> {
        match self {
            DataWrapper::Multiple(v) => v@,
            DataWrapper::Single(x) => seq![x],
        }
    }

    /// The records, as a list (one record becomes a list of one).
    pub fn get(self) -> (r: Vec<T>)
        ensures
            r@ == self.spec_get(),
    {
        match self {
            DataWrapper::Multiple(mult) => mult,
            DataWrapper::Single(single) => {
                let mut v = Vec::new();
                v.push(single);
                v
            },
        }
    }
}

impl File {
    /// The file's modification time, where it has one that parses.
    pub fn parsed_modified_at(&self) -> (r: Option<Timestamp>)
        ensures
            r == spec_parse_modified(self.modified_at.deep_view()),
    {
        parse_modified(&self.modified_at)
    }
}

impl Page {
    /// The page's update time, where it has one that parses.
    pub fn parsed_modified_at(&self) -> (r: Option<Timestamp>)
        ensures
            r == spec_parse_modified(self.updated_at.deep_view()),
    {
        parse_modified(&self.updated_at)
    }
}

impl Announcement {
    /// The announcement's creation time, where it has one that parses.
    pub fn parsed_modified_at(&self) -> (r: Option<Timestamp>)
        ensures
            r == spec_parse_modified(self.created_at.deep_view()),
    {
        parse_modified(&self.created_at)
    }
}

impl UploadAttachment {
    /// The attachment's modification time, where it has one that parses.
    pub fn parsed_modified_at(&self) -> (r: Option<Timestamp>)
        ensures
            r == spec_parse_modified(self.modified_at.deep_view()),
    {
        parse_modified(&self.modified_at)
    }
}

} // verus!
